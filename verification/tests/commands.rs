use h7cad::ordinate_dim::{
    ordinate_on_enter, ordinate_on_point, ordinate_preview_from, ordinate_prompt, ordinate_start,
    OrdinateOutcome, OrdinateStep,
};
use h7cad::rotate::{
    rotate_on_enter, rotate_on_escape, rotate_on_point, rotate_preview, rotate_prompt, rotate_start,
    rotate_text_center, rotate_wants_angle, RotateOutcome, RotatePreview, RotateStep,
};

#[test]
fn rotate_walks_centre_reference_destination() {
    let s: RotateStep<(i32, i32), f64> = rotate_start();
    assert!(matches!(s, RotateStep::Center));
    assert_eq!(rotate_prompt(&s, 3).unwrap(), "ROTATE  Specify rotation center  [3 objects]:");
    assert!(rotate_text_center(&s).is_none());
    assert!(matches!(rotate_on_enter(&s), RotateOutcome::Cancel));
    let (s, o) = rotate_on_point(s, (1, 2), 99.0);
    assert!(matches!(o, RotateOutcome::NeedPoint));
    assert!(matches!(s, RotateStep::RefPoint { center: (1, 2) }));
    assert_eq!(
        rotate_prompt(&s, 3).unwrap(),
        "ROTATE  Specify reference point  (or skip: type angle directly):"
    );
    assert_eq!(rotate_text_center(&s), Some((1, 2)));
    assert!(matches!(rotate_preview(&s), RotatePreview::RubberBand { center: (1, 2) }));
    let (s, o) = rotate_on_point(s, (5, 2), 0.5);
    assert!(matches!(o, RotateOutcome::NeedPoint));
    assert!(matches!(s, RotateStep::Angle { center: (1, 2), ref_angle } if ref_angle == 0.5));
    assert!(rotate_prompt(&s, 3).is_none());
    assert!(rotate_wants_angle(&s));
    assert!(matches!(rotate_on_enter(&s), RotateOutcome::ByDefault { center: (1, 2) }));
    let (_, o) = rotate_on_point(s, (1, 9), 1.5);
    assert!(matches!(o, RotateOutcome::Sweep { center: (1, 2), from, to } if from == 0.5 && to == 1.5));
    assert!(matches!(rotate_on_escape(&s), RotateOutcome::Cancel));
}

#[test]
fn ordinate_picks_feature_then_leader() {
    let s: OrdinateStep<(i32, i32)> = ordinate_start();
    assert_eq!(ordinate_prompt(&s), "DIMORDINATE  Specify feature location:");
    assert!(ordinate_preview_from(&s).is_none());
    let (s, o) = ordinate_on_point(s, (3, 4));
    assert!(matches!(o, OrdinateOutcome::NeedPoint));
    assert_eq!(ordinate_prompt(&s), "DIMORDINATE  Specify leader endpoint:");
    assert_eq!(ordinate_preview_from(&s), Some((3, 4)));
    let (_, o) = ordinate_on_point(s, (3, 10));
    assert!(matches!(o, OrdinateOutcome::Commit { feature: (3, 4), leader: (3, 10) }));
    assert!(matches!(ordinate_on_enter(&s), OrdinateOutcome::Cancel));
}
