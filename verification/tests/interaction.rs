use std::sync::Arc;

use h7cad::grid::merge_unique;
use h7cad::interaction::{segment_refs, unbounded_wires, InteractionCandidates, SegmentRef};

#[test]
fn segments_join_consecutive_finite_points() {
    let flags = vec![vec![true, true, true], vec![true], vec![true, false, true, true], vec![]];
    let segs = segment_refs(&flags);
    assert_eq!(
        segs,
        vec![
            SegmentRef { wire: 0, start: 0 },
            SegmentRef { wire: 0, start: 1 },
            SegmentRef { wire: 2, start: 2 },
        ]
    );
}

#[test]
fn unbounded_wires_are_listed_in_order() {
    assert_eq!(unbounded_wires(&[true, false, true, false, false]), vec![1, 3, 4]);
    assert!(unbounded_wires(&[]).is_empty());
}

#[test]
fn unfiltered_candidates_are_every_wire() {
    let wires = Arc::new(vec!["a", "b", "c"]);
    let c = InteractionCandidates::all(wires);
    assert_eq!(c.len(), 3);
    assert_eq!(c.get(1), Some(&"b"));
    assert_eq!(c.get(3), None);
    assert!(c.segments().is_none());
    assert!(c.query_aabb().is_none());
    assert_eq!(c.in_order(), vec![&"a", &"b", &"c"]);
}

#[test]
fn queried_candidates_are_the_let_through_wires() {
    let wires = Arc::new(vec!["a", "b", "c", "d"]);
    // Grid hits plus the always-returned unbounded wires, each once.
    let indices = merge_unique(&[0, 2], &unbounded_wires(&[true, true, false, true]));
    assert_eq!(indices, vec![0, 2]);
    let indices = merge_unique(&indices, &[3, 9]);
    let segs = vec![SegmentRef { wire: 2, start: 0 }];
    let c = InteractionCandidates::from_query(wires, indices, segs.clone(), [1, 2, 3, 4]);
    assert_eq!(c.len(), 4);
    assert_eq!(c.get(0), Some(&"a"));
    assert_eq!(c.get(2), Some(&"d"));
    assert_eq!(c.get(3), None, "index 9 is beyond the wire set");
    assert_eq!(c.source_wire(1), Some(&"b"));
    assert_eq!(c.source_wire(4), None);
    assert_eq!(c.segments(), Some(segs.as_slice()));
    assert_eq!(c.query_aabb(), Some([1, 2, 3, 4]));
    assert_eq!(c.in_order(), vec![&"a", &"c", &"d"]);
}
