use h7cad::tiles::active_after_close;

#[test]
fn closing_the_active_tile_activates_its_absorber() {
    // Three tiles, the active middle one absorbed by the last.
    assert_eq!(active_after_close(1, 1, Some(2), 2), 1);
    // Absorbed by the first.
    assert_eq!(active_after_close(1, 1, Some(0), 2), 0);
}

#[test]
fn closing_another_tile_keeps_the_active_one() {
    // The active tile sits behind the closed one and moves up.
    assert_eq!(active_after_close(2, 0, Some(1), 2), 1);
    // The active tile sits before the closed one and stays.
    assert_eq!(active_after_close(0, 2, Some(1), 2), 0);
    // An isolated tile closed.
    assert_eq!(active_after_close(3, 1, None, 3), 2);
    assert_eq!(active_after_close(0, 1, None, 1), 0);
}

#[test]
fn active_tile_is_clamped_to_the_remaining_ones() {
    assert_eq!(active_after_close(7, 1, None, 2), 1);
    assert_eq!(active_after_close(1, 1, None, 1), 0);
    assert_eq!(active_after_close(5, 9, Some(3), 0), 0);
}
