use h7cad::grid::{merge_all, merge_unique, CellGrid, CellRange};

fn cell(c: u32, r: u32) -> Option<CellRange> {
    Some(CellRange { c0: c, c1: c, r0: r, r1: r })
}

#[test]
fn cell_query_is_local_and_hits_the_point() {
    // A 50 x 50 lattice of point entries, one per cell of a 50 x 50 grid.
    let mut placements = Vec::new();
    for r in 0..50u32 {
        for c in 0..50u32 {
            placements.push(cell(c, r));
        }
    }
    let n = placements.len();
    let g = CellGrid::build(50, 50, &placements);
    let near = g.query(Some(CellRange { c0: 9, c1: 11, r0: 24, r1: 26 }));
    assert!(near.len() < n / 10, "query too broad: {} of {n}", near.len());
    assert!(near.contains(&(25 * 50 + 10)), "the on-point entry must be a candidate");
    assert_eq!(near.len(), 9);
    let far = g.query(None);
    assert!(far.is_empty(), "far query too broad: {}", far.len());
}

#[test]
fn uncelled_entry_is_always_a_candidate() {
    let placements = vec![cell(0, 0), None, cell(3, 3)];
    let g = CellGrid::build(4, 4, &placements);
    assert_eq!(g.query(None), vec![1]);
    assert_eq!(g.query(Some(CellRange { c0: 3, c1: 3, r0: 3, r1: 3 })), vec![1, 2]);
}

#[test]
fn oversized_entries_are_not_smeared() {
    // Spans 9 x 9 = 81 cells, more than the per-entry cap.
    let big = Some(CellRange { c0: 0, c1: 8, r0: 0, r1: 8 });
    let small = Some(CellRange { c0: 0, c1: 7, r0: 0, r1: 7 });
    let g = CellGrid::build(10, 10, &[big, small]);
    assert_eq!(g.query(None), vec![0]);
    assert_eq!(g.query(Some(CellRange { c0: 9, c1: 9, r0: 9, r1: 9 })), vec![0]);
    assert_eq!(g.query(Some(CellRange { c0: 7, c1: 9, r0: 7, r1: 9 })), vec![0, 1]);
}

#[test]
fn query_results_are_sorted_and_unique() {
    let wide = Some(CellRange { c0: 0, c1: 3, r0: 0, r1: 0 });
    let g = CellGrid::build(4, 1, &[wide, cell(2, 0), cell(0, 0)]);
    assert_eq!(g.query(Some(CellRange { c0: 0, c1: 3, r0: 0, r1: 0 })), vec![0, 1, 2]);
}

#[test]
fn merging_sorted_lists() {
    assert_eq!(merge_unique(&[1, 4, 9], &[2, 4, 10]), vec![1, 2, 4, 9, 10]);
    assert_eq!(merge_unique(&[], &[3]), vec![3]);
    assert_eq!(merge_all(vec![vec![5, 7], vec![1, 7], vec![], vec![2]]), vec![1, 2, 5, 7]);
    assert!(merge_all(vec![]).is_empty());
}
