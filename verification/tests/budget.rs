use traffic_tiles::budget::{budget_tiles, level_scan_order, RoadClassLevel, TileId};

fn ids(start: u64, n: u64) -> Vec<TileId> {
    (start..start + n).map(|value| TileId { value }).collect()
}

#[test]
fn budget_truncates_at_first_overflowing_level() {
    // counts [12, 15, 3] against the ceiling of 20: level one fits (12),
    // level two would reach 27, so it is dropped — and so is level three,
    // even though 12 + 3 would have fit: truncation does not resume.
    let levels = vec![ids(0, 12), ids(100, 15), ids(200, 3)];
    let out = budget_tiles(&levels);
    assert_eq!(out, ids(0, 12));
}

#[test]
fn budget_rejects_oversized_first_level() {
    // the very first level alone reaches the ceiling: nothing is fetched
    let levels = vec![ids(0, 25), ids(100, 1)];
    let out = budget_tiles(&levels);
    assert!(out.is_empty());
}

#[test]
fn budget_counts_levels_cumulatively() {
    let under = vec![ids(0, 10), ids(100, 9)];
    assert_eq!(budget_tiles(&under).len(), 19);

    // 10 + 9 = 19 stays under the ceiling, 19 + 1 = 20 reaches it
    let at_limit = vec![ids(0, 10), ids(100, 9), ids(200, 1)];
    assert_eq!(budget_tiles(&at_limit).len(), 19);
}

#[test]
fn budget_boundary_single_level() {
    assert_eq!(budget_tiles(&vec![ids(0, 19)]).len(), 19);
    assert_eq!(budget_tiles(&vec![ids(0, 20)]).len(), 0);
    assert_eq!(budget_tiles(&Vec::new()).len(), 0);
}

#[test]
fn budget_keeps_level_order() {
    let levels = vec![ids(5, 2), ids(50, 3)];
    let out = budget_tiles(&levels);
    let expected: Vec<TileId> = ids(5, 2).into_iter().chain(ids(50, 3)).collect();
    assert_eq!(out, expected);
}

#[test]
fn scan_order_is_highway_first() {
    assert_eq!(
        level_scan_order(),
        vec![
            RoadClassLevel::Highway,
            RoadClassLevel::Arterial,
            RoadClassLevel::Local
        ]
    );
}
