use traffic_tiles::speed::SpeedSource;
use traffic_tiles::traffic::{traffic_from_tiles, DirectedEdge, TileData};

/// A distinct encoded road geometry, opaque to the pipeline.
fn shape(seed: u8) -> Vec<u8> {
    vec![b'p', b'l', seed, seed.wrapping_add(1)]
}

fn edge(
    shape: Vec<u8>,
    nominal: u32,
    day: u32,
    night: u32,
    live: Option<u32>,
) -> DirectedEdge {
    DirectedEdge {
        shape,
        nominal_speed: nominal,
        constrained_flow_speed: day,
        free_flow_speed: night,
        live_speed: live,
    }
}

/// Two tiles holding three edges in all; the second edge has no live reading.
fn three_edge_tiles() -> Vec<TileData> {
    vec![
        TileData {
            edges: vec![
                edge(shape(1), 100, 50, 80, Some(25)),
                edge(shape(2), 100, 100, 90, None),
            ],
        },
        TileData {
            edges: vec![edge(shape(3), 60, 30, 60, Some(0))],
        },
    ]
}

#[test]
fn day_source_skips_zero_constrained_speed() {
    // a stored day speed of 0 means "no data": the edge is dropped,
    // not scored as fully jammed
    let tiles = vec![TileData {
        edges: vec![edge(shape(1), 60, 0, 50, Some(10))],
    }];
    let r = traffic_from_tiles(SpeedSource::Day, &tiles);
    assert_eq!(r.len(), 0);
    assert_eq!(r.get(&shape(1)), None);
}

#[test]
fn night_source_skips_zero_free_flow_speed() {
    let tiles = vec![TileData {
        edges: vec![edge(shape(1), 60, 50, 0, Some(10))],
    }];
    let r = traffic_from_tiles(SpeedSource::Night, &tiles);
    assert_eq!(r.len(), 0);
}

#[test]
fn live_source_skips_edges_without_reading() {
    let r = traffic_from_tiles(SpeedSource::Live, &three_edge_tiles());
    assert_eq!(r.len(), 2);
    // 25 of 100: 2.5 tenths round to 3, score 7
    assert_eq!(r.get(&shape(1)), Some(7));
    assert_eq!(r.get(&shape(2)), None);
    // a live reading of 0 is a closed road: score 10
    assert_eq!(r.get(&shape(3)), Some(10));
}

#[test]
fn day_source_scores_all_edges_with_data() {
    let r = traffic_from_tiles(SpeedSource::Day, &three_edge_tiles());
    assert_eq!(r.len(), 3);
    assert_eq!(r.get(&shape(1)), Some(5));
    assert_eq!(r.get(&shape(2)), Some(0));
    assert_eq!(r.get(&shape(3)), Some(5));
}

#[test]
fn zero_nominal_speed_is_skipped() {
    // never divided into, and not defaulted either
    let tiles = vec![TileData {
        edges: vec![edge(shape(1), 0, 50, 50, Some(50))],
    }];
    for source in [SpeedSource::Live, SpeedSource::Day, SpeedSource::Night] {
        let r = traffic_from_tiles(source, &tiles);
        assert_eq!(r.len(), 0);
    }
}

#[test]
fn duplicate_geometry_keeps_later_observation() {
    let tiles = vec![TileData {
        edges: vec![
            edge(shape(1), 100, 20, 0, None),
            edge(shape(1), 100, 80, 0, None),
        ],
    }];
    let r = traffic_from_tiles(SpeedSource::Day, &tiles);
    assert_eq!(r.len(), 1);
    // 80 of 100 overwrites 20 of 100: score 2, not 8
    assert_eq!(r.get(&shape(1)), Some(2));
}

#[test]
fn identical_requests_agree() {
    // unchanged tile data, same source: byte-identical mapping
    let first = traffic_from_tiles(SpeedSource::Live, &three_edge_tiles());
    let second = traffic_from_tiles(SpeedSource::Live, &three_edge_tiles());
    assert_eq!(first.entries, second.entries);
    let day_first = traffic_from_tiles(SpeedSource::Day, &three_edge_tiles());
    let day_second = traffic_from_tiles(SpeedSource::Day, &three_edge_tiles());
    assert_eq!(day_first.entries, day_second.entries);
}

#[test]
fn empty_tiles_give_empty_result() {
    let r = traffic_from_tiles(SpeedSource::Live, &Vec::new());
    assert_eq!(r.len(), 0);
    let r2 = traffic_from_tiles(SpeedSource::Live, &vec![TileData { edges: Vec::new() }]);
    assert_eq!(r2.len(), 0);
}
