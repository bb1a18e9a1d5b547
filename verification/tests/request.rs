use traffic_tiles::request::{validate_traffic_request, TrafficError};
use traffic_tiles::speed::{parse_speed_source, SpeedSource};

#[test]
fn malformed_bbox_is_a_client_error() {
    assert_eq!(
        validate_traffic_request("not a bbox", true).unwrap_err(),
        TrafficError::MalformedBoundingBox
    );
    // the box is checked before availability
    assert_eq!(
        validate_traffic_request("no;comma", false).unwrap_err(),
        TrafficError::MalformedBoundingBox
    );
}

#[test]
fn missing_tile_capability_is_distinct() {
    assert_eq!(
        validate_traffic_request("55.0,13.0;56.0,14.0", false).unwrap_err(),
        TrafficError::TrafficUnavailable
    );
}

#[test]
fn valid_request_passes_the_box_through() {
    let (min, max) = validate_traffic_request("55.0,13.0;56.0,14.0", true).unwrap();
    assert_eq!(min.lat, "55.0");
    assert_eq!(min.lon, "13.0");
    assert_eq!(max.lat, "56.0");
    assert_eq!(max.lon, "14.0");
}

#[test]
fn speed_source_selector_parses_exactly() {
    assert_eq!(parse_speed_source("live"), Some(SpeedSource::Live));
    assert_eq!(parse_speed_source("day"), Some(SpeedSource::Day));
    assert_eq!(parse_speed_source("night"), Some(SpeedSource::Night));
    // unrecognized selectors fail validation instead of silently defaulting
    assert_eq!(parse_speed_source("Live"), None);
    assert_eq!(parse_speed_source(""), None);
    assert_eq!(parse_speed_source("rush_hour"), None);
}

#[test]
fn default_source_is_live() {
    assert_eq!(SpeedSource::default(), SpeedSource::Live);
}
