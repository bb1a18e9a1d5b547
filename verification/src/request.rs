//! Request validation.
//!
//! Only two failures ever reach the request boundary: a malformed bounding
//! box, reported to the caller at once, and a deployment without tile access,
//! reported as a distinct "not available" condition. Everything further down
//! the pipeline — a missing tile, an edge without a usable speed — is
//! silently skipped, never an error.

use crate::geo::{bbox_of_text, parse_bbox, GeoPoint};
use vstd::prelude::*;

verus! {

#[derive(PartialEq, Eq, Structural, Debug, Clone, Copy)]
pub enum TrafficError {
    /// The bounding-box text does not parse.
    MalformedBoundingBox,
    /// This deployment has no access to graph tiles.
    TrafficUnavailable,
}

/// Checks a traffic request before any tile work: the bounding box must
/// parse, and the box is rejected before availability is looked at; with a
/// well-formed box the tile capability must be configured.
pub fn validate_traffic_request(bbox: &str, tiles_available: bool) -> (r: Result<
    (GeoPoint, GeoPoint),
    TrafficError,
>)
    ensures
        match r {
            Ok(b) => tiles_available && bbox_of_text(bbox@) == Some(
                ((b.0.lat@, b.0.lon@), (b.1.lat@, b.1.lon@)),
            ) && b.0.wf() && b.1.wf(),
            Err(e) => match e {
                TrafficError::MalformedBoundingBox => bbox_of_text(bbox@) is None,
                TrafficError::TrafficUnavailable => bbox_of_text(bbox@) is Some
                    && !tiles_available,
            },
        },
{
    match parse_bbox(bbox) {
        None => Err(TrafficError::MalformedBoundingBox),
        Some(parsed) => {
            if !tiles_available {
                Err(TrafficError::TrafficUnavailable)
            } else {
                Ok(parsed)
            }
        },
    }
}

} // verus!
