//! Traffic-tile query and jam-factor aggregation.
//!
//! Given a geographic bounding box and a speed-source selection, this library
//! parses the box, caps how many graph tiles a request may scan, extracts a
//! representative speed per road edge under the chosen policy, normalizes it
//! into a congestion score, and aggregates the scores into a mapping keyed by
//! road geometry. Reading tiles from disk and serving HTTP stay outside; the
//! library works on plain values handed in from that edge.

pub mod budget;
pub mod geo;
pub mod jam;
pub mod request;
pub mod speed;
pub mod traffic;
