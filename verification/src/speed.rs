//! Speed-source selection.
//!
//! A request picks one of three stored speed measurements per road edge:
//! the live reading, the constrained-flow (day) speed, or the free-flow
//! (night) speed. The default is the live reading; an unrecognized selector
//! fails request validation rather than silently defaulting.

use vstd::prelude::*;

verus! {

#[derive(PartialEq, Eq, Structural, Debug, Clone, Copy)]
pub enum SpeedSource {
    Live,
    Day,
    Night,
}

impl Default for SpeedSource {
    fn default() -> (r: Self)
        ensures
            r == SpeedSource::Live,
    {
        SpeedSource::Live
    }
}

/// Which source a textual selector names: exactly `"live"`, `"day"` or
/// `"night"`, anything else being rejected.
pub open spec fn speed_source_of_text(s: Seq<char>) -> Option<SpeedSource> {
    if s == "live"@ {
        Some(SpeedSource::Live)
    } else if s == "day"@ {
        Some(SpeedSource::Day)
    } else if s == "night"@ {
        Some(SpeedSource::Night)
    } else {
        None
    }
}

fn str_eq(a: &str, b: &str) -> (r: bool)
    ensures
        r == (a@ == b@),
{
    let owned_a: String = a.to_owned();
    let owned_b: String = b.to_owned();
    owned_a == owned_b
}

/// Parses the request's source selector.
pub fn parse_speed_source(s: &str) -> (r: Option<SpeedSource>)
    ensures
        r == speed_source_of_text(s@),
{
    if str_eq(s, "live") {
        Some(SpeedSource::Live)
    } else if str_eq(s, "day") {
        Some(SpeedSource::Day)
    } else if str_eq(s, "night") {
        Some(SpeedSource::Night)
    } else {
        None
    }
}

} // verus!
