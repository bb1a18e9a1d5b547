//! Textual bounding-box parsing.
//!
//! A bounding box arrives as `"lat,lon;lat,lon"`. The string is split once on
//! `;` into two coordinate halves, each of which is split once on `,` into two
//! numeric tokens. Every token must name a finite number; otherwise the whole
//! parse fails with no partial result. No semantic validation (ordering,
//! latitude range) is performed: the rectangle's meaning is the tile source's
//! business.

use vstd::prelude::*;

verus! {

pub uninterp spec fn is_finite_number_text(s: Seq<char>) -> bool;

/// Relies on the `FromStr` impl of `serde_json::Number`: it accepts exactly
/// the full-string numeric texts (an optional leading minus, an integer part,
/// an optional fraction and exponent, no surrounding whitespace) whose value
/// fits a finite machine number; the outcome depends on the characters alone.
#[verifier::external_body]
fn finite_number_token(s: &str) -> (r: bool)
    ensures
        r == is_finite_number_text(s@),
{
    s.parse::<serde_json::Number>().is_ok()
}

/// Index of the first occurrence of `c` in `s`, if any.
pub open spec fn first_index_of(s: Seq<char>, c: char) -> Option<int>
    decreases s.len(),
{
    if s.len() == 0 {
        None
    } else if s[0] == c {
        Some(0int)
    } else {
        match first_index_of(s.drop_first(), c) {
            None => None,
            Some(i) => Some(i + 1),
        }
    }
}

pub proof fn lemma_first_index_of(s: Seq<char>, c: char)
    ensures
        match first_index_of(s, c) {
            Some(i) => 0 <= i < s.len() && s[i] == c && (forall|j: int| 0 <= j < i ==> s[j] != c),
            None => forall|j: int| 0 <= j < s.len() ==> s[j] != c,
        },
    decreases s.len(),
{
    if s.len() != 0 && s[0] != c {
        let rest = s.drop_first();
        lemma_first_index_of(rest, c);
        assert(forall|j: int| 0 <= j < rest.len() ==> rest[j] == s[j + 1]);
        match first_index_of(rest, c) {
            None => {
                assert forall|j: int| 0 <= j < s.len() implies s[j] != c by {
                    if j > 0 {
                        assert(rest[j - 1] != c);
                    }
                }
            },
            Some(i) => {
                assert(first_index_of(s, c) == Some(i + 1));
                assert(s[i + 1] == rest[i]);
                assert forall|j: int| 0 <= j < i + 1 implies s[j] != c by {
                    if j > 0 {
                        assert(rest[j - 1] != c);
                    }
                }
            },
        }
    }
}

/// First occurrence of `c` in `s`, found by a linear scan.
fn find_char(s: &str, c: char) -> (r: Option<usize>)
    ensures
        match r {
            Some(i) => first_index_of(s@, c) == Some(i as int),
            None => first_index_of(s@, c) is None,
        },
{
    let n = s.unicode_len();
    let mut i: usize = 0;
    while i < n
        invariant
            n == s@.len(),
            0 <= i <= n,
            forall|j: int| 0 <= j < i ==> s@[j] != c,
        decreases n - i,
    {
        if s.get_char(i) == c {
            proof {
                lemma_first_index_of(s@, c);
            }
            return Some(i);
        }
        i += 1;
    }
    proof {
        lemma_first_index_of(s@, c);
    }
    None
}

/// A geographic point, kept as the two numeric tokens it was parsed from.
/// Conversion to machine coordinates is the caller's business; the tokens are
/// carried through unchanged.
#[derive(Debug)]
pub struct GeoPoint {
    pub lat: String,
    pub lon: String,
}

impl GeoPoint {
    /// Both components name finite numbers.
    pub open spec fn wf(self) -> bool {
        is_finite_number_text(self.lat@) && is_finite_number_text(self.lon@)
    }
}

/// What parsing one coordinate half yields: the two tokens around the first
/// `,`, provided both name finite numbers.
pub open spec fn coordinate_of_text(s: Seq<char>) -> Option<(Seq<char>, Seq<char>)> {
    match first_index_of(s, ',') {
        None => None,
        Some(i) => {
            let lat = s.subrange(0, i);
            let lon = s.subrange(i + 1, s.len() as int);
            if is_finite_number_text(lat) && is_finite_number_text(lon) {
                Some((lat, lon))
            } else {
                None
            }
        },
    }
}

/// What parsing a full bounding box yields: the two coordinate pairs around
/// the first `;`, provided both halves parse.
pub open spec fn bbox_of_text(s: Seq<char>) -> Option<
    ((Seq<char>, Seq<char>), (Seq<char>, Seq<char>)),
> {
    match first_index_of(s, ';') {
        None => None,
        Some(i) => {
            match (coordinate_of_text(s.subrange(0, i)), coordinate_of_text(
                s.subrange(i + 1, s.len() as int),
            )) {
                (Some(min), Some(max)) => Some((min, max)),
                _ => None,
            }
        },
    }
}

/// Parses `"lat,lon"` into a point, failing on a missing or extra delimiter
/// or a token that does not name a finite number.
pub fn parse_coordinate(coord: &str) -> (r: Option<GeoPoint>)
    ensures
        match r {
            Some(p) => coordinate_of_text(coord@) == Some((p.lat@, p.lon@)) && p.wf(),
            None => coordinate_of_text(coord@) is None,
        },
{
    let n = coord.unicode_len();
    match find_char(coord, ',') {
        None => None,
        Some(i) => {
            proof {
                lemma_first_index_of(coord@, ',');
            }
            let lat = coord.substring_char(0, i);
            let lon = coord.substring_char(i + 1, n);
            if finite_number_token(lat) && finite_number_token(lon) {
                Some(GeoPoint { lat: lat.to_owned(), lon: lon.to_owned() })
            } else {
                None
            }
        },
    }
}

/// Parses `"lat,lon;lat,lon"` into the (min, max) corner pair of a query
/// rectangle. Any malformed part fails the whole parse; well-formed halves
/// are passed through exactly as written.
pub fn parse_bbox(bbox: &str) -> (r: Option<(GeoPoint, GeoPoint)>)
    ensures
        match r {
            Some(b) => bbox_of_text(bbox@) == Some(
                ((b.0.lat@, b.0.lon@), (b.1.lat@, b.1.lon@)),
            ) && b.0.wf() && b.1.wf(),
            None => bbox_of_text(bbox@) is None,
        },
{
    let n = bbox.unicode_len();
    match find_char(bbox, ';') {
        None => None,
        Some(i) => {
            proof {
                lemma_first_index_of(bbox@, ';');
            }
            let min_half = bbox.substring_char(0, i);
            let max_half = bbox.substring_char(i + 1, n);
            match (parse_coordinate(min_half), parse_coordinate(max_half)) {
                (Some(min), Some(max)) => Some((min, max)),
                _ => None,
            }
        },
    }
}

} // verus!
