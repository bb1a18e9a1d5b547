//! Jam-factor normalization.
//!
//! An extracted speed is set against the edge's nominal reference speed and
//! turned into a congestion score in `[0, 10]`: a speed equal to the nominal
//! one means free flow (0), a standstill means full congestion (10). The
//! tenths of the speed ratio are rounded to the nearest integer, halves away
//! from zero, and the score is clamped so that a speed above nominal never
//! leaves the range.

use vstd::arithmetic::div_mod::{
    lemma_div_is_ordered, lemma_div_pos_is_pos, lemma_fundamental_div_mod_converse,
};
use vstd::prelude::*;

verus! {

/// `extracted / nominal * 10`, rounded to the nearest integer with halves
/// away from zero; for non-negative speeds that is `⌊(20e + n) / 2n⌋`.
pub open spec fn rounded_tenths(extracted: int, nominal: int) -> int {
    (20 * extracted + nominal) / (2 * nominal)
}

/// The congestion score: `10 - rounded_tenths`, clamped into `[0, 10]`.
pub open spec fn jam_factor_of(extracted: int, nominal: int) -> int {
    if rounded_tenths(extracted, nominal) >= 10 {
        0
    } else {
        10 - rounded_tenths(extracted, nominal)
    }
}

/// The score never leaves `[0, 10]`.
pub proof fn lemma_jam_factor_range(extracted: int, nominal: int)
    requires
        extracted >= 0,
        nominal > 0,
    ensures
        0 <= jam_factor_of(extracted, nominal) <= 10,
{
    lemma_div_pos_is_pos(20 * extracted + nominal, 2 * nominal)
}

/// A speed equal to the nominal one, or above it, means free flow: score 0.
pub proof fn lemma_jam_factor_free_flow(extracted: int, nominal: int)
    requires
        nominal > 0,
        extracted >= nominal,
    ensures
        jam_factor_of(extracted, nominal) == 0,
{
    lemma_fundamental_div_mod_converse(10 * (2 * nominal), 2 * nominal, 10, 0);
    lemma_div_is_ordered(10 * (2 * nominal), 20 * extracted + nominal, 2 * nominal);
}

/// A standstill means full congestion: score 10.
pub proof fn lemma_jam_factor_standstill(nominal: int)
    requires
        nominal > 0,
    ensures
        jam_factor_of(0, nominal) == 10,
{
    lemma_fundamental_div_mod_converse(nominal, 2 * nominal, 0, nominal);
}

/// Computes the congestion score of an extracted speed against the edge's
/// nominal speed.
pub fn jam_factor(extracted: u32, nominal: u32) -> (r: u8)
    requires
        nominal > 0,
    ensures
        r as int == jam_factor_of(extracted as int, nominal as int),
        r <= 10,
{
    let numerator: u64 = 20 * (extracted as u64) + (nominal as u64);
    let denominator: u64 = 2 * (nominal as u64);
    let tenths: u64 = numerator / denominator;
    proof {
        lemma_jam_factor_range(extracted as int, nominal as int);
    }
    if tenths >= 10 {
        0
    } else {
        (10 - tenths) as u8
    }
}

} // verus!
