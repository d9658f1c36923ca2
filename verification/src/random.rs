//! The seeded random generator and the draws that map generation makes from
//! it.
use vstd::prelude::*;

use rand::rngs::StdRng;
use rand::seq::SliceRandom;
use rand::{Rng, SeedableRng};

use crate::hex_coord::HexCoord;

verus! {

#[verifier::external_type_specification]
#[verifier::external_body]
pub struct ExStdRng(StdRng);

/// `StdRng::seed_from_u64`: the standard generator seeded from `seed`.
/// Nothing is stated of the generator's state.
#[verifier::external_body]
pub(crate) fn seeded_rng(seed: u64) -> (rng: StdRng) {
    StdRng::seed_from_u64(seed)
}

/// `SliceRandom::choose` on the items: `None` exactly for no items,
/// otherwise one of them, drawn from `rng`.
#[verifier::external_body]
pub(crate) fn choose_coord(rng: &mut StdRng, items: &Vec<HexCoord>) -> (chosen: Option<HexCoord>)
    ensures
        chosen is None <==> items@.len() == 0,
        chosen matches Some(coord) ==> items@.contains(coord),
{
    items.choose(rng).copied()
}

/// `Rng::gen_range` over `low..=high`: a value in that range, drawn from
/// `rng`.
#[verifier::external_body]
pub(crate) fn random_size(rng: &mut StdRng, low: usize, high: usize) -> (size: usize)
    requires
        low <= high,
    ensures
        low <= size <= high,
{
    rng.gen_range(low..=high)
}

/// `SliceRandom::shuffle`: the same items in an order drawn from `rng`.
#[verifier::external_body]
pub(crate) fn shuffle_coords(rng: &mut StdRng, items: &mut Vec<HexCoord>)
    ensures
        final(items)@.to_multiset() == old(items)@.to_multiset(),
{
    items.shuffle(rng);
}

/// `Rng::gen_ratio`: `true` with a chance of `numerator` in `denominator`,
/// drawn from `rng`; always `true` for equal terms and never for a zero
/// numerator.
#[verifier::external_body]
pub(crate) fn random_ratio(rng: &mut StdRng, numerator: u32, denominator: u32) -> (hit: bool)
    requires
        0 < denominator,
        numerator <= denominator,
    ensures
        numerator == denominator ==> hit,
        numerator == 0 ==> !hit,
{
    rng.gen_ratio(numerator, denominator)
}

/// `Rng::gen_range` over `low..high` of `u32`: a value in that range, drawn
/// from `rng`.
#[verifier::external_body]
pub(crate) fn random_amount(rng: &mut StdRng, low: u32, high: u32) -> (amount: u32)
    requires
        low < high,
    ensures
        low <= amount < high,
{
    rng.gen_range(low..high)
}

/// `Rng::gen_range` over `low..=high` of `i32`: a value in that range, drawn
/// from `rng`.
#[verifier::external_body]
pub(crate) fn random_count(rng: &mut StdRng, low: i32, high: i32) -> (count: i32)
    requires
        low <= high,
    ensures
        low <= count <= high,
{
    rng.gen_range(low..=high)
}

} // verus!
