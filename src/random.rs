use vstd::prelude::*;

verus! {

#[verifier::external_type_specification]
#[verifier::external_body]
pub struct ExStdRng(rand::rngs::StdRng);

/// Relies on `rand::Rng::gen_range` over the inclusive range `lo..=hi`, which
/// panics only on an empty range.
#[verifier::external_body]
pub(crate) fn gen_range_inclusive(rng: &mut rand::rngs::StdRng, lo: usize, hi: usize) -> (r: usize)
    requires
        lo <= hi,
    ensures
        lo <= r <= hi,
{
    rand::Rng::gen_range(rng, lo..=hi)
}

/// Relies on `rand::Rng::gen::<bool>`: a fair coin.
#[verifier::external_body]
pub(crate) fn flip_coin(rng: &mut rand::rngs::StdRng) -> (r: bool) {
    rand::Rng::gen::<bool>(rng)
}

/// Relies on `rand::seq::IteratorRandom::choose_multiple` over `lo..=hi`: it
/// returns `amount` distinct items of the range when the range holds at least
/// that many.
#[verifier::external_body]
pub(crate) fn choose_three(rng: &mut rand::rngs::StdRng, lo: u8, hi: u8) -> (r: Vec<u8>)
    requires
        lo <= hi,
        hi - lo >= 2,
    ensures
        r@.len() == 3,
        forall|i: int| 0 <= i < 3 ==> lo <= #[trigger] r@[i] <= hi,
        forall|i: int, j: int| 0 <= i < 3 && 0 <= j < 3 && i != j ==> r@[i] != r@[j],
{
    rand::seq::IteratorRandom::choose_multiple(lo..=hi, rng, 3)
}

/// Relies on `rand::seq::SliceRandom::choose`: one element of a non-empty
/// slice.
#[verifier::external_body]
pub(crate) fn choose_plug(rng: &mut rand::rngs::StdRng, plugs: &[(char, char)]) -> (r: (char, char))
    requires
        plugs@.len() > 0,
    ensures
        plugs@.contains(r),
{
    *rand::seq::SliceRandom::choose(plugs, rng).unwrap()
}

} // verus!
