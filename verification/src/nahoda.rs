//! Náhoda řešiče: generátor `StdRng` z crate `rand` určený semínkem.

use rand::rngs::StdRng;
use rand::seq::SliceRandom;
use rand::{Rng, SeedableRng};
use vstd::prelude::*;

verus! {

#[verifier::external_type_specification]
#[verifier::external_body]
pub struct ExStdRng(StdRng);

/// `StdRng::seed_from_u64`: generátor, jehož posloupnost určuje semínko.
#[verifier::external_body]
pub(crate) fn rng_ze_semene(seed: u64) -> StdRng {
    StdRng::seed_from_u64(seed)
}

/// `Rng::gen_range(0..n)`: rovnoměrně náhodné číslo menší než `n` (pro `n == 0` by
/// `rand` panikařil, proto `n > 0`).
#[verifier::external_body]
pub(crate) fn nahodne_pod(rng: &mut StdRng, n: usize) -> (r: usize)
    requires
        n > 0,
    ensures
        r < n,
{
    rng.gen_range(0..n)
}

/// `Rng::gen_ratio(k, n)`: pravda s pravděpodobností `k/n`; při `k == n` vždy, při
/// `k == 0` nikdy (mimo `0 < n`, `k <= n` by `rand` panikařil).
#[verifier::external_body]
pub(crate) fn sance(rng: &mut StdRng, k: u32, n: u32) -> (r: bool)
    requires
        0 < n,
        k <= n,
    ensures
        k == n ==> r,
        k == 0 ==> !r,
{
    rng.gen_ratio(k, n)
}

/// `Rng::gen::<u32>()`: rovnoměrně náhodné 32bitové číslo.
#[verifier::external_body]
pub(crate) fn nahodne_u32(rng: &mut StdRng) -> u32 {
    rng.gen::<u32>()
}

/// `SliceRandom::shuffle`: náhodná permutace (prohazuje prvky, žádný nepřibude ani
/// neubude).
#[verifier::external_body]
pub(crate) fn zamichej(v: &mut Vec<usize>, rng: &mut StdRng)
    ensures
        final(v)@.to_multiset() == old(v)@.to_multiset(),
        final(v)@.len() == old(v)@.len(),
{
    v.shuffle(rng);
}

} // verus!
