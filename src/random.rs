use vstd::prelude::*;
use rand::{Rng, RngCore};

verus! {

/// Relies on `rand::random::<u64>`; nothing is known of the value.
#[verifier::external_body]
pub(crate) fn random_u64() -> u64 {
    rand::random::<u64>()
}

/// Relies on `RngCore::fill_bytes` of `rand::thread_rng`: `n` bytes of
/// which nothing else is known.
#[verifier::external_body]
fn random_fill(n: usize) -> (r: Vec<u8>)
    ensures
        r@.len() == n,
{
    let mut b = vec![0u8; n];
    rand::thread_rng().fill_bytes(&mut b);
    b
}

/// Relies on `Rng::gen_range` of `rand::thread_rng` over `0..n`, which takes
/// a non-empty range; the draw is below `n`.
#[verifier::external_body]
pub(crate) fn random_below(n: usize) -> (r: usize)
    requires
        n > 0,
    ensures
        r < n,
{
    rand::thread_rng().gen_range(0..n)
}

/// A fair coin, from the low bit of a random number.
pub(crate) fn coin_flip() -> bool {
    random_u64() % 2 == 0
}

/// `N` random bytes.
pub(crate) fn random_array<const N: usize>() -> [u8; N] {
    let bytes = random_fill(N);
    let mut out = [0u8; N];
    let mut i: usize = 0;
    while i < N
        invariant
            0 <= i <= N,
            bytes@.len() == N,
        decreases N - i,
    {
        out[i] = bytes[i];
        i = i + 1;
    }
    out
}

} // verus!
