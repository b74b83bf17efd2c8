use vstd::prelude::*;

verus! {

/// Relies on rand::random: a `u32` drawn from the thread-local generator,
/// which is seeded from the system's entropy. Nothing is known of its value.
#[verifier::external_body]
fn random_u32() -> (r: u32) {
    rand::random::<u32>()
}

/// Reduces a drawn word to a number below `n`.
pub fn sample_below(word: u32, n: u32) -> (r: u32)
    requires
        n > 0,
    ensures
        r == word % n,
        r < n,
{
    word % n
}

/// A random number below `n`: a fresh word from the random source, reduced
/// by `sample_below`.
pub fn rnd_n(n: u32) -> (r: u32)
    requires
        n > 0,
    ensures
        r < n,
{
    sample_below(random_u32(), n)
}

} // verus!
