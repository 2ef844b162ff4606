use vstd::prelude::*;

verus! {

/// Calls `rand::random::<u32>()`, which draws a uniformly distributed `u32`
/// from the thread-local generator. Nothing is promised about the value: it
/// depends on chance alone.
#[verifier::external_body]
fn random_u32() -> u32 {
    rand::random::<u32>()
}

/// Threshold under which a uniform `u32` stands for a "1" bit: 30% of the range.
pub const NOISE_THRESHOLD: u32 = 1_288_490_189;

/// Turn a uniformly drawn `u32` into a noise bit that is 1 about 30% of the time.
pub fn noise_bit_from(sample: u32) -> (r: u8)
    ensures
        r == (if sample < NOISE_THRESHOLD { 1u8 } else { 0u8 }),
{
    if sample < NOISE_THRESHOLD { 1 } else { 0 }
}

/// A random bit, 1 with probability about 0.3: what an empty or weak area of a
/// disk returns to the read head.
pub fn noise_bit() -> (r: u8)
    ensures
        r <= 1,
{
    noise_bit_from(random_u32())
}

} // verus!
