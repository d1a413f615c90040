use vstd::prelude::*;

verus! {

/// Modulus of 32-bit wrapping arithmetic.
pub open spec fn word_modulus() -> int {
    0x1_0000_0000
}

/// The next value of a free-running 32-bit counter (the heartbeat word, the
/// blink count): one more, wrapping from `u32::MAX` to 0. It always moves, so
/// a host that sees the heartbeat word change knows the firmware is running.
pub fn next_count(count: u32) -> (next: u32)
    ensures
        next == (count + 1) % word_modulus(),
        count < u32::MAX ==> next == count + 1,
        count == u32::MAX ==> next == 0,
        next != count,
{
    count.wrapping_add(1)
}

} // verus!
