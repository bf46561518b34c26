use vstd::prelude::*;

verus! {

/// TCP sequence numbers live in a 32-bit space and wrap around; every
/// increment and comparison must use modular arithmetic, never the native
/// unsigned order.
pub open spec fn wrap32(n: int) -> u32 {
    (n % 0x1_0000_0000) as u32
}

/// `a` strictly precedes `b` in sequence space: the forward distance from `a`
/// to `b` is non-zero and shorter than half the space.
pub open spec fn spec_seq_lt(a: u32, b: u32) -> bool {
    wrap32(b - a) != 0 && wrap32(b - a) < 0x8000_0000
}

/// Modular addition of a sequence number and an advance.
pub fn seq_add(a: u32, n: u32) -> (r: u32)
    ensures
        r == wrap32(a + n),
{
    a.wrapping_add(n)
}

/// Decides whether `a` strictly precedes `b` in the wrapped order.
pub fn seq_lt(a: u32, b: u32) -> (r: bool)
    ensures
        r == spec_seq_lt(a, b),
{
    let d: u32 = b.wrapping_sub(a);
    d != 0 && d < 0x8000_0000
}

} // verus!
