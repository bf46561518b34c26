use vstd::prelude::*;

verus! {

/// Big-endian ("network order") encoding of a 16-bit field.
pub open spec fn be16(x: u16) -> Seq<u8> {
    seq![(x / 256) as u8, (x % 256) as u8]
}

/// The 16-bit value read back from two big-endian bytes.
pub open spec fn word16(hi: u8, lo: u8) -> u16 {
    (hi * 256 + lo) as u16
}

/// Big-endian encoding of a 32-bit field, high half first.
pub open spec fn be32(x: u32) -> Seq<u8> {
    be16((x / 0x10000) as u16) + be16((x % 0x10000) as u16)
}

/// The 32-bit value read back from four big-endian bytes.
pub open spec fn word32(b0: u8, b1: u8, b2: u8, b3: u8) -> u32 {
    (word16(b0, b1) * 0x10000 + word16(b2, b3)) as u32
}

pub proof fn lemma_be16_word(x: u16)
    ensures
        word16(be16(x)[0], be16(x)[1]) == x,
{
}

pub proof fn lemma_be32_word(x: u32)
    ensures
        word32(be32(x)[0], be32(x)[1], be32(x)[2], be32(x)[3]) == x,
{
    let hi: u16 = (x / 0x10000) as u16;
    let lo: u16 = (x % 0x10000) as u16;
    lemma_be16_word(hi);
    lemma_be16_word(lo);
    assert(be32(x)[0] == be16(hi)[0]);
    assert(be32(x)[1] == be16(hi)[1]);
    assert(be32(x)[2] == be16(lo)[0]);
    assert(be32(x)[3] == be16(lo)[1]);
    assert(hi * 0x10000 + lo == x) by (nonlinear_arith)
        requires
            hi == x / 0x10000,
            lo == x % 0x10000,
    {
        vstd::arithmetic::div_mod::lemma_fundamental_div_mod(x as int, 0x10000);
    }
}

/// Appends the big-endian encoding of `x`.
pub fn push_be16(v: &mut Vec<u8>, x: u16) -> (nothing: ())
    ensures
        final(v)@ == old(v)@ + be16(x),
{
    v.push((x / 256) as u8);
    v.push((x % 256) as u8);
    assert(v@ =~= old(v)@ + be16(x));
}

/// Appends the big-endian encoding of `x`, high half first.
pub fn push_be32(v: &mut Vec<u8>, x: u32) -> (nothing: ())
    ensures
        final(v)@ == old(v)@ + be32(x),
{
    push_be16(v, (x / 0x10000) as u16);
    push_be16(v, (x % 0x10000) as u16);
    assert(v@ =~= old(v)@ + be32(x));
}

/// Reads a 16-bit big-endian field starting at `i`.
pub fn read_be16(b: &Vec<u8>, i: usize) -> (r: u16)
    requires
        i + 1 < b@.len(),
    ensures
        r == word16(b@[i as int], b@[i + 1]),
{
    let _n = b.len();
    (b[i] as u16) * 256 + (b[i + 1] as u16)
}

/// Reads a 32-bit big-endian field starting at `i`.
pub fn read_be32(b: &Vec<u8>, i: usize) -> (r: u32)
    requires
        i + 3 < b@.len(),
    ensures
        r == word32(b@[i as int], b@[i + 1], b@[i + 2], b@[i + 3]),
{
    let _n = b.len();
    (read_be16(b, i) as u32) * 0x10000 + (read_be16(b, i + 2) as u32)
}

/// Appends all of `b`.
pub fn push_all(v: &mut Vec<u8>, b: &Vec<u8>) -> (nothing: ())
    ensures
        final(v)@ == old(v)@ + b@,
{
    let n = b.len();
    let mut i: usize = 0;
    assert(v@ =~= old(v)@ + b@.take(0));
    while i < n
        invariant
            i <= n,
            n == b@.len(),
            v@ == old(v)@ + b@.take(i as int),
        decreases n - i,
    {
        v.push(b[i]);
        i = i + 1;
        assert(v@ =~= old(v)@ + b@.take(i as int));
    }
    assert(b@.take(n as int) =~= b@);
}

/// Copies `b[from..to]` into a fresh buffer.
pub fn copy_range(b: &Vec<u8>, from: usize, to: usize) -> (r: Vec<u8>)
    requires
        from <= to <= b@.len(),
    ensures
        r@ == b@.subrange(from as int, to as int),
{
    let mut r: Vec<u8> = Vec::new();
    let mut i: usize = from;
    while i < to
        invariant
            from <= i <= to <= b@.len(),
            r@ == b@.subrange(from as int, i as int),
        decreases to - i,
    {
        r.push(b[i]);
        i = i + 1;
        assert(r@ =~= b@.subrange(from as int, i as int));
    }
    r
}

} // verus!
