use vstd::prelude::*;
use crate::wire::{be16, word16};

verus! {

/// The plain sum of the big-endian 16-bit words of `s`; an odd trailing byte
/// counts as the high half of a zero-padded word.
pub open spec fn wsum(s: Seq<u8>) -> int
    decreases s.len(),
{
    if s.len() == 0 {
        0
    } else if s.len() == 1 {
        s[0] * 256
    } else {
        s[0] * 256 + s[1] + wsum(s.skip(2))
    }
}

/// The value that end-around-carry folding of a word sum converges to: the
/// residue mod 0xFFFF, with a non-zero multiple of 0xFFFF folding to 0xFFFF
/// rather than 0.
pub open spec fn ocsum(n: int) -> int {
    if n == 0 {
        0
    } else if n % 0xFFFF == 0 {
        0xFFFF
    } else {
        n % 0xFFFF
    }
}

/// The transmitted checksum: the one's complement of the folded word sum.
pub open spec fn spec_checksum(s: Seq<u8>) -> u16 {
    (0xFFFF - ocsum(wsum(s))) as u16
}

/// A received byte string (checksum field included) validates when its folded
/// word sum is all ones.
pub open spec fn valid_sum(s: Seq<u8>) -> bool {
    ocsum(wsum(s)) == 0xFFFF
}

pub proof fn lemma_wsum_nonneg(s: Seq<u8>)
    ensures
        wsum(s) >= 0,
    decreases s.len(),
{
    if s.len() >= 2 {
        lemma_wsum_nonneg(s.skip(2));
    }
}

/// Word sums add across a concatenation that splits on a word boundary.
pub proof fn lemma_wsum_concat(a: Seq<u8>, b: Seq<u8>)
    requires
        a.len() % 2 == 0,
    ensures
        wsum(a + b) == wsum(a) + wsum(b),
    decreases a.len(),
{
    if a.len() == 0 {
        assert(a + b =~= b);
    } else {
        assert((a + b).skip(2) =~= a.skip(2) + b);
        assert((a + b)[0] == a[0]);
        assert((a + b)[1] == a[1]);
        lemma_wsum_concat(a.skip(2), b);
    }
}

/// Folding is insensitive to replacing a word sum by its residue plus any
/// number of 0xFFFF carries, which is what one fold step does.
proof fn lemma_ocsum_step(n: int, k: int)
    requires
        n > 0xFFFF,
        k == n / 0x10000,
    ensures
        0 < n - k * 0xFFFF < n,
        ocsum(n - k * 0xFFFF) == ocsum(n),
{
    vstd::arithmetic::div_mod::lemma_fundamental_div_mod(n, 0x10000);
    assert(k >= 1) by (nonlinear_arith)
        requires
            n > 0xFFFF,
            k == n / 0x10000,
    ;
    assert(k * 0xFFFF < n) by (nonlinear_arith)
        requires
            n == 0x10000 * k + n % 0x10000,
            n % 0x10000 >= 0,
            k >= 1,
    ;
    assert(n - k * 0xFFFF > 0) by (nonlinear_arith)
        requires
            n == 0x10000 * k + n % 0x10000,
            n % 0x10000 >= 0,
            k >= 1,
    ;
    vstd::arithmetic::div_mod::lemma_mod_multiples_vanish(-k, n, 0xFFFF);
    assert((-k) * 0xFFFF + n == n - k * 0xFFFF) by (nonlinear_arith);
}

/// Adding the complement of the folded sum brings the fold to all ones: the
/// reason a correctly generated checksum validates at the receiver.
pub proof fn lemma_ocsum_complement(s0: int)
    requires
        s0 >= 0,
    ensures
        ocsum(s0 + 0xFFFF - ocsum(s0)) == 0xFFFF,
{
    let c = 0xFFFF - ocsum(s0);
    vstd::arithmetic::div_mod::lemma_mod_bound(s0, 0xFFFF);
    assert(0 <= ocsum(s0) <= 0xFFFF);
    let t = s0 + c;
    assert(t > 0);
    if s0 == 0 {
        assert(t == 0xFFFF);
        assert(ocsum(t) == 0xFFFF);
    } else {
        vstd::arithmetic::div_mod::lemma_mod_multiples_vanish(1, s0 - ocsum(s0), 0xFFFF);
        assert(1 * 0xFFFF + (s0 - ocsum(s0)) == t) by (nonlinear_arith)
            requires
                t == s0 + 0xFFFF - ocsum(s0),
        ;
        if s0 % 0xFFFF == 0 {
            assert((s0 - ocsum(s0)) % 0xFFFF == 0) by {
                vstd::arithmetic::div_mod::lemma_mod_multiples_vanish(-1, s0, 0xFFFF);
                assert((-1) * 0xFFFF + s0 == s0 - 0xFFFF) by (nonlinear_arith);
            }
            assert(t % 0xFFFF == 0);
        } else {
            vstd::arithmetic::div_mod::lemma_mod_twice(s0, 0xFFFF);
            assert((s0 - ocsum(s0)) % 0xFFFF == 0) by {
                vstd::arithmetic::div_mod::lemma_mod_multiples_vanish(
                    -(s0 / 0xFFFF),
                    s0,
                    0xFFFF,
                );
                vstd::arithmetic::div_mod::lemma_fundamental_div_mod(s0, 0xFFFF);
                assert((-(s0 / 0xFFFF)) * 0xFFFF + s0 == s0 % 0xFFFF) by (nonlinear_arith)
                    requires
                        s0 == 0xFFFF * (s0 / 0xFFFF) + s0 % 0xFFFF,
                ;
                vstd::arithmetic::div_mod::lemma_mod_twice(s0, 0xFFFF);
            }
            assert(t % 0xFFFF == 0);
        }
        assert(ocsum(t) == 0xFFFF);
    }
}

/// Inserting the checksum of the zero-filled layout at its (word-aligned)
/// slot yields a byte string whose folded sum validates.
pub proof fn lemma_inserted_checksum_validates(x: Seq<u8>, y: Seq<u8>)
    requires
        x.len() % 2 == 0,
    ensures
        valid_sum(x + be16(spec_checksum(x + seq![0u8, 0u8] + y)) + y),
{
    let z = x + seq![0u8, 0u8] + y;
    let c = spec_checksum(z);
    let s0 = wsum(z);
    lemma_wsum_nonneg(z);
    vstd::arithmetic::div_mod::lemma_mod_bound(s0, 0xFFFF);
    assert(0 <= ocsum(s0) <= 0xFFFF);
    assert(c == 0xFFFF - ocsum(s0));
    lemma_wsum_concat(x, seq![0u8, 0u8] + y);
    assert((seq![0u8, 0u8] + y).skip(2) =~= y);
    assert(wsum(seq![0u8, 0u8] + y) == wsum(y));
    assert(x + seq![0u8, 0u8] + y =~= x + (seq![0u8, 0u8] + y));
    assert(s0 == wsum(x) + wsum(y));
    let w = x + be16(c) + y;
    lemma_wsum_concat(x, be16(c) + y);
    assert((be16(c) + y).skip(2) =~= y);
    assert(wsum(be16(c) + y) == (c / 256) * 256 + c % 256 + wsum(y));
    assert((c / 256) * 256 + c % 256 == c);
    assert(x + be16(c) + y =~= x + (be16(c) + y));
    assert(wsum(w) == s0 + c);
    lemma_ocsum_complement(s0);
}

/// Unfolds one word of the word sum at an even in-bounds offset.
pub proof fn lemma_wsum_skip_step(s: Seq<u8>, i: int)
    requires
        0 <= i,
        i + 2 <= s.len(),
    ensures
        wsum(s.skip(i)) == s[i] * 256 + s[i + 1] + wsum(s.skip(i + 2)),
{
    assert(s.skip(i).len() >= 2);
    assert(s.skip(i)[0] == s[i]);
    assert(s.skip(i)[1] == s[i + 1]);
    assert(s.skip(i).skip(2) =~= s.skip(i + 2));
}

/// One's-complement sum of the words of `data`, end-around carries folded in.
pub fn internet_sum(data: &Vec<u8>) -> (r: u16)
    requires
        data@.len() <= 0x20000,
    ensures
        r == ocsum(wsum(data@)),
{
    let ghost s = data@;
    let n = data.len();
    let mut acc: u64 = 0;
    let mut i: usize = 0;
    proof {
        assert(s.skip(0) =~= s);
        lemma_wsum_nonneg(s);
    }
    while i + 1 < n
        invariant
            i % 2 == 0,
            i <= n,
            n == s.len(),
            n <= 0x20000,
            data@ == s,
            acc <= 0xFFFF * (i as int) / 2 + 0xFFFF,
            acc + wsum(s.skip(i as int)) == wsum(s),
            wsum(s.skip(i as int)) >= 0,
        decreases n - i,
    {
        proof {
            lemma_wsum_skip_step(s, i as int);
            lemma_wsum_nonneg(s.skip(i as int + 2));
        }
        let w: u64 = (data[i] as u64) * 256 + (data[i + 1] as u64);
        acc = acc + w;
        i = i + 2;
    }
    if i < n {
        proof {
            assert(s.skip(i as int).len() == 1);
            assert(s.skip(i as int)[0] == s[i as int]);
        }
        acc = acc + (data[i] as u64) * 256;
        proof {
            assert(wsum(s.skip(i as int)) == s[i as int] * 256);
        }
    } else {
        proof {
            assert(s.skip(i as int).len() == 0);
        }
    }
    assert(acc == wsum(s));
    let ghost s0 = wsum(s);
    let mut folded: u64 = acc;
    while folded > 0xFFFF
        invariant
            folded >= 0,
            ocsum(folded as int) == ocsum(s0),
            (folded > 0) == (s0 > 0),
        decreases folded,
    {
        let ghost before = folded as int;
        let k: u64 = folded / 0x10000;
        proof {
            lemma_ocsum_step(before, k as int);
            vstd::arithmetic::div_mod::lemma_fundamental_div_mod(before, 0x10000);
        }
        let low: u64 = folded % 0x10000;
        proof {
            assert(low + k == before - k * 0xFFFF) by (nonlinear_arith)
                requires
                    before == 0x10000 * (k as int) + low,
                    k == before / 0x10000,
                    low == before % 0x10000,
            ;
        }
        folded = low + k;
    }
    proof {
        if s0 == 0 {
            assert(folded == 0);
        } else {
            assert(folded > 0);
            assert(folded <= 0xFFFF);
            assert(ocsum(folded as int) == ocsum(s0));
            if folded == 0xFFFF {
                assert(ocsum(s0) == 0xFFFF);
            } else {
                vstd::arithmetic::div_mod::lemma_small_mod(folded as nat, 0xFFFF);
                assert(ocsum(folded as int) == folded);
            }
        }
    }
    folded as u16
}

/// The checksum to transmit for `data` (its checksum field zero-filled).
pub fn compute_checksum(data: &Vec<u8>) -> (c: u16)
    requires
        data@.len() <= 0x20000,
    ensures
        c == spec_checksum(data@),
{
    let s = internet_sum(data);
    proof {
        lemma_wsum_nonneg(data@);
        vstd::arithmetic::div_mod::lemma_mod_bound(wsum(data@), 0xFFFF);
    }
    0xFFFF - s
}

} // verus!
