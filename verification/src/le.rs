//! Little-endian byte order: the value of a byte sequence and the bytes of a value.

use vstd::prelude::*;

verus! {

/// The value of bytes stored least significant first.
pub open spec fn from_le(s: Seq<u8>) -> nat
    decreases s.len(),
{
    if s.len() == 0 {
        0
    } else {
        s[0] as nat + 256 * from_le(s.drop_first())
    }
}

/// The `n` low bytes of `v`, least significant first.
pub open spec fn le_bytes(v: nat, n: nat) -> Seq<u8>
    decreases n,
{
    if n == 0 {
        Seq::empty()
    } else {
        seq![(v % 256) as u8] + le_bytes(v / 256, (n - 1) as nat)
    }
}

/// `s` with the bytes of `t` written over it from index `i` on.
pub open spec fn splice(s: Seq<u8>, i: int, t: Seq<u8>) -> Seq<u8> {
    s.subrange(0, i) + t + s.subrange(i + t.len(), s.len() as int)
}

/// The value of 1, 2 or 4 bytes, written out.
pub proof fn lemma_from_le_small(s: Seq<u8>)
    ensures
        s.len() == 1 ==> from_le(s) == s[0],
        s.len() == 2 ==> from_le(s) == s[0] + 256 * s[1],
        s.len() == 4 ==> from_le(s) == s[0] + 256 * s[1] + 65536 * s[2] + 16777216 * s[3],
{
    if s.len() >= 1 {
        let s1 = s.drop_first();
        if s1.len() >= 1 {
            let s2 = s1.drop_first();
            if s2.len() >= 1 {
                let s3 = s2.drop_first();
                if s3.len() >= 1 {
                    let s4 = s3.drop_first();
                    assert(from_le(s4) == 0 || s4.len() > 0);
                }
            }
        }
    }
    reveal_with_fuel(from_le, 5);
}

/// The bytes of a value, written out for 1, 2 and 4 bytes.
pub proof fn lemma_le_bytes_small(v: nat)
    ensures
        le_bytes(v, 1) == seq![(v % 256) as u8],
        le_bytes(v, 2) == seq![(v % 256) as u8, ((v / 256) % 256) as u8],
        le_bytes(v, 4) == seq![
            (v % 256) as u8,
            ((v / 256) % 256) as u8,
            ((v / 65536) % 256) as u8,
            ((v / 16777216) % 256) as u8,
        ],
{
    reveal_with_fuel(le_bytes, 5);
    assert(le_bytes(v, 1) =~= seq![(v % 256) as u8]);
    assert(le_bytes(v / 256, 1) =~= seq![((v / 256) % 256) as u8]);
    assert(le_bytes(v, 2) =~= seq![(v % 256) as u8, ((v / 256) % 256) as u8]);
    assert((v / 256) / 256 == v / 65536) by (nonlinear_arith);
    assert((v / 65536) / 256 == v / 16777216) by (nonlinear_arith);
    assert(le_bytes(v / 65536, 2) =~= seq![((v / 65536) % 256) as u8, ((v / 16777216) % 256) as u8]);
    assert(le_bytes(v / 256, 3) =~= seq![
        ((v / 256) % 256) as u8,
        ((v / 65536) % 256) as u8,
        ((v / 16777216) % 256) as u8,
    ]);
    assert(le_bytes(v, 4) =~= seq![
        (v % 256) as u8,
        ((v / 256) % 256) as u8,
        ((v / 65536) % 256) as u8,
        ((v / 16777216) % 256) as u8,
    ]);
}

/// Reading back the bytes of a value gives the value, reduced to the bytes kept.
pub proof fn lemma_from_le_bytes(v: nat, n: nat)
    ensures
        from_le(le_bytes(v, n)) == v as int % vstd::arithmetic::power::pow(256, n),
        le_bytes(v, n).len() == n,
    decreases n,
{
    vstd::arithmetic::power::lemma_pow0(256);
    if n == 0 {
        assert(le_bytes(v, 0) =~= Seq::<u8>::empty());
    } else {
        lemma_from_le_bytes(v / 256, (n - 1) as nat);
        let t = le_bytes(v, n);
        assert(t.drop_first() =~= le_bytes(v / 256, (n - 1) as nat));
        vstd::arithmetic::power::lemma_pow_adds(256, 1, (n - 1) as nat);
        vstd::arithmetic::power::lemma_pow1(256);
        let p = vstd::arithmetic::power::pow(256, (n - 1) as nat);
        vstd::arithmetic::power::lemma_pow_positive(256, (n - 1) as nat);
        assert(v as int % (256 * p) == v as int % 256 + 256 * ((v as int / 256) % p)) by {
            vstd::arithmetic::div_mod::lemma_breakdown(v as int, 256, p);
        }
    }
}

/// The value of two bytes, least significant first.
pub fn u16_from_le(b0: u8, b1: u8) -> (r: u16)
    ensures
        r == from_le(seq![b0, b1]),
{
    proof {
        lemma_from_le_small(seq![b0, b1]);
    }
    let r = (b0 as u16) | ((b1 as u16) << 8);
    assert(r == b0 + 256 * b1) by (bit_vector)
        requires
            r == (b0 as u16) | ((b1 as u16) << 8),
    ;
    r
}

/// The value of four bytes, least significant first.
pub fn u32_from_le(b0: u8, b1: u8, b2: u8, b3: u8) -> (r: u32)
    ensures
        r == from_le(seq![b0, b1, b2, b3]),
{
    proof {
        lemma_from_le_small(seq![b0, b1, b2, b3]);
    }
    let r = (b0 as u32) | ((b1 as u32) << 8) | ((b2 as u32) << 16) | ((b3 as u32) << 24);
    assert(r == b0 + 256 * b1 + 65536 * b2 + 16777216 * b3) by (bit_vector)
        requires
            r == (b0 as u32) | ((b1 as u32) << 8) | ((b2 as u32) << 16) | ((b3 as u32) << 24),
    ;
    r
}

/// The two bytes of a halfword, least significant first.
pub fn u16_to_le(v: u16) -> (r: (u8, u8))
    ensures
        seq![r.0, r.1] == le_bytes(v as nat, 2),
{
    proof {
        lemma_le_bytes_small(v as nat);
    }
    let b0 = #[verifier::truncate] (v as u8);
    let b1 = #[verifier::truncate] ((v >> 8) as u8);
    assert(b0 == (v % 256) as u8 && b1 == ((v / 256) % 256) as u8) by (bit_vector)
        requires
            b0 == v as u8,
            b1 == (v >> 8) as u8,
    ;
    (b0, b1)
}

/// The four bytes of a word, least significant first.
pub fn u32_to_le(v: u32) -> (r: (u8, u8, u8, u8))
    ensures
        seq![r.0, r.1, r.2, r.3] == le_bytes(v as nat, 4),
{
    proof {
        lemma_le_bytes_small(v as nat);
    }
    let b0 = #[verifier::truncate] (v as u8);
    let b1 = #[verifier::truncate] ((v >> 8) as u8);
    let b2 = #[verifier::truncate] ((v >> 16) as u8);
    let b3 = #[verifier::truncate] ((v >> 24) as u8);
    assert(b0 == (v % 256) as u8 && b1 == ((v / 256) % 256) as u8 && b2 == ((v / 65536) % 256) as u8
        && b3 == ((v / 16777216) % 256) as u8) by (bit_vector)
        requires
            b0 == v as u8,
            b1 == (v >> 8) as u8,
            b2 == (v >> 16) as u8,
            b3 == (v >> 24) as u8,
    ;
    (b0, b1, b2, b3)
}

} // verus!
