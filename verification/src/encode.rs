//! Fixed-width byte-one-hot encoding of input text.
//!
//! A text is encoded over its first 32 bytes. Each consumed byte `b` at
//! position `p` turns on exactly one entry of an 8192-wide vector, the one
//! at index `p * 256 + b`; every other entry is zero. Shorter texts leave
//! the trailing positions entirely zero.

use vstd::prelude::*;
use vstd::arithmetic::div_mod::lemma_fundamental_div_mod;

verus! {

/// Number of leading input bytes the encoder consumes.
pub const INPUT_BYTES: usize = 32;

/// Number of one-hot bins per byte position, one per possible byte value.
pub const BYTE_BINS: usize = 256;

/// Width of every encoded vector: `INPUT_BYTES * BYTE_BINS`.
pub const INPUT_SIZE: usize = 8192;

/// How many bytes of `text` the encoder consumes: all of them, capped at 32.
pub open spec fn consumed_len(text: Seq<u8>) -> int {
    if text.len() <= 32 {
        text.len() as int
    } else {
        32
    }
}

/// Value of the encoded vector at index `i`: one exactly when the consumed
/// byte at position `i / 256` has value `i % 256`.
pub open spec fn encoded_bit(text: Seq<u8>, i: int) -> u8 {
    if i / 256 < consumed_len(text) && text[i / 256] as int == i % 256 {
        1u8
    } else {
        0u8
    }
}

/// The whole encoded vector for `text`.
pub open spec fn encoding(text: Seq<u8>) -> Seq<u8> {
    Seq::new(8192, |i: int| encoded_bit(text, i))
}

/// Number of ones in `s` between index `a` (inclusive) and `b` (exclusive).
pub open spec fn ones_between(s: Seq<u8>, a: int, b: int) -> int
    decreases b - a,
{
    if b <= a {
        0
    } else {
        ones_between(s, a, b - 1) + if s[b - 1] == 1u8 {
            1int
        } else {
            0int
        }
    }
}

/// Number of ones in the whole of `s`.
pub open spec fn ones(s: Seq<u8>) -> int {
    ones_between(s, 0, s.len() as int)
}

proof fn lemma_ones_between_split(s: Seq<u8>, a: int, b: int, c: int)
    requires
        a <= b <= c,
    ensures
        ones_between(s, a, c) == ones_between(s, a, b) + ones_between(s, b, c),
    decreases c - b,
{
    if c > b {
        lemma_ones_between_split(s, a, b, c - 1);
    }
}

proof fn lemma_ones_block_partial(text: Seq<u8>, p: int, k: int)
    requires
        0 <= p < 32,
        0 <= k <= 256,
    ensures
        ones_between(encoding(text), 256 * p, 256 * p + k) == (
        if p < consumed_len(text) && (text[p] as int) < k {
            1int
        } else {
            0int
        }),
    decreases k,
{
    if k > 0 {
        lemma_ones_block_partial(text, p, k - 1);
        let i = 256 * p + (k - 1);
        assert(i / 256 == p && i % 256 == k - 1) by (nonlinear_arith)
            requires
                0 <= k - 1 < 256,
                0 <= p,
                i == 256 * p + (k - 1),
        ;
        assert(0 <= i < 8192) by (nonlinear_arith)
            requires
                0 <= p < 32,
                0 < k <= 256,
                i == 256 * p + (k - 1),
        ;
        assert(encoding(text)[i] == encoded_bit(text, i));
    }
}

proof fn lemma_ones_blocks(text: Seq<u8>, p: int)
    requires
        0 <= p <= 32,
    ensures
        ones_between(encoding(text), 0, 256 * p) == (if p <= consumed_len(text) {
            p
        } else {
            consumed_len(text)
        }),
    decreases p,
{
    if p > 0 {
        lemma_ones_blocks(text, p - 1);
        lemma_ones_between_split(encoding(text), 0, 256 * (p - 1), 256 * p);
        lemma_ones_block_partial(text, p - 1, 256);
    }
}

/// Law: encoding is total and sets exactly one bit per consumed byte, so an
/// encoded vector holds exactly `min(32, |text|)` ones.
pub proof fn lemma_encoding_ones(text: Seq<u8>)
    ensures
        ones(encoding(text)) == consumed_len(text),
{
    lemma_ones_blocks(text, 32);
    assert(encoding(text).len() == 8192);
}

/// Law: only the first 32 bytes of a text reach the encoding — two texts
/// that agree on them encode to the same vector.
pub proof fn lemma_encoding_truncation(t1: Seq<u8>, t2: Seq<u8>)
    requires
        t1.len() >= 32,
        t2.len() >= 32,
        t1.subrange(0, 32) == t2.subrange(0, 32),
    ensures
        encoding(t1) == encoding(t2),
{
    assert forall|i: int| 0 <= i < 8192 implies encoded_bit(t1, i) == encoded_bit(t2, i) by {
        assert(0 <= i / 256 < 32) by (nonlinear_arith)
            requires
                0 <= i < 8192,
        ;
        assert(t1.subrange(0, 32)[i / 256] == t1[i / 256]);
        assert(t2.subrange(0, 32)[i / 256] == t2[i / 256]);
    }
    assert(encoding(t1) =~= encoding(t2));
}

/// Law: the empty text encodes to the all-zero vector.
pub proof fn lemma_encoding_empty(t: Seq<u8>)
    requires
        t.len() == 0,
    ensures
        forall|i: int| 0 <= i < 8192 ==> encoding(t)[i] == 0u8,
{
    assert forall|i: int| 0 <= i < 8192 implies encoding(t)[i] == 0u8 by {
        assert(encoding(t)[i] == encoded_bit(t, i));
    }
}

/// Encode `text` as the fixed one-hot vector: for each consumed byte `b` at
/// position `p`, entry `p * 256 + b` is one; every other entry is zero.
pub fn encode(text: &[u8]) -> (r: Vec<u8>)
    ensures
        r@ == encoding(text@),
{
    let mut r: Vec<u8> = Vec::new();
    let mut i: usize = 0;
    while i < INPUT_SIZE
        invariant
            i <= INPUT_SIZE,
            r@.len() == i,
            forall|j: int| 0 <= j < i ==> r@[j] == 0u8,
        decreases INPUT_SIZE - i,
    {
        r.push(0u8);
        i += 1;
    }
    let n = if text.len() < INPUT_BYTES {
        text.len()
    } else {
        INPUT_BYTES
    };
    let mut p: usize = 0;
    while p < n
        invariant
            p <= n,
            n == consumed_len(text@),
            n <= text@.len(),
            n <= 32,
            r@.len() == INPUT_SIZE,
            forall|j: int| 0 <= j < 8192 ==> r@[j] == (
                if j / 256 < p && text@[j / 256] as int == j % 256 { 1u8 } else { 0u8 }
            ),
        decreases n - p,
    {
        let b = text[p];
        let idx = p * BYTE_BINS + b as usize;
        proof {
            assert(idx == p * 256 + b);
            assert(idx / 256 == p && idx % 256 == b as int) by (nonlinear_arith)
                requires
                    idx == p * 256 + b,
                    b < 256,
                    0 <= p,
            ;
            assert(idx < 8192) by (nonlinear_arith)
                requires
                    idx == p * 256 + b,
                    b < 256,
                    p < 32,
            ;
        }
        let ghost old_r = r@;
        r[idx] = 1u8;
        proof {
            assert forall|j: int| 0 <= j < 8192 implies r@[j] == (
                if j / 256 < p + 1 && text@[j / 256] as int == j % 256 { 1u8 } else { 0u8 }
            ) by {
                lemma_fundamental_div_mod(j, 256);
                if j != idx {
                    assert(r@[j] == old_r[j]);
                    if j / 256 == p && text@[j / 256] as int == j % 256 {
                        assert(j == 256 * p + (b as int));
                        assert(j == idx);
                    }
                }
            }
        }
        p += 1;
    }
    proof {
        assert(r@ =~= encoding(text@));
    }
    r
}

} // verus!
