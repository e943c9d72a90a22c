//! The word permutation: add, rotate and xor on four 32-bit words.

use vstd::prelude::*;

verus! {

/// Number of rounds that one application of the permutation runs.
pub const ROUNDS: usize = 12;

/// A 128-bit value as four 32-bit words, least significant word first.
pub type KeyData = [u32; 4];

/// `x` rotated left by `b` bits, for `0 < b < 32`.
pub open spec fn rotl_spec(x: u32, b: u32) -> u32 {
    (x >> ((32 - b) as u32)) | (x << b)
}

/// The sum of `a` and `b` modulo 2^32.
pub open spec fn add32(a: u32, b: u32) -> u32 {
    ((a + b) % 0x1_0000_0000) as u32
}

/// One round of the permutation on the four words of `v`.
#[verifier::opaque]
pub open spec fn round(v: Seq<u32>) -> Seq<u32> {
    let a0 = add32(v[0], v[1]);
    let a1 = rotl_spec(v[1], 5) ^ a0;
    let b0 = rotl_spec(a0, 16);
    let a2 = add32(v[2], v[3]);
    let a3 = rotl_spec(v[3], 8) ^ a2;
    let c0 = add32(b0, a3);
    let b3 = rotl_spec(a3, 13) ^ c0;
    let b2 = add32(a2, a1);
    let b1 = rotl_spec(a1, 7) ^ b2;
    let c2 = rotl_spec(b2, 16);
    seq![c0, b1, c2, b3]
}

/// `n` rounds in a row.
pub open spec fn rounds(v: Seq<u32>, n: nat) -> Seq<u32>
    decreases n,
{
    if n == 0 {
        v
    } else {
        round(rounds(v, (n - 1) as nat))
    }
}

/// The permutation: `ROUNDS` rounds.
pub open spec fn permutation(v: Seq<u32>) -> Seq<u32> {
    rounds(v, ROUNDS as nat)
}

/// Word by word exclusive or of two four-word values.
#[verifier::opaque]
pub open spec fn xor4(a: Seq<u32>, b: Seq<u32>) -> Seq<u32> {
    seq![a[0] ^ b[0], a[1] ^ b[1], a[2] ^ b[2], a[3] ^ b[3]]
}

/// The 128-bit integer that four words stand for, least significant word first.
pub open spec fn u128_of_words(k: Seq<u32>) -> u128 {
    (k[0] as u128) | ((k[1] as u128) << 32) | ((k[2] as u128) << 64) | ((k[3] as u128) << 96)
}

/// The four words of a 128-bit integer, least significant word first.
pub open spec fn words_of_u128(x: u128) -> Seq<u32> {
    seq![
        (x & 0xffff_ffff) as u32,
        ((x >> 32) & 0xffff_ffff) as u32,
        ((x >> 64) & 0xffff_ffff) as u32,
        ((x >> 96) & 0xffff_ffff) as u32,
    ]
}

/// Multiplication by two in GF(2^128): a shift to the left by one bit, reduced
/// with the constant `0x87` when bit 127 leaves at the top.
pub open spec fn double(x: u128) -> u128 {
    if x >> 127 == 1 {
        (x << 1) ^ 0x87
    } else {
        x << 1
    }
}

/// The double, in GF(2^128), of a value given as four words.
pub open spec fn times_two(k: Seq<u32>) -> Seq<u32> {
    words_of_u128(double(u128_of_words(k)))
}

/// The permutation and the xor give four words.
pub proof fn lemma_four_words(a: Seq<u32>, b: Seq<u32>)
    ensures
        round(a).len() == 4,
        permutation(a).len() == 4,
        xor4(a, b).len() == 4,
{
    reveal(round);
    reveal(xor4);
    assert(ROUNDS == 12);
}

/// Rotates `x` left by `b` bits.
fn rotl(x: u32, b: u32) -> (r: u32)
    requires
        0 < b < 32,
    ensures
        r == rotl_spec(x, b),
{
    let rev: u32 = 32 - b;
    (x >> rev) | (x << b)
}

proof fn lemma_wrapping_add_is_add32(a: u32, b: u32)
    ensures
        a.wrapping_add(b) == add32(a, b),
{
}

/// Applies the permutation to `v` in place.
pub fn permute(v: &mut [u32; 4])
    ensures
        final(v)@ == permutation(old(v)@),
{
    let mut n: usize = 0;
    while n < ROUNDS
        invariant
            n <= ROUNDS,
            v@ == rounds(old(v)@, n as nat),
        decreases ROUNDS - n,
    {
        let ghost before = v@;
        proof {
            lemma_wrapping_add_is_add32(v[0], v[1]);
            lemma_wrapping_add_is_add32(v[2], v[3]);
        }
        v[0] = v[0].wrapping_add(v[1]);
        v[1] = rotl(v[1], 5);
        v[1] ^= v[0];
        v[0] = rotl(v[0], 16);

        v[2] = v[2].wrapping_add(v[3]);
        v[3] = rotl(v[3], 8);
        v[3] ^= v[2];

        proof {
            lemma_wrapping_add_is_add32(v[0], v[3]);
            lemma_wrapping_add_is_add32(v[2], v[1]);
        }
        v[0] = v[0].wrapping_add(v[3]);
        v[3] = rotl(v[3], 13);
        v[3] ^= v[0];

        v[2] = v[2].wrapping_add(v[1]);
        v[1] = rotl(v[1], 7);
        v[1] ^= v[2];
        v[2] = rotl(v[2], 16);

        n += 1;
        assert(v@ =~= round(before)) by {
            reveal(round);
        }
    }
}

/// Xors the words of `l` into `tag`.
pub fn mix(tag: &mut [u32; 4], l: &[u32; 4])
    ensures
        final(tag)@ == xor4(old(tag)@, l@),
{
    tag[0] ^= l[0];
    tag[1] ^= l[1];
    tag[2] ^= l[2];
    tag[3] ^= l[3];
    assert(tag@ =~= xor4(old(tag)@, l@)) by {
        reveal(xor4);
    }
}

/// Doubles `input` in GF(2^128).
pub fn timestwo(input: &[u32; 4]) -> (r: [u32; 4])
    ensures
        r@ == times_two(input@),
{
    let carry: u32 = if input[3] >> 31 == 1 { 0x87 } else { 0 };
    let r = [
        (input[0] << 1) ^ carry,
        (input[1] << 1) | (input[0] >> 31),
        (input[2] << 1) | (input[1] >> 31),
        (input[3] << 1) | (input[2] >> 31),
    ];
    proof {
        let k0 = input[0];
        let k1 = input[1];
        let k2 = input[2];
        let k3 = input[3];
        let x = u128_of_words(input@);
        assert(x == (k0 as u128) | ((k1 as u128) << 32) | ((k2 as u128) << 64) | ((k3 as u128)
            << 96));
        assert((x >> 127 == 1) <==> (k3 >> 31 == 1)) by (bit_vector)
            requires
                x == (k0 as u128) | ((k1 as u128) << 32) | ((k2 as u128) << 64) | ((k3 as u128)
                    << 96),
        ;
        let d = double(x);
        let c: u32 = carry;
        assert(d == (x << 1) ^ (c as u128)) by (bit_vector)
            requires
                d == if x >> 127 == 1 { (x << 1) ^ 0x87 } else { x << 1 },
                c == if x >> 127 == 1 { 0x87u32 } else { 0u32 },
        ;
        assert({
            &&& (d & 0xffff_ffff) as u32 == (k0 << 1) ^ c
            &&& ((d >> 32) & 0xffff_ffff) as u32 == (k1 << 1) | (k0 >> 31)
            &&& ((d >> 64) & 0xffff_ffff) as u32 == (k2 << 1) | (k1 >> 31)
            &&& ((d >> 96) & 0xffff_ffff) as u32 == (k3 << 1) | (k2 >> 31)
        }) by (bit_vector)
            requires
                x == (k0 as u128) | ((k1 as u128) << 32) | ((k2 as u128) << 64) | ((k3 as u128)
                    << 96),
                d == (x << 1) ^ (c as u128),
                c == 0x87u32 || c == 0u32,
        ;
        assert(r@ =~= times_two(input@));
    }
    r
}

} // verus!
