//! The reduction of a tag to 64 bits, for use as a keyed hash.

use crate::tag::TAG_SIZE;
use vstd::endian::{endianness, Endian};
use vstd::prelude::*;

verus! {

/// The integer that eight bytes stand for, least significant byte first.
pub open spec fn u64_le(b: Seq<u8>) -> u64 {
    (b[0] as u64) | ((b[1] as u64) << 8) | ((b[2] as u64) << 16) | ((b[3] as u64) << 24)
        | ((b[4] as u64) << 32) | ((b[5] as u64) << 40) | ((b[6] as u64) << 48)
        | ((b[7] as u64) << 56)
}

/// The integer that eight bytes stand for, most significant byte first.
pub open spec fn u64_be(b: Seq<u8>) -> u64 {
    u64_le(b.reverse())
}

/// The integer that eight bytes stand for in the byte order of the machine.
pub open spec fn u64_ne(b: Seq<u8>) -> u64 {
    match endianness() {
        Endian::Little => u64_le(b),
        Endian::Big => u64_be(b),
    }
}

/// The 64-bit hash that a tag reduces to: its first eight bytes, read in the
/// byte order of the machine.
pub open spec fn hash_of_tag(tag: Seq<u8>) -> u64 {
    u64_ne(tag.take(8))
}

/// `u64::from_ne_bytes` of the standard library. Trusted, not proved: the
/// result is the integer whose memory representation on this machine is `b`,
/// that is the little-endian reading of `b` on a little-endian machine and the
/// big-endian reading on a big-endian one.
#[verifier::external_body]
fn u64_from_ne_bytes(b: [u8; 8]) -> (r: u64)
    ensures
        r == u64_ne(b@),
{
    u64::from_ne_bytes(b)
}

/// Reduces a tag to 64 bits.
pub fn hasher_data_from_tag(tag: &[u8; TAG_SIZE]) -> (h: u64)
    ensures
        h == hash_of_tag(tag@),
{
    let head: [u8; 8] = [tag[0], tag[1], tag[2], tag[3], tag[4], tag[5], tag[6], tag[7]];
    assert(head@ =~= tag@.take(8));
    u64_from_ne_bytes(head)
}

} // verus!
