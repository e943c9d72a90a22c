//! A 128-bit value with two views: sixteen bytes, or four little-endian words.

use vstd::prelude::*;

verus! {

/// Size in bytes of a block and of a tag.
pub const TAG_SIZE: usize = 16;

/// The word that four bytes stand for, least significant byte first.
pub open spec fn le_word(b: Seq<u8>) -> u32 {
    (b[0] as u32) | ((b[1] as u32) << 8) | ((b[2] as u32) << 16) | ((b[3] as u32) << 24)
}

/// Byte `k` of `w`, counted from the least significant one, for `0 <= k < 4`.
pub open spec fn le_byte(w: u32, k: int) -> u8 {
    ((w >> ((8 * k) as u32)) & 0xff) as u8
}

/// The four words that sixteen bytes stand for.
#[verifier::opaque]
pub open spec fn words_of_bytes(b: Seq<u8>) -> Seq<u32> {
    Seq::new(4, |j: int| le_word(b.subrange(4 * j, 4 * j + 4)))
}

/// The sixteen bytes that four words stand for.
#[verifier::opaque]
pub open spec fn bytes_of_words(w: Seq<u32>) -> Seq<u8> {
    Seq::new(16, |i: int| le_byte(w[i / 4], i % 4))
}

/// Bytes to words and back gives the bytes.
pub proof fn lemma_bytes_round_trip(b: Seq<u8>)
    requires
        b.len() == 16,
    ensures
        bytes_of_words(words_of_bytes(b)) == b,
{
    reveal(words_of_bytes);
    reveal(bytes_of_words);
    let w = words_of_bytes(b);
    assert forall|i: int| 0 <= i < 16 implies bytes_of_words(w)[i] == b[i] by {
        let j = i / 4;
        let s = b.subrange(4 * j, 4 * j + 4);
        let (b0, b1, b2, b3) = (s[0], s[1], s[2], s[3]);
        let x = w[j];
        assert(x == (b0 as u32) | ((b1 as u32) << 8) | ((b2 as u32) << 16) | ((b3 as u32) << 24));
        assert({
            &&& ((x >> 0) & 0xff) as u8 == b0
            &&& ((x >> 8) & 0xff) as u8 == b1
            &&& ((x >> 16) & 0xff) as u8 == b2
            &&& ((x >> 24) & 0xff) as u8 == b3
        }) by (bit_vector)
            requires
                x == (b0 as u32) | ((b1 as u32) << 8) | ((b2 as u32) << 16) | ((b3 as u32) << 24),
        ;
    }
    assert(bytes_of_words(w) =~= b);
}

/// Words to bytes and back gives the words.
pub proof fn lemma_words_round_trip(w: Seq<u32>)
    requires
        w.len() == 4,
    ensures
        words_of_bytes(bytes_of_words(w)) == w,
{
    reveal(words_of_bytes);
    reveal(bytes_of_words);
    let b = bytes_of_words(w);
    assert forall|j: int| 0 <= j < 4 implies words_of_bytes(b)[j] == w[j] by {
        let s = b.subrange(4 * j, 4 * j + 4);
        let x = w[j];
        let (b0, b1, b2, b3) = (s[0], s[1], s[2], s[3]);
        assert(b0 == le_byte(x, 0) && b1 == le_byte(x, 1) && b2 == le_byte(x, 2) && b3 == le_byte(
            x,
            3,
        ));
        assert(x == (b0 as u32) | ((b1 as u32) << 8) | ((b2 as u32) << 16) | ((b3 as u32) << 24))
            by (bit_vector)
            requires
                b0 == ((x >> 0) & 0xff) as u8,
                b1 == ((x >> 8) & 0xff) as u8,
                b2 == ((x >> 16) & 0xff) as u8,
                b3 == ((x >> 24) & 0xff) as u8,
        ;
    }
    assert(words_of_bytes(b) =~= w);
}

/// A 128-bit value, kept as sixteen bytes and read as bytes or as words.
#[derive(Debug, Copy, Clone)]
pub struct TagData {
    bytes: [u8; TAG_SIZE],
}

fn load_word(b: &[u8; TAG_SIZE], j: usize) -> (w: u32)
    requires
        j < 4,
    ensures
        w == words_of_bytes(b@)[j as int],
{
    reveal(words_of_bytes);
    let at: usize = 4 * j;
    assert(b@.subrange(4 * j, 4 * j + 4) =~= seq![b[at as int], b[at + 1], b[at + 2], b[at + 3]]);
    (b[at] as u32) | ((b[at + 1] as u32) << 8) | ((b[at + 2] as u32) << 16) | ((b[at + 3] as u32)
        << 24)
}

fn store_word(w: u32) -> (b: [u8; 4])
    ensures
        b@ == seq![le_byte(w, 0), le_byte(w, 1), le_byte(w, 2), le_byte(w, 3)],
{
    assert((w >> 0) & 0xff < 256 && (w >> 8) & 0xff < 256 && (w >> 16) & 0xff < 256 && (w >> 24)
        & 0xff < 256) by (bit_vector);
    let b = [
        ((w >> 0) & 0xff) as u8,
        ((w >> 8) & 0xff) as u8,
        ((w >> 16) & 0xff) as u8,
        ((w >> 24) & 0xff) as u8,
    ];
    assert(b@ =~= seq![le_byte(w, 0), le_byte(w, 1), le_byte(w, 2), le_byte(w, 3)]);
    b
}

impl TagData {
    /// The sixteen bytes.
    pub closed spec fn bytes(&self) -> Seq<u8> {
        self.bytes@
    }

    /// The four words.
    pub open spec fn words(&self) -> Seq<u32> {
        words_of_bytes(self.bytes())
    }

    /// There are sixteen bytes and four words.
    pub proof fn lemma_len(&self)
        ensures
            self.bytes().len() == 16,
            self.words().len() == 4,
    {
        reveal(words_of_bytes);
    }

    /// The value that the four words `u32_` stand for.
    pub fn new_u32(u32_: [u32; 4]) -> (r: Self)
        ensures
            r.words() == u32_@,
            r.bytes() == bytes_of_words(u32_@),
    {
        let b0 = store_word(u32_[0]);
        let b1 = store_word(u32_[1]);
        let b2 = store_word(u32_[2]);
        let b3 = store_word(u32_[3]);
        let r = Self {
            bytes: [
                b0[0],
                b0[1],
                b0[2],
                b0[3],
                b1[0],
                b1[1],
                b1[2],
                b1[3],
                b2[0],
                b2[1],
                b2[2],
                b2[3],
                b3[0],
                b3[1],
                b3[2],
                b3[3],
            ],
        };
        proof {
            assert(r.bytes@ =~= bytes_of_words(u32_@)) by {
                reveal(bytes_of_words);
            }
            lemma_words_round_trip(u32_@);
        }
        r
    }

    /// The value that the sixteen bytes `u8_` stand for.
    pub fn new_u8(u8_: [u8; TAG_SIZE]) -> (r: Self)
        ensures
            r.bytes() == u8_@,
    {
        Self { bytes: u8_ }
    }

    /// The value zero.
    pub fn new() -> (r: Self)
        ensures
            r.bytes() == Seq::new(16, |i: int| 0u8),
            r.words() == Seq::new(4, |j: int| 0u32),
    {
        let r = Self { bytes: [0u8;16] };
        proof {
            reveal(words_of_bytes);
            assert(r.bytes@ =~= Seq::new(16, |i: int| 0u8));
            assert forall|j: int| 0 <= j < 4 implies r.words()[j] == 0u32 by {
                let s = r.bytes@.subrange(4 * j, 4 * j + 4);
                assert(s[0] == 0 && s[1] == 0 && s[2] == 0 && s[3] == 0);
                assert((0u8 as u32) | ((0u8 as u32) << 8) | ((0u8 as u32) << 16) | ((0u8 as u32)
                    << 24) == 0u32) by (bit_vector);
            }
            assert(r.words() =~= Seq::new(4, |j: int| 0u32));
        }
        r
    }

    /// The bytes of the value.
    pub fn ref_u8(&self) -> (r: &[u8; TAG_SIZE])
        ensures
            r@ == self.bytes(),
    {
        &self.bytes
    }

    /// The bytes of the value, to be written in place.
    pub fn mut_u8(&mut self) -> (r: &mut [u8; TAG_SIZE])
        ensures
            r@ == old(self).bytes(),
            final(self).bytes() == final(r)@,
    {
        &mut self.bytes
    }

    /// The words of the value.
    pub fn ref_u32(&self) -> (r: [u32; 4])
        ensures
            r@ == self.words(),
    {
        let r = [
            load_word(&self.bytes, 0),
            load_word(&self.bytes, 1),
            load_word(&self.bytes, 2),
            load_word(&self.bytes, 3),
        ];
        assert(r@ =~= self.words()) by {
            reveal(words_of_bytes);
        }
        r
    }

    /// Gives the value the words `u32_`.
    pub fn mut_u32(&mut self, u32_: [u32; 4])
        ensures
            final(self).words() == u32_@,
            final(self).bytes() == bytes_of_words(u32_@),
    {
        *self = Self::new_u32(u32_);
    }
}

spec fn tag_of_words(data: [u32; 4]) -> TagData {
    choose|t: TagData| t.bytes@ == bytes_of_words(data@)
}

impl Default for TagData {
    /// The value zero.
    fn default() -> (r: Self)
        ensures
            r.bytes() == Seq::new(16, |i: int| 0u8),
    {
        Self::new()
    }
}

impl From<[u32; 4]> for TagData {
    /// The value that the four words `data` stand for.
    fn from(data: [u32; 4]) -> (r: Self)
        ensures
            r.words() == data@,
            r.bytes() == bytes_of_words(data@),
    {
        let r = Self::new_u32(data);
        proof {
            let s = tag_of_words(data);
            assert(s.bytes@ == r.bytes@);
            assert(s.bytes =~= r.bytes);
        }
        r
    }
}

impl vstd::std_specs::convert::FromSpecImpl<[u32; 4]> for TagData {
    open spec fn obeys_from_spec() -> bool {
        true
    }

    closed spec fn from_spec(data: [u32; 4]) -> Self {
        tag_of_words(data)
    }
}

impl From<[u8; TAG_SIZE]> for TagData {
    /// The value that the sixteen bytes `data` stand for.
    fn from(data: [u8; TAG_SIZE]) -> (r: Self)
        ensures
            r.bytes() == data@,
    {
        Self { bytes: data }
    }
}

impl vstd::std_specs::convert::FromSpecImpl<[u8; TAG_SIZE]> for TagData {
    open spec fn obeys_from_spec() -> bool {
        true
    }

    closed spec fn from_spec(data: [u8; TAG_SIZE]) -> Self {
        Self { bytes: data }
    }
}

} // verus!
