//! The engine: a context that absorbs a message piece by piece and commits to
//! its tag.

use crate::arx::{mix, permute, times_two, KeyData};
use crate::hasher::{hash_of_tag, hasher_data_from_tag};
use crate::model::{
    absorb, absorb_within_block, finalize, init, lemma_absorb_concat, lemma_absorb_within_block,
    lemma_advance_in_block, lemma_pad, lemma_wrapping_add_is_advance, pad, State,
};
use crate::subkeys::{AsKeyData, Subkeys};
use crate::tag::{bytes_of_words, lemma_bytes_round_trip, TagData, TAG_SIZE};
use vstd::prelude::*;

verus! {

/// Copies `n` bytes of `src`, from index `from` on, into `buf` at index `at`.
fn copy_bytes(buf: &mut [u8; TAG_SIZE], at: usize, src: &[u8], from: usize, n: usize)
    requires
        at + n <= TAG_SIZE,
        from + n <= src@.len(),
    ensures
        final(buf)@ == old(buf)@.take(at as int) + src@.subrange(from as int, from + n)
            + old(buf)@.skip(at + n),
{
    let total: usize = src.len();
    let mut j: usize = 0;
    while j < n
        invariant
            j <= n,
            at + n <= TAG_SIZE,
            from + n <= total,
            total == src@.len(),
            buf@ == old(buf)@.take(at as int) + src@.subrange(from as int, from + j)
                + old(buf)@.skip(at + j),
        decreases n - j,
    {
        buf[at + j] = src[from + j];
        j += 1;
        assert(buf@ =~= old(buf)@.take(at as int) + src@.subrange(from as int, from + j)
            + old(buf)@.skip(at + j));
    }
}

/// Pads the first `at` bytes of `buf` to a whole block.
fn pad_block(buf: &mut [u8; TAG_SIZE], at: usize)
    requires
        at < TAG_SIZE,
    ensures
        final(buf)@ == pad(old(buf)@.take(at as int)),
{
    buf[at] = 0x01;
    let mut j: usize = at + 1;
    while j < TAG_SIZE
        invariant
            at < j <= TAG_SIZE,
            buf@.take(at as int) == old(buf)@.take(at as int),
            buf@[at as int] == 1u8,
            forall|k: int| at < k < j ==> buf@[k] == 0u8,
        decreases TAG_SIZE - j,
    {
        buf[j] = 0;
        j += 1;
        assert(buf@.take(at as int) =~= old(buf)@.take(at as int));
    }
    reveal(pad);
    assert forall|k: int| 0 <= k < 16 implies buf@[k] == pad(old(buf)@.take(at as int))[k] by {
        if k < at {
            assert(buf@[k] == buf@.take(at as int)[k]);
        }
    }
    assert(buf@ =~= pad(old(buf)@.take(at as int)));
}

/// The state of one MAC computation.
#[derive(Debug, Copy, Clone)]
pub struct Context<K = KeyData> {
    tag: TagData,
    subkeys: Subkeys<K>,
    len: usize,
    m: TagData,
}

impl<K> View for Context<K> {
    type V = State;

    /// The running tag, the byte counter, and the bytes that wait in the buffer.
    closed spec fn view(&self) -> State {
        State {
            tag: self.tag.words(),
            count: self.len as nat,
            pending: self.m.bytes().take((self.len % 16) as int),
        }
    }
}

impl<K> Context<K> {
    /// The subkeys that the context was made with.
    pub closed spec fn subkeys(&self) -> Subkeys<K> {
        self.subkeys
    }

    /// The bytes of the running tag.
    pub closed spec fn tag_bytes(&self) -> Seq<u8> {
        self.tag.bytes()
    }

    /// The tag's bytes are those of its words, and the state is well formed.
    pub proof fn lemma_view(&self)
        ensures
            self@.wf(),
            self.tag_bytes() == bytes_of_words(self@.tag),
    {
        self.tag.lemma_len();
        self.m.lemma_len();
        lemma_bytes_round_trip(self.tag.bytes());
    }

    /// A fresh context under the key `k`, with the subkeys `subkeys`.
    pub fn new(k: KeyData, subkeys: Subkeys<K>) -> (r: Self)
        ensures
            r@ == init(k@),
            r.subkeys() == subkeys,
    {
        let r = Self { tag: TagData::new_u32(k), subkeys, len: 0, m: TagData::new() };
        assert(r@.pending =~= Seq::<u8>::empty());
        r
    }

    /// A fresh context under the key `k`, with the subkeys `k1` and `k2`.
    pub fn from_subkeys(k: KeyData, k1: K, k2: K) -> (r: Self)
        ensures
            r@ == init(k@),
            r.subkeys().k1 == k1,
            r.subkeys().k2 == k2,
    {
        Self::new(k, Subkeys::new(k1, k2))
    }

    /// The running tag; after `commit`, the tag of the message.
    pub fn tag(&self) -> (r: &[u8; TAG_SIZE])
        ensures
            r@ == bytes_of_words(self@.tag),
    {
        proof {
            self.lemma_view();
        }
        self.tag.ref_u8()
    }
}

impl Context<KeyData> {
    /// A fresh context under the key `k`, with the subkeys derived from it.
    pub fn from_key(k: KeyData) -> (r: Self)
        ensures
            r@ == init(k@),
            r.subkeys().k1@ == times_two(k@),
            r.subkeys().k2@ == times_two(times_two(k@)),
    {
        let subkeys = Subkeys::from_key(&k);
        Self::new(k, subkeys)
    }
}

impl<K> Context<K> {
    /// Absorbs the bytes of `m`.
    pub fn process(&mut self, m: &[u8])
        ensures
            final(self)@ == absorb(old(self)@, m@),
            final(self).subkeys() == old(self).subkeys(),
    {
        let mut i: usize = self.len & (TAG_SIZE - 1);
        let mut pos: usize = 0;
        proof {
            let n = self.len;
            assert(n & 15 == n % 16) by (bit_vector);
            assert(m@.take(0) =~= Seq::<u8>::empty());
        }
        while pos < m.len()
            invariant
                pos <= m@.len(),
                i < 16,
                pos < m@.len() ==> i == self.len % 16,
                self@ == absorb(old(self)@, m@.take(pos as int)),
                self.subkeys == old(self).subkeys,
            decreases m@.len() - pos,
        {
            let ghost s0 = self@;
            let ghost buf0 = self.m.bytes();
            proof {
                self.lemma_view();
            }
            if i == 0 && self.len > 0 {
                let mut t = self.tag.ref_u32();
                permute(&mut t);
                self.tag.mut_u32(t);
            }
            let rest: usize = m.len() - pos;
            let room: usize = TAG_SIZE - i;
            let blocklen: usize = if rest < room {
                rest
            } else {
                room
            };
            copy_bytes(self.m.mut_u8(), i, m, pos, blocklen);
            proof {
                lemma_wrapping_add_is_advance(self.len, blocklen);
            }
            self.len = self.len.wrapping_add(blocklen);
            if i + blocklen == TAG_SIZE {
                let w = self.m.ref_u32();
                let mut t = self.tag.ref_u32();
                mix(&mut t, &w);
                self.tag.mut_u32(t);
            }
            proof {
                let chunk = m@.subrange(pos as int, pos + blocklen);
                lemma_absorb_within_block(s0, chunk);
                lemma_advance_in_block(s0.count, blocklen as nat);
                self.m.lemma_len();
                assert(self.m.bytes() == buf0.take(i as int) + chunk + buf0.skip(i + blocklen));
                if i + blocklen == TAG_SIZE {
                    assert(self.m.bytes() =~= s0.pending + chunk);
                    assert(self@.pending =~= Seq::<u8>::empty());
                } else {
                    assert(self@.pending =~= s0.pending + chunk);
                }
                assert(self@ == absorb_within_block(s0, chunk));
                lemma_absorb_concat(old(self)@, m@.take(pos as int), chunk);
                assert(m@.take(pos as int) + chunk =~= m@.take(pos + blocklen));
            }
            pos += blocklen;
            i = 0;
        }
        assert(m@.take(m@.len() as int) =~= m@);
    }
}

impl<K: AsKeyData> Context<K> {
    /// Finalises: turns the running tag into the tag of what was absorbed.
    pub fn commit(&mut self)
        ensures
            final(self)@.tag == finalize(
                old(self)@,
                old(self).subkeys().k1.key_words(),
                old(self).subkeys().k2.key_words(),
            ),
            final(self)@.count == old(self)@.count,
            final(self)@.pending == old(self)@.pending,
            final(self).subkeys() == old(self).subkeys(),
    {
        let i: usize = self.len & (TAG_SIZE - 1);
        proof {
            let n = self.len;
            assert(n & 15 == n % 16) by (bit_vector);
            self.lemma_view();
        }
        let mut t = self.tag.ref_u32();
        let l: KeyData = if self.len != 0 && i == 0 {
            *self.subkeys.k1()
        } else {
            pad_block(self.m.mut_u8(), i);
            let w = self.m.ref_u32();
            mix(&mut t, &w);
            *self.subkeys.k2()
        };
        mix(&mut t, &l);
        permute(&mut t);
        mix(&mut t, &l);
        self.tag.mut_u32(t);
        proof {
            lemma_pad(old(self)@.pending);
        }
    }
}

impl<K: AsKeyData> Context<K> {
    /// The tag that `commit` would leave.
    pub open spec fn sealed(&self) -> Seq<u8> {
        bytes_of_words(
            finalize(self@, self.subkeys().k1.key_words(), self.subkeys().k2.key_words()),
        )
    }

    /// A copy of the context that borrows the subkeys.
    fn borrowed(&self) -> (r: Context<&KeyData>)
        ensures
            r@ == self@,
            r.sealed() == self.sealed(),
    {
        Context {
            tag: self.tag,
            subkeys: Subkeys::new(self.subkeys.k1(), self.subkeys.k2()),
            len: self.len,
            m: self.m,
        }
    }
}

impl<K: Clone + AsKeyData> core::hash::Hasher for Context<K> {
    /// Absorbs the bytes of `buf`.
    fn write(&mut self, buf: &[u8])
        ensures
            final(self)@ == absorb(old(self)@, buf@),
            final(self).subkeys() == old(self).subkeys(),
    {
        self.process(buf)
    }

    /// The hash of what was absorbed so far: the tag that `commit` would leave,
    /// reduced to 64 bits. The context itself stays as it is.
    fn finish(&self) -> (h: u64)
        ensures
            h == hash_of_tag(self.sealed()),
    {
        let mut s = self.borrowed();
        s.commit();
        hasher_data_from_tag(s.tag())
    }
}

} // verus!
