//! The MAC of a whole message, stated block by block, and what ties the
//! incremental engine to it.

use crate::arx::{permutation, times_two, xor4};
use crate::hasher::hash_of_tag;
use crate::model::{
    absorb, absorb_byte, counter_modulus, finalize, init, lemma_absorb_concat, lemma_advance_one,
    pad, State,
};
use crate::tag::{bytes_of_words, words_of_bytes};
use vstd::prelude::*;

verus! {

/// The chaining value after the whole blocks of `blocks`: each block is xored
/// into the value, which is then permuted.
pub open spec fn chain(v: Seq<u32>, blocks: Seq<u8>) -> Seq<u32>
    decreases blocks.len(),
{
    if blocks.len() < 16 {
        v
    } else {
        let n = blocks.len() - 16;
        permutation(xor4(chain(v, blocks.take(n)), words_of_bytes(blocks.skip(n))))
    }
}

/// The length of the last block of a message of `n` bytes: sixteen where the
/// message is not empty and ends on a block boundary, else what is left over.
pub open spec fn last_len(n: nat) -> nat {
    if n > 0 && n % 16 == 0 {
        16
    } else {
        n % 16
    }
}

/// The tag words of `msg` under the key `key` and the subkeys `k1` and `k2`.
/// All blocks but the last are chained. A last block of sixteen bytes goes in
/// as it is, under `k1`; a shorter one is padded and goes in under `k2`.
pub open spec fn mac_words(key: Seq<u32>, k1: Seq<u32>, k2: Seq<u32>, msg: Seq<u8>) -> Seq<u32> {
    let cut = msg.len() - last_len(msg.len());
    let h = chain(key, msg.take(cut));
    let last = msg.skip(cut);
    if last.len() == 16 {
        xor4(permutation(xor4(xor4(h, words_of_bytes(last)), k1)), k1)
    } else {
        xor4(permutation(xor4(xor4(h, words_of_bytes(pad(last))), k2)), k2)
    }
}

/// The tag of `msg` under `key`: sixteen bytes.
pub open spec fn mac(key: Seq<u32>, msg: Seq<u8>) -> Seq<u8> {
    bytes_of_words(mac_words(key, times_two(key), times_two(times_two(key)), msg))
}

/// The state that the engine is in after `p`, in terms of the chaining value.
pub open spec fn state_after(key: Seq<u32>, p: Seq<u8>) -> State {
    let n = p.len();
    let cut = n - last_len(n);
    State {
        tag: if n > 0 && n % 16 == 0 {
            xor4(chain(key, p.take(cut)), words_of_bytes(p.skip(cut)))
        } else {
            chain(key, p.take(cut))
        },
        count: n,
        pending: p.skip(n - n % 16),
    }
}

/// A fresh engine that has absorbed `p` is in the state `state_after(key, p)`.
pub proof fn lemma_absorb_from_init(key: Seq<u32>, p: Seq<u8>)
    requires
        p.len() < counter_modulus(),
    ensures
        absorb(init(key), p) == state_after(key, p),
    decreases p.len(),
{
    let n = p.len();
    if n == 0 {
        assert(p.take(0) =~= p);
        assert(p.skip(0) =~= Seq::<u8>::empty());
    } else {
        let q = p.drop_last();
        let b = p.last();
        let m = q.len();
        let i = m % 16;
        lemma_absorb_from_init(key, q);
        let sq = state_after(key, q);
        lemma_advance_one(m);
        let s = absorb_byte(sq, b);
        if i == 15 {
            assert(q.take(m - 15) =~= p.take(n - 16));
            assert(q.skip(m - 15).push(b) =~= p.skip(n - 16));
            assert(p.skip(n as int) =~= Seq::<u8>::empty());
        } else if i == 0 {
            assert(q.skip(m as int).push(b) =~= p.skip(n - 1));
            assert(p.take(n - 1) =~= q);
            if m == 0 {
                assert(q.take(0) =~= q);
            }
        } else {
            assert(q.take(m - i) =~= p.take(n - (i + 1)));
            assert(q.skip(m - i).push(b) =~= p.skip(n - (i + 1)));
        }
    }
}

/// A fresh engine that absorbs a message and is finalised gives the tag words
/// of the message.
pub proof fn lemma_engine_computes_mac(key: Seq<u32>, k1: Seq<u32>, k2: Seq<u32>, msg: Seq<u8>)
    requires
        msg.len() < counter_modulus(),
    ensures
        finalize(absorb(init(key), msg), k1, k2) == mac_words(key, k1, k2, msg),
{
    lemma_absorb_from_init(key, msg);
}

/// The state after the fragments of `parts`, absorbed one after another.
pub open spec fn absorb_each(s: State, parts: Seq<Seq<u8>>) -> State
    decreases parts.len(),
{
    if parts.len() == 0 {
        s
    } else {
        absorb(absorb_each(s, parts.drop_last()), parts.last())
    }
}

/// The fragments of `parts` joined into one message.
pub open spec fn join(parts: Seq<Seq<u8>>) -> Seq<u8>
    decreases parts.len(),
{
    if parts.len() == 0 {
        Seq::empty()
    } else {
        join(parts.drop_last()) + parts.last()
    }
}

/// Absorbing a message fragment by fragment, however it is split, leaves the
/// state that absorbing it in one piece leaves, and so gives the same tag.
pub proof fn lemma_absorb_each_is_absorb_join(
    s: State,
    parts: Seq<Seq<u8>>,
    k1: Seq<u32>,
    k2: Seq<u32>,
)
    ensures
        absorb_each(s, parts) == absorb(s, join(parts)),
        finalize(absorb_each(s, parts), k1, k2) == finalize(absorb(s, join(parts)), k1, k2),
    decreases parts.len(),
{
    if parts.len() > 0 {
        lemma_absorb_each_is_absorb_join(s, parts.drop_last(), k1, k2);
        lemma_absorb_concat(s, join(parts.drop_last()), parts.last());
    }
}

/// A message absorbed in any number of fragments gives the tag of the whole
/// message.
pub proof fn lemma_fragments_give_same_tag(key: Seq<u32>, parts: Seq<Seq<u8>>)
    requires
        join(parts).len() < counter_modulus(),
    ensures
        bytes_of_words(
            finalize(
                absorb_each(init(key), parts),
                times_two(key),
                times_two(times_two(key)),
            ),
        ) == mac(key, join(parts)),
{
    lemma_absorb_each_is_absorb_join(
        init(key),
        parts,
        times_two(key),
        times_two(times_two(key)),
    );
    lemma_engine_computes_mac(key, times_two(key), times_two(times_two(key)), join(parts));
}

/// The tag depends on the key and the message alone: two runs on the same key
/// and the same message, however each is split, end in the same tag.
pub proof fn lemma_same_input_same_tag(key: Seq<u32>, first: Seq<Seq<u8>>, second: Seq<Seq<u8>>)
    requires
        join(first) == join(second),
    ensures
        finalize(absorb_each(init(key), first), times_two(key), times_two(times_two(key)))
            == finalize(
            absorb_each(init(key), second),
            times_two(key),
            times_two(times_two(key)),
        ),
{
    let k1 = times_two(key);
    let k2 = times_two(k1);
    lemma_absorb_each_is_absorb_join(init(key), first, k1, k2);
    lemma_absorb_each_is_absorb_join(init(key), second, k1, k2);
}

/// The 64-bit hash of `msg` under `key`: its tag, reduced.
pub open spec fn hash(key: Seq<u32>, msg: Seq<u8>) -> u64 {
    hash_of_tag(mac(key, msg))
}

/// Two messages with the same tag under one key have the same 64-bit hash.
pub proof fn lemma_equal_tags_equal_hashes(key: Seq<u32>, m1: Seq<u8>, m2: Seq<u8>)
    requires
        mac(key, m1) == mac(key, m2),
    ensures
        hash(key, m1) == hash(key, m2),
{
}

/// The 64-bit hash reads no more of a tag than its first eight bytes.
pub proof fn lemma_hash_reads_eight_bytes(t1: Seq<u8>, t2: Seq<u8>)
    requires
        t1.take(8) == t2.take(8),
    ensures
        hash_of_tag(t1) == hash_of_tag(t2),
{
}

} // verus!
