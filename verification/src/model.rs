//! The mathematical model: the state of the engine, and what absorbing and
//! finalising do to it.

use crate::arx::{lemma_four_words, permutation, xor4};
use crate::tag::words_of_bytes;
use vstd::prelude::*;

verus! {

/// What the engine holds between two operations.
pub struct State {
    /// The running tag, as four words.
    pub tag: Seq<u32>,
    /// The byte counter. It counts modulo `counter_modulus()`.
    pub count: nat,
    /// The bytes of the block that is being filled: `count % 16` of them.
    pub pending: Seq<u8>,
}

/// The number of values that the byte counter can take.
pub open spec fn counter_modulus() -> nat {
    (usize::MAX + 1) as nat
}

/// The byte counter after `n` more bytes.
#[verifier::opaque]
pub open spec fn advance(count: nat, n: nat) -> nat {
    (count + n) % counter_modulus()
}

impl State {
    /// The tag has four words, the counter is one that the engine can hold,
    /// and the pending bytes are as many as the counter says.
    pub open spec fn wf(self) -> bool {
        &&& self.tag.len() == 4
        &&& self.count < counter_modulus()
        &&& self.pending.len() == self.count % 16
    }
}

/// The state of a fresh engine under the key `key`.
pub open spec fn init(key: Seq<u32>) -> State {
    State { tag: key, count: 0, pending: Seq::empty() }
}

/// The state after one more byte. A block that fills up is xored into the tag;
/// the tag is permuted when the first byte of a later block arrives.
pub open spec fn absorb_byte(s: State, b: u8) -> State {
    let i = s.count % 16;
    let tag = if i == 0 && s.count > 0 {
        permutation(s.tag)
    } else {
        s.tag
    };
    let block = s.pending.push(b);
    if i == 15 {
        State {
            tag: xor4(tag, words_of_bytes(block)),
            count: advance(s.count, 1),
            pending: Seq::empty(),
        }
    } else {
        State { tag, count: advance(s.count, 1), pending: block }
    }
}

/// The state after the bytes of `m`, in order.
pub open spec fn absorb(s: State, m: Seq<u8>) -> State
    decreases m.len(),
{
    if m.len() == 0 {
        s
    } else {
        absorb_byte(absorb(s, m.drop_last()), m.last())
    }
}

/// A partial block, padded to sixteen bytes: the bytes, then `0x01`, then zeros.
#[verifier::opaque]
pub open spec fn pad(rest: Seq<u8>) -> Seq<u8> {
    Seq::new(
        16,
        |i: int|
            if i < rest.len() {
                rest[i]
            } else if i == rest.len() {
                1u8
            } else {
                0u8
            },
    )
}

/// The tag that comes out of the state `s` under the subkeys `k1` and `k2`.
pub open spec fn finalize(s: State, k1: Seq<u32>, k2: Seq<u32>) -> Seq<u32> {
    if s.count != 0 && s.count % 16 == 0 {
        xor4(permutation(xor4(s.tag, k1)), k1)
    } else {
        let t = xor4(s.tag, words_of_bytes(pad(s.pending)));
        xor4(permutation(xor4(t, k2)), k2)
    }
}

proof fn lemma_modulus()
    ensures
        counter_modulus() % 16 == 0,
        counter_modulus() >= 0x1_0000_0000,
{
}

/// The counter keeps its place within the block when it wraps.
proof fn lemma_advance(count: nat, n: nat)
    requires
        count < counter_modulus(),
    ensures
        advance(count, n) < counter_modulus(),
        advance(count, n) % 16 == (count + n) % 16,
        advance(count, 0) == count,
        count + n < counter_modulus() ==> advance(count, n) == count + n,
{
    reveal(advance);
    lemma_modulus();
    let m = counter_modulus() as int;
    let x = (count + n) as int;
    assert(x % 16 == (x % m) % 16) by {
        vstd::arithmetic::div_mod::lemma_mod_mod(x, 16, m / 16);
        assert(16 * (m / 16) == m);
    }
    if count + n < counter_modulus() {
        vstd::arithmetic::div_mod::lemma_small_mod((count + n) as nat, counter_modulus());
    }
    vstd::arithmetic::div_mod::lemma_small_mod(count, counter_modulus());
}

/// Where the counter stands within its block after `n` more bytes.
pub proof fn lemma_advance_in_block(count: nat, n: nat)
    requires
        count < counter_modulus(),
    ensures
        advance(count, n) < counter_modulus(),
        advance(count, n) % 16 == (count % 16 + n) % 16,
{
    lemma_advance(count, n);
}

/// One more byte moves the counter on by one, as long as it does not wrap.
pub proof fn lemma_advance_one(count: nat)
    requires
        count + 1 < counter_modulus(),
    ensures
        advance(count, 1) == count + 1,
{
    lemma_advance(count, 1);
}

proof fn lemma_advance_twice(count: nat, a: nat, b: nat)
    ensures
        advance(advance(count, a), b) == advance(count, a + b),
{
    reveal(advance);
    lemma_modulus();
    let m = counter_modulus() as int;
    let x = (count + a) as int;
    let y = b as int;
    vstd::arithmetic::div_mod::lemma_add_mod_noop_right(y, x, m);
    assert((y + x % m) % m == (y + x) % m);
    assert(advance(count, a) as int == x % m);
    assert(advance(advance(count, a), b) as int == (x % m + y) % m);
    assert(advance(count, a + b) as int == (x + y) % m);
}

/// Addition that wraps at the counter's width is `advance`.
pub proof fn lemma_wrapping_add_is_advance(count: usize, n: usize)
    ensures
        count.wrapping_add(n) == advance(count as nat, n as nat),
{
    reveal(advance);
    let m = counter_modulus() as int;
    let x = count + n;
    if x >= m {
        vstd::arithmetic::div_mod::lemma_small_mod((x - m) as nat, m as nat);
        vstd::arithmetic::div_mod::lemma_mod_add_multiples_vanish(x - m, m);
    } else {
        vstd::arithmetic::div_mod::lemma_small_mod(x as nat, m as nat);
    }
}

/// One more byte keeps a state well formed.
pub proof fn lemma_absorb_byte_wf(s: State, b: u8)
    requires
        s.wf(),
    ensures
        absorb_byte(s, b).wf(),
{
    lemma_advance(s.count, 1);
    lemma_four_words(s.tag, s.tag);
    lemma_four_words(permutation(s.tag), words_of_bytes(s.pending.push(b)));
    lemma_four_words(s.tag, words_of_bytes(s.pending.push(b)));
}

/// Padding gives sixteen bytes that start with the bytes padded.
pub proof fn lemma_pad(rest: Seq<u8>)
    requires
        rest.len() < 16,
    ensures
        pad(rest).len() == 16,
        pad(rest).take(rest.len() as int) == rest,
{
    reveal(pad);
    assert(pad(rest).take(rest.len() as int) =~= rest);
}

/// Absorbing keeps a state well formed.
pub proof fn lemma_absorb_wf(s: State, m: Seq<u8>)
    requires
        s.wf(),
    ensures
        absorb(s, m).wf(),
    decreases m.len(),
{
    if m.len() > 0 {
        lemma_absorb_wf(s, m.drop_last());
        lemma_absorb_byte_wf(absorb(s, m.drop_last()), m.last());
    }
}

/// Absorbing `a` and then `b` is absorbing `a` followed by `b`.
pub proof fn lemma_absorb_concat(s: State, a: Seq<u8>, b: Seq<u8>)
    ensures
        absorb(absorb(s, a), b) == absorb(s, a + b),
    decreases b.len(),
{
    if b.len() == 0 {
        assert(a + b =~= a);
    } else {
        lemma_absorb_concat(s, a, b.drop_last());
        assert((a + b).drop_last() =~= a + b.drop_last());
        assert((a + b).last() == b.last());
    }
}

/// What a run of bytes that stays within one block does to a state.
pub open spec fn absorb_within_block(s: State, chunk: Seq<u8>) -> State {
    let i = s.count % 16;
    let tag = if i == 0 && s.count > 0 {
        permutation(s.tag)
    } else {
        s.tag
    };
    let block = s.pending + chunk;
    if i + chunk.len() == 16 {
        State {
            tag: xor4(tag, words_of_bytes(block)),
            count: advance(s.count, chunk.len()),
            pending: Seq::empty(),
        }
    } else {
        State { tag, count: advance(s.count, chunk.len()), pending: block }
    }
}

/// Bytes that do not cross a block boundary are absorbed in one step.
pub proof fn lemma_absorb_within_block(s: State, chunk: Seq<u8>)
    requires
        s.wf(),
        0 < chunk.len(),
        s.count % 16 + chunk.len() <= 16,
    ensures
        absorb(s, chunk) == absorb_within_block(s, chunk),
    decreases chunk.len(),
{
    let head = chunk.drop_last();
    let b = chunk.last();
    let i = s.count % 16;
    lemma_advance(s.count, head.len());
    lemma_advance_twice(s.count, head.len(), 1);
    assert(absorb(s, chunk) == absorb_byte(absorb(s, head), b));
    if head.len() == 0 {
        assert(absorb(s, head) == s);
        assert(s.pending.push(b) =~= s.pending + chunk);
    } else {
        lemma_absorb_within_block(s, head);
        let mid = absorb(s, head);
        assert(mid == absorb_within_block(s, head));
        assert(mid.count % 16 == i + head.len());
        assert(mid.pending == s.pending + head);
        assert(mid.pending.push(b) =~= s.pending + chunk);
    }
}

} // verus!
