//! The two subkeys that finalisation mixes into the tag.

use crate::arx::{times_two, timestwo, KeyData};
use vstd::prelude::*;

verus! {

/// A value that holds, or refers to, one 128-bit key.
pub trait AsKeyData {
    /// The four words of the key.
    spec fn key_words(&self) -> Seq<u32>;

    /// The key itself.
    fn as_key_data(&self) -> (k: &KeyData)
        ensures
            k@ == self.key_words(),
    ;
}

impl AsKeyData for KeyData {
    open spec fn key_words(&self) -> Seq<u32> {
        self@
    }

    fn as_key_data(&self) -> (k: &KeyData) {
        self
    }
}

impl AsKeyData for &'_ KeyData {
    open spec fn key_words(&self) -> Seq<u32> {
        (**self)@
    }

    fn as_key_data(&self) -> (k: &KeyData) {
        *self
    }
}

/// The pair of subkeys: `k1` for a message that ends on a block boundary,
/// `k2` for one that is padded.
#[derive(Debug, Copy, Clone)]
pub struct Subkeys<K = KeyData> {
    pub k1: K,
    pub k2: K,
}

impl Subkeys<KeyData> {
    /// The subkeys of the key `k`: its double and the double of that.
    pub fn from_key(k: &KeyData) -> (r: Self)
        ensures
            r.k1@ == times_two(k@),
            r.k2@ == times_two(times_two(k@)),
    {
        let k1 = timestwo(k);
        Self::new(k1, timestwo(&k1))
    }
}

impl<K> Subkeys<K> {
    /// The pair made of `k1` and `k2`.
    pub fn new(k1: K, k2: K) -> (r: Self)
        ensures
            r.k1 == k1,
            r.k2 == k2,
    {
        Self { k1, k2 }
    }
}

impl<K: AsKeyData> Subkeys<K> {
    /// The first subkey.
    pub fn k1(&self) -> (k: &KeyData)
        ensures
            k@ == self.k1.key_words(),
    {
        self.k1.as_key_data()
    }

    /// The second subkey.
    pub fn k2(&self) -> (k: &KeyData)
        ensures
            k@ == self.k2.key_words(),
    {
        self.k2.as_key_data()
    }
}

} // verus!
