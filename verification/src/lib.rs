//! Chaskey: a keyed message authentication code over a 128-bit
//! add-rotate-xor permutation, with an incremental absorb/commit engine.

pub mod arx;
pub mod context;
pub mod hasher;
pub mod mac;
pub mod model;
pub mod subkeys;
pub mod tag;

pub use arx::{KeyData, ROUNDS};
pub use context::Context;
pub use subkeys::{AsKeyData, Subkeys};
pub use tag::TagData;
