//! Store writes: what a pipeline asks its key-value stores to record.
use vstd::prelude::*;
use crate::bigint::BigInteger;

verus! {

/// One store write: at `ordinal`, `key` takes `value`.
pub struct StoreWrite<V> {
    pub ordinal: u64,
    pub key: String,
    pub value: V,
}

/// The ordinals, keys and texts of a sequence of text writes.
pub open spec fn text_writes(s: Seq<StoreWrite<String>>) -> Seq<(u64, Seq<char>, Seq<char>)> {
    s.map_values(|w: StoreWrite<String>| (w.ordinal, w.key@, w.value@))
}

/// The ordinals, keys and values of a sequence of integer writes.
pub open spec fn int_writes(s: Seq<StoreWrite<BigInteger>>) -> Seq<(u64, Seq<char>, int)> {
    s.map_values(|w: StoreWrite<BigInteger>| (w.ordinal, w.key@, w.value@))
}

} // verus!
