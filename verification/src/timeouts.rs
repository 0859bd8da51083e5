//! The timers of packets that await their acknowledgement, by sequence number.

use rustc_hash::FxHashMap;
use vstd::prelude::*;

use crate::signal::TimerId;

verus! {

/// The hasher of `rustc_hash::FxHashMap`; nothing is known of what it holds.
#[verifier::external_type_specification]
#[verifier::external_body]
pub struct ExFxBuildHasher(rustc_hash::FxBuildHasher);

/// `HashMap::insert` on a `rustc_hash::FxHashMap` with integer keys: the key maps to the
/// value afterwards, nothing else changes, and what it mapped to before is handed out.
#[verifier::external_body]
pub(crate) fn insert(m: &mut FxHashMap<u32, TimerId>, key: u32, value: TimerId) -> (r: Option<
    TimerId,
>)
    ensures
        final(m)@ == old(m)@.insert(key, value),
        r == (if old(m)@.contains_key(key) {
            Some(old(m)@[key])
        } else {
            None
        }),
{
    m.insert(key, value)
}

/// `HashMap::remove` on a `rustc_hash::FxHashMap` with integer keys: the key maps to
/// nothing afterwards, nothing else changes, and what it mapped to before is handed out.
#[verifier::external_body]
pub(crate) fn remove(m: &mut FxHashMap<u32, TimerId>, key: u32) -> (r: Option<TimerId>)
    ensures
        final(m)@ == old(m)@.remove(key),
        r == (if old(m)@.contains_key(key) {
            Some(old(m)@[key])
        } else {
            None
        }),
{
    m.remove(&key)
}

/// `HashMap::contains_key` on a `rustc_hash::FxHashMap` with integer keys: whether the key
/// maps to anything.
#[verifier::external_body]
pub(crate) fn contains(m: &FxHashMap<u32, TimerId>, key: u32) -> (b: bool)
    ensures
        b == m@.contains_key(key),
{
    m.contains_key(&key)
}

/// `HashMap::len` on a `rustc_hash::FxHashMap` with integer keys: how many keys map to anything.
#[verifier::external_body]
pub(crate) fn count(m: &FxHashMap<u32, TimerId>) -> (n: usize)
    ensures
        n == m@.len(),
{
    m.len()
}

} // verus!
