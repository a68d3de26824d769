//! The hash map that a keyed store keeps its entries in.
//!
//! The map itself is `hashbrown`'s and is not verified. What the rest of the
//! crate knows of it is the contents, as a mathematical map from keys to the
//! views of the values, and the contracts of the handful of calls below.
use crate::values::{Value, ValueView};
use vstd::prelude::*;

verus! {

/// A hash map from string keys to values.
#[derive(Debug, PartialEq, Eq)]
#[verifier::external_body]
pub struct KvMap {
    inner: hashbrown::HashMap<String, Value>,
}

/// What a map holds: each key with the view of its value.
pub uninterp spec fn kv_view(m: KvMap) -> Map<Seq<char>, ValueView>;

impl Clone for KvMap {
    /// `hashbrown::HashMap::clone`: the copy holds what the map holds.
    #[verifier::external_body]
    fn clone(&self) -> (r: KvMap)
        ensures
            kv_view(r) == kv_view(*self),
    {
        KvMap { inner: self.inner.clone() }
    }
}

/// Whether `n` is the number of keys of `m`, which then has finitely many.
pub open spec fn counts_keys(n: usize, m: Map<Seq<char>, ValueView>) -> bool {
    m.dom().finite() && m.dom().len() == n
}

/// Whether `keys` names every key of `m`, each exactly once.
pub open spec fn lists_keys(keys: Seq<String>, m: Map<Seq<char>, ValueView>) -> bool {
    &&& counts_keys(keys.len() as usize, m)
    &&& keys.len() <= usize::MAX
    &&& forall|i: int| 0 <= i < keys.len() ==> m.dom().contains(#[trigger] keys[i]@)
    &&& forall|i: int, j: int| 0 <= i < j < keys.len() ==> keys[i]@ != keys[j]@
}

/// `hashbrown::HashMap::new`: the fresh map holds nothing.
#[verifier::external_body]
pub(crate) fn kv_new() -> (r: KvMap)
    ensures
        kv_view(r).dom().finite() && kv_view(r).dom() =~= Set::empty(),
{
    KvMap { inner: hashbrown::HashMap::new() }
}

/// `hashbrown::HashMap::len`: the number of keys, which is finite.
#[verifier::external_body]
pub(crate) fn kv_len(m: &KvMap) -> (r: usize)
    ensures
        counts_keys(r, kv_view(*m)),
{
    m.inner.len()
}

/// `hashbrown::HashMap::insert`: the key now maps to the new value, every
/// other key is untouched, and the value that the key had before, if any,
/// is handed back.
#[verifier::external_body]
pub(crate) fn kv_insert(m: &mut KvMap, k: String, v: Value) -> (r: Option<Value>)
    ensures
        kv_view(*final(m)) == kv_view(*old(m)).insert(k@, v@),
        match r {
            Some(p) => kv_view(*old(m)).dom().contains(k@) && p@ == kv_view(*old(m))[k@],
            None => !kv_view(*old(m)).dom().contains(k@),
        },
{
    m.inner.insert(k, v)
}

/// `hashbrown::HashMap::remove`: the key is gone, every other key is
/// untouched, and the value that the key had, if any, is handed back.
#[verifier::external_body]
pub(crate) fn kv_remove(m: &mut KvMap, k: &String) -> (r: Option<Value>)
    ensures
        kv_view(*final(m)) == kv_view(*old(m)).remove(k@),
        match r {
            Some(p) => kv_view(*old(m)).dom().contains(k@) && p@ == kv_view(*old(m))[k@],
            None => !kv_view(*old(m)).dom().contains(k@),
        },
{
    m.inner.remove(k)
}

/// `hashbrown::HashMap::get`: the value under the key, if the key is there.
#[verifier::external_body]
pub(crate) fn kv_get<'a>(m: &'a KvMap, k: &String) -> (r: Option<&'a Value>)
    ensures
        match r {
            Some(p) => kv_view(*m).dom().finite() && kv_view(*m).dom().contains(k@) && p@
                == kv_view(*m)[k@],
            None => !kv_view(*m).dom().contains(k@),
        },
{
    m.inner.get(k)
}

/// `hashbrown::HashMap::get_mut`: the value under the key, if the key is
/// there, for the caller to change in place. The map afterwards differs from
/// the map before only in what the caller leaves under that key.
#[verifier::external_body]
pub(crate) fn kv_get_mut<'a>(m: &'a mut KvMap, k: &String) -> (r: Option<&'a mut Value>)
    ensures
        match r {
            Some(p) => kv_view(*old(m)).dom().contains(k@) && (*p)@ == kv_view(*old(m))[k@]
                && kv_view(*final(m)) == kv_view(*old(m)).insert(k@, (*final(p))@),
            None => !kv_view(*old(m)).dom().contains(k@) && kv_view(*final(m)) == kv_view(
                *old(m),
            ),
        },
{
    m.inner.get_mut(k)
}

/// `hashbrown::HashMap::clear`: nothing is left.
#[verifier::external_body]
pub(crate) fn kv_clear(m: &mut KvMap)
    ensures
        kv_view(*final(m)).dom().finite() && kv_view(*final(m)).dom() =~= Set::empty(),
{
    m.inner.clear()
}

/// `hashbrown::HashMap::keys`: every key exactly once, in an order that is
/// not specified.
#[verifier::external_body]
pub(crate) fn kv_keys(m: &KvMap) -> (r: Vec<String>)
    ensures
        lists_keys(r@, kv_view(*m)),
{
    m.inner.keys().cloned().collect()
}

/// Whether `entries` holds every key of `m` exactly once, each with a value
/// that has the content which `m` holds under that key.
pub open spec fn lists_entries(entries: Seq<(String, Value)>, m: Map<Seq<char>, ValueView>) -> bool {
    &&& counts_keys(entries.len() as usize, m)
    &&& entries.len() <= usize::MAX
    &&& forall|i: int|
        0 <= i < entries.len() ==> m.dom().contains(#[trigger] entries[i].0@) && entries[i].1@
            == m[entries[i].0@]
    &&& forall|i: int, j: int| 0 <= i < j < entries.len() ==> entries[i].0@ != entries[j].0@
}

/// `hashbrown::HashMap::into_iter`: every entry exactly once, in an order
/// that is not specified.
#[verifier::external_body]
pub(crate) fn kv_into_entries(m: KvMap) -> (r: Vec<(String, Value)>)
    ensures
        lists_entries(r@, kv_view(m)),
{
    m.inner.into_iter().collect()
}

} // verus!
