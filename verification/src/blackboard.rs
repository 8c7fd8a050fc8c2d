//! The blackboard: the persistent named-variable store. It is backed by
//! `vecmap::VecMap`, an insertion-order-preserving string-keyed map from
//! an outside crate; the map's behaviour is stated here as trusted
//! contracts over the entry sequence `bb_entries`.

use vstd::prelude::*;

use crate::htn_vm::{field_find, field_set, AbsVal, DynValue};

verus! {

#[verifier::external_type_specification]
#[verifier::external_body]
#[verifier::reject_recursive_types(K)]
#[verifier::reject_recursive_types(V)]
pub struct ExVecMap<K, V>(vecmap::VecMap<K, V>);

/// What a blackboard holds: its entries as key-value pairs, in
/// insertion order.
pub uninterp spec fn bb_entries(m: vecmap::VecMap<String, DynValue>) -> Seq<(Seq<char>, AbsVal)>;

/// Relies on `vecmap::VecMap::new`: a new map has no entries.
#[verifier::external_body]
pub(crate) fn bb_new() -> (m: vecmap::VecMap<String, DynValue>)
    ensures
        bb_entries(m) == Seq::<(Seq<char>, AbsVal)>::empty(),
{
    vecmap::VecMap::new()
}

/// Relies on `vecmap::VecMap::insert`: an existing key keeps its place
/// in the order and gets the new value; a new key is appended last.
#[verifier::external_body]
pub(crate) fn bb_insert(m: &mut vecmap::VecMap<String, DynValue>, key: String, value: DynValue)
    ensures
        bb_entries(*final(m)) == field_set(bb_entries(*old(m)), key@, value@),
{
    m.insert(key, value);
}

/// Relies on `vecmap::VecMap::get`: the value stored at the first entry
/// whose key matches, if any.
#[verifier::external_body]
pub(crate) fn bb_get<'a>(m: &'a vecmap::VecMap<String, DynValue>, key: &str) -> (r: Option<&'a DynValue>)
    ensures
        match r {
            Some(v) => field_find(bb_entries(*m), key@) >= 0 && v@ == bb_entries(*m)[field_find(
                bb_entries(*m),
                key@,
            )].1,
            None => field_find(bb_entries(*m), key@) == -1,
        },
{
    m.get(key)
}

} // verus!
