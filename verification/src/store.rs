//! The persistent map that holds the bindings, and what is taken on trust
//! about it.

use vstd::prelude::*;
use std::collections::hash_map::RandomState;
use crate::value::{DomainValue, ValueView};

verus! {

/// `im::HashMap`, the persistent hash map, as a type whose inside is not
/// looked into: what a map holds is spoken of through [`store_bindings`].
#[verifier::external_type_specification]
#[verifier::external_body]
#[verifier::reject_recursive_types(K)]
#[verifier::reject_recursive_types(V)]
#[verifier::reject_recursive_types(S)]
pub struct ExImHashMap<K, V, S>(im::HashMap<K, V, S>);

/// The key/value pairs that a store holds, each value by its content.
pub uninterp spec fn store_bindings(m: im::HashMap<u64, DomainValue, RandomState>) -> Map<u64, ValueView>;

/// `im::HashMap::new`: the map it returns holds no pair.
#[verifier::external_body]
pub(crate) fn store_new() -> (out: im::HashMap<u64, DomainValue, RandomState>)
    ensures
        forall|key: u64| !store_bindings(out).contains_key(key),
{
    im::HashMap::new()
}

/// `im::HashMap::get`: a reference to the value stored under `key`, or `None`
/// where the map holds no pair with that key.
#[verifier::external_body]
pub(crate) fn store_get(
    m: &im::HashMap<u64, DomainValue, RandomState>,
    key: u64,
) -> (found: Option<&DomainValue>)
    ensures
        match found {
            Some(v) => store_bindings(*m).contains_key(key) && v@ == store_bindings(*m)[key],
            None => !store_bindings(*m).contains_key(key),
        },
{
    m.get(&key)
}

/// `im::HashMap::update`: a new map that holds the pairs of `m` and the pair
/// `(key, value)`, which replaces an earlier pair with that key. The map `m`
/// itself is left as it was. Pairs that the new map shares with `m` may be
/// copied by the derived `Clone` of the value type, which keeps their content.
#[verifier::external_body]
pub(crate) fn store_update(
    m: &im::HashMap<u64, DomainValue, RandomState>,
    key: u64,
    value: DomainValue,
) -> (out: im::HashMap<u64, DomainValue, RandomState>)
    ensures
        store_bindings(out) == store_bindings(*m).insert(key, value@),
{
    m.update(key, value)
}

/// `Clone::clone` of `im::HashMap`: a map with the same pairs.
#[verifier::external_body]
pub(crate) fn store_clone(
    m: &im::HashMap<u64, DomainValue, RandomState>,
) -> (out: im::HashMap<u64, DomainValue, RandomState>)
    ensures
        store_bindings(out) == store_bindings(*m),
{
    m.clone()
}

} // verus!
