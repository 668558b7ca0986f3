//! Trusted surface over `dashmap`'s concurrent hash map, which backs the
//! activity tracker's three stores. Each map's contents are named by an
//! opaque spec function, and every method the tracker calls goes through a
//! small wrapper whose contract speaks over that name.

use vstd::prelude::*;
use dashmap::DashMap;

verus! {

#[verifier::external_type_specification]
#[verifier::external_body]
#[verifier::reject_recursive_types(K)]
#[verifier::reject_recursive_types(V)]
#[verifier::reject_recursive_types(S)]
pub struct ExDashMap<K, V, S>(DashMap<K, V, S>);

/// What a user-id -> recent-timestamps map holds, as a mathematical map.
pub uninterp spec fn spam_map_contents(m: DashMap<u64, Vec<u64>>) -> Map<u64, Seq<u64>>;

/// What a scope-id -> activity-entries map holds; each entry is a
/// `(timestamp, user id)` pair.
pub uninterp spec fn activity_map_contents(m: DashMap<u64, Vec<(u64, u64)>>) -> Map<
    u64,
    Seq<(u64, u64)>,
>;

/// What a scope-id -> last-trigger-timestamp map holds.
pub uninterp spec fn cooldown_map_contents(m: DashMap<u64, u64>) -> Map<u64, u64>;

/// Relies on dashmap::DashMap::new: a freshly constructed map is empty.
#[verifier::external_body]
pub(crate) fn spam_map_new() -> (r: DashMap<u64, Vec<u64>>)
    ensures
        forall|k: u64| !spam_map_contents(r).contains_key(k),
{
    DashMap::new()
}

/// Relies on dashmap::DashMap::get: the value stored under the key, if any.
#[verifier::external_body]
pub(crate) fn spam_map_get(m: &DashMap<u64, Vec<u64>>, k: u64) -> (r: Option<Vec<u64>>)
    ensures
        match r {
            Some(v) => spam_map_contents(*m).contains_key(k) && v@ == spam_map_contents(*m)[k],
            None => !spam_map_contents(*m).contains_key(k),
        },
{
    match m.get(&k) {
        Some(entry) => Some(entry.value().clone()),
        None => None,
    }
}

/// Relies on dashmap::DashMap::insert: maps the key to the value and leaves
/// every other key alone.
#[verifier::external_body]
pub(crate) fn spam_map_insert(m: &mut DashMap<u64, Vec<u64>>, k: u64, v: Vec<u64>)
    ensures
        spam_map_contents(*final(m)) == spam_map_contents(*old(m)).insert(k, v@),
{
    m.insert(k, v);
}

/// Relies on dashmap::DashMap::remove: drops the key's entry, if any.
#[verifier::external_body]
pub(crate) fn spam_map_remove(m: &mut DashMap<u64, Vec<u64>>, k: u64)
    ensures
        spam_map_contents(*final(m)) == spam_map_contents(*old(m)).remove(k),
{
    m.remove(&k);
}

/// Relies on dashmap::DashMap::new: a freshly constructed map is empty.
#[verifier::external_body]
pub(crate) fn activity_map_new() -> (m: DashMap<u64, Vec<(u64, u64)>>)
    ensures
        forall|k: u64| !activity_map_contents(m).contains_key(k),
{
    DashMap::new()
}

/// Relies on dashmap::DashMap::get: the value stored under the key, if any.
#[verifier::external_body]
pub(crate) fn activity_map_get(m: &DashMap<u64, Vec<(u64, u64)>>, k: u64) -> (r: Option<
    Vec<(u64, u64)>,
>)
    ensures
        match r {
            Some(v) => activity_map_contents(*m).contains_key(k) && v@ == activity_map_contents(
                *m,
            )[k],
            None => !activity_map_contents(*m).contains_key(k),
        },
{
    match m.get(&k) {
        Some(entry) => Some(entry.value().clone()),
        None => None,
    }
}

/// Relies on dashmap::DashMap::insert: maps the key to the value and leaves
/// every other key alone.
#[verifier::external_body]
pub(crate) fn activity_map_insert(m: &mut DashMap<u64, Vec<(u64, u64)>>, k: u64, v: Vec<(u64, u64)>)
    ensures
        activity_map_contents(*final(m)) == activity_map_contents(*old(m)).insert(k, v@),
{
    m.insert(k, v);
}

/// Relies on dashmap::DashMap::remove: drops the key's entry, if any.
#[verifier::external_body]
pub(crate) fn activity_map_remove(m: &mut DashMap<u64, Vec<(u64, u64)>>, k: u64)
    ensures
        activity_map_contents(*final(m)) == activity_map_contents(*old(m)).remove(k),
{
    m.remove(&k);
}

/// Relies on dashmap::DashMap::new: a freshly constructed map is empty.
#[verifier::external_body]
pub(crate) fn cooldown_map_new() -> (m: DashMap<u64, u64>)
    ensures
        forall|k: u64| !cooldown_map_contents(m).contains_key(k),
{
    DashMap::new()
}

/// Relies on dashmap::DashMap::get: the value stored under the key, if any.
#[verifier::external_body]
pub(crate) fn cooldown_map_get(m: &DashMap<u64, u64>, k: u64) -> (r: Option<u64>)
    ensures
        match r {
            Some(t) => cooldown_map_contents(*m).contains_key(k) && t == cooldown_map_contents(
                *m,
            )[k],
            None => !cooldown_map_contents(*m).contains_key(k),
        },
{
    match m.get(&k) {
        Some(entry) => Some(*entry.value()),
        None => None,
    }
}

/// Relies on dashmap::DashMap::insert: maps the key to the value and leaves
/// every other key alone.
#[verifier::external_body]
pub(crate) fn cooldown_map_insert(m: &mut DashMap<u64, u64>, k: u64, v: u64)
    ensures
        cooldown_map_contents(*final(m)) == cooldown_map_contents(*old(m)).insert(k, v),
{
    m.insert(k, v);
}

/// Relies on dashmap::DashMap::remove: drops the key's entry, if any.
#[verifier::external_body]
pub(crate) fn cooldown_map_remove(m: &mut DashMap<u64, u64>, k: u64)
    ensures
        cooldown_map_contents(*final(m)) == cooldown_map_contents(*old(m)).remove(k),
{
    m.remove(&k);
}

} // verus!
