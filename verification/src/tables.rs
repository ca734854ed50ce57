//! The concurrent hash tables that back the server registry.
//!
//! The registry keeps its users and its nickname index in
//! `dashmap::DashMap`s. Everything below is trusted: each wrapper makes one
//! call into `dashmap` and states, over the names `user_entries` and
//! `nick_entries`, what that call does to the table's contents.
//!
//! The wrappers take `&mut` where `DashMap` itself takes `&self`: its
//! interior mutability cannot be described over a shared reference, so
//! the registry hands out exclusive access and every change is visible in
//! the contract.

use vstd::prelude::*;
use dashmap::DashMap;

use crate::state::{User, UserView, user_opt_view};

verus! {

/// `dashmap::DashMap`, declared so that it can stand in fields.
#[verifier::external_type_specification]
#[verifier::external_body]
#[verifier::reject_recursive_types(K)]
#[verifier::reject_recursive_types(V)]
#[verifier::reject_recursive_types(S)]
pub struct ExDashMap<K, V, S>(DashMap<K, V, S>);

/// The entries of the user table: user id to user record.
pub uninterp spec fn user_entries(m: DashMap<u64, User>) -> Map<u64, UserView>;

/// The entries of the nickname index: folded nickname to owning user id.
pub uninterp spec fn nick_entries(m: DashMap<Vec<u8>, u64>) -> Map<Seq<u8>, u64>;

/// `DashMap::new` for the user table: the new table holds no entries.
#[verifier::external_body]
pub(crate) fn user_table_new() -> (table: DashMap<u64, User>)
    ensures
        user_entries(table).dom().is_empty(),
{
    DashMap::new()
}

/// `DashMap::insert` on the user table: afterwards `k` maps to `v` and no
/// other entry has changed (an entry already at `k` is replaced).
#[verifier::external_body]
pub(crate) fn user_table_insert(m: &mut DashMap<u64, User>, k: u64, v: User)
    ensures
        user_entries(*final(m)) == user_entries(*old(m)).insert(k, v@),
{
    m.insert(k, v);
}

/// `DashMap::remove` on the user table: the entry at `k`, if any, is taken
/// out and handed back; the other entries stay.
#[verifier::external_body]
pub(crate) fn user_table_remove(m: &mut DashMap<u64, User>, k: u64) -> (r: Option<
    User,
>)
    ensures
        user_entries(*final(m)) == user_entries(*old(m)).remove(k),
        user_opt_view(r) == (if user_entries(*old(m)).contains_key(k) {
            Some(user_entries(*old(m))[k])
        } else {
            None
        }),
{
    match m.remove(&k) {
        Some((_, v)) => Some(v),
        None => None,
    }
}

/// `DashMap::get` on the user table, with the found record cloned out of
/// the read guard (the guard is released before returning). The derived
/// `Clone` of `User` copies every field, so the copy has the same view.
#[verifier::external_body]
pub(crate) fn user_table_get(m: &DashMap<u64, User>, k: u64) -> (r: Option<User>)
    ensures
        user_opt_view(r) == (if user_entries(*m).contains_key(k) {
            Some(user_entries(*m)[k])
        } else {
            None
        }),
{
    match m.get(&k) {
        Some(entry) => Some(entry.value().clone()),
        None => None,
    }
}

/// `DashMap::iter` on the user table, collected into a vector of
/// `(key, cloned value)` pairs. Every entry occurs exactly once; the order is
/// that of the table's shards and buckets, which this contract leaves open.
#[verifier::external_body]
pub(crate) fn user_table_entries(m: &DashMap<u64, User>) -> (r: Vec<(u64, User)>)
    ensures
        forall|i: int|
            0 <= i < r@.len() ==> #[trigger] user_entries(*m).contains_key(r@[i].0)
                && user_entries(*m)[r@[i].0] == r@[i].1@,
        forall|i: int, j: int|
            0 <= i < j < r@.len() ==> #[trigger] r@[i].0 != #[trigger] r@[j].0,
        forall|k: u64|
            #[trigger] user_entries(*m).contains_key(k) ==> exists|i: int|
                0 <= i < r@.len() && #[trigger] r@[i].0 == k,
{
    m.iter().map(|e| (*e.key(), e.value().clone())).collect()
}

/// `DashMap::new` for the nickname index: the new index holds no entries.
#[verifier::external_body]
pub(crate) fn nick_table_new() -> (table: DashMap<Vec<u8>, u64>)
    ensures
        nick_entries(table).dom().is_empty(),
{
    DashMap::new()
}

/// `DashMap::insert` on the nickname index: afterwards `k` maps to `v` and
/// no other entry has changed.
#[verifier::external_body]
pub(crate) fn nick_table_insert(m: &mut DashMap<Vec<u8>, u64>, k: Vec<u8>, v: u64)
    ensures
        nick_entries(*final(m)) == nick_entries(*old(m)).insert(k@, v),
{
    m.insert(k, v);
}

/// `DashMap::remove` on the nickname index: the entry at `k`, if any, is
/// taken out; the other entries stay.
#[verifier::external_body]
pub(crate) fn nick_table_remove(m: &mut DashMap<Vec<u8>, u64>, k: &Vec<u8>)
    ensures
        nick_entries(*final(m)) == nick_entries(*old(m)).remove(k@),
{
    m.remove(k);
}

/// `DashMap::iter` on the nickname index, collected into a vector of
/// `(cloned key, owner)` pairs. Every pair is an entry of the index and
/// every entry occurs in the vector; the order is that of the table's
/// shards and buckets, which this contract leaves open.
#[verifier::external_body]
pub(crate) fn nick_table_entries(m: &DashMap<Vec<u8>, u64>) -> (r: Vec<(Vec<u8>, u64)>)
    ensures
        forall|i: int|
            0 <= i < r@.len() ==> #[trigger] nick_entries(*m).contains_key(r@[i].0@)
                && nick_entries(*m)[r@[i].0@] == r@[i].1,
        forall|k: Seq<u8>|
            #[trigger] nick_entries(*m).contains_key(k) ==> exists|i: int|
                0 <= i < r@.len() && #[trigger] r@[i].0@ == k,
{
    m.iter().map(|e| (e.key().clone(), *e.value())).collect()
}

/// `DashMap::get` on the nickname index, with the owning id copied out of
/// the read guard (the guard is released before returning).
#[verifier::external_body]
pub(crate) fn nick_table_get(m: &DashMap<Vec<u8>, u64>, k: &Vec<u8>) -> (r: Option<
    u64,
>)
    ensures
        r == (if nick_entries(*m).contains_key(k@) {
            Some(nick_entries(*m)[k@])
        } else {
            None
        }),
{
    match m.get(k) {
        Some(entry) => Some(*entry.value()),
        None => None,
    }
}

} // verus!
