//! Shared runtime state: the user registry and the nickname index.
//!
//! Every mutation goes through a method that updates both the user map and
//! the nickname map together, so that callers never see one without the
//! other.

use vstd::prelude::*;
use dashmap::DashMap;

use crate::casemap::{Casemap, fold_seq};
use crate::tables::{
    nick_entries, nick_table_entries, nick_table_get, nick_table_insert, nick_table_new,
    nick_table_remove,
    user_entries, user_table_entries, user_table_get, user_table_insert, user_table_new,
    user_table_remove,
};

verus! {

/// Unique per-connection identifier, minted by the server.
#[derive(Clone, Copy, Debug, PartialEq, Eq, Structural, Hash, PartialOrd, Ord)]
pub struct UserId(u64);

impl View for UserId {
    type V = u64;

    closed spec fn view(&self) -> u64 {
        self.0
    }
}

impl UserId {
    /// Wrap a raw id.
    pub fn new(raw: u64) -> (r: UserId)
        ensures
            r@ == raw,
    {
        UserId(raw)
    }

    /// Convert to a raw `u64` for logging and debugging.
    pub fn get(self) -> (r: u64)
        ensures
            r == self@,
    {
        self.0
    }
}

/// What the registry records of a connected user.
#[derive(Clone, Debug)]
pub struct User {
    /// The connection's id.
    pub id: UserId,
    /// The nickname the user currently goes by, in its original case.
    pub nick: Option<Vec<u8>>,
    /// Whether the user has completed registration.
    pub registered: bool,
}

/// The abstract contents of a [`User`].
pub struct UserView {
    /// The raw user id.
    pub id: u64,
    /// The nickname, if one is set.
    pub nick: Option<Seq<u8>>,
    /// Whether registration is complete.
    pub registered: bool,
}

impl View for User {
    type V = UserView;

    open spec fn view(&self) -> UserView {
        UserView { id: self.id@, nick: nick_view(self.nick), registered: self.registered }
    }
}

/// The view of an optional user record.
pub open spec fn user_opt_view(u: Option<User>) -> Option<UserView> {
    match u {
        Some(v) => Some(v@),
        None => None,
    }
}

impl User {
    /// A freshly accepted user: no nickname, not yet registered.
    pub fn new(id: UserId) -> (r: User)
        ensures
            r.id == id,
            r.nick is None,
            !r.registered,
    {
        User { id, nick: None, registered: false }
    }

    /// A copy of this record, field by field.
    pub fn snapshot(&self) -> (r: User)
        ensures
            r@ == self@,
    {
        let nick = match &self.nick {
            Some(n) => {
                let c = n.clone();
                assert(c@ =~= n@);
                Some(c)
            },
            None => None,
        };
        User { id: self.id, nick, registered: self.registered }
    }

    /// Record the nickname the user now goes by.
    pub fn set_nick(&mut self, nick: Vec<u8>)
        ensures
            final(self).id == old(self).id,
            final(self).registered == old(self).registered,
            final(self)@.nick == Some(nick@),
    {
        self.nick = Some(nick);
    }

    /// Whether the user has completed registration.
    pub fn is_registered(&self) -> (r: bool)
        ensures
            r == self.registered,
    {
        self.registered
    }
}

/// Errors returned when mutating the [`ServerState`].
#[derive(Clone, Debug, PartialEq, Eq, Structural)]
pub enum StateError {
    /// A nickname collision: the requested nick is already owned by a
    /// different [`UserId`].
    NickInUse,
    /// The caller referenced a [`UserId`] that is no longer present.
    UnknownUser,
}

/// The abstract contents of a [`ServerState`].
pub struct ServerView {
    /// Live users, keyed by raw user id.
    pub users: Map<u64, UserView>,
    /// Folded nickname to the raw id of the user that claimed it.
    pub nicks: Map<Seq<u8>, u64>,
    /// The casemap used to fold nicknames.
    pub casemap: Casemap,
    /// The raw value of the next id to be minted.
    pub next_id: u64,
}

/// Shared server-wide state.
pub struct ServerState<C> {
    config: C,
    users: DashMap<u64, User>,
    nicks: DashMap<Vec<u8>, u64>,
    casemap: Casemap,
    next_user_id: u64,
}

impl<C> View for ServerState<C> {
    type V = ServerView;

    closed spec fn view(&self) -> ServerView {
        ServerView {
            users: user_entries(self.users),
            nicks: nick_entries(self.nicks),
            casemap: self.casemap,
            next_id: self.next_user_id,
        }
    }
}

/// The nickname index after `uid` gives up every nickname it holds: each
/// entry that names `uid` is dropped, the others stay.
pub open spec fn release_owned(nicks: Map<Seq<u8>, u64>, uid: u64) -> Map<Seq<u8>, u64> {
    Map::new(|k: Seq<u8>| nicks.contains_key(k) && nicks[k] != uid, |k: Seq<u8>| nicks[k])
}

/// The view of an optional nickname.
pub open spec fn nick_view(n: Option<Vec<u8>>) -> Option<Seq<u8>> {
    match n {
        Some(v) => Some(v@),
        None => None,
    }
}

/// The live user that `nick` resolves to under the active casemap.
pub open spec fn lookup_nick(s: ServerView, nick: Seq<u8>) -> Option<UserView> {
    let f = fold_seq(s.casemap, nick);
    if s.nicks.contains_key(f) && s.users.contains_key(s.nicks[f]) {
        Some(s.users[s.nicks[f]])
    } else {
        None
    }
}

/// The outcome of `claim_nick(uid, nick)` on state `s`: refused when the
/// folded nickname belongs to another user, refused when `uid` is not a
/// live user, accepted otherwise.
pub open spec fn claim_result(s: ServerView, uid: u64, nick: Seq<u8>) -> Result<(), StateError> {
    let f = fold_seq(s.casemap, nick);
    if s.nicks.contains_key(f) && s.nicks[f] != uid {
        Err(StateError::NickInUse)
    } else if !s.users.contains_key(uid) {
        Err(StateError::UnknownUser)
    } else {
        Ok(())
    }
}

/// The nickname index after `claim_nick(uid, nick)` on state `s`: when the
/// folded nickname is free and `uid` is live, `uid` gives up what it held
/// and takes the new slot; otherwise nothing changes.
pub open spec fn claim_nicks(s: ServerView, uid: u64, nick: Seq<u8>) -> Map<Seq<u8>, u64> {
    let f = fold_seq(s.casemap, nick);
    if s.nicks.contains_key(f) || !s.users.contains_key(uid) {
        s.nicks
    } else {
        release_owned(s.nicks, uid).insert(f, uid)
    }
}

/// The nickname index after `remove_user(id)` on state `s`: every
/// nickname the removed user held is released.
pub open spec fn removal_nicks(s: ServerView, id: u64) -> Map<Seq<u8>, u64> {
    if s.users.contains_key(id) {
        release_owned(s.nicks, id)
    } else {
        s.nicks
    }
}

/// The state after `remove_user(id)`.
pub open spec fn after_remove(s: ServerView, id: u64) -> ServerView {
    ServerView { users: s.users.remove(id), nicks: removal_nicks(s, id), ..s }
}

/// The state after `claim_nick(uid, nick)`.
pub open spec fn after_claim(s: ServerView, uid: u64, nick: Seq<u8>) -> ServerView {
    ServerView { nicks: claim_nicks(s, uid, nick), ..s }
}

/// The state after `insert_user(u)`: the record is filed under its id.
pub open spec fn after_insert(s: ServerView, u: UserView) -> ServerView {
    ServerView { users: s.users.insert(u.id, u), ..s }
}

/// The state after `set_user_nick(id, nick)`: a live user's record now
/// names `nick`; nothing else changes.
pub open spec fn after_set_nick(s: ServerView, id: u64, nick: Seq<u8>) -> ServerView {
    if s.users.contains_key(id) {
        ServerView {
            users: s.users.insert(id, UserView { nick: Some(nick), ..s.users[id] }),
            ..s
        }
    } else {
        s
    }
}

/// The state after minting an id: the counter moves on by one, wrapping.
pub open spec fn after_mint(s: ServerView) -> ServerView {
    ServerView { next_id: s.next_id.wrapping_add(1), ..s }
}

/// Every user in the view is filed under its own id.
pub open spec fn users_keyed_by_id(s: ServerView) -> bool {
    forall|k: u64| #[trigger] s.users.contains_key(k) ==> s.users[k].id == k
}

/// Every nickname in the index belongs to a live user.
pub open spec fn nicks_owned_by_live_users(s: ServerView) -> bool {
    forall|f: Seq<u8>| #[trigger] s.nicks.contains_key(f) ==> s.users.contains_key(s.nicks[f])
}

/// The registry's invariant, over its view: the user table is finite,
/// every user is filed under its own id, and every nickname in the index
/// belongs to a live user.
pub open spec fn view_wf(s: ServerView) -> bool {
    &&& s.users.dom().finite()
    &&& users_keyed_by_id(s)
    &&& nicks_owned_by_live_users(s)
}

/// The raw ids of the live users that have completed registration.
pub open spec fn registered_ids(users: Map<u64, UserView>) -> Set<u64> {
    users.dom().filter(|k: u64| users[k].registered)
}

impl<C> ServerState<C> {
    /// The registry's invariant (see [`view_wf`]).
    pub open spec fn wf(&self) -> bool {
        view_wf(self@)
    }

    /// Construct a fresh state snapshot from a validated configuration.
    pub fn new(config: C) -> (r: Self)
        ensures
            r.wf(),
            r@.users == Map::<u64, UserView>::empty(),
            r@.nicks == Map::<Seq<u8>, u64>::empty(),
            r@.casemap == Casemap::Rfc1459,
            r@.next_id == 1,
            *r.config() == config,
    {
        ServerState {
            config,
            users: user_table_new(),
            nicks: nick_table_new(),
            casemap: Casemap::Rfc1459,
            next_user_id: 1,
        }
    }

    /// The configuration this state was built from.
    pub closed spec fn config_spec(&self) -> &C {
        &self.config
    }

    /// Access the active configuration.
    #[verifier::when_used_as_spec(config_spec)]
    pub fn config(&self) -> (r: &C)
        ensures
            r == self.config_spec(),
    {
        &self.config
    }

    /// Active casemap for nickname and channel comparisons.
    pub fn casemap(&self) -> (r: Casemap)
        ensures
            r == self@.casemap,
    {
        self.casemap
    }

    /// Mint the next [`UserId`]. Ids are handed out in increasing order
    /// starting at 1, so zero is never issued until the counter wraps.
    pub fn next_user_id(&mut self) -> (r: UserId)
        requires
            old(self).wf(),
        ensures
            final(self).wf(),
            r@ == old(self)@.next_id,
            final(self)@ == after_mint(old(self)@),
            final(self).config() == old(self).config(),
    {
        let id = self.next_user_id;
        self.next_user_id = id.wrapping_add(1);
        UserId(id)
    }

    /// Insert a freshly-accepted (pre-registration) user. A record already
    /// filed under the same id is replaced.
    pub fn insert_user(&mut self, user: User)
        requires
            old(self).wf(),
        ensures
            final(self).wf(),
            final(self)@ == after_insert(old(self)@, user@),
            final(self).config() == old(self).config(),
    {
        let key = user.id.0;
        user_table_insert(&mut self.users, key, user);
        assert(user_entries(self.users).dom() == user_entries(old(self).users).dom().insert(key));
    }

    /// Remove a user and release any nickname it held. Used when a
    /// connection closes. Idempotent.
    pub fn remove_user(&mut self, id: UserId) -> (r: Option<User>)
        requires
            old(self).wf(),
        ensures
            final(self).wf(),
            user_opt_view(r) == (if old(self)@.users.contains_key(id@) {
                Some(old(self)@.users[id@])
            } else {
                None
            }),
            final(self)@ == after_remove(old(self)@, id@),
            final(self).config() == old(self).config(),
    {
        let removed = user_table_remove(&mut self.users, id.0);
        match removed {
            None => None,
            Some(user) => {
                release_owned_nicks(&mut self.nicks, id.0);
                proof {
                    assert(self@.users =~= old(self)@.users.remove(id@));
                    assert(self@.nicks =~= release_owned(old(self)@.nicks, id@));
                }
                Some(user)
            },
        }
    }

    /// Record that live user `id` now goes by `nick` (its own spelling),
    /// as a connection does once a NICK change has been claimed. Returns
    /// whether the user was live; the nickname index is not touched.
    pub fn set_user_nick(&mut self, id: UserId, nick: Vec<u8>) -> (r: bool)
        requires
            old(self).wf(),
        ensures
            final(self).wf(),
            r == old(self)@.users.contains_key(id@),
            final(self)@ == after_set_nick(old(self)@, id@, nick@),
            final(self).config() == old(self).config(),
    {
        match user_table_get(&self.users, id.0) {
            Some(user) => {
                let mut user = user;
                user.set_nick(nick);
                user_table_insert(&mut self.users, id.0, user);
                proof {
                    assert(self@.users.dom() =~= old(self)@.users.dom());
                    assert(self@ == after_set_nick(old(self)@, id@, nick@));
                }
                true
            },
            None => false,
        }
    }

    /// Look up a live [`User`] by id.
    pub fn user(&self, id: UserId) -> (r: Option<User>)
        ensures
            user_opt_view(r) == (if self@.users.contains_key(id@) {
                Some(self@.users[id@])
            } else {
                None
            }),
    {
        user_table_get(&self.users, id.0)
    }

    /// Look up a live [`User`] by nickname using the active casemap.
    pub fn user_by_nick(&self, nick: &[u8]) -> (r: Option<User>)
        ensures
            user_opt_view(r) == lookup_nick(self@, nick@),
    {
        let folded = self.casemap.fold(nick);
        match nick_table_get(&self.nicks, &folded) {
            Some(owner) => user_table_get(&self.users, owner),
            None => None,
        }
    }

    /// Reserve `nick` for `user_id`. Fails if the nickname is already
    /// owned by a different user. Releases any prior nickname the user
    /// held.
    pub fn claim_nick(&mut self, user_id: UserId, nick: &[u8]) -> (r: Result<(), StateError>)
        requires
            old(self).wf(),
        ensures
            final(self).wf(),
            r == claim_result(old(self)@, user_id@, nick@),
            final(self)@ == after_claim(old(self)@, user_id@, nick@),
            final(self).config() == old(self).config(),
    {
        let folded = self.casemap.fold(nick);
        // If the slot exists and belongs to somebody else, refuse.
        match nick_table_get(&self.nicks, &folded) {
            Some(owner) => {
                if owner != user_id.0 {
                    return Err(StateError::NickInUse);
                }
                // Same user re-claiming its own nick: no-op (an owner in
                // the index is always a live user).
                return Ok(());
            },
            None => {},
        }
        if user_table_get(&self.users, user_id.0).is_none() {
            return Err(StateError::UnknownUser);
        }
        // Release whatever the user held before, then take the new slot.
        release_owned_nicks(&mut self.nicks, user_id.0);
        nick_table_insert(&mut self.nicks, folded, user_id.0);
        proof {
            assert(self@.nicks =~= claim_nicks(old(self)@, user_id@, nick@));
        }
        Ok(())
    }

    /// Count currently-registered users. O(n); call sparingly.
    pub fn registered_count(&self) -> (r: usize)
        requires
            self.wf(),
        ensures
            r == registered_ids(self@.users).len(),
            r <= self@.users.len(),
    {
        proof {
            law_registered_count_bounded(self@);
        }
        let entries = user_table_entries(&self.users);
        let ghost users = user_entries(self.users);
        let mut count: usize = 0;
        let mut i: usize = 0;
        while i < entries.len()
            invariant
                0 <= i <= entries@.len(),
                users == user_entries(self.users),
                users.dom().finite(),
                forall|j: int|
                    0 <= j < entries@.len() ==> #[trigger] users.contains_key(entries@[j].0)
                        && users[entries@[j].0] == entries@[j].1@,
                forall|j: int, k: int|
                    0 <= j < k < entries@.len() ==> #[trigger] entries@[j].0
                        != #[trigger] entries@[k].0,
                count == counted_keys(entries@, i as int).len(),
                counted_keys(entries@, i as int).finite(),
                count <= i,
            decreases entries@.len() - i,
        {
            proof {
                lemma_counted_keys_bounded(entries@, i as int);
            }
            if entries[i].1.registered {
                count = count + 1;
            }
            i = i + 1;
        }
        proof {
            let n = entries@.len() as int;
            assert forall|k: u64| #[trigger]
                registered_ids(users).contains(k) <==> counted_keys(entries@, n).contains(k) by {
                lemma_counted_keys_contains(entries@, n, k);
                if users.contains_key(k) {
                    let j = choose|j: int| 0 <= j < entries@.len() && #[trigger] entries@[j].0 == k;
                    assert(users.contains_key(entries@[j].0));
                }
            }
            assert(registered_ids(users) =~= counted_keys(entries@, n));
        }
        count
    }

    /// Snapshot the live users. Each user occurs exactly once; the order
    /// follows the user table and is left open.
    pub fn users(&self) -> (r: Vec<User>)
        requires
            self.wf(),
        ensures
            r@.len() == self@.users.len(),
            forall|i: int|
                0 <= i < r@.len() ==> #[trigger] self@.users.contains_key(r@[i].id@)
                    && self@.users[r@[i].id@] == r@[i]@,
            forall|i: int, j: int|
                0 <= i < j < r@.len() ==> #[trigger] r@[i].id@ != #[trigger] r@[j].id@,
    {
        let entries = user_table_entries(&self.users);
        let ghost users = user_entries(self.users);
        let mut out: Vec<User> = Vec::new();
        let mut i: usize = 0;
        while i < entries.len()
            invariant
                0 <= i <= entries@.len(),
                users == user_entries(self.users),
                self.wf(),
                out@.len() == i,
                forall|j: int|
                    0 <= j < entries@.len() ==> #[trigger] users.contains_key(entries@[j].0)
                        && users[entries@[j].0] == entries@[j].1@,
                forall|j: int| 0 <= j < i ==> #[trigger] out@[j]@ == entries@[j].1@,
            decreases entries@.len() - i,
        {
            let pair = &entries[i];
            out.push(pair.1.snapshot());
            i = i + 1;
        }
        proof {
            let keys = entries@.map_values(|e: (u64, User)| e.0);
            assert(keys.no_duplicates()) by {
                assert forall|a: int, b: int|
                    0 <= a < keys.len() && 0 <= b < keys.len() && a != b implies keys[a]
                    != keys[b] by {
                    if a < b {
                        assert(entries@[a].0 != entries@[b].0);
                    } else {
                        assert(entries@[b].0 != entries@[a].0);
                    }
                }
            }
            keys.unique_seq_to_set();
            assert forall|k: u64| #[trigger] keys.to_set().contains(k) <==> users.contains_key(k) by {
                if users.contains_key(k) {
                    let j = choose|j: int| 0 <= j < entries@.len() && #[trigger] entries@[j].0 == k;
                    assert(keys[j] == k);
                }
                if keys.to_set().contains(k) {
                    let j = choose|j: int| 0 <= j < keys.len() && keys[j] == k;
                    assert(users.contains_key(entries@[j].0));
                }
            }
            assert(keys.to_set() =~= users.dom());
            assert forall|i: int| 0 <= i < out@.len() implies out@[i].id@ == entries@[i].0 by {
                let k = entries@[i].0;
                assert(user_entries(self.users).contains_key(k));
                assert(user_entries(self.users)[k].id == k);
                assert(out@[i]@ == entries@[i].1@);
                assert(out@[i]@.id == out@[i].id@);
            }
            assert forall|i: int| 0 <= i < out@.len() implies #[trigger] self@.users.contains_key(
                out@[i].id@,
            ) && self@.users[out@[i].id@] == out@[i]@ by {
                assert(out@[i].id@ == entries@[i].0);
                assert(users.contains_key(entries@[i].0));
            }
            assert forall|i: int, j: int| 0 <= i < j < out@.len() implies out@[i].id@
                != out@[j].id@ by {
                assert(out@[i].id@ == entries@[i].0);
                assert(out@[j].id@ == entries@[j].0);
            }
        }
        out
    }
}

/// Drop every entry of the nickname index that names `uid`.
fn release_owned_nicks(nicks: &mut DashMap<Vec<u8>, u64>, uid: u64)
    ensures
        nick_entries(*final(nicks)) == release_owned(nick_entries(*old(nicks)), uid),
{
    let ghost start = nick_entries(*nicks);
    let entries = nick_table_entries(nicks);
    let mut i: usize = 0;
    while i < entries.len()
        invariant
            0 <= i <= entries@.len(),
            forall|j: int|
                0 <= j < entries@.len() ==> #[trigger] start.contains_key(entries@[j].0@)
                    && start[entries@[j].0@] == entries@[j].1,
            forall|k: Seq<u8>|
                #[trigger] start.contains_key(k) ==> exists|j: int|
                    0 <= j < entries@.len() && #[trigger] entries@[j].0@ == k,
            forall|k: Seq<u8>|
                #[trigger] nick_entries(*nicks).contains_key(k) ==> start.contains_key(k)
                    && nick_entries(*nicks)[k] == start[k],
            forall|k: Seq<u8>|
                #[trigger] start.contains_key(k) && start[k] != uid ==> nick_entries(
                    *nicks,
                ).contains_key(k),
            forall|j: int|
                0 <= j < i && #[trigger] entries@[j].1 == uid ==> !nick_entries(
                    *nicks,
                ).contains_key(entries@[j].0@),
        decreases entries@.len() - i,
    {
        if entries[i].1 == uid {
            nick_table_remove(nicks, &entries[i].0);
        }
        i = i + 1;
    }
    proof {
        assert forall|k: Seq<u8>| #[trigger] nick_entries(*nicks).contains_key(k) <==> release_owned(
            start,
            uid,
        ).contains_key(k) by {
            if start.contains_key(k) && start[k] == uid {
                let j = choose|j: int| 0 <= j < entries@.len() && #[trigger] entries@[j].0@ == k;
                assert(start.contains_key(entries@[j].0@));
            }
        }
        assert(nick_entries(*nicks) =~= release_owned(start, uid));
    }
}

/// The ids among the first `n` entries whose user is registered.
pub open spec fn counted_keys(entries: Seq<(u64, User)>, n: int) -> Set<u64>
    decreases n,
{
    if n <= 0 {
        Set::empty()
    } else {
        let prev = counted_keys(entries, n - 1);
        if entries[n - 1].1.registered {
            prev.insert(entries[n - 1].0)
        } else {
            prev
        }
    }
}

proof fn lemma_counted_keys_contains(entries: Seq<(u64, User)>, n: int, k: u64)
    requires
        0 <= n <= entries.len(),
    ensures
        counted_keys(entries, n).contains(k) <==> exists|j: int|
            0 <= j < n && #[trigger] entries[j].0 == k && entries[j].1.registered,
    decreases n,
{
    if n > 0 {
        lemma_counted_keys_contains(entries, n - 1, k);
        if entries[n - 1].0 == k && entries[n - 1].1.registered {
            assert(counted_keys(entries, n).contains(k));
        }
        if counted_keys(entries, n - 1).contains(k) {
            let j = choose|j: int| 0 <= j < n - 1 && #[trigger] entries[j].0 == k && entries[j].1.registered;
            assert(0 <= j < n && entries[j].0 == k && entries[j].1.registered);
        }
    }
}

proof fn lemma_counted_keys_bounded(entries: Seq<(u64, User)>, n: int)
    requires
        0 <= n < entries.len(),
        forall|j: int, k: int| 0 <= j < k < entries.len() ==> #[trigger] entries[j].0 != #[trigger] entries[k].0,
        counted_keys(entries, n).finite(),
    ensures
        !counted_keys(entries, n).contains(entries[n].0),
        counted_keys(entries, n + 1).finite(),
        counted_keys(entries, n + 1).len() == counted_keys(entries, n).len() + (if entries[n].1.registered { 1int } else { 0int }),
{
    lemma_counted_keys_contains(entries, n, entries[n].0);
    if counted_keys(entries, n).contains(entries[n].0) {
        let j = choose|j: int| 0 <= j < n && #[trigger] entries[j].0 == entries[n].0 && entries[j].1.registered;
        assert(entries[j].0 != entries[n].0);
    }
}

} // verus!

verus! {

/// The state after `n` successive mints.
pub open spec fn after_mints(s: ServerView, n: nat) -> ServerView
    decreases n,
{
    if n == 0 {
        s
    } else {
        after_mint(after_mints(s, (n - 1) as nat))
    }
}

proof fn lemma_after_mints_counts_up(s: ServerView, n: nat)
    requires
        s.next_id + n <= u64::MAX,
    ensures
        after_mints(s, n).next_id == s.next_id + n,
    decreases n,
{
    if n > 0 {
        lemma_after_mints_counts_up(s, (n - 1) as nat);
    }
}

/// Ids are handed out in increasing order and zero is never issued: from
/// a fresh state, the `i`-th mint (counting from zero) gives `i + 1`, so
/// any two mints give different, non-zero ids, until the counter reaches
/// the top of `u64`.
pub proof fn law_minted_ids_are_unique_and_nonzero(s: ServerView, i: nat, j: nat)
    requires
        s.next_id == 1,
        i < j < u64::MAX,
    ensures
        after_mints(s, i).next_id == i + 1,
        after_mints(s, j).next_id == j + 1,
        after_mints(s, i).next_id != 0,
        after_mints(s, i).next_id != after_mints(s, j).next_id,
{
    lemma_after_mints_counts_up(s, i);
    lemma_after_mints_counts_up(s, j);
}

/// A lookup by id gives back the record that was last inserted for it.
pub proof fn law_insert_then_lookup(s: ServerView, u: UserView)
    ensures
        after_insert(s, u).users.contains_key(u.id),
        after_insert(s, u).users[u.id] == u,
{
}

/// Nicknames are casemap-aware: once `uid` has claimed `nick`, every name
/// that folds to the same form resolves to that user.
pub proof fn law_claim_then_lookup_casemap_aware(
    s: ServerView,
    uid: u64,
    nick: Seq<u8>,
    other: Seq<u8>,
)
    requires
        claim_result(s, uid, nick) == Ok::<(), StateError>(()),
        s.users.contains_key(uid),
        fold_seq(s.casemap, other) == fold_seq(s.casemap, nick),
    ensures
        lookup_nick(after_claim(s, uid, nick), other) == Some(s.users[uid]),
{
}

/// A nickname held by one user cannot be claimed by another: the claim is
/// refused with `NickInUse` and nothing changes.
pub proof fn law_nick_collision_rejected(s: ServerView, owner: u64, uid: u64, nick: Seq<u8>)
    requires
        s.nicks.contains_key(fold_seq(s.casemap, nick)),
        s.nicks[fold_seq(s.casemap, nick)] == owner,
        owner != uid,
    ensures
        claim_result(s, uid, nick) == Err::<(), StateError>(StateError::NickInUse),
        after_claim(s, uid, nick) == s,
{
    assert(after_claim(s, uid, nick) =~= s);
}

/// Re-claiming a nickname one already holds succeeds and changes nothing.
pub proof fn law_reclaiming_own_nick_is_noop(s: ServerView, uid: u64, nick: Seq<u8>)
    requires
        claim_result(s, uid, nick) == Ok::<(), StateError>(()),
        s.users.contains_key(uid),
    ensures
        claim_result(after_claim(s, uid, nick), uid, nick) == Ok::<(), StateError>(()),
        after_claim(after_claim(s, uid, nick), uid, nick) == after_claim(s, uid, nick),
{
    let t = after_claim(s, uid, nick);
    assert(after_claim(t, uid, nick) =~= t);
}

/// Changing nickname releases the prior slot: once `uid`, holding the
/// nickname `old`, claims a different free nickname `new`, any other live
/// user can claim `old`. What `uid` holds is read from the index, not from
/// the user's record.
pub proof fn law_nick_change_releases_prior(
    s: ServerView,
    uid: u64,
    old: Seq<u8>,
    new: Seq<u8>,
    other: u64,
)
    requires
        s.users.contains_key(uid),
        s.users.contains_key(other),
        s.nicks.contains_key(fold_seq(s.casemap, old)),
        s.nicks[fold_seq(s.casemap, old)] == uid,
        !s.nicks.contains_key(fold_seq(s.casemap, new)),
    ensures
        claim_result(s, uid, new) == Ok::<(), StateError>(()),
        claim_result(after_claim(s, uid, new), other, old) == Ok::<(), StateError>(()),
{
}

/// Removing a user is idempotent: a second removal finds nothing and
/// changes nothing.
pub proof fn law_remove_user_idempotent(s: ServerView, id: u64)
    ensures
        !after_remove(s, id).users.contains_key(id),
        after_remove(after_remove(s, id), id) == after_remove(s, id),
{
    let t = after_remove(s, id);
    assert(t.users.remove(id) =~= t.users);
}

/// After a user is removed, no nickname resolves to it any more.
pub proof fn law_removed_user_unreachable(s: ServerView, id: u64, nick: Seq<u8>)
    requires
        users_keyed_by_id(s),
    ensures
        lookup_nick(after_remove(s, id), nick) matches Some(u) ==> u.id != id,
{
}

/// Removing a user releases every nickname it held: no entry of the index
/// names it any more, and any other live user can then claim such a
/// nickname.
pub proof fn law_remove_releases_nicks(s: ServerView, id: u64, nick: Seq<u8>, other: u64)
    requires
        view_wf(s),
        s.nicks.contains_key(fold_seq(s.casemap, nick)),
        s.nicks[fold_seq(s.casemap, nick)] == id,
        s.users.contains_key(other),
        other != id,
    ensures
        forall|f: Seq<u8>| #[trigger]
            after_remove(s, id).nicks.contains_key(f) ==> after_remove(s, id).nicks[f] != id,
        claim_result(after_remove(s, id), other, nick) == Ok::<(), StateError>(()),
{
}

/// Every registry operation keeps the invariant: the user table stays
/// finite, users stay filed under their ids, and every nickname in the
/// index keeps a live owner.
pub proof fn law_operations_keep_invariant(s: ServerView, u: UserView, id: u64, nick: Seq<u8>)
    requires
        view_wf(s),
    ensures
        view_wf(after_mint(s)),
        view_wf(after_insert(s, u)),
        view_wf(after_remove(s, id)),
        view_wf(after_claim(s, id, nick)),
        view_wf(after_set_nick(s, id, nick)),
{
    assert(after_set_nick(s, id, nick).users.dom() =~= s.users.dom());
    assert(after_remove(s, id).users.dom() =~= s.users.dom().remove(id));
    assert(after_insert(s, u).users.dom() =~= s.users.dom().insert(u.id));
}

/// The number of registered users never exceeds the number of live users.
pub proof fn law_registered_count_bounded(s: ServerView)
    requires
        view_wf(s),
    ensures
        registered_ids(s.users).len() <= s.users.len(),
{
    vstd::set_lib::lemma_len_subset(registered_ids(s.users), s.users.dom());
}

/// Two user ids are the same exactly when their raw values are: the raw
/// value that `UserId::get` hands out identifies the id.
pub proof fn law_user_id_get_injective(a: UserId, b: UserId)
    ensures
        (a@ == b@) == (a == b),
{
}


/// One change to the registry, as far as its state is concerned.
pub enum RegistryOp {
    /// `next_user_id`.
    Mint,
    /// `insert_user` with a record of this view.
    Insert(UserView),
    /// `remove_user` of this raw id.
    Remove(u64),
    /// `claim_nick` of this nickname for this raw id.
    Claim(u64, Seq<u8>),
    /// `set_user_nick` of this nickname for this raw id.
    SetNick(u64, Seq<u8>),
}

/// The state after one operation.
pub open spec fn apply_op(s: ServerView, op: RegistryOp) -> ServerView {
    match op {
        RegistryOp::Mint => after_mint(s),
        RegistryOp::Insert(u) => after_insert(s, u),
        RegistryOp::Remove(id) => after_remove(s, id),
        RegistryOp::Claim(uid, nick) => after_claim(s, uid, nick),
        RegistryOp::SetNick(id, nick) => after_set_nick(s, id, nick),
    }
}

/// The state after the operations `ops`, first to last.
pub open spec fn apply_ops(s: ServerView, ops: Seq<RegistryOp>) -> ServerView
    decreases ops.len(),
{
    if ops.len() == 0 {
        s
    } else {
        apply_op(apply_ops(s, ops.drop_last()), ops.last())
    }
}

/// How many of `ops` mint an id.
pub open spec fn mint_count(ops: Seq<RegistryOp>) -> nat
    decreases ops.len(),
{
    if ops.len() == 0 {
        0
    } else {
        mint_count(ops.drop_last()) + if ops.last() is Mint {
            1nat
        } else {
            0nat
        }
    }
}

/// The casemap never changes: whatever operations run on the registry, it
/// folds nicknames with the casemap it was built with, and the registry's
/// invariant holds throughout.
pub proof fn law_casemap_never_changes(s: ServerView, ops: Seq<RegistryOp>)
    ensures
        apply_ops(s, ops).casemap == s.casemap,
        view_wf(s) ==> view_wf(apply_ops(s, ops)),
    decreases ops.len(),
{
    if ops.len() > 0 {
        law_casemap_never_changes(s, ops.drop_last());
        let t = apply_ops(s, ops.drop_last());
        match ops.last() {
            RegistryOp::Mint => {},
            RegistryOp::Insert(u) => {
                assert(after_insert(t, u).users.dom() =~= t.users.dom().insert(u.id));
            },
            RegistryOp::Remove(id) => {
                assert(after_remove(t, id).users.dom() =~= t.users.dom().remove(id));
            },
            RegistryOp::Claim(uid, nick) => {},
            RegistryOp::SetNick(id, nick) => {
                assert(after_set_nick(t, id, nick).users.dom() =~= t.users.dom());
            },
        }
    }
}

/// The id counter moves on by exactly the number of ids minted, whatever
/// else happens in between, as long as it does not pass the top of `u64`.
pub proof fn law_counter_follows_mints(s: ServerView, ops: Seq<RegistryOp>)
    requires
        s.next_id + mint_count(ops) <= u64::MAX,
    ensures
        apply_ops(s, ops).next_id == s.next_id + mint_count(ops),
    decreases ops.len(),
{
    if ops.len() > 0 {
        law_counter_follows_mints(s, ops.drop_last());
    }
}

} // verus!
