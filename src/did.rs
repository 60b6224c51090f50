//! Registry of verified identities and allow-lists, kept by managers.
use std::collections::HashMap;
use vstd::prelude::*;

use crate::{truncate_copy, truncated, AccountId};

verus! {

broadcast use vstd::std_specs::hash::group_hash_axioms;

/// Longest identifier kept from an identity provider.
pub const MAX_EXTERNAL_ID_LEN: usize = 128;

/// Longest provider name kept.
pub const MAX_PROVIDER_LEN: usize = 32;

/// Longest list name kept.
pub const MAX_LIST_NAME_LEN: usize = 32;

/// A value stored for an account under a byte-string key.
pub struct Record {
    pub user: AccountId,
    pub key: Vec<u8>,
    pub value: Vec<u8>,
}

/// The value stored for `(user, key)` in `rs`, if any.
pub open spec fn lookup(rs: Seq<Record>, user: AccountId, key: Seq<u8>) -> Option<Seq<u8>>
    decreases rs.len(),
{
    if rs.len() == 0 {
        None
    } else if rs.last().user == user && rs.last().key@ == key {
        Some(rs.last().value@)
    } else {
        lookup(rs.drop_last(), user, key)
    }
}

/// Whether two byte strings are equal.
pub fn bytes_equal(a: &[u8], b: &[u8]) -> (r: bool)
    ensures
        r == (a@ == b@),
{
    if a.len() != b.len() {
        return false;
    }
    let mut i: usize = 0;
    while i < a.len()
        invariant
            a@.len() == b@.len(),
            0 <= i <= a@.len(),
            forall|k: int| 0 <= k < i ==> a@[k] == b@[k],
        decreases a@.len() - i,
    {
        if a[i] != b[i] {
            return false;
        }
        i = i + 1;
    }
    assert(a@ =~= b@);
    true
}

/// Values stored for pairs of an account and a byte-string key.
pub struct Store {
    records: Vec<Record>,
}

impl Store {
    pub closed spec fn get(&self, user: AccountId, key: Seq<u8>) -> Option<Seq<u8>> {
        lookup(self.records@, user, key)
    }

    pub fn new() -> (r: Store)
        ensures
            forall|u: AccountId, k: Seq<u8>| #[trigger] r.get(u, k) is None,
    {
        Store { records: Vec::new() }
    }

    /// The value stored for `(user, key)`.
    pub fn find(&self, user: AccountId, key: &[u8]) -> (r: Option<&Vec<u8>>)
        ensures
            r matches Some(v) ==> self.get(user, key@) == Some(v@),
            r is None ==> self.get(user, key@) is None,
    {
        let mut i: usize = self.records.len();
        assert(self.records@.subrange(0, i as int) =~= self.records@);
        while i > 0
            invariant
                i <= self.records@.len(),
                lookup(self.records@, user, key@) == lookup(
                    self.records@.subrange(0, i as int),
                    user,
                    key@,
                ),
            decreases i,
        {
            let ghost pre = self.records@.subrange(0, i as int);
            assert(pre.drop_last() =~= self.records@.subrange(0, i - 1));
            let rec = &self.records[i - 1];
            if rec.user == user && bytes_equal(rec.key.as_slice(), key) {
                return Some(&rec.value);
            }
            i = i - 1;
        }
        assert(self.records@.subrange(0, 0) =~= Seq::<Record>::empty());
        None
    }

    /// Drops whatever is stored for `(user, key)`, keeping every other pair.
    pub fn remove(&mut self, user: AccountId, key: &[u8])
        ensures
            final(self).get(user, key@) is None,
            forall|u: AccountId, k: Seq<u8>|
                !(u == user && k == key@) ==> #[trigger] final(self).get(u, k) == old(self).get(u, k),
    {
        let mut old_records: Vec<Record> = Vec::new();
        std::mem::swap(&mut old_records, &mut self.records);
        let ghost src = old_records@;
        let mut kept: Vec<Record> = Vec::new();
        let mut rest = old_records;
        while rest.len() > 0
            invariant
                rest@.len() <= src.len(),
                rest@ == src.subrange(src.len() - rest@.len(), src.len() as int),
                lookup(kept@, user, key@) is None,
                forall|u: AccountId, k: Seq<u8>|
                    !(u == user && k == key@) ==> #[trigger] lookup(kept@, u, k) == lookup(
                        src.subrange(0, src.len() - rest@.len()),
                        u,
                        k,
                    ),
            decreases rest@.len(),
        {
            let ghost done = (src.len() - rest@.len()) as int;
            let rec = rest.remove(0);
            assert(rec == src[done]);
            assert(src.subrange(0, done + 1).drop_last() =~= src.subrange(0, done));
            let ghost prefix = src.subrange(0, done + 1);
            assert(prefix.last() == rec);
            if !(rec.user == user && bytes_equal(rec.key.as_slice(), key)) {
                let ghost before = kept@;
                kept.push(rec);
                assert(kept@.drop_last() =~= before);
                assert forall|u: AccountId, k: Seq<u8>| !(u == user && k == key@) implies #[trigger] lookup(
                    kept@,
                    u,
                    k,
                ) == lookup(prefix, u, k) by {
                    assert(lookup(before, u, k) == lookup(src.subrange(0, done), u, k));
                }
            } else {
                assert forall|u: AccountId, k: Seq<u8>| !(u == user && k == key@) implies #[trigger] lookup(
                    kept@,
                    u,
                    k,
                ) == lookup(prefix, u, k) by {
                    assert(lookup(kept@, u, k) == lookup(src.subrange(0, done), u, k));
                }
            }
        }
        assert(src.subrange(0, src.len() as int) =~= src);
        self.records = kept;
    }

    /// Stores `value` for `(user, key)`, replacing what was there.
    pub fn insert(&mut self, user: AccountId, key: Vec<u8>, value: Vec<u8>)
        ensures
            final(self).get(user, key@) == Some(value@),
            forall|u: AccountId, k: Seq<u8>|
                !(u == user && k == key@) ==> #[trigger] final(self).get(u, k) == old(self).get(u, k),
    {
        self.remove(user, key.as_slice());
        let ghost mid = *self;
        let ghost before = self.records@;
        self.records.push(Record { user, key, value });
        assert(self.records@.drop_last() =~= before);
        assert forall|u: AccountId, k: Seq<u8>| !(u == user && k == key@) implies #[trigger] self.get(
            u,
            k,
        ) == old(self).get(u, k) by {
            assert(mid.get(u, k) == old(self).get(u, k));
        }
    }
}

/// Why a registry operation was refused.
#[derive(Clone, Copy, Debug, PartialEq, Eq, Structural)]
pub enum Error {
    NotAllowedToRemove,
    NotAllowedToMutate,
    /// The caller is not a manager of the registry.
    InvalidOrigin,
}

/// What a registry operation reports.
pub enum Event {
    AddedUserAddress { who: AccountId, provider: Vec<u8> },
    RemovedUserAddress { who: AccountId, provider: Vec<u8> },
    AddedUserToList { who: AccountId, list_name: Vec<u8> },
    RemovedUserFromList { who: AccountId, list_name: Vec<u8> },
    AddedManager { manager: AccountId },
    RemovedManager { manager: AccountId },
}

/// The managers the registry starts with.
pub struct GenesisConfig {
    pub managers: Vec<AccountId>,
}

impl GenesisConfig {
    /// No manager at all.
    pub fn default() -> (r: GenesisConfig)
        ensures
            r.managers@.len() == 0,
    {
        GenesisConfig { managers: Vec::new() }
    }

    /// A registry in which exactly the listed accounts are managers.
    pub fn build(&self) -> (r: Pallet)
        ensures
            forall|a: AccountId| #[trigger] r.is_manager(a) <==> self.managers@.contains(a),
            forall|u: AccountId, p: Seq<u8>| #[trigger] r.external_id_of(u, p) == Seq::<u8>::empty(),
            forall|l: Seq<u8>, u: AccountId| !#[trigger] r.listed(l, u),
    {
        let mut managers: HashMap<AccountId, bool> = HashMap::new();
        let mut i: usize = 0;
        while i < self.managers.len()
            invariant
                0 <= i <= self.managers@.len(),
                forall|a: AccountId| #[trigger]
                    managers@.contains_key(a) <==> self.managers@.subrange(0, i as int).contains(a),
                forall|a: AccountId| managers@.contains_key(a) ==> #[trigger] managers@[a],
            decreases self.managers@.len() - i,
        {
            let m = self.managers[i];
            managers.insert(m, true);
            i = i + 1;
            assert forall|a: AccountId| #[trigger]
                managers@.contains_key(a) <==> self.managers@.subrange(0, i as int).contains(a) by {
                let s = self.managers@.subrange(0, i as int);
                if s.contains(a) && a != m {
                    let j = choose|j: int| 0 <= j < s.len() && s[j] == a;
                    assert(self.managers@.subrange(0, i - 1)[j] == a);
                }
                if a == m {
                    assert(s[i - 1] == m);
                }
            }
        }
        assert(self.managers@.subrange(0, i as int) =~= self.managers@);
        Pallet { managers, identities: Store::new(), lists: Store::new() }
    }
}

/// Identities that providers vouched for, allow-lists, and the managers that
/// keep both.
pub struct Pallet {
    managers: HashMap<AccountId, bool>,
    identities: Store,
    lists: Store,
}

impl Pallet {
    /// Whether `a` may change the registry.
    pub closed spec fn is_manager(&self, a: AccountId) -> bool {
        self.managers@.contains_key(a) && self.managers@[a]
    }

    /// The identifier that `provider` vouched for `user`; empty when none.
    pub closed spec fn external_id_of(&self, user: AccountId, provider: Seq<u8>) -> Seq<u8> {
        match self.identities.get(user, provider) {
            Some(v) => v,
            None => Seq::empty(),
        }
    }

    /// Whether `user` is on the list `list_name`.
    pub closed spec fn listed(&self, list_name: Seq<u8>, user: AccountId) -> bool {
        self.lists.get(user, list_name) is Some
    }

    /// Whether `a` may change the registry.
    pub fn did_manager(&self, a: AccountId) -> (r: bool)
        ensures
            r == self.is_manager(a),
    {
        match self.managers.get(&a) {
            Some(b) => *b,
            None => false,
        }
    }

    /// The identifier that `provider` vouched for `user`; empty when none.
    pub fn external_id(&self, user: AccountId, provider: &[u8]) -> (r: Vec<u8>)
        ensures
            r@ == self.external_id_of(user, provider@),
    {
        match self.identities.find(user, provider) {
            Some(v) => truncate_copy(v.as_slice(), v.len()),
            None => Vec::new(),
        }
    }

    /// Whether `user` is on the list `list_name`.
    pub fn user_list(&self, list_name: &[u8], user: AccountId) -> (r: bool)
        ensures
            r == self.listed(list_name@, user),
    {
        self.lists.find(user, list_name).is_some()
    }

    /// A manager records the identifier `external_id` that `provider`
    /// vouched for `user`. The provider name and the identifier are cut to
    /// their longest kept lengths.
    pub fn add_user_address(&mut self, who: AccountId, user: AccountId, provider: Vec<u8>, external_id: Vec<u8>) -> (r:
        Result<Event, Error>)
        ensures
            !old(self).is_manager(who) ==> r == Err::<Event, Error>(Error::InvalidOrigin) && *final(self)
                == *old(self),
            old(self).is_manager(who) ==> r is Ok && final(self).external_id_of(
                user,
                truncated(provider@, MAX_PROVIDER_LEN),
            ) == truncated(external_id@, MAX_EXTERNAL_ID_LEN),
            forall|u: AccountId, p: Seq<u8>|
                !(u == user && p == truncated(provider@, MAX_PROVIDER_LEN)) ==> #[trigger] final(self).external_id_of(u, p) == old(self).external_id_of(u, p),
            forall|l: Seq<u8>, u: AccountId| #[trigger]
                final(self).listed(l, u) == old(self).listed(l, u),
            forall|a: AccountId| #[trigger] final(self).is_manager(a) == old(self).is_manager(a),
    {
        if !self.did_manager(who) {
            return Err(Error::InvalidOrigin);
        }
        let provider_bounded = truncate_copy(provider.as_slice(), MAX_PROVIDER_LEN);
        let id_bounded = truncate_copy(external_id.as_slice(), MAX_EXTERNAL_ID_LEN);
        let key = truncate_copy(provider_bounded.as_slice(), MAX_PROVIDER_LEN);
        self.identities.insert(user, key, id_bounded);
        Ok(Event::AddedUserAddress { who: user, provider: provider_bounded })
    }

    /// A manager forgets what `provider` vouched for `user`.
    pub fn remove_user_address(&mut self, who: AccountId, user: AccountId, provider: Vec<u8>) -> (r:
        Result<Event, Error>)
        ensures
            !old(self).is_manager(who) ==> r == Err::<Event, Error>(Error::InvalidOrigin) && *final(self)
                == *old(self),
            old(self).is_manager(who) ==> r is Ok && final(self).external_id_of(
                user,
                truncated(provider@, MAX_PROVIDER_LEN),
            ) == Seq::<u8>::empty(),
            forall|u: AccountId, p: Seq<u8>|
                !(u == user && p == truncated(provider@, MAX_PROVIDER_LEN)) ==> #[trigger] final(self).external_id_of(u, p) == old(self).external_id_of(u, p),
            forall|l: Seq<u8>, u: AccountId| #[trigger]
                final(self).listed(l, u) == old(self).listed(l, u),
            forall|a: AccountId| #[trigger] final(self).is_manager(a) == old(self).is_manager(a),
    {
        if !self.did_manager(who) {
            return Err(Error::InvalidOrigin);
        }
        let provider_bounded = truncate_copy(provider.as_slice(), MAX_PROVIDER_LEN);
        self.identities.remove(user, provider_bounded.as_slice());
        Ok(Event::RemovedUserAddress { who: user, provider: provider_bounded })
    }

    /// A manager puts `user` on the list `list_name`, cut to its longest
    /// kept length.
    pub fn add_user_to_list(&mut self, who: AccountId, list_name: Vec<u8>, user: AccountId) -> (r:
        Result<Event, Error>)
        ensures
            !old(self).is_manager(who) ==> r == Err::<Event, Error>(Error::InvalidOrigin) && *final(self)
                == *old(self),
            old(self).is_manager(who) ==> r is Ok && final(self).listed(
                truncated(list_name@, MAX_LIST_NAME_LEN),
                user,
            ),
            forall|l: Seq<u8>, u: AccountId|
                !(u == user && l == truncated(list_name@, MAX_LIST_NAME_LEN)) ==> #[trigger] final(self).listed(l, u) == old(self).listed(l, u),
            forall|u: AccountId, p: Seq<u8>| #[trigger]
                final(self).external_id_of(u, p) == old(self).external_id_of(u, p),
            forall|a: AccountId| #[trigger] final(self).is_manager(a) == old(self).is_manager(a),
    {
        if !self.did_manager(who) {
            return Err(Error::InvalidOrigin);
        }
        let name_bounded = truncate_copy(list_name.as_slice(), MAX_LIST_NAME_LEN);
        let key = truncate_copy(name_bounded.as_slice(), MAX_LIST_NAME_LEN);
        self.lists.insert(user, key, Vec::new());
        Ok(Event::AddedUserToList { who: user, list_name: name_bounded })
    }

    /// A manager takes `user` off the list `list_name`.
    pub fn remove_user_from_list(&mut self, who: AccountId, list_name: Vec<u8>, user: AccountId) -> (r:
        Result<Event, Error>)
        ensures
            !old(self).is_manager(who) ==> r == Err::<Event, Error>(Error::InvalidOrigin) && *final(self)
                == *old(self),
            old(self).is_manager(who) ==> r is Ok && !final(self).listed(
                truncated(list_name@, MAX_LIST_NAME_LEN),
                user,
            ),
            forall|l: Seq<u8>, u: AccountId|
                !(u == user && l == truncated(list_name@, MAX_LIST_NAME_LEN)) ==> #[trigger] final(self).listed(l, u) == old(self).listed(l, u),
            forall|u: AccountId, p: Seq<u8>| #[trigger]
                final(self).external_id_of(u, p) == old(self).external_id_of(u, p),
            forall|a: AccountId| #[trigger] final(self).is_manager(a) == old(self).is_manager(a),
    {
        if !self.did_manager(who) {
            return Err(Error::InvalidOrigin);
        }
        let name_bounded = truncate_copy(list_name.as_slice(), MAX_LIST_NAME_LEN);
        self.lists.remove(user, name_bounded.as_slice());
        Ok(Event::RemovedUserFromList { who: user, list_name: name_bounded })
    }

    /// Makes `manager` a manager. The administrative caller is checked by
    /// whoever routes the request.
    pub fn add_did_manager(&mut self, manager: AccountId) -> (r: Event)
        ensures
            r == (Event::AddedManager { manager }),
            forall|a: AccountId| #[trigger]
                final(self).is_manager(a) == (a == manager || old(self).is_manager(a)),
            forall|u: AccountId, p: Seq<u8>| #[trigger]
                final(self).external_id_of(u, p) == old(self).external_id_of(u, p),
            forall|l: Seq<u8>, u: AccountId| #[trigger]
                final(self).listed(l, u) == old(self).listed(l, u),
    {
        self.managers.insert(manager, true);
        Event::AddedManager { manager }
    }

    /// Withdraws the manager role from `manager`.
    pub fn remove_did_manager(&mut self, manager: AccountId) -> (r: Event)
        ensures
            r == (Event::RemovedManager { manager }),
            forall|a: AccountId| #[trigger]
                final(self).is_manager(a) == (a != manager && old(self).is_manager(a)),
            forall|u: AccountId, p: Seq<u8>| #[trigger]
                final(self).external_id_of(u, p) == old(self).external_id_of(u, p),
            forall|l: Seq<u8>, u: AccountId| #[trigger]
                final(self).listed(l, u) == old(self).listed(l, u),
    {
        self.managers.remove(&manager);
        Event::RemovedManager { manager }
    }
}

} // verus!
