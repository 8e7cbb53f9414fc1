//! The messenger runtime module and the records it keeps.
//!
//! A call is dispatched with an origin; only a signed origin may send a
//! message, and each message sent leaves one event naming its sender and its
//! recipient. The message itself is stored nowhere. Hashes are `u64` here.

use vstd::prelude::*;

verus! {

/// Error returned when a call that needs a signed origin gets another one.
pub const BAD_ORIGIN: &'static str = "bad origin: expected to be a signed origin";

/// A user of the messenger: an identifier and a user name.
#[derive(Default, Clone, PartialEq)]
pub struct User<Hash> {
    id: Hash,
    username: Vec<u8>,
}

impl<Hash> User<Hash> {
    pub closed spec fn spec_id(&self) -> Hash {
        self.id
    }

    pub closed spec fn spec_username(&self) -> Seq<u8> {
        self.username@
    }
}

impl User<u64> {
    /// The default user: identifier 0, empty user name.
    pub open spec fn is_default(&self) -> bool {
        self.spec_id() == 0 && self.spec_username() == Seq::<u8>::empty()
    }

    fn default_user() -> (user: Self)
        ensures
            user.is_default(),
    {
        User { id: 0, username: Vec::new() }
    }

    fn copy(&self) -> (user: Self)
        ensures
            user.spec_id() == self.spec_id(),
            user.spec_username() == self.spec_username(),
    {
        let mut username: Vec<u8> = Vec::new();
        let n = self.username.len();
        for i in 0..n
            invariant
                n == self.username@.len(),
                username@ == self.username@.take(i as int),
        {
            username.push(self.username[i]);
            assert(self.username@.take(i + 1) =~= self.username@.take(i as int).push(self.username@[i as int]));
        }
        assert(self.username@.take(n as int) =~= self.username@);
        User { id: self.id, username }
    }

    pub fn id(&self) -> (id: u64)
        ensures
            id == self.spec_id(),
    {
        self.id
    }

    pub fn username(&self) -> (name: &Vec<u8>)
        ensures
            name@ == self.spec_username(),
    {
        &self.username
    }
}

/// A wallet: an identifier and a balance.
#[derive(Default, Clone, PartialEq)]
pub struct Wallet<Hash, Balance> {
    id: Hash,
    balance: Balance,
}

/// Who dispatched a call.
pub enum RawOrigin<AccountId> {
    /// The system itself.
    Root,
    /// A signed extrinsic of the given account.
    Signed(AccountId),
    /// An unsigned extrinsic.
    Unsigned,
}

/// The hash that a sent message's event carries: the default hash.
pub const DEFAULT_HASH: u64 = 0;

/// An event deposited by the messenger module.
pub enum RawEvent<AccountId> {
    /// A message went from the first account to the second; the third value
    /// is a hash.
    Transferred(AccountId, AccountId, u64),
}

/// The account that signed `origin`, or the bad-origin error.
pub fn ensure_signed<AccountId>(origin: RawOrigin<AccountId>) -> (res: Result<AccountId, &'static str>)
    ensures
        match origin {
            RawOrigin::Signed(who) => res == Ok::<AccountId, &'static str>(who),
            _ => res matches Err(e) && e@ == BAD_ORIGIN@,
        },
{
    match origin {
        RawOrigin::Signed(who) => Ok(who),
        _ => Err(BAD_ORIGIN),
    }
}

/// The value stored under `key` in a storage map kept as a list of
/// entries (the first entry with that key), if any.
pub open spec fn lookup<V>(entries: Seq<(u64, V)>, key: u64) -> Option<V>
    decreases entries.len(),
{
    if entries.len() == 0 {
        None
    } else if entries[0].0 == key {
        Some(entries[0].1)
    } else {
        lookup(entries.drop_first(), key)
    }
}

/// The index of the entry that `lookup` reads, if any.
fn find_entry<V>(entries: &Vec<(u64, V)>, key: u64) -> (found: Option<usize>)
    ensures
        match found {
            Some(i) => i < entries@.len() && lookup(entries@, key) == Some(entries@[i as int].1),
            None => lookup(entries@, key) is None,
        },
{
    let n = entries.len();
    assert(entries@.skip(0) =~= entries@);
    for i in 0..n
        invariant
            n == entries@.len(),
            lookup(entries@, key) == lookup(entries@.skip(i as int), key),
    {
        assert(entries@.skip(i as int).drop_first() =~= entries@.skip(i + 1));
        if entries[i].0 == key {
            return Some(i);
        }
    }
    None
}

/// The messenger module's state: its storage items and the events it has
/// deposited, oldest first.
pub struct Module<AccountId> {
    /// `Users`: user hash to user.
    users: Vec<(u64, User<u64>)>,
    /// `AllUsersArray`: index to user hash.
    all_users_array: Vec<(u64, u64)>,
    /// `AllUsersCount`.
    all_users_count: u64,
    /// `AllUsersIndex`: user hash to index.
    all_users_index: Vec<(u64, u64)>,
    /// `Nonce`.
    nonce: u64,
    events: Vec<RawEvent<AccountId>>,
}

impl<AccountId> Module<AccountId> {
    /// The events deposited so far, oldest first.
    pub closed spec fn spec_events(&self) -> Seq<RawEvent<AccountId>> {
        self.events@
    }

    /// The `Users` storage map, as entries of hash and (identifier, user name).
    pub closed spec fn spec_users(&self) -> Seq<(u64, (u64, Seq<u8>))> {
        self.users@.map_values(|e: (u64, User<u64>)| (e.0, (e.1.spec_id(), e.1.spec_username())))
    }

    /// The `AllUsersArray` storage map, as entries.
    pub closed spec fn spec_all_users_array(&self) -> Seq<(u64, u64)> {
        self.all_users_array@
    }

    /// The `AllUsersCount` storage value.
    pub closed spec fn spec_all_users_count(&self) -> u64 {
        self.all_users_count
    }

    /// The `AllUsersIndex` storage map, as entries.
    pub closed spec fn spec_all_users_index(&self) -> Seq<(u64, u64)> {
        self.all_users_index@
    }

    /// The `Nonce` storage value.
    pub closed spec fn spec_nonce(&self) -> u64 {
        self.nonce
    }

    /// Every storage item holds its default: the maps are empty and the
    /// values are 0.
    pub open spec fn storage_is_default(&self) -> bool {
        &&& self.spec_users() == Seq::<(u64, (u64, Seq<u8>))>::empty()
        &&& self.spec_all_users_array() == Seq::<(u64, u64)>::empty()
        &&& self.spec_all_users_count() == 0
        &&& self.spec_all_users_index() == Seq::<(u64, u64)>::empty()
        &&& self.spec_nonce() == 0
    }

    /// The storage items are the same in `self` and `other`.
    pub open spec fn same_storage(&self, other: &Self) -> bool {
        &&& self.spec_users() == other.spec_users()
        &&& self.spec_all_users_array() == other.spec_all_users_array()
        &&& self.spec_all_users_count() == other.spec_all_users_count()
        &&& self.spec_all_users_index() == other.spec_all_users_index()
        &&& self.spec_nonce() == other.spec_nonce()
    }

    /// A module whose storage holds its defaults and that has deposited no
    /// event.
    pub fn new() -> (module: Self)
        ensures
            module.storage_is_default(),
            module.spec_events() == Seq::<RawEvent<AccountId>>::empty(),
    {
        let module = Module {
            users: Vec::new(),
            all_users_array: Vec::new(),
            all_users_count: 0,
            all_users_index: Vec::new(),
            nonce: 0,
            events: Vec::new(),
        };
        assert(module.spec_users() =~= Seq::<(u64, (u64, Seq<u8>))>::empty());
        module
    }

    /// The events deposited so far, oldest first.
    pub fn events(&self) -> (events: &Vec<RawEvent<AccountId>>)
        ensures
            events@ == self.spec_events(),
    {
        &self.events
    }

    /// The user stored under `key` in `Users`, or the default user.
    pub fn user(&self, key: u64) -> (user: User<u64>)
        ensures
            match lookup(self.spec_users(), key) {
                Some(v) => user.spec_id() == v.0 && user.spec_username() == v.1,
                None => user.is_default(),
            },
    {
        proof {
            lemma_lookup_map(self.users@, key);
        }
        match find_entry(&self.users, key) {
            Some(i) => self.users[i].1.copy(),
            None => User::default_user(),
        }
    }

    /// The user hash stored under `index` in `AllUsersArray`, or the default
    /// hash.
    pub fn user_by_index(&self, index: u64) -> (hash: u64)
        ensures
            match lookup(self.spec_all_users_array(), index) {
                Some(v) => hash == v,
                None => hash == DEFAULT_HASH,
            },
    {
        match find_entry(&self.all_users_array, index) {
            Some(i) => self.all_users_array[i].1,
            None => DEFAULT_HASH,
        }
    }

    /// The `AllUsersCount` storage value.
    pub fn all_users_count(&self) -> (count: u64)
        ensures
            count == self.spec_all_users_count(),
    {
        self.all_users_count
    }

    fn deposit_event(&mut self, event: RawEvent<AccountId>)
        ensures
            final(self).spec_events() == old(self).spec_events().push(event),
            final(self).same_storage(old(self)),
    {
        self.events.push(event);
    }

    fn _send_msg(&mut self, from: AccountId, to: AccountId, msg: Vec<u8>) -> (res: Result<(), &'static str>)
        ensures
            res is Ok,
            final(self).spec_events() == old(self).spec_events().push(
                RawEvent::Transferred(from, to, DEFAULT_HASH),
            ),
            final(self).same_storage(old(self)),
    {
        self.deposit_event(RawEvent::Transferred(from, to, DEFAULT_HASH));
        Ok(())
    }

    /// Sends `msg` to `to` on behalf of the account that signed `origin`.
    /// The sending leaves one `Transferred` event from the signer to `to`
    /// carrying the default hash; `from` is not used and `msg` is stored
    /// nowhere. No storage item changes. An unsigned or root origin is
    /// refused with `BAD_ORIGIN`, and nothing changes.
    pub fn send_message(
        &mut self,
        origin: RawOrigin<AccountId>,
        from: AccountId,
        to: AccountId,
        msg: Vec<u8>,
    ) -> (res: Result<(), &'static str>)
        ensures
            final(self).same_storage(old(self)),
            match origin {
                RawOrigin::Signed(sender) => {
                    &&& res is Ok
                    &&& final(self).spec_events() == old(self).spec_events().push(
                        RawEvent::Transferred(sender, to, DEFAULT_HASH),
                    )
                },
                _ => {
                    &&& res matches Err(e) && e@ == BAD_ORIGIN@
                    &&& final(self).spec_events() == old(self).spec_events()
                },
            },
    {
        let sender = match ensure_signed(origin) {
            Ok(sender) => sender,
            Err(e) => return Err(e),
        };
        self._send_msg(sender, to, msg)
    }
}

/// While the storage holds its defaults, every storage map is empty, so the
/// getters `user`, `user_by_index` and `all_users_count` give the default
/// user, the default hash and 0.
pub proof fn lemma_default_storage_reads<AccountId>(module: &Module<AccountId>, key: u64, index: u64)
    requires
        module.storage_is_default(),
    ensures
        lookup(module.spec_users(), key) is None,
        lookup(module.spec_all_users_array(), index) is None,
        lookup(module.spec_all_users_index(), key) is None,
        module.spec_all_users_count() == 0,
        module.spec_nonce() == 0,
{
}

proof fn lemma_lookup_map(entries: Seq<(u64, User<u64>)>, key: u64)
    ensures
        lookup(
            entries.map_values(|e: (u64, User<u64>)| (e.0, (e.1.spec_id(), e.1.spec_username()))),
            key,
        ) == match lookup(entries, key) {
            Some(u) => Some((u.spec_id(), u.spec_username())),
            None => None,
        },
    decreases entries.len(),
{
    let f = |e: (u64, User<u64>)| (e.0, (e.1.spec_id(), e.1.spec_username()));
    if entries.len() > 0 {
        assert(entries.map_values(f).drop_first() =~= entries.drop_first().map_values(f));
        lemma_lookup_map(entries.drop_first(), key);
    }
}

} // verus!
