//! Local database of trusted friends.
//!
//! Opening the database on disk and storing into it is I/O and stays with the
//! program; this module decides what is stored and under which names.

use vstd::prelude::*;
use vstd::string::*;

verus! {

/// Name (and path) of the local database that `add_friend` writes to.
pub const DBNAME: &'static str = "molvadb";

/// Key under which `add_friend` stores a friend.
pub const FRIEND_KEY: &'static str = "uuid";

/// Value that `add_friend` stores under `FRIEND_KEY`.
pub const FRIEND_VALUE: &'static str = "friend";

/// Handle on a local friend database: its name and where it lives.
pub struct MolvaDB {
    db_name: String,
    db_path: String,
}

/// A friend as the database records it.
pub struct Friend {
    /// Identifier of the record in the database.
    uuid: usize,
    /// The friend's IPv4 address.
    ip4_addr: usize,
    /// The friend's IPv6 address.
    ip6_addr: usize,
    /// The friend's name.
    name: String,
}

/// One write into the key-value store: open the store at `path` and put
/// `value` under `key`.
pub struct DbPut {
    pub path: String,
    pub key: Vec<u8>,
    pub value: Vec<u8>,
}

impl DbPut {
    /// The write that `add_friend` issues: `FRIEND_VALUE` under `FRIEND_KEY`
    /// in the store named `DBNAME`.
    pub open spec fn is_friend_put(&self) -> bool {
        &&& self.path@ == DBNAME@
        &&& self.key@ == FRIEND_KEY.spec_bytes()
        &&& self.value@ == FRIEND_VALUE.spec_bytes()
    }
}

impl Friend {
    pub closed spec fn spec_uuid(&self) -> usize {
        self.uuid
    }

    pub closed spec fn spec_ip4_addr(&self) -> usize {
        self.ip4_addr
    }

    pub closed spec fn spec_ip6_addr(&self) -> usize {
        self.ip6_addr
    }

    pub closed spec fn spec_name(&self) -> Seq<char> {
        self.name@
    }

    /// The friend with exactly these fields.
    pub open spec fn has_fields(&self, uuid: usize, ip4_addr: usize, ip6_addr: usize, name: Seq<char>) -> bool {
        &&& self.spec_uuid() == uuid
        &&& self.spec_ip4_addr() == ip4_addr
        &&& self.spec_ip6_addr() == ip6_addr
        &&& self.spec_name() == name
    }

    fn new(uuid: usize, ip4_addr: usize, ip6_addr: usize, name: String) -> (friend: Self)
        ensures
            friend.has_fields(uuid, ip4_addr, ip6_addr, name@),
    {
        Self { uuid, ip4_addr, ip6_addr, name }
    }

    pub fn uuid(&self) -> (uuid: usize)
        ensures
            uuid == self.spec_uuid(),
    {
        self.uuid
    }

    pub fn ip4_addr(&self) -> (addr: usize)
        ensures
            addr == self.spec_ip4_addr(),
    {
        self.ip4_addr
    }

    pub fn ip6_addr(&self) -> (addr: usize)
        ensures
            addr == self.spec_ip6_addr(),
    {
        self.ip6_addr
    }

    pub fn name(&self) -> (name: &str)
        ensures
            name@ == self.spec_name(),
    {
        self.name.as_str()
    }
}

/// Draws a record identifier with `rand::random::<usize>()`. The value
/// depends on chance, so nothing is promised of it beyond its type.
#[verifier::external_body]
fn random_uuid() -> (uuid: usize) {
    rand::random::<usize>()
}

impl MolvaDB {
    /// The database's name.
    pub closed spec fn spec_name(&self) -> Seq<char> {
        self.db_name@
    }

    /// Where the database lives on disk.
    pub closed spec fn spec_path(&self) -> Seq<char> {
        self.db_path@
    }

    pub fn new(db_name: String, db_path: String) -> (db: Self)
        ensures
            db.spec_name() == db_name@,
            db.spec_path() == db_path@,
    {
        Self { db_name, db_path }
    }

    pub fn db_name(&self) -> (name: &str)
        ensures
            name@ == self.spec_name(),
    {
        self.db_name.as_str()
    }

    pub fn db_path(&self) -> (path: &str)
        ensures
            path@ == self.spec_path(),
    {
        self.db_path.as_str()
    }

    /// The test friend: identifier and addresses 0, name "test".
    pub fn get_by_name() -> (friend: Friend)
        ensures
            friend.has_fields(0, 0, 0, "test"@),
    {
        Friend::new(0, 0, 0, "test".to_owned())
    }

    /// Records a friend under the given identifier and returns it together
    /// with the write to issue into the store.
    pub fn add_friend_with_uuid(
        &self,
        uuid: usize,
        ip4_addr: usize,
        ip6_addr: usize,
        name: String,
    ) -> (res: (Friend, DbPut))
        ensures
            res.0.has_fields(uuid, ip4_addr, ip6_addr, name@),
            res.1.is_friend_put(),
    {
        let friend = Friend::new(uuid, ip4_addr, ip6_addr, name);
        let put = DbPut {
            path: DBNAME.to_owned(),
            key: FRIEND_KEY.as_bytes_vec(),
            value: FRIEND_VALUE.as_bytes_vec(),
        };
        (friend, put)
    }

    /// Records a friend under a fresh random identifier and returns it
    /// together with the write to issue into the store.
    pub fn add_friend(&self, ip4_addr: usize, ip6_addr: usize, name: String) -> (res: (Friend, DbPut))
        ensures
            res.0.spec_ip4_addr() == ip4_addr,
            res.0.spec_ip6_addr() == ip6_addr,
            res.0.spec_name() == name@,
            res.1.is_friend_put(),
    {
        let uuid = random_uuid();
        self.add_friend_with_uuid(uuid, ip4_addr, ip6_addr, name)
    }
}

} // verus!
