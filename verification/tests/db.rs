use molva::db::{MolvaDB, DBNAME, FRIEND_KEY, FRIEND_VALUE};

#[test]
fn new_keeps_name_and_path() {
    let db = MolvaDB::new("friends".to_string(), "/tmp/friends".to_string());
    assert_eq!(db.db_name(), "friends");
    assert_eq!(db.db_path(), "/tmp/friends");
}

#[test]
fn get_by_name_returns_the_test_friend() {
    let f = MolvaDB::get_by_name();
    assert_eq!(f.uuid(), 0);
    assert_eq!(f.ip4_addr(), 0);
    assert_eq!(f.ip6_addr(), 0);
    assert_eq!(f.name(), "test");
}

#[test]
fn get_by_name_is_the_same_every_time() {
    let a = MolvaDB::get_by_name();
    let b = MolvaDB::get_by_name();
    assert_eq!(a.uuid(), b.uuid());
    assert_eq!(a.name(), b.name());
}

#[test]
fn add_friend_with_uuid_records_every_field() {
    let db = MolvaDB::new("friends".to_string(), "/tmp/friends".to_string());
    let (friend, put) = db.add_friend_with_uuid(42, 3232235777, 1, "alice".to_string());
    assert_eq!(friend.uuid(), 42);
    assert_eq!(friend.ip4_addr(), 3232235777);
    assert_eq!(friend.ip6_addr(), 1);
    assert_eq!(friend.name(), "alice");
    assert_eq!(put.path, "molvadb");
    assert_eq!(put.key, b"uuid".to_vec());
    assert_eq!(put.value, b"friend".to_vec());
}

#[test]
fn add_friend_keeps_addresses_and_name() {
    let db = MolvaDB::new("friends".to_string(), "/tmp/friends".to_string());
    let (friend, put) = db.add_friend(7, 8, "bob".to_string());
    assert_eq!(friend.ip4_addr(), 7);
    assert_eq!(friend.ip6_addr(), 8);
    assert_eq!(friend.name(), "bob");
    assert_eq!(put.path, DBNAME);
    assert_eq!(put.key, FRIEND_KEY.as_bytes().to_vec());
    assert_eq!(put.value, FRIEND_VALUE.as_bytes().to_vec());
}

#[test]
fn add_friend_writes_to_the_fixed_store_not_the_handle_path() {
    let db = MolvaDB::new("other".to_string(), "/somewhere/else".to_string());
    let (_friend, put) = db.add_friend(0, 0, String::new());
    assert_eq!(put.path, "molvadb");
}
