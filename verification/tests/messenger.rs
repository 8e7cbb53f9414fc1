use molva::messenger::{ensure_signed, Module, RawEvent, RawOrigin, User, Wallet, BAD_ORIGIN, DEFAULT_HASH};

#[test]
fn signed_origin_gives_its_account() {
    assert_eq!(ensure_signed(RawOrigin::Signed(7u64)), Ok(7));
}

#[test]
fn root_and_unsigned_origins_are_refused() {
    assert_eq!(ensure_signed::<u64>(RawOrigin::Root), Err("bad origin: expected to be a signed origin"));
    assert_eq!(ensure_signed::<u64>(RawOrigin::Unsigned), Err(BAD_ORIGIN));
}

#[test]
fn signed_message_leaves_an_event_from_the_signer() {
    let mut m: Module<u64> = Module::new();
    assert!(m.events().is_empty());
    assert_eq!(m.send_message(RawOrigin::Signed(1), 99, 2, b"hello".to_vec()), Ok(()));
    assert_eq!(m.events().len(), 1);
    match &m.events()[0] {
        RawEvent::Transferred(from, to, hash) => {
            assert_eq!(*from, 1);
            assert_eq!(*to, 2);
            assert_eq!(*hash, DEFAULT_HASH);
            assert_eq!(*hash, 0);
        }
    }
}

#[test]
fn message_text_is_not_kept() {
    let mut a: Module<u64> = Module::new();
    let mut b: Module<u64> = Module::new();
    a.send_message(RawOrigin::Signed(1), 1, 2, b"one text".to_vec()).unwrap();
    b.send_message(RawOrigin::Signed(1), 1, 2, b"another".to_vec()).unwrap();
    match (&a.events()[0], &b.events()[0]) {
        (RawEvent::Transferred(f1, t1, h1), RawEvent::Transferred(f2, t2, h2)) => {
            assert_eq!((f1, t1, h1), (f2, t2, h2));
        }
    }
}

#[test]
fn refused_message_leaves_no_event() {
    let mut m: Module<u64> = Module::new();
    assert_eq!(m.send_message(RawOrigin::Signed(1), 1, 2, b"a".to_vec()), Ok(()));
    assert_eq!(m.send_message(RawOrigin::Unsigned, 1, 2, b"b".to_vec()), Err(BAD_ORIGIN));
    assert_eq!(m.send_message(RawOrigin::Root, 1, 2, b"c".to_vec()), Err(BAD_ORIGIN));
    assert_eq!(m.events().len(), 1);
}

#[test]
fn messages_are_recorded_in_order() {
    let mut m: Module<u64> = Module::new();
    m.send_message(RawOrigin::Signed(1), 1, 2, b"first".to_vec()).unwrap();
    m.send_message(RawOrigin::Signed(3), 3, 4, b"second".to_vec()).unwrap();
    let ends: Vec<(u64, u64)> = m.events().iter().map(|e| match e { RawEvent::Transferred(f, t, _) => (*f, *t) }).collect();
    assert_eq!(ends, vec![(1, 2), (3, 4)]);
}

#[test]
fn storage_getters_give_defaults() {
    let m: Module<u64> = Module::new();
    let u = m.user(5);
    assert_eq!(u.id(), 0);
    assert!(u.username().is_empty());
    assert_eq!(m.user_by_index(0), 0);
    assert_eq!(m.all_users_count(), 0);
}

#[test]
fn sending_leaves_storage_at_defaults() {
    let mut m: Module<u64> = Module::new();
    m.send_message(RawOrigin::Signed(1), 1, 2, b"x".to_vec()).unwrap();
    let _ = m.send_message(RawOrigin::Root, 1, 2, b"y".to_vec());
    assert_eq!(m.user(1).id(), 0);
    assert!(m.user(1).username().is_empty());
    assert_eq!(m.user_by_index(3), 0);
    assert_eq!(m.all_users_count(), 0);
}

#[test]
fn default_records_compare_equal() {
    let u: User<u64> = User::default();
    assert!(u == u.clone());
    let w: Wallet<u64, u128> = Wallet::default();
    assert!(w == w.clone());
}
