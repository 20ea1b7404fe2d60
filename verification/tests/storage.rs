use garbled_snark_verifier::storage::{Credits, Data, Error, Storage};

#[derive(Copy, Clone, Debug, PartialEq, Eq)]
struct Key(usize);

impl From<usize> for Key {
    fn from(v: usize) -> Self {
        Key(v)
    }
}

impl From<Key> for usize {
    fn from(key: Key) -> usize {
        key.0
    }
}

#[test]
fn get_borrow_then_owned() {
    let mut st = Storage::<Key, String>::new(8);
    st.index_offset = 0;
    let key = st.allocate("hello".to_string(), 2);

    {
        let d = st.get(key).expect("first get should succeed");
        match d {
            Data::Borrowed(s) => assert_eq!(s, "hello"),
            Data::Owned(_) => panic!("should not be owned yet"),
        }
    }

    let d2 = st.get(key).expect("second get should succeed");
    match d2 {
        Data::Owned(s) => assert_eq!(s, "hello"),
        Data::Borrowed(_) => panic!("should be owned now"),
    }

    let err = st.get(key).expect_err("should be NotFound");
    assert_eq!(err, Error::NotFound { key: key.0 });
}

#[test]
fn get_owned_when_one_credit() {
    let mut st = Storage::<Key, i32>::new(4);
    st.index_offset = 0;
    let key = st.allocate(42, 1);

    let d = st.get(key).expect("get should succeed");
    match d {
        Data::Owned(v) => assert_eq!(v, 42),
        Data::Borrowed(_) => panic!("should be owned when single credit"),
    }

    assert_eq!(st.get(key), Err(Error::NotFound { key: key.0 }));
}

#[test]
fn add_credits_and_overflow() {
    let mut st = Storage::<Key, i32>::new(4);
    let key = st.allocate(0, 1);

    assert!(st.add_credits(key, Credits::MAX - 1).is_ok());

    let err = st.add_credits(key, 1).expect_err("expected overflow");
    assert_eq!(err, Error::OverflowCredits);
}

#[test]
fn unknown_key_not_found() {
    let mut st = Storage::<Key, ()>::new(1);
    st.index_offset = 0;
    let fake = Key(123);
    assert_eq!(st.get(fake), Err(Error::NotFound { key: 123 }));
    assert_eq!(st.set(fake, |_| ()), Err(Error::NotFound { key: 123 }));
    assert_eq!(st.add_credits(fake, 1), Err(Error::NotFound { key: 123 }));
}

#[test]
fn first_key_follows_the_constants() {
    let mut st = Storage::<Key, i32>::new(4);
    assert_eq!(st.allocate(7, 1), Key(2));
    assert_eq!(st.allocate(8, 3), Key(3));
    assert_eq!(st.len(), 2);
    assert!(!st.is_empty());
    assert!(st.capacity() >= 2);
    assert!(st.contains(Key(3)));
    assert!(!st.contains(Key(4)));
}

#[test]
fn no_credits_store_nothing() {
    let mut st = Storage::<Key, i32>::new(4);
    assert_eq!(st.allocate(7, 0), Key(usize::MAX));
    assert!(st.is_empty());
}

#[test]
fn freed_place_is_used_again() {
    let mut st = Storage::<Key, i32>::new(4);
    let a = st.allocate(1, 1);
    let b = st.allocate(2, 1);
    assert_eq!(st.get(a).unwrap().to_owned(), 1);
    assert_eq!(st.allocate(3, 1), a);
    assert_eq!(st.get(b).unwrap().to_owned(), 2);
    assert_eq!(st.get(a).unwrap().to_owned(), 3);
}

#[test]
fn set_keeps_credits() {
    let mut st = Storage::<Key, i32>::new(4);
    let k = st.allocate(1, 2);
    st.set(k, |v: &mut i32| *v += 10).unwrap();
    assert_eq!(st.get(k).unwrap().to_owned(), 11);
    assert_eq!(st.to_iter(), vec![(k, 1, 11)]);
}
