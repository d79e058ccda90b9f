use candy_machine::record_store::{
    pad_with_zeros, strip_trailing_zeros, ItemRecord, RecordError, RecordStore,
};

fn rec(name: &str, uri: &str) -> ItemRecord {
    ItemRecord { name: name.as_bytes().to_vec(), uri: uri.as_bytes().to_vec() }
}

#[test]
fn append_then_get_returns_written_bytes() {
    let mut s = RecordStore::new(3, 8, 16);
    assert_eq!(s.append_batch(1, &vec![rec("B", "u/b"), rec("Cc", "u/cc")]), Ok(()));
    let got = s.get(2).unwrap();
    assert_eq!(got.name, b"Cc".to_vec());
    assert_eq!(got.uri, b"u/cc".to_vec());
    assert_eq!(s.get(0), Err(RecordError::NotPresent));
    assert_eq!(s.get(3), Err(RecordError::OutOfBounds));
    assert!(!s.is_fully_populated());
    assert_eq!(s.append_batch(0, &vec![rec("A", "u/a")]), Ok(()));
    assert!(s.is_fully_populated());
}

#[test]
fn reappend_identical_is_noop_and_differing_fails() {
    let mut s = RecordStore::new(2, 8, 16);
    assert_eq!(s.append_batch(0, &vec![rec("A", "u/a")]), Ok(()));
    assert_eq!(s.append_batch(0, &vec![rec("A", "u/a")]), Ok(()));
    assert_eq!(s.append_batch(0, &vec![rec("A", "u/x")]), Err(RecordError::AlreadyPresent));
    let got = s.get(0).unwrap();
    assert_eq!(got.uri, b"u/a".to_vec());
}

#[test]
fn failing_batch_writes_nothing() {
    let mut s = RecordStore::new(3, 4, 4);
    assert_eq!(s.append_batch(0, &vec![rec("A", "a")]), Ok(()));
    assert_eq!(
        s.append_batch(1, &vec![rec("B", "b"), rec("A", "z")]),
        Ok(())
    );
    assert_eq!(
        s.append_batch(1, &vec![rec("N", "n"), rec("X", "x")]),
        Err(RecordError::AlreadyPresent)
    );
    assert_eq!(s.get(1).unwrap().name, b"B".to_vec());
}

#[test]
fn batch_errors() {
    let mut s = RecordStore::new(2, 4, 4);
    assert_eq!(s.append_batch(1, &vec![rec("A", "a"), rec("B", "b")]), Err(RecordError::OutOfBounds));
    assert_eq!(s.append_batch(0, &vec![rec("TOOLONG", "a")]), Err(RecordError::RecordTooLarge));
    assert_eq!(s.append_batch(0, &vec![rec("A", "toolong")]), Err(RecordError::RecordTooLarge));
    assert_eq!(s.get(0), Err(RecordError::NotPresent));
    assert_eq!(s.append_batch(2, &vec![]), Ok(()));
}

#[test]
fn padding_is_stripped_on_read() {
    let mut s = RecordStore::new(1, 6, 6);
    assert_eq!(s.append_batch(0, &vec![rec("abcdef", "x")]), Ok(()));
    let got = s.get(0).unwrap();
    assert_eq!(got.name, b"abcdef".to_vec());
    assert_eq!(got.uri, b"x".to_vec());
    let padded = pad_with_zeros(&vec![1u8, 2], 5);
    assert_eq!(padded, vec![1u8, 2, 0, 0, 0]);
    assert_eq!(strip_trailing_zeros(&padded), vec![1u8, 2]);
    assert_eq!(strip_trailing_zeros(&vec![0u8, 0]), Vec::<u8>::new());
}
