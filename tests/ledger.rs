use hash_store::{appended, listed, same_bytes, Hash32, HashStore, KvStore, HASH_LEN};

fn h(b: u8) -> Hash32 {
    Hash32::from_array([b; 32])
}

#[test]
fn add_and_list_hashes_per_event() {
    let mut store = HashStore::new();

    let event_a: &[u8] = b"event-a";
    let event_b: &[u8] = b"event-b";
    let hash1 = Hash32::from_array([1u8; 32]);
    let hash2 = Hash32::from_array([2u8; 32]);
    let hash3 = Hash32::from_array([3u8; 32]);

    // Initially empty.
    assert_eq!(store.get_hashes(event_a).len(), 0);

    // Add hashes to two separate events.
    store.add_hash(event_a, hash1);
    store.add_hash(event_a, hash2);
    store.add_hash(event_b, hash3);

    let hashes_a = store.get_hashes(event_a);
    let hashes_b = store.get_hashes(event_b);

    assert_eq!(hashes_a.len(), 2);
    assert_eq!(hashes_a[0], hash1);
    assert_eq!(hashes_a[1], hash2);

    assert_eq!(hashes_b.len(), 1);
    assert_eq!(hashes_b[0], hash3);
}

#[test]
fn never_appended_event_is_empty() {
    let mut store = HashStore::new();
    assert!(store.get_hashes(b"nothing").is_empty());
    store.add_hash(b"other", h(9));
    assert!(store.get_hashes(b"nothing").is_empty());
    assert!(store.get_hashes(b"").is_empty());
}

#[test]
fn appends_come_back_in_call_order() {
    let mut store = HashStore::new();
    for b in [5u8, 3, 8, 1] {
        store.add_hash(b"ev", h(b));
    }
    assert_eq!(store.get_hashes(b"ev"), vec![h(5), h(3), h(8), h(1)]);
}

#[test]
fn events_are_isolated() {
    let mut store = HashStore::new();
    store.add_hash(b"b", h(7));
    let before = store.get_hashes(b"b");
    store.add_hash(b"a", h(1));
    store.add_hash(b"a", h(2));
    assert_eq!(store.get_hashes(b"b"), before);
    store.add_hash(b"b", h(8));
    assert_eq!(store.get_hashes(b"a"), vec![h(1), h(2)]);
    assert_eq!(store.get_hashes(b"b"), vec![h(7), h(8)]);
}

#[test]
fn duplicate_hash_is_kept_twice() {
    let mut store = HashStore::new();
    store.add_hash(b"dup", h(4));
    store.add_hash(b"dup", h(4));
    assert_eq!(store.get_hashes(b"dup"), vec![h(4), h(4)]);
}

#[test]
fn reads_do_not_change_state() {
    let mut store = HashStore::new();
    store.add_hash(b"r", h(1));
    let first = store.get_hashes(b"r");
    let second = store.get_hashes(b"r");
    let third = store.get_hashes(b"r");
    assert_eq!(first, second);
    assert_eq!(second, third);
    assert_eq!(first, vec![h(1)]);
}

#[test]
fn empty_identifier_is_its_own_key() {
    let mut store = HashStore::new();
    store.add_hash(b"", h(1));
    store.add_hash(b"x", h(2));
    store.add_hash(b"", h(3));
    assert_eq!(store.get_hashes(b""), vec![h(1), h(3)]);
    assert_eq!(store.get_hashes(b"x"), vec![h(2)]);
}

#[test]
fn identifiers_differ_by_exact_bytes() {
    let mut store = HashStore::new();
    store.add_hash(b"ab", h(1));
    store.add_hash(b"abc", h(2));
    store.add_hash(b"aB", h(3));
    assert_eq!(store.get_hashes(b"ab"), vec![h(1)]);
    assert_eq!(store.get_hashes(b"abc"), vec![h(2)]);
    assert_eq!(store.get_hashes(b"aB"), vec![h(3)]);
    assert!(store.get_hashes(b"a").is_empty());
}

#[test]
fn hash_from_slice_requires_exactly_32_bytes() {
    assert_eq!(HASH_LEN, 32);
    assert!(Hash32::from_slice(&[0u8; 31]).is_none());
    assert!(Hash32::from_slice(&[0u8; 33]).is_none());
    assert!(Hash32::from_slice(&[]).is_none());
    let mut bytes = [0u8; 32];
    for (i, b) in bytes.iter_mut().enumerate() {
        *b = i as u8;
    }
    let hash = Hash32::from_slice(&bytes).unwrap();
    assert_eq!(hash.to_array(), bytes);
    assert_eq!(hash, Hash32::from_array(bytes));
}

#[test]
fn appended_and_listed_treat_absence_as_empty() {
    assert!(listed(None).is_empty());
    assert_eq!(listed(Some(vec![h(1), h(2)])), vec![h(1), h(2)]);
    assert_eq!(appended(None, h(6)), vec![h(6)]);
    assert_eq!(appended(Some(vec![h(1)]), h(6)), vec![h(1), h(6)]);
}

#[test]
fn store_get_and_set() {
    let mut kv = KvStore::new();
    assert!(kv.get(b"k").is_none());
    kv.set(b"k", vec![h(1)]);
    kv.set(b"j", vec![]);
    assert_eq!(kv.get(b"k"), Some(vec![h(1)]));
    assert_eq!(kv.get(b"j"), Some(vec![]));
    kv.set(b"k", vec![h(2), h(3)]);
    assert_eq!(kv.get(b"k"), Some(vec![h(2), h(3)]));
    assert_eq!(kv.get(b"j"), Some(vec![]));
    assert!(kv.get(b"").is_none());
}

#[test]
fn byte_comparison_is_exact() {
    assert!(same_bytes(b"", b""));
    assert!(same_bytes(b"abc", b"abc"));
    assert!(!same_bytes(b"abc", b"abd"));
    assert!(!same_bytes(b"abc", b"ab"));
    assert!(!same_bytes(b"", b"a"));
}
