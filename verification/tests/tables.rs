use trie_repair::digest::Digest;
use trie_repair::table::AccountIndex;
use trie_repair::table::Entry;
use trie_repair::table::StorageTrie;

fn key(n: u8) -> Digest {
    let mut bytes = [0u8; 32];
    bytes[31] = n;
    Digest::new(bytes)
}

fn entry(n: u8, value: &[u8]) -> Entry {
    Entry::new(key(n), value.to_vec())
}

#[test]
fn entry_holds_key_and_value() {
    let e = entry(4, &[1, 2, 3]);
    assert_eq!(e.key, key(4));
    assert_eq!(e.value, vec![1, 2, 3]);
}

#[test]
fn cloned_entry_is_equal() {
    let e = entry(4, &[1, 2, 3]);
    assert_eq!(e.clone(), e);
}

#[test]
fn empty_account_index_holds_nothing() {
    let index = AccountIndex::from_entries(Vec::new()).unwrap();
    assert!(index.entries().is_empty());
    assert!(!index.contains(&key(0)));
    assert!(!index.contains(&key(1)));
}

#[test]
fn account_index_finds_exactly_its_keys() {
    let index = AccountIndex::from_entries(vec![
        entry(2, b"a"),
        entry(4, b"b"),
        entry(6, b"c"),
        entry(8, b"d"),
        entry(10, b"e"),
    ])
    .unwrap();
    for n in 0..12u8 {
        assert_eq!(index.contains(&key(n)), n >= 2 && n % 2 == 0 && n <= 10);
    }
}

#[test]
fn account_index_with_one_entry() {
    let index = AccountIndex::from_entries(vec![entry(5, b"only")]).unwrap();
    assert!(index.contains(&key(5)));
    assert!(!index.contains(&key(4)));
    assert!(!index.contains(&key(6)));
}

#[test]
fn account_index_keeps_its_entries() {
    let entries = vec![entry(1, b"x"), entry(2, b""), entry(3, b"zz")];
    let index = AccountIndex::from_entries(entries.clone()).unwrap();
    assert_eq!(index.entries(), &entries);
}

#[test]
fn account_index_refuses_a_key_twice() {
    assert!(AccountIndex::from_entries(vec![entry(1, b"x"), entry(1, b"y")]).is_none());
}

#[test]
fn account_index_refuses_keys_out_of_order() {
    assert!(AccountIndex::from_entries(vec![entry(2, b"x"), entry(1, b"y")]).is_none());
    assert!(
        AccountIndex::from_entries(vec![entry(1, b"x"), entry(3, b"y"), entry(2, b"z")]).is_none()
    );
}

#[test]
fn account_index_goes_by_the_whole_key() {
    let mut front = [0u8; 32];
    front[0] = 1;
    let front = Digest::new(front);
    let index =
        AccountIndex::from_entries(vec![entry(9, b"back"), Entry::new(front, b"front".to_vec())])
            .unwrap();
    assert!(index.contains(&front));
    assert!(index.contains(&key(9)));
    assert!(!index.contains(&key(1)));
}

#[test]
fn storage_trie_takes_groups() {
    let entries = vec![entry(1, b"a"), entry(1, b"b"), entry(2, b"a"), entry(3, b"a"), entry(3, b"a")];
    let table = StorageTrie::from_entries(entries.clone()).unwrap();
    assert_eq!(table.entries(), &entries);
}

#[test]
fn storage_trie_may_be_empty() {
    let table = StorageTrie::from_entries(Vec::new()).unwrap();
    assert!(table.entries().is_empty());
}

#[test]
fn storage_trie_refuses_keys_out_of_order() {
    assert!(StorageTrie::from_entries(vec![entry(2, b"x"), entry(1, b"y")]).is_none());
    assert!(
        StorageTrie::from_entries(vec![entry(1, b"x"), entry(2, b"y"), entry(1, b"z")]).is_none()
    );
}
