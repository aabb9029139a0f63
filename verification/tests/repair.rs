use trie_repair::coordinator::Action;
use trie_repair::coordinator::Coordinator;
use trie_repair::coordinator::Event;
use trie_repair::coordinator::RepairError;
use trie_repair::coordinator::Report;
use trie_repair::digest::Digest;
use trie_repair::repair::repair;
use trie_repair::repair::Store;
use trie_repair::table::AccountIndex;
use trie_repair::table::Entry;
use trie_repair::table::StorageTrie;
use trie_repair::transaction::Transaction;

const A: u8 = 0x0a;
const B: u8 = 0x0b;
const C: u8 = 0x0c;

fn key(n: u8) -> Digest {
    let mut bytes = [0u8; 32];
    bytes[31] = n;
    Digest::new(bytes)
}

fn entry(n: u8, value: &[u8]) -> Entry {
    Entry::new(key(n), value.to_vec())
}

/// A stand-in for the state root: it depends on every byte of both tables
/// and on their order.
fn root_of(accounts: &AccountIndex, trie: &StorageTrie) -> Digest {
    let mut out = [0u8; 32];
    let mut at = 0usize;
    for table in [accounts.entries(), trie.entries()] {
        for e in table.iter() {
            for byte in e.key.bytes.iter().chain(e.value.iter()) {
                out[at % 32] = out[at % 32].wrapping_mul(31).wrapping_add(*byte).wrapping_add(1);
                at += 1;
            }
        }
    }
    Digest::new(out)
}

fn store(accounts: Vec<Entry>, trie: Vec<Entry>, best_root: Option<Digest>) -> Store {
    Store {
        accounts: AccountIndex::from_entries(accounts).unwrap(),
        trie: StorageTrie::from_entries(trie).unwrap(),
        best_root,
    }
}

/// The root of the store as it will be once its orphans are gone.
fn root_after_pruning(accounts: &[Entry], trie: &[Entry]) -> Digest {
    let index = AccountIndex::from_entries(accounts.to_vec()).unwrap();
    let kept: Vec<Entry> = trie.iter().filter(|e| index.contains(&e.key)).cloned().collect();
    root_of(&index, &StorageTrie::from_entries(kept).unwrap())
}

fn accounts_ab() -> Vec<Entry> {
    vec![entry(A, b"account a"), entry(B, b"account b")]
}

fn trie_abc() -> Vec<Entry> {
    vec![
        entry(A, b"a/0"),
        entry(A, b"a/1"),
        entry(B, b"b/0"),
        entry(C, b"c/0"),
        entry(C, b"c/1"),
        entry(C, b"c/2"),
    ]
}

#[test]
fn orphaned_group_is_removed_and_the_repair_commits() {
    let expected = root_after_pruning(&accounts_ab(), &trie_abc());
    let mut s = store(accounts_ab(), trie_abc(), Some(expected));
    let result = repair(&mut s, root_of);
    assert_eq!(result, Ok(Report { deleted: 1, root: expected }));
    assert_eq!(s.trie.entries(), &vec![entry(A, b"a/0"), entry(A, b"a/1"), entry(B, b"b/0")]);
    assert_eq!(s.accounts.entries(), &accounts_ab());
    assert_eq!(s.best_root, Some(expected));
    assert_eq!(root_of(&s.accounts, &s.trie), expected);
}

#[test]
fn root_mismatch_fails_and_leaves_the_store_untouched() {
    let expected = Digest::new([0xee; 32]);
    let computed = root_after_pruning(&accounts_ab(), &trie_abc());
    assert_ne!(expected, computed);
    let mut s = store(accounts_ab(), trie_abc(), Some(expected));
    let result = repair(&mut s, root_of);
    assert_eq!(result, Err(RepairError::RootMismatch { expected, computed }));
    assert_eq!(s.trie.entries(), &trie_abc());
    assert_eq!(s.accounts.entries(), &accounts_ab());
    assert_eq!(s.best_root, Some(expected));
}

#[test]
fn the_root_is_computed_over_the_pruned_table() {
    // The root of the table as it was would be the wrong one to compare.
    let unpruned = root_of(
        &AccountIndex::from_entries(accounts_ab()).unwrap(),
        &StorageTrie::from_entries(trie_abc()).unwrap(),
    );
    let mut s = store(accounts_ab(), trie_abc(), Some(unpruned));
    let result = repair(&mut s, root_of);
    assert_eq!(
        result,
        Err(RepairError::RootMismatch {
            expected: unpruned,
            computed: root_after_pruning(&accounts_ab(), &trie_abc()),
        })
    );
    assert_eq!(s.trie.entries(), &trie_abc());
}

#[test]
fn without_a_best_header_nothing_is_done() {
    let mut s = store(accounts_ab(), trie_abc(), None);
    let result = repair(&mut s, |_: &AccountIndex, _: &StorageTrie| -> Digest {
        panic!("no root is computed without a header")
    });
    assert_eq!(result, Err(RepairError::HeaderNotFound));
    assert_eq!(s.trie.entries(), &trie_abc());
    assert_eq!(s.accounts.entries(), &accounts_ab());
    assert_eq!(s.best_root, None);
}

#[test]
fn an_empty_table_is_repaired_trivially() {
    let expected = root_after_pruning(&accounts_ab(), &[]);
    let mut s = store(accounts_ab(), Vec::new(), Some(expected));
    assert_eq!(repair(&mut s, root_of), Ok(Report { deleted: 0, root: expected }));
    assert!(s.trie.entries().is_empty());
}

#[test]
fn an_empty_store_is_repaired_trivially() {
    let expected = root_after_pruning(&[], &[]);
    let mut s = store(Vec::new(), Vec::new(), Some(expected));
    assert_eq!(repair(&mut s, root_of), Ok(Report { deleted: 0, root: expected }));
}

#[test]
fn a_table_without_orphans_is_left_as_it_is() {
    let trie = vec![entry(A, b"a/0"), entry(B, b"b/0"), entry(B, b"b/1")];
    let expected = root_after_pruning(&accounts_ab(), &trie);
    let mut s = store(accounts_ab(), trie.clone(), Some(expected));
    assert_eq!(repair(&mut s, root_of), Ok(Report { deleted: 0, root: expected }));
    assert_eq!(s.trie.entries(), &trie);
}

#[test]
fn a_table_of_orphans_only_is_emptied() {
    let trie = vec![entry(1, b"x"), entry(1, b"y"), entry(2, b"z"), entry(0xff, b"w")];
    let expected = root_after_pruning(&accounts_ab(), &trie);
    let mut s = store(accounts_ab(), trie, Some(expected));
    assert_eq!(repair(&mut s, root_of), Ok(Report { deleted: 3, root: expected }));
    assert!(s.trie.entries().is_empty());
}

#[test]
fn without_accounts_every_group_is_an_orphan() {
    let expected = root_after_pruning(&[], &trie_abc());
    let mut s = store(Vec::new(), trie_abc(), Some(expected));
    assert_eq!(repair(&mut s, root_of), Ok(Report { deleted: 3, root: expected }));
    assert!(s.trie.entries().is_empty());
}

#[test]
fn orphans_are_found_wherever_they_stand() {
    let accounts = vec![entry(2, b""), entry(5, b""), entry(6, b"")];
    let trie = vec![
        entry(1, b"first"),
        entry(2, b"kept"),
        entry(3, b"middle"),
        entry(3, b"middle"),
        entry(4, b"next to it"),
        entry(5, b"kept"),
        entry(5, b"kept too"),
        entry(7, b"last"),
    ];
    let expected = root_after_pruning(&accounts, &trie);
    let mut s = store(accounts, trie, Some(expected));
    assert_eq!(repair(&mut s, root_of), Ok(Report { deleted: 4, root: expected }));
    assert_eq!(
        s.trie.entries(),
        &vec![entry(2, b"kept"), entry(5, b"kept"), entry(5, b"kept too")]
    );
}

#[test]
fn no_orphan_remains_after_a_repair() {
    let accounts = vec![entry(2, b""), entry(4, b""), entry(6, b"")];
    let trie: Vec<Entry> = (0..10u8).flat_map(|n| vec![entry(n, b"p"), entry(n, b"q")]).collect();
    let expected = root_after_pruning(&accounts, &trie);
    let mut s = store(accounts, trie, Some(expected));
    assert_eq!(repair(&mut s, root_of), Ok(Report { deleted: 7, root: expected }));
    assert!(s.trie.entries().iter().all(|e| s.accounts.contains(&e.key)));
    assert_eq!(s.trie.entries().len(), 6);
}

#[test]
fn live_groups_keep_every_value_in_order() {
    let accounts = vec![entry(B, b"")];
    let trie = vec![
        entry(A, b"gone"),
        entry(B, b"3"),
        entry(B, b"1"),
        entry(B, b"2"),
        entry(B, b"1"),
        entry(C, b"gone"),
    ];
    let expected = root_after_pruning(&accounts, &trie);
    let mut s = store(accounts, trie, Some(expected));
    assert_eq!(repair(&mut s, root_of), Ok(Report { deleted: 2, root: expected }));
    assert_eq!(
        s.trie.entries(),
        &vec![entry(B, b"3"), entry(B, b"1"), entry(B, b"2"), entry(B, b"1")]
    );
}

#[test]
fn a_second_run_deletes_nothing_and_reports_the_same_root() {
    let expected = root_after_pruning(&accounts_ab(), &trie_abc());
    let mut s = store(accounts_ab(), trie_abc(), Some(expected));
    let first = repair(&mut s, root_of);
    let after_first = s.trie.entries().clone();
    let second = repair(&mut s, root_of);
    assert_eq!(first, Ok(Report { deleted: 1, root: expected }));
    assert_eq!(second, Ok(Report { deleted: 0, root: expected }));
    assert_eq!(s.trie.entries(), &after_first);
}

#[test]
fn the_count_does_not_depend_on_the_size_of_the_groups() {
    let thin = vec![entry(A, b"a"), entry(C, b"c"), entry(0x0d, b"d")];
    let thick = vec![
        entry(A, b"a"),
        entry(C, b"c0"),
        entry(C, b"c1"),
        entry(C, b"c2"),
        entry(C, b"c3"),
        entry(0x0d, b"d0"),
        entry(0x0d, b"d1"),
    ];
    for trie in [thin, thick] {
        let expected = root_after_pruning(&accounts_ab(), &trie);
        let mut s = store(accounts_ab(), trie, Some(expected));
        assert_eq!(repair(&mut s, root_of), Ok(Report { deleted: 2, root: expected }));
        assert_eq!(s.trie.entries(), &vec![entry(A, b"a")]);
    }
}

#[test]
fn the_root_computation_is_shown_the_account_index() {
    let expected = Digest::new([1; 32]);
    let mut s = store(accounts_ab(), trie_abc(), Some(expected));
    let result = repair(&mut s, |accounts: &AccountIndex, trie: &StorageTrie| -> Digest {
        assert_eq!(accounts.entries(), &accounts_ab());
        assert_eq!(trie.entries().len(), 3);
        Digest::new([1; 32])
    });
    assert_eq!(result, Ok(Report { deleted: 1, root: expected }));
}

/// Carries out the coordinator's requests against the tables, the way a
/// driver of a store on disk would, and fails on the request `fail_on`.
fn drive(s: &mut Store, fail_on: Option<Action>) -> Result<Report, RepairError> {
    let mut machine = Coordinator::new();
    let mut tx = Some(Transaction::begin(&s.trie));
    let mut seen = None;
    while let Some(action) = machine.pending() {
        let event = if Some(action) == fail_on {
            Event::Failed
        } else {
            match action {
                Action::ResolveHeader => Event::Header(s.best_root),
                Action::SeekFirst => Event::Entry(tx.as_mut().unwrap().first()),
                Action::Lookup(k) => Event::Lookup(s.accounts.contains(&k)),
                Action::DeleteGroup => {
                    if tx.as_mut().unwrap().delete_current_duplicates() {
                        Event::Deleted
                    } else {
                        Event::Failed
                    }
                }
                Action::NextGroup | Action::NextEntry => {
                    Event::Entry(tx.as_mut().unwrap().next_group())
                }
                Action::ComputeRoot => {
                    let table = tx.take().unwrap().into_table();
                    let root = root_of(&s.accounts, &table);
                    seen = Some(table);
                    Event::Root(root)
                }
                Action::Commit => {
                    s.trie = seen.take().unwrap();
                    Event::Committed
                }
            }
        };
        machine = machine.step(event);
    }
    machine.finish()
}

#[test]
fn driving_the_coordinator_by_hand_gives_the_same_repair() {
    let expected = root_after_pruning(&accounts_ab(), &trie_abc());
    let mut by_hand = store(accounts_ab(), trie_abc(), Some(expected));
    let mut by_library = store(accounts_ab(), trie_abc(), Some(expected));
    assert_eq!(drive(&mut by_hand, None), repair(&mut by_library, root_of));
    assert_eq!(by_hand.trie.entries(), by_library.trie.entries());
}

#[test]
fn a_failure_at_any_request_leaves_the_store_untouched() {
    let expected = root_after_pruning(&accounts_ab(), &trie_abc());
    let requests = [
        Action::ResolveHeader,
        Action::SeekFirst,
        Action::Lookup(key(B)),
        Action::DeleteGroup,
        Action::NextGroup,
        Action::NextEntry,
        Action::ComputeRoot,
        Action::Commit,
    ];
    for request in requests {
        let mut s = store(accounts_ab(), trie_abc(), Some(expected));
        assert_eq!(drive(&mut s, Some(request)), Err(RepairError::StoreFailure));
        assert_eq!(s.trie.entries(), &trie_abc());
        assert_eq!(s.accounts.entries(), &accounts_ab());
    }
}
