//! The repair itself, run against a store held in memory.

use crate::coordinator::Action;
use crate::coordinator::Coordinator;
use crate::coordinator::Event;
use crate::coordinator::RepairError;
use crate::coordinator::Report;
use crate::coordinator::ScanStep;
use crate::digest::Digest;
use crate::prune::group;
use crate::prune::group_end;
use crate::prune::lemma_group_end;
use crate::prune::lemma_group_end_shift;
use crate::prune::lemma_group_end_starts_group;
use crate::prune::lemma_keys_finite;
use crate::prune::lemma_nothing_to_prune;
use crate::prune::lemma_pass_group;
use crate::prune::no_orphan_remains;
use crate::prune::pruning_goes_by_groups;
use crate::prune::pruning_twice_is_pruning_once;
use crate::prune::removed_keys_are_the_orphans;
use crate::prune::orphans;
use crate::prune::pruned;
use crate::prune::starts_group;
use crate::table::ascending;
use crate::table::keys;
use crate::table::strictly_ascending;
use crate::table::AccountIndex;
use crate::table::Row;
use crate::table::StorageTrie;
use crate::transaction::delete_takes_the_whole_group;
use crate::transaction::scan_visits_each_key_once;
use crate::transaction::Scan;
use crate::transaction::Transaction;
use vstd::prelude::*;

verus! {

/// A store: the two tables, and the state root recorded on the header of the
/// best block, if there is such a header.
#[derive(Debug)]
pub struct Store {
    /// The canonical account index. A repair only reads it.
    pub accounts: AccountIndex,
    /// The storage trie table.
    pub trie: StorageTrie,
    /// The state root on the best block's header; `None` without a best
    /// block or without its header.
    pub best_root: Option<Digest>,
}

/// What a store holds.
pub struct StoreView {
    pub accounts: Seq<Row>,
    pub trie: Seq<Row>,
    pub best_root: Option<Digest>,
}

impl View for Store {
    type V = StoreView;

    open spec fn view(&self) -> StoreView {
        StoreView { accounts: self.accounts@, trie: self.trie@, best_root: self.best_root }
    }
}

impl StoreView {
    /// What holds of every store: the account index has each key once, in
    /// order; the storage trie table is in order; and it fits in memory.
    pub open spec fn wf(self) -> bool {
        &&& strictly_ascending(self.accounts)
        &&& ascending(self.trie)
        &&& self.trie.len() <= usize::MAX
    }

    /// The keys of the live accounts.
    pub open spec fn live(self) -> Set<Digest> {
        keys(self.accounts)
    }

    /// The storage trie table as the root computation is shown it: pruned,
    /// and not yet committed.
    pub open spec fn pruned_trie(self) -> Seq<Row> {
        pruned(self.trie, self.live())
    }

    /// How a repair of this store ends when the root recomputed over the
    /// pruned tables is `computed`.
    pub open spec fn verdict(self, computed: Digest) -> Result<Report, RepairError> {
        match self.best_root {
            None => Err(RepairError::HeaderNotFound),
            Some(expected) => if computed == expected {
                Ok(Report { deleted: orphans(self.trie, self.live()).len() as u64, root: expected })
            } else {
                Err(RepairError::RootMismatch { expected, computed })
            },
        }
    }

    /// What the store holds after that repair: the pruned table if the
    /// repair succeeded, and what it held before if not.
    pub open spec fn repaired(self, computed: Digest) -> StoreView {
        if self.verdict(computed) is Ok {
            StoreView { accounts: self.accounts, trie: self.pruned_trie(), best_root: self.best_root }
        } else {
            self
        }
    }
}

/// A store that a repair has committed holds no orphaned group: the key of
/// every row left in the storage trie table is in the account index.
pub proof fn committed_store_has_no_orphans(store: StoreView, computed: Digest)
    requires
        store.verdict(computed) is Ok,
    ensures
        orphans(store.repaired(computed).trie, store.repaired(computed).live())
            == Set::<Digest>::empty(),
        forall|i: int|
            0 <= i < store.repaired(computed).trie.len() ==> keys(store.accounts).contains(
                (#[trigger] store.repaired(computed).trie[i]).key,
            ),
{
    no_orphan_remains(store.trie, store.live());
}

/// A repair deletes nothing under a live key: however it ends, the group of
/// a key that the account index holds is afterwards what it was before, and
/// the account index itself is never written.
pub proof fn live_groups_are_untouched(store: StoreView, computed: Digest, key: Digest)
    requires
        store.live().contains(key),
    ensures
        group(store.repaired(computed).trie, key) == group(store.trie, key),
        store.repaired(computed).accounts == store.accounts,
        store.repaired(computed).best_root == store.best_root,
{
    pruning_goes_by_groups(store.trie, store.live(), key);
}

/// A second repair, run on the store that a first one committed, shows the
/// root computation the tables that the first one showed it. Given the same
/// root, it deletes nothing, changes nothing, and reports that same root.
pub proof fn second_run_deletes_nothing(store: StoreView, computed: Digest)
    requires
        store.verdict(computed) is Ok,
    ensures
        store.verdict(computed)->Ok_0.root == computed,
        store.repaired(computed).accounts == store.accounts,
        store.repaired(computed).pruned_trie() == store.pruned_trie(),
        store.repaired(computed).verdict(computed) == Ok::<Report, RepairError>(
            Report { deleted: 0, root: computed },
        ),
        store.repaired(computed).repaired(computed) == store.repaired(computed),
{
    pruning_twice_is_pruning_once(store.trie, store.live());
}

/// A repair that fails leaves both tables as they were: without a best
/// header, and whenever the recomputed root is not the expected one.
pub proof fn failed_run_changes_nothing(store: StoreView, computed: Digest)
    requires
        store.verdict(computed) is Err,
    ensures
        store.repaired(computed) == store,
        store.best_root matches Some(expected) ==> computed != expected && store.verdict(computed)
            == Err::<Report, RepairError>(RepairError::RootMismatch { expected, computed }),
{
}

/// The reported number of deletions is the number of orphaned keys, and
/// those are the keys that the storage trie table has lost.
pub proof fn report_counts_orphaned_keys(store: StoreView, computed: Digest)
    requires
        store.wf(),
        store.verdict(computed) is Ok,
    ensures
        store.verdict(computed)->Ok_0.deleted == orphans(store.trie, store.live()).len(),
        orphans(store.trie, store.live()) == keys(store.trie).difference(
            keys(store.repaired(computed).trie),
        ),
{
    removed_keys_are_the_orphans(store.trie, store.live());
}

/// What a store that keeps its word answers to a request of the scan, and
/// what the request makes of the transaction. `live` holds the keys of the
/// account index.
pub open spec fn answer(action: Action, tx: Scan, live: Set<Digest>) -> (Event, Scan) {
    match action {
        Action::SeekFirst => (Event::Entry(tx.first().current()), tx.first()),
        Action::Lookup(key) => (Event::Lookup(live.contains(key)), tx),
        Action::DeleteGroup => (
            if tx.current() is Some {
                Event::Deleted
            } else {
                Event::Failed
            },
            tx.delete_current_duplicates(),
        ),
        Action::NextGroup | Action::NextEntry => (
            Event::Entry(tx.next_group().current()),
            tx.next_group(),
        ),
        _ => (Event::Failed, tx),
    }
}

/// How far a scan has come: the first `passed` rows of the table as it was
/// are dealt with, each group of them kept whole or deleted whole and
/// counted, the rows after them are untouched, and the coordinator and the
/// cursor agree on what comes next.
pub open spec fn on_track(machine: Coordinator, tx: Scan, before: StoreView, passed: int) -> bool {
    let live = before.live();
    let kept = pruned(before.trie.take(passed), live);
    let count = orphans(before.trie.take(passed), live).len();
    &&& ascending(before.trie)
    &&& before.trie.len() <= usize::MAX
    &&& tx.wf()
    &&& 0 <= passed <= before.trie.len()
    &&& starts_group(before.trie, passed)
    &&& tx.rows == kept + before.trie.skip(passed)
    &&& match machine {
        Coordinator::Scanning { expected, deleted, step } => {
            &&& before.best_root == Some(expected)
            &&& match step {
                ScanStep::Seek => passed == 0 && deleted == 0,
                ScanStep::Probe(key) => {
                    &&& tx.position == kept.len()
                    &&& !tx.stale
                    &&& passed < before.trie.len()
                    &&& key == before.trie[passed].key
                    &&& deleted == count
                },
                ScanStep::Delete => {
                    &&& tx.position == kept.len()
                    &&& !tx.stale
                    &&& passed < before.trie.len()
                    &&& !live.contains(before.trie[passed].key)
                    &&& deleted == count + 1
                },
                ScanStep::Advance => {
                    &&& tx.position == kept.len()
                    &&& !tx.stale
                    &&& passed < before.trie.len()
                    &&& live.contains(before.trie[passed].key)
                    &&& deleted == count
                },
                ScanStep::Resume => {
                    &&& tx.position == kept.len()
                    &&& tx.stale
                    &&& deleted == count
                },
            }
        },
        Coordinator::Verifying { expected, deleted, verified } => {
            &&& before.best_root == Some(expected)
            &&& !verified
            &&& passed == before.trie.len()
            &&& deleted == count
        },
        _ => false,
    }
}

/// What is left of a scan, as a number that goes down with every request.
pub open spec fn left(machine: Coordinator, tx: Scan, before: StoreView, passed: int) -> int {
    4 * (before.trie.len() - passed) + match machine {
        Coordinator::Scanning { step: ScanStep::Seek, .. } => 3int,
        Coordinator::Scanning { step: ScanStep::Probe(_), .. } => 2,
        Coordinator::Scanning { step: ScanStep::Delete, .. } => 1,
        Coordinator::Scanning { step: ScanStep::Advance, .. } => 1,
        Coordinator::Scanning { step: ScanStep::Resume, .. } => 3,
        _ => 0,
    }
}

/// The rows under the cursor of a scan that is on track are the rows of the
/// first group not yet passed.
proof fn lemma_cursor_on_group(machine: Coordinator, tx: Scan, before: StoreView, passed: int)
    requires
        on_track(machine, tx, before, passed),
        passed < before.trie.len(),
        tx.position == pruned(before.trie.take(passed), before.live()).len(),
    ensures
        tx.position < tx.rows.len(),
        tx.rows[tx.position] == before.trie[passed],
        group_end(tx.rows, tx.position) - tx.position == group_end(before.trie, passed) - passed,
        passed < group_end(before.trie, passed) <= before.trie.len(),
        starts_group(before.trie, group_end(before.trie, passed)),
{
    let kept = pruned(before.trie.take(passed), before.live());
    assert(tx.rows.skip(tx.position) =~= before.trie.skip(passed));
    assert(tx.rows[tx.position] == before.trie.skip(passed)[0]);
    lemma_group_end_shift(tx.rows, tx.position, before.trie, passed);
    lemma_group_end(before.trie, passed);
    lemma_group_end_starts_group(before.trie, passed);
}

/// A repair starts its scan on track: the header is resolved, a transaction
/// is open on the table as it is, and nothing is passed yet.
pub proof fn scan_starts_on_track(before: StoreView, expected: Digest)
    requires
        ascending(before.trie),
        before.trie.len() <= usize::MAX,
        before.best_root == Some(expected),
    ensures
        on_track(
            Coordinator::Open.next(Event::Header(Some(expected))),
            Scan { rows: before.trie, position: 0, stale: true },
            before,
            0,
        ),
{
    lemma_nothing_to_prune(before.live());
    assert(before.trie.take(0) =~= Seq::<Row>::empty());
    assert(before.trie =~= pruned(before.trie.take(0), before.live()) + before.trie.skip(0));
}

/// Every request of a scan that is on track, answered by a store that keeps
/// its word, leaves the scan on track and nearer its end. The result says
/// how many rows are passed after it. No group is passed twice and none is
/// left out, and the counter cannot run over.
pub proof fn scan_stays_on_track(
    machine: Coordinator,
    tx: Scan,
    before: StoreView,
    passed: int,
) -> (further: int)
    requires
        on_track(machine, tx, before, passed),
        machine is Scanning,
    ensures
        machine.awaits() matches Some(Action::Lookup(_)) ==> machine.deletions() < u64::MAX,
        passed <= further,
        on_track(
            machine.next(answer(machine.awaits()->0, tx, before.live()).0),
            answer(machine.awaits()->0, tx, before.live()).1,
            before,
            further,
        ),
        left(
            machine.next(answer(machine.awaits()->0, tx, before.live()).0),
            answer(machine.awaits()->0, tx, before.live()).1,
            before,
            further,
        ) < left(machine, tx, before, passed),
{
    let live = before.live();
    let trie = before.trie;
    let kept = pruned(trie.take(passed), live);
    lemma_keys_finite(trie.take(passed), live);
    if passed < trie.len() {
        lemma_group_end(trie, passed);
        lemma_pass_group(trie, live, passed, group_end(trie, passed));
        lemma_keys_finite(trie.take(group_end(trie, passed)), live);
    }
    match machine->step {
        ScanStep::Seek => {
            lemma_nothing_to_prune(live);
            assert(trie.take(0) =~= Seq::<Row>::empty());
            assert(tx.rows =~= trie);
            passed
        },
        ScanStep::Probe(_) => passed,
        ScanStep::Delete => {
            lemma_cursor_on_group(machine, tx, before, passed);
            let end = group_end(trie, passed);
            assert(tx.rows.take(kept.len() as int) =~= kept);
            assert(tx.rows.skip(kept.len() + (end - passed)) =~= trie.skip(end));
            delete_takes_the_whole_group(tx, trie[passed].key);
            end
        },
        ScanStep::Advance => {
            lemma_cursor_on_group(machine, tx, before, passed);
            scan_visits_each_key_once(tx);
            let end = group_end(trie, passed);
            assert(trie.skip(passed) =~= trie.subrange(passed, end) + trie.skip(end));
            assert(tx.rows =~= pruned(trie.take(end), live) + trie.skip(end));
            end
        },
        ScanStep::Resume => {
            if passed < trie.len() {
                lemma_cursor_on_group(machine, tx, before, passed);
            }
            passed
        },
    }
}

/// A scan that is on track when the coordinator turns to verifying has
/// passed the whole table: the transaction holds the pruned table, and the
/// counter the number of orphaned keys.
pub proof fn scan_ends_pruned(machine: Coordinator, tx: Scan, before: StoreView, passed: int)
    requires
        on_track(machine, tx, before, passed),
        machine is Verifying,
    ensures
        tx.rows == before.pruned_trie(),
        machine.deletions() == orphans(before.trie, before.live()).len(),
        machine.awaits() == Some(Action::ComputeRoot),
{
    assert(before.trie.take(passed) =~= before.trie);
    assert(tx.rows =~= before.pruned_trie());
}

/// Runs the repair on `store`.
///
/// Every group of the storage trie table whose key the account index does
/// not hold is deleted inside one transaction. `oracle` then recomputes the
/// state root over the account index and the pruned table. If that root is
/// the one on the best header, the pruned table takes the table's place and
/// the number of deleted groups is reported with the root. If it is not, or
/// if there is no best header, the store is left as it was.
pub fn repair<F>(store: &mut Store, oracle: F) -> (result: Result<Report, RepairError>) where
    F: Fn(&AccountIndex, &StorageTrie) -> Digest,

    requires
        forall|seen: StorageTrie|
            seen@ == old(store)@.pruned_trie() ==> call_requires(
                oracle,
                (&old(store).accounts, &seen),
            ),
    ensures
        old(store)@.best_root is None ==> {
            &&& result == Err::<Report, RepairError>(RepairError::HeaderNotFound)
            &&& final(store)@ == old(store)@
        },
        old(store)@.best_root is Some ==> exists|seen: StorageTrie, computed: Digest|
            {
                &&& seen@ == old(store)@.pruned_trie()
                &&& call_ensures(oracle, (&old(store).accounts, &seen), computed)
                &&& result == old(store)@.verdict(computed)
                &&& final(store)@ == old(store)@.repaired(computed)
            },
{
    let ghost before = store@;
    let ghost mut passed: int = 0;
    let mut machine = Coordinator::new();
    machine = machine.step(Event::Header(store.best_root));
    if machine.pending().is_none() {
        return machine.finish();
    }
    let mut tx = Transaction::begin(&store.trie);
    proof {
        scan_starts_on_track(before, before.best_root->0);
    }
    while machine.is_scanning()
        invariant
            on_track(machine, tx@, before, passed),
            store@ == before,
            *store == *old(store),
        decreases left(machine, tx@, before, passed),
    {
        proof {
            passed = scan_stays_on_track(machine, tx@, before, passed);
        }
        let event = match machine.pending() {
            Some(Action::SeekFirst) => Event::Entry(tx.first()),
            Some(Action::Lookup(key)) => Event::Lookup(store.accounts.contains(&key)),
            Some(Action::DeleteGroup) => if tx.delete_current_duplicates() {
                Event::Deleted
            } else {
                Event::Failed
            },
            Some(Action::NextGroup) | Some(Action::NextEntry) => Event::Entry(tx.next_group()),
            _ => Event::Failed,
        };
        machine = machine.step(event);
    }
    proof {
        scan_ends_pruned(machine, tx@, before, passed);
        lemma_keys_finite(before.trie, before.live());
    }
    let seen = tx.into_table();
    let computed = oracle(&store.accounts, &seen);
    machine = machine.step(Event::Root(computed));
    if let Some(Action::Commit) = machine.pending() {
        store.trie = seen;
        machine = machine.step(Event::Committed);
    }
    assert(store@ == before.repaired(computed));
    machine.finish()
}

} // verus!
