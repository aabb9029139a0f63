//! A repair transaction over the storage trie table held in memory: a
//! working copy of the table and one cursor on it.
//!
//! The cursor stands on the first entry of a group or past the last entry.
//! Deleting a group leaves it in front of the entry that followed the group,
//! so that the next advance lands on that entry and skips nothing.

use crate::digest::Digest;
use crate::prune::group;
use crate::prune::group_end;
use crate::prune::lemma_group_elsewhere;
use crate::prune::lemma_group_end;
use crate::prune::lemma_group_end_starts_group;
use crate::prune::lemma_groups_do_not_mix;
use crate::prune::starts_group;
use crate::table::ascending;
use crate::table::rows_of;
use crate::table::Entry;
use crate::table::Row;
use crate::table::StorageTrie;
use vstd::prelude::*;

verus! {

/// What a transaction sees: the rows of its working copy and where its
/// cursor is.
pub struct Scan {
    pub rows: Seq<Row>,
    /// The index of the entry under the cursor, or the number of rows when
    /// the cursor is past the last one.
    pub position: int,
    /// The cursor is in front of `position` rather than on it: it has not
    /// been placed yet, or the group it stood on has been deleted.
    pub stale: bool,
}

impl Scan {
    /// What holds of every transaction: its table is in order and fits in
    /// memory, and its cursor is at the start of a group or past the end.
    pub open spec fn wf(self) -> bool {
        &&& ascending(self.rows)
        &&& self.rows.len() <= usize::MAX
        &&& 0 <= self.position <= self.rows.len()
        &&& starts_group(self.rows, self.position)
    }

    /// The key under the cursor, if the cursor is on an entry.
    pub open spec fn current(self) -> Option<Digest> {
        if !self.stale && 0 <= self.position < self.rows.len() {
            Some(self.rows[self.position].key)
        } else {
            None
        }
    }

    /// The cursor on the first entry.
    pub open spec fn first(self) -> Scan {
        Scan { rows: self.rows, position: 0, stale: false }
    }

    /// The cursor on the first entry of the next key: past the whole group it
    /// stood on, or on the entry it was left in front of.
    pub open spec fn next_group(self) -> Scan {
        if self.stale {
            Scan { rows: self.rows, position: self.position, stale: false }
        } else if self.position < self.rows.len() {
            Scan {
                rows: self.rows,
                position: group_end(self.rows, self.position),
                stale: false,
            }
        } else {
            self
        }
    }

    /// The table without the group under the cursor, and the cursor in front
    /// of what followed it. Nothing changes if the cursor is on no entry.
    pub open spec fn delete_current_duplicates(self) -> Scan {
        if self.current() is Some {
            Scan {
                rows: self.rows.take(self.position) + self.rows.skip(
                    group_end(self.rows, self.position),
                ),
                position: self.position,
                stale: true,
            }
        } else {
            self
        }
    }
}

/// A scan goes up the table and visits each key once: advancing skips the
/// rest of the group under the cursor and nothing else, and the key it
/// arrives at comes after the key it left.
pub proof fn scan_visits_each_key_once(scan: Scan)
    requires
        scan.wf(),
        scan.current() is Some,
    ensures
        scan.next_group().wf(),
        scan.position < scan.next_group().position,
        forall|j: int|
            scan.position <= j < scan.next_group().position ==> Some((#[trigger] scan.rows[j]).key)
                == scan.current(),
        scan.next_group().current() matches Some(key) ==> scan.current()->0.precedes(key),
{
    lemma_group_end(scan.rows, scan.position);
    lemma_group_end_starts_group(scan.rows, scan.position);
    let end = group_end(scan.rows, scan.position);
    if end < scan.rows.len() {
        assert(scan.rows[scan.position].key.at_most(scan.rows[end].key));
    }
}

/// A deletion takes the whole group under the cursor, however many rows it
/// holds, and no row of any other group.
pub proof fn delete_takes_the_whole_group(scan: Scan, key: Digest)
    requires
        scan.wf(),
        scan.current() is Some,
    ensures
        scan.delete_current_duplicates().wf(),
        group(scan.delete_current_duplicates().rows, key) == if scan.current() == Some(key) {
            Seq::<Row>::empty()
        } else {
            group(scan.rows, key)
        },
{
    let rows = scan.rows;
    let at = scan.position;
    let end = group_end(rows, at);
    let before = rows.take(at);
    let taken = rows.subrange(at, end);
    let after = rows.skip(end);
    let same_key = |row: Row| row.key == key;
    lemma_group_end(rows, at);
    lemma_group_end_starts_group(rows, at);
    lemma_cut_keeps_order(rows, at);
    assert(rows =~= before + taken + after);
    Seq::filter_distributes_over_add(before + taken, after, same_key);
    Seq::filter_distributes_over_add(before, taken, same_key);
    Seq::filter_distributes_over_add(before, after, same_key);
    if rows[at].key == key {
        assert forall|j: int| 0 <= j < before.len() implies (#[trigger] before[j]).key != key by {
            lemma_groups_do_not_mix(rows, at, j, at);
        }
        assert forall|j: int| 0 <= j < after.len() implies (#[trigger] after[j]).key != key by {
            lemma_groups_do_not_mix(rows, end, at, end + j);
        }
        lemma_group_elsewhere(before, key);
        lemma_group_elsewhere(after, key);
    } else {
        assert forall|j: int| 0 <= j < taken.len() implies (#[trigger] taken[j]).key != key by {
            assert(taken[j] == rows[at + j]);
        }
        lemma_group_elsewhere(taken, key);
    }
}

/// Cutting a whole group out of a sorted table leaves a sorted table, in
/// which a group starts where the cut was made.
proof fn lemma_cut_keeps_order(rows: Seq<Row>, at: int)
    requires
        ascending(rows),
        0 <= at < rows.len(),
        starts_group(rows, at),
    ensures
        ascending(rows.take(at) + rows.skip(group_end(rows, at))),
        starts_group(rows.take(at) + rows.skip(group_end(rows, at)), at),
{
    let end = group_end(rows, at);
    let cut = rows.take(at) + rows.skip(end);
    lemma_group_end(rows, at);
    assert forall|i: int, j: int| 0 <= i < j < cut.len() implies (#[trigger] cut[i]).key.at_most(
        (#[trigger] cut[j]).key,
    ) by {
        let from = if i < at { i } else { i + (end - at) };
        let to = if j < at { j } else { j + (end - at) };
        assert(cut[i] == rows[from] && cut[j] == rows[to]);
    }
    if 0 < at < cut.len() {
        assert(cut[at - 1] == rows[at - 1] && cut[at] == rows[end]);
        lemma_groups_do_not_mix(rows, at, at - 1, end);
    }
}

/// The one transaction of a repair. What it changes stays in its working
/// copy until the copy is taken out and put in the table's place.
#[derive(Debug)]
pub struct Transaction {
    entries: Vec<Entry>,
    position: usize,
    stale: bool,
}

impl View for Transaction {
    type V = Scan;

    closed spec fn view(&self) -> Scan {
        Scan {
            rows: rows_of(self.entries@),
            position: self.position as int,
            stale: self.stale,
        }
    }
}

impl Transaction {
    /// Opens a transaction on the table. Its cursor is not placed yet.
    pub fn begin(table: &StorageTrie) -> (tx: Transaction)
        ensures
            tx@ == (Scan { rows: table@, position: 0, stale: true }),
            tx@.wf(),
    {
        let source = table.entries();
        let mut entries: Vec<Entry> = Vec::new();
        let mut i: usize = 0;
        while i < source.len()
            invariant
                i <= source.len(),
                rows_of(entries@) == rows_of(source@).take(i as int),
            decreases source.len() - i,
        {
            let copy = source[i].clone();
            assert(copy@ == rows_of(source@)[i as int]);
            let ghost copied = rows_of(entries@);
            assert(copied.len() == entries.len());
            entries.push(copy);
            assert(rows_of(entries@) =~= copied.push(copy@));
            assert(rows_of(entries@) =~= rows_of(source@).take(i + 1));
            i += 1;
        }
        assert(rows_of(source@).take(i as int) =~= rows_of(source@));
        Transaction { entries, position: 0, stale: true }
    }

    /// The key of the entry at `at`.
    fn key_at(&self, at: usize) -> (key: Option<Digest>)
        ensures
            key == if at < self@.rows.len() {
                Some(self@.rows[at as int].key)
            } else {
                None
            },
    {
        if at < self.entries.len() {
            Some(self.entries[at].key)
        } else {
            None
        }
    }

    /// Where the group of the entry at `at` ends.
    fn end_of_group(&self, at: usize) -> (end: usize)
        requires
            at < self@.rows.len(),
        ensures
            end == group_end(self@.rows, at as int),
    {
        let ghost rows = self@.rows;
        assert(rows.len() == self.entries.len());
        let key = self.entries[at].key;
        let mut end: usize = at + 1;
        let mut more: bool = end < self.entries.len() && self.entries[end].key == key;
        while more
            invariant
                rows == rows_of(self.entries@),
                rows.len() == self.entries.len(),
                at < end <= rows.len(),
                rows[end - 1].key == key,
                group_end(rows, at as int) == group_end(rows, end - 1),
                more == (end < rows.len() && rows[end as int].key == key),
            decreases rows.len() - end,
        {
            end += 1;
            more = end < self.entries.len() && self.entries[end].key == key;
        }
        end
    }

    /// Places the cursor on the first entry and returns its key, or `None`
    /// if the table is empty. A scan can be started over at any time.
    pub fn first(&mut self) -> (key: Option<Digest>)
        requires
            old(self)@.wf(),
        ensures
            final(self)@ == old(self)@.first(),
            final(self)@.wf(),
            key == final(self)@.current(),
    {
        self.position = 0;
        self.stale = false;
        self.key_at(0)
    }

    /// Moves the cursor to the first entry of the next key and returns that
    /// key, or `None` past the last entry.
    pub fn next_group(&mut self) -> (key: Option<Digest>)
        requires
            old(self)@.wf(),
        ensures
            final(self)@ == old(self)@.next_group(),
            final(self)@.wf(),
            key == final(self)@.current(),
    {
        if self.stale {
            self.stale = false;
        } else if self.position < self.entries.len() {
            proof {
                lemma_group_end(self@.rows, self.position as int);
                lemma_group_end_starts_group(self@.rows, self.position as int);
            }
            self.position = self.end_of_group(self.position);
        }
        self.key_at(self.position)
    }

    /// Deletes every entry under the cursor's key as one operation. Returns
    /// whether the cursor was on an entry; if not, nothing is deleted.
    pub fn delete_current_duplicates(&mut self) -> (done: bool)
        requires
            old(self)@.wf(),
        ensures
            final(self)@ == old(self)@.delete_current_duplicates(),
            final(self)@.wf(),
            done == old(self)@.current() is Some,
    {
        if self.stale || self.position >= self.entries.len() {
            return false;
        }
        let ghost before = self@.rows;
        let end = self.end_of_group(self.position);
        proof {
            lemma_group_end(before, self.position as int);
            lemma_cut_keeps_order(before, self.position as int);
        }
        let mut tail = self.entries.split_off(end);
        self.entries.truncate(self.position);
        self.entries.append(&mut tail);
        self.stale = true;
        assert(self@.rows =~= before.take(self.position as int) + before.skip(end as int));
        true
    }

    /// Ends the transaction and hands out the table as the transaction sees
    /// it. Dropping the result discards every change; putting it in the
    /// table's place commits them.
    pub fn into_table(self) -> (table: StorageTrie)
        requires
            self@.wf(),
        ensures
            table@ == self@.rows,
    {
        StorageTrie::from_ascending(self.entries)
    }
}

} // verus!
