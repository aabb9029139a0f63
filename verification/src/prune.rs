//! What pruning is: which rows of the storage trie table stay, and which
//! keys are counted as deleted.

use crate::digest::at_most_is_an_order;
use crate::digest::Digest;
use crate::table::ascending;
use crate::table::keys;
use crate::table::Row;
use vstd::prelude::*;

verus! {

/// The table without its orphaned groups: the rows whose key is live, in
/// their stored order.
pub open spec fn pruned(trie: Seq<Row>, live: Set<Digest>) -> Seq<Row> {
    trie.filter(|row: Row| live.contains(row.key))
}

/// The keys of the orphaned groups: those that occur in the table and are
/// not live. Each key is one orphan, however many rows its group holds.
pub open spec fn orphans(trie: Seq<Row>, live: Set<Digest>) -> Set<Digest> {
    keys(trie).difference(live)
}

/// The group of `key`: the rows stored under it, in their stored order.
pub open spec fn group(trie: Seq<Row>, key: Digest) -> Seq<Row> {
    trie.filter(|row: Row| row.key == key)
}

/// The index just past the group that the row at `at` belongs to.
pub open spec fn group_end(rows: Seq<Row>, at: int) -> int
    decreases rows.len() - at,
{
    if 0 <= at && at + 1 < rows.len() && rows[at + 1].key == rows[at].key {
        group_end(rows, at + 1)
    } else {
        at + 1
    }
}

/// Whether a group starts at `at`, or the table ends there.
pub open spec fn starts_group(rows: Seq<Row>, at: int) -> bool {
    at <= 0 || at >= rows.len() || rows[at - 1].key != rows[at].key
}

/// A group runs from its row at `at` up to `group_end`, and the row after it
/// has another key.
pub(crate) proof fn lemma_group_end(rows: Seq<Row>, at: int)
    requires
        0 <= at < rows.len(),
    ensures
        at < group_end(rows, at) <= rows.len(),
        forall|j: int| at <= j < group_end(rows, at) ==> (#[trigger] rows[j]).key == rows[at].key,
        group_end(rows, at) < rows.len() ==> rows[group_end(rows, at)].key != rows[at].key,
    decreases rows.len() - at,
{
    if at + 1 < rows.len() && rows[at + 1].key == rows[at].key {
        lemma_group_end(rows, at + 1);
    }
}

/// Where a group ends depends only on the rows from its row on.
pub(crate) proof fn lemma_group_end_shift(a: Seq<Row>, i: int, b: Seq<Row>, j: int)
    requires
        0 <= i < a.len(),
        0 <= j < b.len(),
        a.skip(i) == b.skip(j),
    ensures
        group_end(a, i) - i == group_end(b, j) - j,
    decreases a.len() - i,
{
    assert(a.skip(i).len() == a.len() - i && b.skip(j).len() == b.len() - j);
    assert(a[i] == a.skip(i)[0] && b[j] == b.skip(j)[0]);
    if i + 1 < a.len() {
        assert(a[i + 1] == a.skip(i)[1] && b[j + 1] == b.skip(j)[1]);
        assert(a.skip(i + 1) =~= a.skip(i).skip(1));
        assert(b.skip(j + 1) =~= b.skip(j).skip(1));
        if a[i + 1].key == a[i].key {
            lemma_group_end_shift(a, i + 1, b, j + 1);
        }
    }
}

/// A group starts where another one ends.
pub(crate) proof fn lemma_group_end_starts_group(rows: Seq<Row>, at: int)
    requires
        0 <= at < rows.len(),
    ensures
        starts_group(rows, group_end(rows, at)),
{
    lemma_group_end(rows, at);
    let end = group_end(rows, at);
    if end < rows.len() {
        assert(rows[end - 1].key == rows[at].key);
    }
}

/// An empty table has nothing to prune and no orphans.
pub(crate) proof fn lemma_nothing_to_prune(live: Set<Digest>)
    ensures
        pruned(Seq::<Row>::empty(), live) == Seq::<Row>::empty(),
        orphans(Seq::<Row>::empty(), live).len() == 0,
{
    reveal(Seq::filter);
    assert(orphans(Seq::<Row>::empty(), live) =~= Set::<Digest>::empty());
}

/// In a sorted table, the rows before the start of a group hold other keys
/// than the rows from there on.
pub(crate) proof fn lemma_groups_do_not_mix(rows: Seq<Row>, start: int, i: int, j: int)
    requires
        ascending(rows),
        starts_group(rows, start),
        0 <= i < start <= j < rows.len(),
    ensures
        rows[i].key != rows[j].key,
        rows[i].key.precedes(rows[j].key),
{
    let a = rows[i].key;
    let b = rows[start - 1].key;
    let c = rows[start].key;
    let d = rows[j].key;
    assert(b.at_most(c));
    if i < start - 1 {
        assert(a.at_most(b));
    }
    if start < j {
        assert(c.at_most(d));
    }
    at_most_is_an_order(a, b, c);
    at_most_is_an_order(b, c, d);
    at_most_is_an_order(a, c, d);
    at_most_is_an_order(a, d, a);
    at_most_is_an_order(b, c, b);
    if a == d {
        at_most_is_an_order(c, d, b);
        at_most_is_an_order(c, b, c);
    }
}

/// The keys of a table are finitely many, and so are its orphans.
pub(crate) proof fn lemma_keys_finite(rows: Seq<Row>, live: Set<Digest>)
    ensures
        keys(rows).finite(),
        orphans(rows, live).finite(),
        keys(rows).len() <= rows.len(),
        orphans(rows, live).len() <= rows.len(),
    decreases rows.len(),
{
    if rows.len() == 0 {
        assert(keys(rows) =~= Set::<Digest>::empty());
    } else {
        let front = rows.drop_last();
        lemma_keys_finite(front, live);
        assert(keys(rows) =~= keys(front).insert(rows.last().key)) by {
            assert forall|k: Digest| keys(front).insert(rows.last().key).contains(k) implies keys(
                rows,
            ).contains(k) by {
                if k == rows.last().key {
                    assert(rows[rows.len() - 1].key == k);
                } else {
                    let i = choose|i: int| 0 <= i < front.len() && (#[trigger] front[i]).key == k;
                    assert(rows[i].key == k);
                }
            }
            assert forall|k: Digest| keys(rows).contains(k) implies keys(front).insert(
                rows.last().key,
            ).contains(k) by {
                let i = choose|i: int| 0 <= i < rows.len() && (#[trigger] rows[i]).key == k;
                if i < rows.len() - 1 {
                    assert(front[i].key == k);
                }
            }
        }
    }
    vstd::set_lib::lemma_len_difference(keys(rows), live);
}

/// Rows that all hold one key stay together when pruned: all of them if the
/// key is live, none if it is not.
pub(crate) proof fn lemma_pruned_group(rows: Seq<Row>, live: Set<Digest>, key: Digest)
    requires
        forall|j: int| 0 <= j < rows.len() ==> (#[trigger] rows[j]).key == key,
    ensures
        pruned(rows, live) == if live.contains(key) {
            rows
        } else {
            Seq::<Row>::empty()
        },
    decreases rows.len(),
{
    reveal(Seq::filter);
    if rows.len() > 0 {
        let front = rows.drop_last();
        assert forall|j: int| 0 <= j < front.len() implies (#[trigger] front[j]).key == key by {
            assert(front[j] == rows[j]);
        }
        lemma_pruned_group(front, live, key);
        assert(rows.last() == rows[rows.len() - 1]);
        assert(front.push(rows.last()) =~= rows);
    } else {
        assert(rows =~= Seq::<Row>::empty());
    }
}

/// What passing one group adds to the pruned table and to the orphans: the
/// rows `from..to` of a sorted table make up a whole group that starts at
/// `from`.
pub(crate) proof fn lemma_pass_group(trie: Seq<Row>, live: Set<Digest>, from: int, to: int)
    requires
        ascending(trie),
        0 <= from < to <= trie.len(),
        starts_group(trie, from),
        forall|j: int| from <= j < to ==> (#[trigger] trie[j]).key == trie[from].key,
    ensures
        pruned(trie.take(to), live) == pruned(trie.take(from), live) + if live.contains(
            trie[from].key,
        ) {
            trie.subrange(from, to)
        } else {
            Seq::<Row>::empty()
        },
        orphans(trie.take(to), live).len() == orphans(trie.take(from), live).len() + if live.contains(
            trie[from].key,
        ) {
            0nat
        } else {
            1nat
        },
{
    let key = trie[from].key;
    let before = trie.take(from);
    let passed = trie.subrange(from, to);
    assert(trie.take(to) =~= before + passed);
    Seq::filter_distributes_over_add(before, passed, |row: Row| live.contains(row.key));
    assert forall|j: int| 0 <= j < passed.len() implies (#[trigger] passed[j]).key == key by {
        assert(passed[j] == trie[from + j]);
    }
    lemma_pruned_group(passed, live, key);
    assert(!keys(before).contains(key)) by {
        if keys(before).contains(key) {
            let i = choose|i: int| 0 <= i < before.len() && (#[trigger] before[i]).key == key;
            assert(before[i] == trie[i]);
            lemma_groups_do_not_mix(trie, from, i, from);
        }
    }
    assert(keys(trie.take(to)) =~= keys(before).insert(key)) by {
        assert forall|k: Digest| keys(before).insert(key).contains(k) implies keys(
            trie.take(to),
        ).contains(k) by {
            if k == key {
                assert(trie.take(to)[from].key == k);
            } else {
                let i = choose|i: int| 0 <= i < before.len() && (#[trigger] before[i]).key == k;
                assert(trie.take(to)[i].key == k);
            }
        }
        assert forall|k: Digest| keys(trie.take(to)).contains(k) implies keys(before).insert(
            key,
        ).contains(k) by {
            let i = choose|i: int| 0 <= i < to && (#[trigger] trie.take(to)[i]).key == k;
            if i < from {
                assert(before[i].key == k);
            } else {
                assert(trie[i].key == key);
            }
        }
    }
    lemma_keys_finite(before, live);
    if live.contains(key) {
        assert(orphans(trie.take(to), live) =~= orphans(before, live));
    } else {
        assert(orphans(trie.take(to), live) =~= orphans(before, live).insert(key));
    }
}

/// Rows that all hold other keys have no part in the group of `key`.
pub(crate) proof fn lemma_group_elsewhere(rows: Seq<Row>, key: Digest)
    requires
        forall|j: int| 0 <= j < rows.len() ==> (#[trigger] rows[j]).key != key,
    ensures
        group(rows, key) == Seq::<Row>::empty(),
    decreases rows.len(),
{
    reveal(Seq::filter);
    if rows.len() > 0 {
        let front = rows.drop_last();
        assert forall|j: int| 0 <= j < front.len() implies (#[trigger] front[j]).key != key by {
            assert(front[j] == rows[j]);
        }
        lemma_group_elsewhere(front, key);
        assert(rows.last() == rows[rows.len() - 1]);
    }
}

/// Rows whose keys are all live are all kept.
proof fn lemma_pruned_all_live(rows: Seq<Row>, live: Set<Digest>)
    requires
        forall|i: int| 0 <= i < rows.len() ==> live.contains((#[trigger] rows[i]).key),
    ensures
        pruned(rows, live) == rows,
    decreases rows.len(),
{
    reveal(Seq::filter);
    if rows.len() > 0 {
        let front = rows.drop_last();
        assert forall|i: int| 0 <= i < front.len() implies live.contains(
            (#[trigger] front[i]).key,
        ) by {
            assert(front[i] == rows[i]);
        }
        lemma_pruned_all_live(front, live);
        assert(rows.last() == rows[rows.len() - 1]);
        assert(front.push(rows.last()) =~= rows);
    }
}

/// The keys that are left after pruning are the live ones among the keys
/// that were there.
proof fn lemma_keys_of_pruned(trie: Seq<Row>, live: Set<Digest>)
    ensures
        keys(pruned(trie, live)) == keys(trie).intersect(live),
{
    let pred = |row: Row| live.contains(row.key);
    let left = pruned(trie, live);
    assert forall|k: Digest| keys(left).contains(k) implies keys(trie).intersect(live).contains(
        k,
    ) by {
        let i = choose|i: int| 0 <= i < left.len() && (#[trigger] left[i]).key == k;
        trie.lemma_filter_pred(pred, i);
        assert(left.contains(left[i]));
        trie.lemma_filter_contains_rev(pred, left[i]);
        let j = choose|j: int| 0 <= j < trie.len() && trie[j] == left[i];
        assert(trie[j].key == k);
    }
    assert forall|k: Digest| keys(trie).intersect(live).contains(k) implies keys(left).contains(
        k,
    ) by {
        let j = choose|j: int| 0 <= j < trie.len() && (#[trigger] trie[j]).key == k;
        trie.lemma_filter_contains(pred, j);
        let i = choose|i: int| 0 <= i < left.len() && left[i] == trie[j];
        assert(left[i].key == k);
    }
    assert(keys(left) =~= keys(trie).intersect(live));
}

/// After pruning no orphan remains: every row that is left has a live key.
pub proof fn no_orphan_remains(trie: Seq<Row>, live: Set<Digest>)
    ensures
        forall|i: int|
            0 <= i < pruned(trie, live).len() ==> live.contains(
                (#[trigger] pruned(trie, live)[i]).key,
            ),
        orphans(pruned(trie, live), live) == Set::<Digest>::empty(),
{
    lemma_keys_of_pruned(trie, live);
    assert forall|i: int| 0 <= i < pruned(trie, live).len() implies live.contains(
        (#[trigger] pruned(trie, live)[i]).key,
    ) by {
        trie.lemma_filter_pred(|row: Row| live.contains(row.key), i);
    }
    assert(orphans(pruned(trie, live), live) =~= Set::<Digest>::empty());
}

/// Pruning deletes whole groups and nothing else: the group of a live key
/// is left as it was, row for row, and the group of any other key is gone.
pub proof fn pruning_goes_by_groups(trie: Seq<Row>, live: Set<Digest>, key: Digest)
    ensures
        group(pruned(trie, live), key) == if live.contains(key) {
            group(trie, key)
        } else {
            Seq::<Row>::empty()
        },
    decreases trie.len(),
{
    reveal(Seq::filter);
    if trie.len() > 0 {
        pruning_goes_by_groups(trie.drop_last(), live, key);
        pruned(trie.drop_last(), live).lemma_filter_push(trie.last(), |row: Row| row.key == key);
    }
}

/// Pruning a pruned table changes nothing and finds no orphan.
pub proof fn pruning_twice_is_pruning_once(trie: Seq<Row>, live: Set<Digest>)
    ensures
        pruned(pruned(trie, live), live) == pruned(trie, live),
        orphans(pruned(trie, live), live).len() == 0,
{
    no_orphan_remains(trie, live);
    lemma_pruned_all_live(pruned(trie, live), live);
}

/// The keys that pruning takes out of the table are its orphans, each
/// counted once. They are finitely many, no more than the table has rows.
pub proof fn removed_keys_are_the_orphans(trie: Seq<Row>, live: Set<Digest>)
    ensures
        keys(trie).difference(keys(pruned(trie, live))) == orphans(trie, live),
        orphans(trie, live).finite(),
        orphans(trie, live).len() <= trie.len(),
{
    lemma_keys_of_pruned(trie, live);
    lemma_keys_finite(trie, live);
    assert(keys(trie).difference(keys(trie).intersect(live)) =~= orphans(trie, live));
}

/// The orphans are counted by key: tables that hold the same keys have the
/// same orphans, however many rows stand under each key.
pub proof fn orphans_are_counted_by_key(one: Seq<Row>, other: Seq<Row>, live: Set<Digest>)
    requires
        keys(one) == keys(other),
    ensures
        orphans(one, live) == orphans(other, live),
{
}

} // verus!
