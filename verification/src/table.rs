//! The two ordered tables of the store, held in memory.
//!
//! Both are keyed by hashed account key and sorted by it. The account index
//! holds one entry per key. The storage trie table may hold several entries
//! under one key, next to each other: the key's group.

use crate::digest::at_most_is_an_order;
use crate::digest::order_is_total;
use crate::digest::order_is_transitive;
use crate::digest::Digest;
use vstd::prelude::*;

verus! {

/// One stored entry: a hashed account key and the bytes kept under it.
#[derive(Debug, PartialEq, Eq)]
pub struct Entry {
    pub key: Digest,
    pub value: Vec<u8>,
}

/// What an entry holds, as a mathematical value.
pub struct Row {
    pub key: Digest,
    pub value: Seq<u8>,
}

impl View for Entry {
    type V = Row;

    open spec fn view(&self) -> Row {
        Row { key: self.key, value: self.value@ }
    }
}

impl Entry {
    /// The entry that holds `value` under `key`.
    pub fn new(key: Digest, value: Vec<u8>) -> (e: Entry)
        ensures
            e@ == (Row { key, value: value@ }),
    {
        Entry { key, value }
    }

}

impl Clone for Entry {
    /// A copy that holds the same key and the same bytes.
    fn clone(&self) -> (e: Entry)
        ensures
            e@ == self@,
    {
        Entry { key: self.key, value: self.value.clone() }
    }
}

/// The rows that a run of entries holds, in its order.
pub open spec fn rows_of(entries: Seq<Entry>) -> Seq<Row> {
    Seq::new(entries.len(), |i: int| entries[i]@)
}

/// The keys that occur in a table.
pub open spec fn keys(rows: Seq<Row>) -> Set<Digest> {
    Set::new(|k: Digest| exists|i: int| 0 <= i < rows.len() && (#[trigger] rows[i]).key == k)
}

/// Keys never go down from one row to the next; equal keys may repeat.
pub open spec fn ascending(rows: Seq<Row>) -> bool {
    forall|i: int, j: int|
        0 <= i < j < rows.len() ==> (#[trigger] rows[i]).key.at_most((#[trigger] rows[j]).key)
}

/// Keys go up from each row to the next, so no key occurs twice.
pub open spec fn strictly_ascending(rows: Seq<Row>) -> bool {
    forall|i: int, j: int|
        0 <= i < j < rows.len() ==> (#[trigger] rows[i]).key.precedes((#[trigger] rows[j]).key)
}

/// Whether each entry's key is at most (or, if `strict`, before) the next one's.
fn in_order(entries: &Vec<Entry>, strict: bool) -> (ok: bool)
    ensures
        ok == if strict {
            strictly_ascending(rows_of(entries@))
        } else {
            ascending(rows_of(entries@))
        },
{
    let ghost rows = rows_of(entries@);
    if entries.len() < 2 {
        return true;
    }
    let mut i: usize = 1;
    while i < entries.len()
        invariant
            1 <= i <= entries.len(),
            rows == rows_of(entries@),
            strict ==> strictly_ascending(rows.take(i as int)),
            !strict ==> ascending(rows.take(i as int)),
        decreases entries.len() - i,
    {
        let before: &Digest = &entries[i - 1].key;
        let here: &Digest = &entries[i].key;
        let ok = if strict {
            before.lt(here)
        } else {
            !here.lt(before)
        };
        proof {
            at_most_is_an_order(*before, *here, *here);
            assert(rows[i - 1].key == *before && rows[i as int].key == *here);
        }
        if !ok {
            return false;
        }
        proof {
            let prefix = rows.take(i as int);
            let longer = rows.take(i + 1);
            assert forall|a: int, b: int| 0 <= a < b < longer.len() implies if strict {
                (#[trigger] longer[a]).key.precedes((#[trigger] longer[b]).key)
            } else {
                longer[a].key.at_most(longer[b].key)
            } by {
                if b < i {
                    assert(prefix[a] == longer[a] && prefix[b] == longer[b]);
                } else if a < i - 1 {
                    assert(prefix[a] == longer[a] && prefix[i - 1] == longer[i - 1]);
                    at_most_is_an_order(longer[a].key, *before, *here);
                    if strict {
                        order_is_transitive(longer[a].key, *before, *here);
                    }
                }
            }
        }
        i += 1;
    }
    assert(rows.take(i as int) =~= rows);
    true
}

/// The canonical account index: for each live account one entry, found by
/// its hashed key.
#[derive(Debug)]
pub struct AccountIndex {
    entries: Vec<Entry>,
}

impl View for AccountIndex {
    type V = Seq<Row>;

    closed spec fn view(&self) -> Seq<Row> {
        rows_of(self.entries@)
    }
}

impl AccountIndex {
    #[verifier::type_invariant]
    spec fn well_formed(self) -> bool {
        strictly_ascending(self@)
    }

    /// The index with these entries, if their keys go strictly up.
    pub fn from_entries(entries: Vec<Entry>) -> (index: Option<AccountIndex>)
        ensures
            index is Some <==> strictly_ascending(rows_of(entries@)),
            index matches Some(t) ==> t@ == rows_of(entries@),
    {
        if in_order(&entries, true) {
            Some(AccountIndex { entries })
        } else {
            None
        }
    }

    /// The entries of the index, in key order.
    pub fn entries(&self) -> (entries: &Vec<Entry>)
        ensures
            rows_of(entries@) == self@,
            strictly_ascending(self@),
    {
        proof {
            use_type_invariant(self);
        }
        &self.entries
    }

    /// Exact-match lookup: whether the index holds an entry under `key`.
    pub fn contains(&self, key: &Digest) -> (found: bool)
        ensures
            found == keys(self@).contains(*key),
    {
        proof {
            use_type_invariant(self);
        }
        let ghost rows = self@;
        let mut low: usize = 0;
        let mut high: usize = self.entries.len();
        while low < high
            invariant
                low <= high <= self.entries.len(),
                rows == rows_of(self.entries@),
                strictly_ascending(rows),
                forall|i: int| 0 <= i < low ==> (#[trigger] rows[i]).key.precedes(*key),
                forall|i: int| high <= i < rows.len() ==> key.precedes((#[trigger] rows[i]).key),
            decreases high - low,
        {
            let mid: usize = low + (high - low) / 2;
            let probe: &Digest = &self.entries[mid].key;
            assert(rows[mid as int].key == *probe);
            if probe.lt(key) {
                proof {
                    assert forall|i: int| 0 <= i < mid + 1 implies (#[trigger] rows[i]).key.precedes(
                        *key,
                    ) by {
                        if i < mid {
                            order_is_transitive(rows[i].key, *probe, *key);
                        }
                    }
                }
                low = mid + 1;
            } else if key.lt(probe) {
                proof {
                    assert forall|i: int| mid <= i < rows.len() implies key.precedes(
                        (#[trigger] rows[i]).key,
                    ) by {
                        if mid < i {
                            order_is_transitive(*key, *probe, rows[i].key);
                        }
                    }
                }
                high = mid;
            } else {
                proof {
                    order_is_total(*probe, *key);
                }
                return true;
            }
        }
        proof {
            assert forall|i: int| 0 <= i < rows.len() implies (#[trigger] rows[i]).key != *key by {
                order_is_total(rows[i].key, *key);
            }
        }
        false
    }
}

/// The storage trie table: trie nodes grouped by hashed account key.
#[derive(Debug)]
pub struct StorageTrie {
    entries: Vec<Entry>,
}

impl View for StorageTrie {
    type V = Seq<Row>;

    closed spec fn view(&self) -> Seq<Row> {
        rows_of(self.entries@)
    }
}

impl StorageTrie {
    #[verifier::type_invariant]
    spec fn well_formed(self) -> bool {
        ascending(self@)
    }

    /// The table with these entries, if their keys never go down.
    pub fn from_entries(entries: Vec<Entry>) -> (table: Option<StorageTrie>)
        ensures
            table is Some <==> ascending(rows_of(entries@)),
            table matches Some(t) ==> t@ == rows_of(entries@),
    {
        if in_order(&entries, false) {
            Some(StorageTrie { entries })
        } else {
            None
        }
    }

    /// The table with these entries, which are known to be in order.
    pub(crate) fn from_ascending(entries: Vec<Entry>) -> (table: StorageTrie)
        requires
            ascending(rows_of(entries@)),
        ensures
            table@ == rows_of(entries@),
    {
        StorageTrie { entries }
    }

    /// The entries of the table, in stored order.
    pub fn entries(&self) -> (entries: &Vec<Entry>)
        ensures
            rows_of(entries@) == self@,
            ascending(self@),
    {
        proof {
            use_type_invariant(self);
        }
        &self.entries
    }
}

} // verus!
