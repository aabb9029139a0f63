//! Repair of a storage trie table that has outlived some of its accounts.
//!
//! A state store keeps two ordered tables keyed by hashed account identity:
//! the account index, with one entry per live account, and the storage trie
//! table, with a group of trie nodes per account. A group whose key has no
//! entry in the account index is an orphan. The repair removes every orphaned
//! group, recomputes the state root over what is left, and commits only when
//! that root equals the one recorded on the best block header.
//!
//! - [`digest`]: the 32-byte keys and roots, and the order of the keys.
//! - [`table`]: the two tables, held in memory.
//! - [`prune`]: what pruning keeps and what it counts.
//! - [`transaction`]: a working copy of the storage trie table with a cursor
//!   that walks it group by group and deletes whole groups.
//! - [`coordinator`]: the decisions of a repair as a state machine, for a
//!   driver that carries the requests out on a store of its own.
//! - [`repair`]: the whole repair on a store held in memory.

pub mod coordinator;
pub mod digest;
pub mod prune;
pub mod repair;
pub mod table;
pub mod transaction;
