//! The decisions of a repair, as a state machine.
//!
//! The coordinator never touches the store. In each state it awaits the
//! answer to one request; whoever drives it carries the request out against
//! the store, inside one read-write transaction, and reports what came back.
//! The transaction is committed only when the coordinator asks for it, and
//! dropped when the coordinator ends in `Aborted`.

use crate::digest::Digest;
use vstd::prelude::*;

verus! {

/// Why a repair was given up. Every failure ends the whole repair; nothing
/// is retried.
#[derive(Clone, Copy, Debug, PartialEq, Eq)]
pub enum RepairError {
    /// There is no best block, or no header is recorded for it.
    HeaderNotFound,
    /// The store failed to carry out a request, or answered another one.
    StoreFailure,
    /// The root recomputed after pruning is not the one on the header.
    RootMismatch { expected: Digest, computed: Digest },
}

/// What a successful repair reports.
#[derive(Clone, Copy, Debug, PartialEq, Eq)]
pub struct Report {
    /// How many orphaned groups were deleted.
    pub deleted: u64,
    /// The verified state root.
    pub root: Digest,
}

/// A request to the store.
#[derive(Clone, Copy, Debug, PartialEq, Eq)]
pub enum Action {
    /// Look up the header of the best block and read its state root.
    ResolveHeader,
    /// Put the cursor on the first entry of the storage trie table.
    SeekFirst,
    /// Look for an entry with exactly this key in the account index.
    Lookup(Digest),
    /// Delete every entry under the cursor's key, as one operation.
    DeleteGroup,
    /// Move the cursor past the group it stands on, to the first entry of
    /// the next key.
    NextGroup,
    /// The group under the cursor has just been deleted: move the cursor to
    /// the next entry, the one that followed the group.
    NextEntry,
    /// Recompute the state root over what the transaction now sees.
    ComputeRoot,
    /// Commit the transaction.
    Commit,
}

/// What the store answered.
#[derive(Clone, Copy, Debug, PartialEq, Eq)]
pub enum Event {
    /// The state root on the best block's header, or `None` without one.
    Header(Option<Digest>),
    /// The key under the cursor after it was moved, or `None` past the last
    /// entry.
    Entry(Option<Digest>),
    /// Whether the account index holds the key that was looked up.
    Lookup(bool),
    /// The group under the cursor was deleted.
    Deleted,
    /// The recomputed state root.
    Root(Digest),
    /// The transaction was committed.
    Committed,
    /// The store reported a failure.
    Failed,
}

/// What a scan awaits.
#[derive(Clone, Copy, Debug, PartialEq, Eq)]
pub enum ScanStep {
    /// The first entry of the table.
    Seek,
    /// Whether this key, the one under the cursor, is in the account index.
    Probe(Digest),
    /// The deletion of the group under the cursor.
    Delete,
    /// The first entry of the next key, past the group under the cursor.
    Advance,
    /// The entry that followed the group that was deleted.
    Resume,
}

/// The state of a repair.
#[derive(Clone, Copy, Debug, PartialEq, Eq)]
pub enum Coordinator {
    /// The transaction is open; the expected root is not known yet.
    Open,
    /// The storage trie table is being walked, group by group.
    Scanning { expected: Digest, deleted: u64, step: ScanStep },
    /// The walk is over. Until `verified` the recomputed root is awaited,
    /// after it the commit.
    Verifying { expected: Digest, deleted: u64, verified: bool },
    /// The deletions are durable.
    Committed { report: Report },
    /// The repair was given up; the transaction is to be dropped.
    Aborted { error: RepairError },
}

impl Coordinator {
    /// The request whose answer the coordinator awaits; none once it has ended.
    pub open spec fn awaits(self) -> Option<Action> {
        match self {
            Coordinator::Open => Some(Action::ResolveHeader),
            Coordinator::Scanning { step, .. } => Some(
                match step {
                    ScanStep::Seek => Action::SeekFirst,
                    ScanStep::Probe(key) => Action::Lookup(key),
                    ScanStep::Delete => Action::DeleteGroup,
                    ScanStep::Advance => Action::NextGroup,
                    ScanStep::Resume => Action::NextEntry,
                },
            ),
            Coordinator::Verifying { verified, .. } => Some(
                if verified {
                    Action::Commit
                } else {
                    Action::ComputeRoot
                },
            ),
            Coordinator::Committed { .. } | Coordinator::Aborted { .. } => None,
        }
    }

    /// How the repair ended, once it has.
    pub open spec fn ended(self) -> Option<Result<Report, RepairError>> {
        match self {
            Coordinator::Committed { report } => Some(Ok(report)),
            Coordinator::Aborted { error } => Some(Err(error)),
            _ => None,
        }
    }

    /// The groups deleted so far.
    pub open spec fn deletions(self) -> nat {
        match self {
            Coordinator::Scanning { deleted, .. } => deleted as nat,
            Coordinator::Verifying { deleted, .. } => deleted as nat,
            Coordinator::Committed { report } => report.deleted as nat,
            _ => 0,
        }
    }

    /// The same state with another count of deletions.
    pub open spec fn with_deletions(self, count: u64) -> Coordinator {
        match self {
            Coordinator::Scanning { expected, step, .. } => Coordinator::Scanning {
                expected,
                deleted: count,
                step,
            },
            Coordinator::Verifying { expected, verified, .. } => Coordinator::Verifying {
                expected,
                deleted: count,
                verified,
            },
            Coordinator::Committed { report } => Coordinator::Committed {
                report: Report { deleted: count, root: report.root },
            },
            _ => self,
        }
    }

    /// How the repair stands if nothing more is reported: as it ended, or
    /// given up like after a failure of the store.
    pub open spec fn conclusion(self) -> Result<Report, RepairError> {
        match self.ended() {
            Some(result) => result,
            None => Err(RepairError::StoreFailure),
        }
    }

    /// The state after `event`. An event that does not answer the awaited
    /// request counts as a failure of the store.
    pub open spec fn next(self, event: Event) -> Coordinator {
        let failed = Coordinator::Aborted { error: RepairError::StoreFailure };
        match self {
            Coordinator::Open => match event {
                Event::Header(Some(expected)) => Coordinator::Scanning {
                    expected,
                    deleted: 0,
                    step: ScanStep::Seek,
                },
                Event::Header(None) => Coordinator::Aborted { error: RepairError::HeaderNotFound },
                _ => failed,
            },
            Coordinator::Scanning { expected, deleted, step } => match (step, event) {
                (ScanStep::Seek, Event::Entry(Some(key)))
                | (ScanStep::Advance, Event::Entry(Some(key)))
                | (ScanStep::Resume, Event::Entry(Some(key))) => Coordinator::Scanning {
                    expected,
                    deleted,
                    step: ScanStep::Probe(key),
                },
                (ScanStep::Seek, Event::Entry(None))
                | (ScanStep::Advance, Event::Entry(None))
                | (ScanStep::Resume, Event::Entry(None)) => Coordinator::Verifying {
                    expected,
                    deleted,
                    verified: false,
                },
                (ScanStep::Probe(_), Event::Lookup(true)) => Coordinator::Scanning {
                    expected,
                    deleted,
                    step: ScanStep::Advance,
                },
                (ScanStep::Probe(_), Event::Lookup(false)) => Coordinator::Scanning {
                    expected,
                    deleted: (deleted + 1) as u64,
                    step: ScanStep::Delete,
                },
                (ScanStep::Delete, Event::Deleted) => Coordinator::Scanning {
                    expected,
                    deleted,
                    step: ScanStep::Resume,
                },
                _ => failed,
            },
            Coordinator::Verifying { expected, deleted, verified: false } => match event {
                Event::Root(computed) => if computed == expected {
                    Coordinator::Verifying { expected, deleted, verified: true }
                } else {
                    Coordinator::Aborted { error: RepairError::RootMismatch { expected, computed } }
                },
                _ => failed,
            },
            Coordinator::Verifying { expected, deleted, verified: true } => match event {
                Event::Committed => Coordinator::Committed {
                    report: Report { deleted, root: expected },
                },
                _ => failed,
            },
            Coordinator::Committed { .. } | Coordinator::Aborted { .. } => self,
        }
    }

    /// A repair whose transaction has just been opened.
    pub fn new() -> (c: Coordinator)
        ensures
            c == Coordinator::Open,
    {
        Coordinator::Open
    }

    /// The request to carry out next; none once the repair has ended.
    pub fn pending(&self) -> (action: Option<Action>)
        ensures
            action == self.awaits(),
    {
        match self {
            Coordinator::Open => Some(Action::ResolveHeader),
            Coordinator::Scanning { step, .. } => match step {
                ScanStep::Seek => Some(Action::SeekFirst),
                ScanStep::Probe(key) => Some(Action::Lookup(*key)),
                ScanStep::Delete => Some(Action::DeleteGroup),
                ScanStep::Advance => Some(Action::NextGroup),
                ScanStep::Resume => Some(Action::NextEntry),
            },
            Coordinator::Verifying { verified, .. } => if *verified {
                Some(Action::Commit)
            } else {
                Some(Action::ComputeRoot)
            },
            Coordinator::Committed { .. } => None,
            Coordinator::Aborted { .. } => None,
        }
    }

    /// Whether the storage trie table is being walked.
    pub fn is_scanning(&self) -> (scanning: bool)
        ensures
            scanning == (self is Scanning),
    {
        match self {
            Coordinator::Scanning { .. } => true,
            _ => false,
        }
    }

    /// How the repair ended; none while it is running.
    pub fn outcome(&self) -> (result: Option<Result<Report, RepairError>>)
        ensures
            result == self.ended(),
    {
        match self {
            Coordinator::Committed { report } => Some(Ok(*report)),
            Coordinator::Aborted { error } => Some(Err(*error)),
            _ => None,
        }
    }

    /// Ends the repair. One that is still running is given up.
    pub fn finish(self) -> (result: Result<Report, RepairError>)
        ensures
            result == self.conclusion(),
    {
        match self {
            Coordinator::Committed { report } => Ok(report),
            Coordinator::Aborted { error } => Err(error),
            _ => Err(RepairError::StoreFailure),
        }
    }

    /// The groups deleted so far.
    pub fn deleted(&self) -> (n: u64)
        ensures
            n == self.deletions(),
    {
        match self {
            Coordinator::Scanning { deleted, .. } => *deleted,
            Coordinator::Verifying { deleted, .. } => *deleted,
            Coordinator::Committed { report } => report.deleted,
            _ => 0,
        }
    }

    /// Takes the store's answer and moves to the next state.
    pub fn step(self, event: Event) -> (next: Coordinator)
        requires
            event == Event::Lookup(false) ==> self.deletions() < u64::MAX,
        ensures
            next == self.next(event),
    {
        let failed = Coordinator::Aborted { error: RepairError::StoreFailure };
        match self {
            Coordinator::Open => match event {
                Event::Header(Some(expected)) => Coordinator::Scanning {
                    expected,
                    deleted: 0,
                    step: ScanStep::Seek,
                },
                Event::Header(None) => Coordinator::Aborted { error: RepairError::HeaderNotFound },
                _ => failed,
            },
            Coordinator::Scanning { expected, deleted, step } => match step {
                ScanStep::Seek | ScanStep::Advance | ScanStep::Resume => match event {
                    Event::Entry(Some(key)) => Coordinator::Scanning {
                        expected,
                        deleted,
                        step: ScanStep::Probe(key),
                    },
                    Event::Entry(None) => Coordinator::Verifying {
                        expected,
                        deleted,
                        verified: false,
                    },
                    _ => failed,
                },
                ScanStep::Probe(_) => match event {
                    Event::Lookup(true) => Coordinator::Scanning {
                        expected,
                        deleted,
                        step: ScanStep::Advance,
                    },
                    Event::Lookup(false) => Coordinator::Scanning {
                        expected,
                        deleted: deleted + 1,
                        step: ScanStep::Delete,
                    },
                    _ => failed,
                },
                ScanStep::Delete => match event {
                    Event::Deleted => Coordinator::Scanning {
                        expected,
                        deleted,
                        step: ScanStep::Resume,
                    },
                    _ => failed,
                },
            },
            Coordinator::Verifying { expected, deleted, verified } => if verified {
                match event {
                    Event::Committed => Coordinator::Committed {
                        report: Report { deleted, root: expected },
                    },
                    _ => failed,
                }
            } else {
                match event {
                    Event::Root(computed) => if computed == expected {
                        Coordinator::Verifying { expected, deleted, verified: true }
                    } else {
                        Coordinator::Aborted {
                            error: RepairError::RootMismatch { expected, computed },
                        }
                    },
                    _ => failed,
                }
            },
            Coordinator::Committed { .. } => self,
            Coordinator::Aborted { .. } => self,
        }
    }
}

/// A commit is asked for only by a coordinator that awaited the recomputed
/// root and was handed the expected one.
pub proof fn commit_follows_verification(state: Coordinator, event: Event)
    requires
        state.next(event).awaits() == Some(Action::Commit),
    ensures
        state matches Coordinator::Verifying { expected, verified: false, .. } && event
            == Event::Root(expected),
{
}

/// A commit is asked for once: whatever answers it, the coordinator ends.
pub proof fn commit_is_asked_once(state: Coordinator, event: Event)
    requires
        state.awaits() == Some(Action::Commit),
    ensures
        state.next(event).ended() is Some,
        state.next(event).ended() is Some ==> state.next(event).awaits() is None,
{
}

/// A repair that has ended stays as it is, whatever is reported to it.
pub proof fn ending_is_final(state: Coordinator, event: Event)
    requires
        state.ended() is Some,
    ensures
        state.next(event) == state,
        state.awaits() is None,
{
}

/// A failure of the store ends a running repair at once, without a commit.
pub proof fn failure_aborts(state: Coordinator)
    requires
        state.ended() is None,
    ensures
        state.next(Event::Failed) == (Coordinator::Aborted { error: RepairError::StoreFailure }),
{
}

/// The deletion counter moves only when a lookup finds no account, and then
/// by one.
pub proof fn counter_counts_missing_accounts(state: Coordinator, event: Event)
    requires
        state.deletions() < u64::MAX,
        state.next(event).ended() is None,
    ensures
        state.next(event).deletions() == if state.awaits() matches Some(Action::Lookup(_))
            && event == Event::Lookup(false) {
            state.deletions() + 1
        } else {
            state.deletions()
        },
{
}

/// The deletion counter decides nothing: with another count the coordinator
/// asks for the same requests, and fails where it failed and as it failed.
pub proof fn counter_decides_nothing(state: Coordinator, count: u64, event: Event)
    ensures
        state.with_deletions(count).next(event).awaits() == state.next(event).awaits(),
        state.with_deletions(count).next(event).ended() is Some == state.next(event).ended() is Some,
        state.next(event) is Aborted ==> state.with_deletions(count).next(event) == state.next(
            event,
        ),
        state.next(event) matches Coordinator::Committed { report } ==> state.with_deletions(
            count,
        ).next(event) == (Coordinator::Committed { report: Report { deleted: count, root: report.root } }),
{
}

} // verus!
