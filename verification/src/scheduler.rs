//! The pipeline scheduler: what to start next, and the accounts of what
//! was started and what came back.
//!
//! The scheduler does no work itself. Its owner asks it for the next
//! action, performs it (walks the tree, starts a fingerprint task, starts
//! a deletion, waits for a completion), and reports what happened. The
//! scheduler keeps both pools within their capacity and finishes only when
//! everything it handed out has come back.

use crate::dedup_index::{
    distinct_paths, distinct_paths_lose_at_most_once, kept_after, losers_after,
    resolve_enters_or_names_loser, resolve_kept, resolve_loser, DedupIndex, Kept,
};
use crate::fingerprint::{FileRecord, Fingerprint};
use std::collections::VecDeque;
use vstd::prelude::*;

verus! {

/// A path found to be a loser, waiting to be deleted or being deleted.
#[derive(Debug, PartialEq, Eq)]
pub struct DeletionJob<P> {
    /// The number, counted from one, of the record whose arrival in the
    /// index decided this deletion.
    pub sequence_index: usize,
    /// The path to delete.
    pub path: P,
}

/// The counts of a run.
#[derive(Debug, Clone, Copy, PartialEq, Eq)]
pub struct Summary {
    /// Paths that the walk gave.
    pub discovered: usize,
    /// Entries that the walk could not read, and skipped.
    pub unreadable: usize,
    /// Files that got a record and were resolved against the index.
    pub fingerprinted: usize,
    /// Files that got no record.
    pub fingerprint_failures: usize,
    /// Files kept: the entries of the index.
    pub kept: usize,
    /// Deletions handed out.
    pub submitted: usize,
    /// Deletions that succeeded.
    pub deleted: usize,
    /// Deletions that failed.
    pub deletion_failures: usize,
}

/// What the owner of the scheduler is to do next.
#[derive(Debug, PartialEq, Eq)]
pub enum Action<P> {
    /// Ask the walk for its next entry and report it with `path_found` or
    /// `path_unreadable`, or report `discovery_finished` where there is
    /// none.
    Discover,
    /// Start fingerprinting this path and report with `fingerprint_done`.
    Fingerprint(P),
    /// Start this deletion and report with `deletion_done`.
    Delete(DeletionJob<P>),
    /// Wait until a task in flight completes, and report it.
    Wait,
    /// Nothing is left to do: these are the final counts.
    Finish(Summary),
}

/// A report that does not fit the state of the run.
#[derive(Debug, Clone, Copy, PartialEq, Eq)]
pub enum SchedulerError {
    /// A path or an unreadable entry was reported while a path still waits
    /// to be started, or after the walk was reported finished.
    PathNotAwaited,
    /// More paths or unreadable entries were reported than can be counted.
    TooManyPaths,
    /// A fingerprint was reported done while none was in flight.
    NoFingerprintInFlight,
    /// A deletion was reported done while none was in flight.
    NoDeletionInFlight,
}

/// The state of a run as a mathematical value.
pub struct SchedulerState<P> {
    /// The duplicate index.
    pub kept: Map<Fingerprint, Kept<P>>,
    /// The policy of the duplicate index.
    pub keep_older: bool,
    /// The most fingerprint tasks in flight at once.
    pub fingerprint_capacity: nat,
    /// The most deletions in flight at once.
    pub deletion_capacity: nat,
    /// The walk has no more paths.
    pub exhausted: bool,
    /// A path that was found and not yet started.
    pub pending: Option<P>,
    /// Losers not yet handed out for deletion, oldest first.
    pub waiting: Seq<DeletionJob<P>>,
    /// The records resolved so far, in the order of their reports.
    pub resolved: Seq<FileRecord<P>>,
    /// The deletions handed out so far, in the order of handing out.
    pub handed_out: Seq<DeletionJob<P>>,
    /// Paths found.
    pub discovered: nat,
    /// Entries of the walk that could not be read.
    pub unreadable: nat,
    /// Fingerprint tasks started and not yet reported done.
    pub fingerprints_in_flight: nat,
    /// Fingerprint tasks that gave a record.
    pub fingerprinted: nat,
    /// Fingerprint tasks that gave none.
    pub fingerprint_failures: nat,
    /// Deletions handed out.
    pub submitted: nat,
    /// Deletions handed out and not yet reported done.
    pub deletions_in_flight: nat,
    /// Deletions that succeeded.
    pub deleted: nat,
    /// Deletions that failed.
    pub deletion_failures: nat,
}

/// The state at the start of a run. A capacity of zero is raised to one.
pub open spec fn initial_state<P>(
    keep_older: bool,
    fingerprint_capacity: nat,
    deletion_capacity: nat,
) -> SchedulerState<P> {
    SchedulerState {
        kept: Map::empty(),
        keep_older,
        fingerprint_capacity: if fingerprint_capacity == 0 {
            1
        } else {
            fingerprint_capacity
        },
        deletion_capacity: if deletion_capacity == 0 {
            1
        } else {
            deletion_capacity
        },
        exhausted: false,
        pending: None,
        waiting: Seq::empty(),
        resolved: Seq::empty(),
        handed_out: Seq::empty(),
        discovered: 0,
        unreadable: 0,
        fingerprints_in_flight: 0,
        fingerprinted: 0,
        fingerprint_failures: 0,
        submitted: 0,
        deletions_in_flight: 0,
        deleted: 0,
        deletion_failures: 0,
    }
}

/// One for a path that waits to be started, zero otherwise.
pub open spec fn pending_count<P>(s: SchedulerState<P>) -> nat {
    if s.pending is Some {
        1
    } else {
        0
    }
}

/// Neither pool holds more than its capacity, and each capacity lets at
/// least one task run.
pub open spec fn pools_are_bounded<P>(s: SchedulerState<P>) -> bool {
    &&& s.fingerprint_capacity >= 1
    &&& s.deletion_capacity >= 1
    &&& s.fingerprints_in_flight <= s.fingerprint_capacity
    &&& s.deletions_in_flight <= s.deletion_capacity
}

/// Nothing is lost: every path found is waiting, in flight, or reported;
/// every record either entered the index or named a loser; every loser is
/// waiting or was handed out; every deletion handed out is in flight or
/// reported.
pub open spec fn accounts_balance<P>(s: SchedulerState<P>) -> bool {
    &&& s.kept.dom().finite()
    &&& s.discovered <= usize::MAX
    &&& s.unreadable <= usize::MAX
    &&& s.discovered == pending_count(s) + s.fingerprints_in_flight + s.fingerprinted
        + s.fingerprint_failures
    &&& s.fingerprinted == s.kept.len() + s.waiting.len() + s.submitted
    &&& s.submitted == s.deletions_in_flight + s.deleted + s.deletion_failures
}

/// The paths of deletion jobs, in their order.
pub open spec fn job_paths<P>(jobs: Seq<DeletionJob<P>>) -> Seq<P> {
    Seq::new(jobs.len(), |i: int| jobs[i].path)
}

/// The job names the loser that the arrival of the record with the job's
/// number decided.
pub open spec fn job_was_decided<P>(
    keep_older: bool,
    resolved: Seq<FileRecord<P>>,
    job: DeletionJob<P>,
) -> bool {
    &&& 1 <= job.sequence_index <= resolved.len()
    &&& resolve_loser(
        kept_after(keep_older, resolved.take(job.sequence_index - 1)),
        keep_older,
        resolved[job.sequence_index - 1],
    ) == Some(job.path)
}

/// The index and the deletion jobs are what the records resolved so far
/// decided, in their order: the index holds their survivors, and the jobs
/// handed out, followed by those that wait, name their losers, each under
/// the number of the record that decided it.
pub open spec fn history_agrees<P>(s: SchedulerState<P>) -> bool {
    &&& s.resolved.len() == s.fingerprinted
    &&& s.handed_out.len() == s.submitted
    &&& s.kept == kept_after(s.keep_older, s.resolved)
    &&& job_paths(s.handed_out + s.waiting) == losers_after(s.keep_older, s.resolved)
    &&& forall|i: int|
        0 <= i < (s.handed_out + s.waiting).len() ==> job_was_decided(
            s.keep_older,
            s.resolved,
            #[trigger] (s.handed_out + s.waiting)[i],
        )
}

/// What holds of every state of a run.
pub open spec fn inv<P>(s: SchedulerState<P>) -> bool {
    &&& pools_are_bounded(s)
    &&& accounts_balance(s)
    &&& history_agrees(s)
}

/// The counts of a state.
pub open spec fn summary_of<P>(s: SchedulerState<P>) -> Summary {
    Summary {
        discovered: s.discovered as usize,
        unreadable: s.unreadable as usize,
        fingerprinted: s.fingerprinted as usize,
        fingerprint_failures: s.fingerprint_failures as usize,
        kept: s.kept.len() as usize,
        submitted: s.submitted as usize,
        deleted: s.deleted as usize,
        deletion_failures: s.deletion_failures as usize,
    }
}

/// The walk may report its next entry: no path waits to be started and
/// the walk is not finished.
pub open spec fn awaits_entry<P>(s: SchedulerState<P>) -> bool {
    s.pending is None && !s.exhausted
}

/// A path can be taken in: the walk may report, and the count of paths
/// has room.
pub open spec fn accepts_path<P>(s: SchedulerState<P>) -> bool {
    awaits_entry(s) && s.discovered < usize::MAX
}

/// An unreadable entry can be counted: the walk may report, and the count
/// of unreadable entries has room.
pub open spec fn accepts_unreadable<P>(s: SchedulerState<P>) -> bool {
    awaits_entry(s) && s.unreadable < usize::MAX
}

/// The state after a path was found.
pub open spec fn after_path_found<P>(s: SchedulerState<P>, path: P) -> SchedulerState<P> {
    SchedulerState { pending: Some(path), discovered: s.discovered + 1, ..s }
}

/// The state after the walk gave an entry that it could not read: the
/// entry is counted and skipped.
pub open spec fn after_path_unreadable<P>(s: SchedulerState<P>) -> SchedulerState<P> {
    SchedulerState { unreadable: s.unreadable + 1, ..s }
}

/// The state after the walk was reported finished.
pub open spec fn after_discovery_finished<P>(s: SchedulerState<P>) -> SchedulerState<P> {
    SchedulerState { exhausted: true, ..s }
}

/// The state after a fingerprint task in flight reported its outcome.
///
/// A task that gave no record is counted as failed and leaves the index
/// alone. A record is resolved against the index, and a loser joins the
/// end of the waiting deletions under the record's number.
pub open spec fn after_fingerprint_done<P>(
    s: SchedulerState<P>,
    outcome: Option<FileRecord<P>>,
) -> SchedulerState<P> {
    match outcome {
        None => SchedulerState {
            fingerprints_in_flight: (s.fingerprints_in_flight - 1) as nat,
            fingerprint_failures: s.fingerprint_failures + 1,
            ..s
        },
        Some(record) => SchedulerState {
            kept: resolve_kept(s.kept, s.keep_older, record),
            resolved: s.resolved.push(record),
            waiting: match resolve_loser(s.kept, s.keep_older, record) {
                Some(path) => s.waiting.push(
                    DeletionJob { sequence_index: (s.fingerprinted + 1) as usize, path },
                ),
                None => s.waiting,
            },
            fingerprints_in_flight: (s.fingerprints_in_flight - 1) as nat,
            fingerprinted: s.fingerprinted + 1,
            ..s
        },
    }
}

/// The state after a deletion in flight reported its outcome.
pub open spec fn after_deletion_done<P>(s: SchedulerState<P>, succeeded: bool) -> SchedulerState<
    P,
> {
    if succeeded {
        SchedulerState {
            deletions_in_flight: (s.deletions_in_flight - 1) as nat,
            deleted: s.deleted + 1,
            ..s
        }
    } else {
        SchedulerState {
            deletions_in_flight: (s.deletions_in_flight - 1) as nat,
            deletion_failures: s.deletion_failures + 1,
            ..s
        }
    }
}

/// A loser waits and the deletion pool has room.
pub open spec fn can_delete<P>(s: SchedulerState<P>) -> bool {
    s.waiting.len() > 0 && s.deletions_in_flight < s.deletion_capacity
}

/// A path waits and the fingerprint pool has room.
pub open spec fn can_fingerprint<P>(s: SchedulerState<P>) -> bool {
    s.pending is Some && s.fingerprints_in_flight < s.fingerprint_capacity
}

/// No path waits, the walk may have more, and the fingerprint pool has
/// room for what it gives.
pub open spec fn can_discover<P>(s: SchedulerState<P>) -> bool {
    s.pending is None && !s.exhausted && s.fingerprints_in_flight < s.fingerprint_capacity
}

/// Some task is in flight.
pub open spec fn in_flight<P>(s: SchedulerState<P>) -> bool {
    s.fingerprints_in_flight > 0 || s.deletions_in_flight > 0
}

/// The next action in a state: a deletion before a fingerprint, a
/// fingerprint before a step of the walk, and waiting only when neither
/// pool can take anything. The run finishes when nothing more can start
/// and nothing is in flight.
pub open spec fn next_action_of<P>(s: SchedulerState<P>) -> Action<P> {
    if can_delete(s) {
        Action::Delete(s.waiting[0])
    } else if can_fingerprint(s) {
        Action::Fingerprint(s.pending->0)
    } else if can_discover(s) {
        Action::Discover
    } else if in_flight(s) {
        Action::Wait
    } else {
        Action::Finish(summary_of(s))
    }
}

/// The state after the next action was handed out.
pub open spec fn after_action<P>(s: SchedulerState<P>) -> SchedulerState<P> {
    if can_delete(s) {
        SchedulerState {
            waiting: s.waiting.subrange(1, s.waiting.len() as int),
            handed_out: s.handed_out.push(s.waiting[0]),
            submitted: s.submitted + 1,
            deletions_in_flight: s.deletions_in_flight + 1,
            ..s
        }
    } else if can_fingerprint(s) {
        SchedulerState {
            pending: None,
            fingerprints_in_flight: s.fingerprints_in_flight + 1,
            ..s
        }
    } else {
        s
    }
}

/// A run starts in a state of which the invariant holds.
pub proof fn initial_state_keeps_inv<P>(
    keep_older: bool,
    fingerprint_capacity: nat,
    deletion_capacity: nat,
)
    ensures
        inv(initial_state::<P>(keep_older, fingerprint_capacity, deletion_capacity)),
{
    let s = initial_state::<P>(keep_older, fingerprint_capacity, deletion_capacity);
    assert(s.kept.dom() =~= Set::<Fingerprint>::empty());
    assert(job_paths(s.handed_out + s.waiting) =~= losers_after(s.keep_older, s.resolved));
}

/// Taking a path in keeps the invariant.
pub proof fn path_found_keeps_inv<P>(s: SchedulerState<P>, path: P)
    requires
        inv(s),
        accepts_path(s),
    ensures
        inv(after_path_found(s, path)),
{
}

/// Skipping an unreadable entry keeps the invariant.
pub proof fn path_unreadable_keeps_inv<P>(s: SchedulerState<P>)
    requires
        inv(s),
        accepts_unreadable(s),
    ensures
        inv(after_path_unreadable(s)),
{
}

/// The end of the walk keeps the invariant.
pub proof fn discovery_finished_keeps_inv<P>(s: SchedulerState<P>)
    requires
        inv(s),
    ensures
        inv(after_discovery_finished(s)),
{
}

/// A job that was decided stays decided when more records are resolved.
proof fn lemma_job_stays_decided<P>(
    keep_older: bool,
    resolved: Seq<FileRecord<P>>,
    record: FileRecord<P>,
    job: DeletionJob<P>,
)
    requires
        job_was_decided(keep_older, resolved, job),
    ensures
        job_was_decided(keep_older, resolved.push(record), job),
{
    let k = job.sequence_index - 1;
    assert(resolved.push(record).take(k) =~= resolved.take(k));
}

/// The outcome of a fingerprint task in flight keeps the invariant.
pub proof fn fingerprint_done_keeps_inv<P>(s: SchedulerState<P>, outcome: Option<FileRecord<P>>)
    requires
        inv(s),
        s.fingerprints_in_flight > 0,
    ensures
        inv(after_fingerprint_done(s, outcome)),
{
    let after = after_fingerprint_done(s, outcome);
    match outcome {
        None => {},
        Some(record) => {
            resolve_enters_or_names_loser(s.kept, s.keep_older, record);
            let jobs = s.handed_out + s.waiting;
            let jobs_after = after.handed_out + after.waiting;
            assert(after.resolved.drop_last() =~= s.resolved);
            assert(after.resolved.take(s.resolved.len() as int) =~= s.resolved);
            match resolve_loser(s.kept, s.keep_older, record) {
                Some(path) => {
                    let job = DeletionJob { sequence_index: (s.fingerprinted + 1) as usize, path };
                    assert(jobs_after =~= jobs.push(job));
                    assert(job_was_decided(after.keep_older, after.resolved, job));
                },
                None => {
                    assert(jobs_after =~= jobs);
                },
            }
            assert(job_paths(jobs_after) =~= losers_after(after.keep_older, after.resolved));
            assert forall|i: int| 0 <= i < jobs_after.len() implies job_was_decided(
                after.keep_older,
                after.resolved,
                #[trigger] jobs_after[i],
            ) by {
                if i < jobs.len() {
                    assert(jobs_after[i] == jobs[i]);
                    lemma_job_stays_decided(s.keep_older, s.resolved, record, jobs[i]);
                }
            }
        },
    }
}

/// The outcome of a deletion in flight keeps the invariant.
pub proof fn deletion_done_keeps_inv<P>(s: SchedulerState<P>, succeeded: bool)
    requires
        inv(s),
        s.deletions_in_flight > 0,
    ensures
        inv(after_deletion_done(s, succeeded)),
{
}

/// Handing out the next action keeps the invariant.
pub proof fn action_keeps_inv<P>(s: SchedulerState<P>)
    requires
        inv(s),
    ensures
        inv(after_action(s)),
{
    let after = after_action(s);
    if can_delete(s) {
        assert(after.handed_out + after.waiting =~= s.handed_out + s.waiting);
    }
}

/// A run finishes only when it is drained: the walk is over, no path and
/// no loser waits, nothing is in flight, and the accounts balance. Every
/// path found was reported, every deletion handed out was reported as
/// succeeded or failed, and every record is kept or was handed out for
/// deletion.
pub proof fn finish_means_drained<P>(s: SchedulerState<P>)
    requires
        inv(s),
        next_action_of(s) is Finish,
    ensures
        s.exhausted,
        s.pending is None,
        s.waiting.len() == 0,
        s.fingerprints_in_flight == 0,
        s.deletions_in_flight == 0,
        s.submitted == s.deleted + s.deletion_failures,
        s.discovered == s.fingerprinted + s.fingerprint_failures,
        s.fingerprinted == s.kept.len() + s.submitted,
        job_paths(s.handed_out) == losers_after(s.keep_older, s.resolved),
        next_action_of(s) == Action::<P>::Finish(summary_of(s)),
        after_action(s) == s,
{
    assert(s.handed_out + s.waiting =~= s.handed_out);
}

/// The owner is told to wait only while something is in flight, and then
/// neither pool can start anything: a completion is what the run needs.
pub proof fn wait_means_in_flight<P>(s: SchedulerState<P>)
    requires
        inv(s),
        next_action_of(s) is Wait,
    ensures
        in_flight(s),
        !can_delete(s),
        !can_fingerprint(s),
        !can_discover(s),
        after_action(s) == s,
{
}

/// Where no two of the records resolved have the same path, no two
/// deletion jobs, handed out or waiting, have the same path, and no job
/// names a file that the index keeps.
pub proof fn deletions_never_share_a_path<P>(s: SchedulerState<P>)
    requires
        inv(s),
        distinct_paths(s.resolved),
    ensures
        job_paths(s.handed_out + s.waiting).no_duplicates(),
        forall|fingerprint: Fingerprint, i: int|
            #![trigger s.kept[fingerprint], (s.handed_out + s.waiting)[i]]
            s.kept.contains_key(fingerprint) && 0 <= i < (s.handed_out + s.waiting).len()
                ==> s.kept[fingerprint].1 != (s.handed_out + s.waiting)[i].path,
{
    distinct_paths_lose_at_most_once(s.keep_older, s.resolved);
    let jobs = s.handed_out + s.waiting;
    let losers = losers_after(s.keep_older, s.resolved);
    assert forall|fingerprint: Fingerprint, i: int|
        #![trigger s.kept[fingerprint], jobs[i]]
        s.kept.contains_key(fingerprint) && 0 <= i < jobs.len() implies s.kept[fingerprint].1
        != jobs[i].path by {
        assert(job_paths(jobs)[i] == jobs[i].path);
        assert(kept_after(s.keep_older, s.resolved)[fingerprint].1 != losers[i]);
    }
}

/// The scheduler of one run.
pub struct Scheduler<P> {
    index: DedupIndex<P>,
    fingerprint_capacity: usize,
    deletion_capacity: usize,
    exhausted: bool,
    pending: Option<P>,
    waiting: VecDeque<DeletionJob<P>>,
    resolved: Ghost<Seq<FileRecord<P>>>,
    handed_out: Ghost<Seq<DeletionJob<P>>>,
    discovered: usize,
    unreadable: usize,
    fingerprints_in_flight: usize,
    fingerprinted: usize,
    fingerprint_failures: usize,
    submitted: usize,
    deletions_in_flight: usize,
    deleted: usize,
    deletion_failures: usize,
}

impl<P> View for Scheduler<P> {
    type V = SchedulerState<P>;

    closed spec fn view(&self) -> SchedulerState<P> {
        SchedulerState {
            kept: self.index@,
            keep_older: self.index.keeps_older(),
            fingerprint_capacity: self.fingerprint_capacity as nat,
            deletion_capacity: self.deletion_capacity as nat,
            exhausted: self.exhausted,
            pending: self.pending,
            waiting: self.waiting@,
            resolved: self.resolved@,
            handed_out: self.handed_out@,
            discovered: self.discovered as nat,
            unreadable: self.unreadable as nat,
            fingerprints_in_flight: self.fingerprints_in_flight as nat,
            fingerprinted: self.fingerprinted as nat,
            fingerprint_failures: self.fingerprint_failures as nat,
            submitted: self.submitted as nat,
            deletions_in_flight: self.deletions_in_flight as nat,
            deleted: self.deleted as nat,
            deletion_failures: self.deletion_failures as nat,
        }
    }
}

impl<P> Scheduler<P> {
    /// The invariant of a run holds of this scheduler.
    pub open spec fn wf(&self) -> bool {
        inv(self@)
    }

    /// A scheduler at the start of a run. A capacity of zero is raised to
    /// one, so that the run can always go on.
    pub fn new(keep_older: bool, fingerprint_capacity: usize, deletion_capacity: usize) -> (scheduler:
        Self)
        ensures
            scheduler.wf(),
            scheduler@ == initial_state::<P>(
                keep_older,
                fingerprint_capacity as nat,
                deletion_capacity as nat,
            ),
    {
        proof {
            initial_state_keeps_inv::<P>(
                keep_older,
                fingerprint_capacity as nat,
                deletion_capacity as nat,
            );
        }
        Scheduler {
            index: DedupIndex::new(keep_older),
            fingerprint_capacity: if fingerprint_capacity == 0 {
                1
            } else {
                fingerprint_capacity
            },
            deletion_capacity: if deletion_capacity == 0 {
                1
            } else {
                deletion_capacity
            },
            exhausted: false,
            pending: None,
            waiting: VecDeque::new(),
            resolved: Ghost(Seq::empty()),
            handed_out: Ghost(Seq::empty()),
            discovered: 0,
            unreadable: 0,
            fingerprints_in_flight: 0,
            fingerprinted: 0,
            fingerprint_failures: 0,
            submitted: 0,
            deletions_in_flight: 0,
            deleted: 0,
            deletion_failures: 0,
        }
    }

    /// The duplicate index as it stands.
    pub fn index(&self) -> (index: &DedupIndex<P>)
        ensures
            index@ == self@.kept,
            index.keeps_older() == self@.keep_older,
    {
        &self.index
    }

    /// The counts as they stand.
    pub fn summary(&self) -> (summary: Summary)
        ensures
            summary == summary_of(self@),
    {
        Summary {
            discovered: self.discovered,
            unreadable: self.unreadable,
            fingerprinted: self.fingerprinted,
            fingerprint_failures: self.fingerprint_failures,
            kept: self.index.len(),
            submitted: self.submitted,
            deleted: self.deleted,
            deletion_failures: self.deletion_failures,
        }
    }

    /// Reports a path that the walk gave.
    ///
    /// The path is held until `next_action` hands it out. It is refused
    /// where another path is still held or the walk was reported finished,
    /// and where the count of paths is at its limit; the state then stays
    /// as it was.
    pub fn path_found(&mut self, path: P) -> (result: Result<(), SchedulerError>)
        requires
            old(self).wf(),
        ensures
            final(self).wf(),
            match result {
                Ok(()) => accepts_path(old(self)@) && final(self)@ == after_path_found(
                    old(self)@,
                    path,
                ),
                Err(e) => {
                    &&& !accepts_path(old(self)@)
                    &&& final(self)@ == old(self)@
                    &&& e == if awaits_entry(old(self)@) {
                        SchedulerError::TooManyPaths
                    } else {
                        SchedulerError::PathNotAwaited
                    }
                },
            },
    {
        if self.pending.is_some() || self.exhausted {
            return Err(SchedulerError::PathNotAwaited);
        }
        if self.discovered == usize::MAX {
            return Err(SchedulerError::TooManyPaths);
        }
        proof {
            path_found_keeps_inv(self@, path);
        }
        self.pending = Some(path);
        self.discovered += 1;
        Ok(())
    }

    /// Reports an entry that the walk could not read.
    ///
    /// The entry is counted and skipped: it is never fingerprinted, kept or
    /// deleted. The report is refused as a path would be.
    pub fn path_unreadable(&mut self) -> (result: Result<(), SchedulerError>)
        requires
            old(self).wf(),
        ensures
            final(self).wf(),
            match result {
                Ok(()) => accepts_unreadable(old(self)@) && final(self)@
                    == after_path_unreadable(old(self)@),
                Err(e) => {
                    &&& !accepts_unreadable(old(self)@)
                    &&& final(self)@ == old(self)@
                    &&& e == if awaits_entry(old(self)@) {
                        SchedulerError::TooManyPaths
                    } else {
                        SchedulerError::PathNotAwaited
                    }
                },
            },
    {
        if self.pending.is_some() || self.exhausted {
            return Err(SchedulerError::PathNotAwaited);
        }
        if self.unreadable == usize::MAX {
            return Err(SchedulerError::TooManyPaths);
        }
        proof {
            path_unreadable_keeps_inv(self@);
        }
        self.unreadable += 1;
        Ok(())
    }

    /// Reports that the walk has no more paths.
    pub fn discovery_finished(&mut self)
        requires
            old(self).wf(),
        ensures
            final(self).wf(),
            final(self)@ == after_discovery_finished(old(self)@),
    {
        proof {
            discovery_finished_keeps_inv(self@);
        }
        self.exhausted = true;
    }

    /// Reports the outcome of a fingerprint task: its record, or `None`
    /// where the file got none.
    ///
    /// A record is resolved against the index at once, in the order of the
    /// reports, and a loser is queued for deletion. A report while no
    /// fingerprint task is in flight is refused and changes nothing.
    pub fn fingerprint_done(&mut self, outcome: Option<FileRecord<P>>) -> (result: Result<
        (),
        SchedulerError,
    >)
        requires
            old(self).wf(),
        ensures
            final(self).wf(),
            match result {
                Ok(()) => old(self)@.fingerprints_in_flight > 0 && final(self)@
                    == after_fingerprint_done(old(self)@, outcome),
                Err(e) => {
                    &&& old(self)@.fingerprints_in_flight == 0
                    &&& final(self)@ == old(self)@
                    &&& e == SchedulerError::NoFingerprintInFlight
                },
            },
    {
        if self.fingerprints_in_flight == 0 {
            return Err(SchedulerError::NoFingerprintInFlight);
        }
        proof {
            fingerprint_done_keeps_inv(self@, outcome);
        }
        self.fingerprints_in_flight -= 1;
        match outcome {
            None => {
                self.fingerprint_failures += 1;
            },
            Some(record) => {
                self.fingerprinted += 1;
                self.resolved = Ghost(self.resolved@.push(record));
                if let Some(path) = self.index.resolve(record) {
                    self.waiting.push_back(
                        DeletionJob { sequence_index: self.fingerprinted, path },
                    );
                }
            },
        }
        Ok(())
    }

    /// Reports the outcome of a deletion.
    ///
    /// A failed deletion is counted and not tried again. A report while no
    /// deletion is in flight is refused and changes nothing.
    pub fn deletion_done(&mut self, succeeded: bool) -> (result: Result<(), SchedulerError>)
        requires
            old(self).wf(),
        ensures
            final(self).wf(),
            match result {
                Ok(()) => old(self)@.deletions_in_flight > 0 && final(self)@
                    == after_deletion_done(old(self)@, succeeded),
                Err(e) => {
                    &&& old(self)@.deletions_in_flight == 0
                    &&& final(self)@ == old(self)@
                    &&& e == SchedulerError::NoDeletionInFlight
                },
            },
    {
        if self.deletions_in_flight == 0 {
            return Err(SchedulerError::NoDeletionInFlight);
        }
        proof {
            deletion_done_keeps_inv(self@, succeeded);
        }
        self.deletions_in_flight -= 1;
        if succeeded {
            self.deleted += 1;
        } else {
            self.deletion_failures += 1;
        }
        Ok(())
    }

    /// Hands out the next action.
    ///
    /// A deletion or a fingerprint that is handed out counts as in flight
    /// from then on. `Discover`, `Wait` and `Finish` change nothing, and
    /// are given again until a report changes the state.
    pub fn next_action(&mut self) -> (action: Action<P>)
        requires
            old(self).wf(),
        ensures
            final(self).wf(),
            action == next_action_of(old(self)@),
            final(self)@ == after_action(old(self)@),
            action is Wait ==> in_flight(final(self)@),
            action is Finish ==> {
                &&& final(self)@ == old(self)@
                &&& final(self)@.exhausted
                &&& final(self)@.pending is None
                &&& final(self)@.waiting.len() == 0
                &&& final(self)@.fingerprints_in_flight == 0
                &&& final(self)@.deletions_in_flight == 0
                &&& final(self)@.submitted == final(self)@.deleted
                    + final(self)@.deletion_failures
                &&& final(self)@.discovered == final(self)@.fingerprinted
                    + final(self)@.fingerprint_failures
            },
    {
        proof {
            action_keeps_inv(self@);
        }
        if self.deletions_in_flight < self.deletion_capacity {
            if let Some(job) = self.waiting.pop_front() {
                self.handed_out = Ghost(self.handed_out@.push(job));
                self.submitted += 1;
                self.deletions_in_flight += 1;
                return Action::Delete(job);
            }
        }
        if self.fingerprints_in_flight < self.fingerprint_capacity {
            if let Some(path) = self.pending.take() {
                self.fingerprints_in_flight += 1;
                return Action::Fingerprint(path);
            }
            if !self.exhausted {
                return Action::Discover;
            }
        }
        if self.fingerprints_in_flight > 0 || self.deletions_in_flight > 0 {
            return Action::Wait;
        }
        Action::Finish(self.summary())
    }
}

} // verus!
