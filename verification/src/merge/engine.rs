//! Walking the tree.
//!
//! A `MergeEngine` merges one source directory into one destination
//! directory. It keeps a first-in first-out queue of directory pairs that
//! exist on both sides. For each pair it asks for the source's entries, hands
//! out one `EntryMove` per entry, takes back how each was settled, queues the
//! deferred subdirectories, and decides whether the source directory is
//! removed. `step` takes the answer to the last operation and returns the
//! next one, until it returns `Finish`.
//!
//! A failure is fatal for the entry or directory it happened in and for
//! nothing else: the rest of the merge goes on, a directory in which an entry
//! failed is not removed, and the merge ends with the first failure met. A
//! failed removal of a drained directory is no failure of the merge.

use crate::merge::entry::{entry_start, EntryMove, EntryMoveView, EntryOutcome};
use crate::merge::{EntryKind, MergeError};
use crate::path::{lemma_join_keeps_apart, names_of, TreePath};
use crate::policy::{resolve, PolicyView, ReplaceAction, ReplaceOptions};
use std::collections::VecDeque;
use vstd::prelude::*;

verus! {

/// A pair of directories that exist on both sides and are to be merged.
#[derive(Debug)]
pub struct MoveTask {
    /// The directory whose entries are moved.
    pub source: TreePath,
    /// The directory that receives them.
    pub dest: TreePath,
}

/// The content of a `MoveTask`.
pub struct TaskView {
    pub source: Seq<Seq<char>>,
    pub dest: Seq<Seq<char>>,
}

impl View for MoveTask {
    type V = TaskView;

    open spec fn view(&self) -> TaskView {
        TaskView { source: self.source@, dest: self.dest@ }
    }
}

/// How one entry of the current directory was settled.
#[derive(Debug)]
pub struct EntryReport {
    /// The entry's name.
    pub name: String,
    /// What became of it.
    pub outcome: EntryOutcome,
}

/// The content of an `EntryReport`.
pub struct ReportView {
    pub name: Seq<char>,
    pub outcome: EntryOutcome,
}

impl View for EntryReport {
    type V = ReportView;

    open spec fn view(&self) -> ReportView {
        ReportView { name: self.name@, outcome: self.outcome }
    }
}

/// Where a merge stands.
#[derive(Debug, Clone, Copy, PartialEq, Eq, Structural)]
pub enum MergePhase {
    /// Asked what the source is.
    SourceKind,
    /// Asked what the destination is.
    DestKind,
    /// Asked for the move of the whole source onto the missing destination.
    WholeMove,
    /// Asked what the source of the task just taken from the queue is.
    TaskKind,
    /// Asked for the entries of the current source directory.
    Listing,
    /// Handed out the entries of the current source directory.
    Children,
    /// Asked whether the current source directory still holds a regular file.
    HasFiles,
    /// Asked for the removal of the current source directory.
    Removal,
    /// Ended.
    Finished,
}

/// The answer to an operation.
#[derive(Debug)]
pub enum MergeEvent {
    /// What a probed path is.
    Kind(EntryKind),
    /// The names of the entries of a listed directory.
    Listed(Vec<String>),
    /// How the entries handed out were settled.
    Resolved(Vec<EntryReport>),
    /// Whether a directory holds a regular file anywhere below it.
    HasFiles(bool),
    /// A move or removal succeeded.
    Completed,
    /// The operation failed with this error code.
    Failed(i32),
}

/// The content of a `MergeEvent`.
pub enum MergeEventView {
    Kind(EntryKind),
    Listed(Seq<Seq<char>>),
    Resolved(Seq<ReportView>),
    HasFiles(bool),
    Completed,
    Failed(i32),
}

/// The reports held by a list, as plain values.
pub open spec fn reports_of(reports: Seq<EntryReport>) -> Seq<ReportView> {
    Seq::new(reports.len(), |i: int| reports[i]@)
}

impl View for MergeEvent {
    type V = MergeEventView;

    open spec fn view(&self) -> MergeEventView {
        match self {
            MergeEvent::Kind(k) => MergeEventView::Kind(*k),
            MergeEvent::Listed(names) => MergeEventView::Listed(names_of(names@)),
            MergeEvent::Resolved(reports) => MergeEventView::Resolved(reports_of(reports@)),
            MergeEvent::HasFiles(b) => MergeEventView::HasFiles(*b),
            MergeEvent::Completed => MergeEventView::Completed,
            MergeEvent::Failed(code) => MergeEventView::Failed(*code),
        }
    }
}

/// The next operation of a merge.
#[derive(Debug)]
pub enum MergeAction {
    /// Find out what is at this path.
    Probe(TreePath),
    /// Move the directory `from`, with all it holds, to the free path `to`.
    MoveTree { from: TreePath, to: TreePath },
    /// Name the entries of this directory.
    List(TreePath),
    /// Settle these entries of `source` against `dest`, in any order or at
    /// once, and report how each was settled.
    Resolve { source: TreePath, dest: TreePath, entries: Vec<EntryMove> },
    /// Find out whether this directory holds a regular file anywhere below it.
    HasFiles(TreePath),
    /// Remove this directory with all it holds.
    RemoveTree(TreePath),
    /// Nothing more: the merge has ended with this result.
    Finish(Result<(), MergeError>),
}

/// The content of a `MergeAction`.
pub enum MergeActionView {
    Probe(Seq<Seq<char>>),
    MoveTree { from: Seq<Seq<char>>, to: Seq<Seq<char>> },
    List(Seq<Seq<char>>),
    Resolve { source: Seq<Seq<char>>, dest: Seq<Seq<char>>, entries: Seq<EntryMoveView> },
    HasFiles(Seq<Seq<char>>),
    RemoveTree(Seq<Seq<char>>),
    Finish(Result<(), MergeError>),
}

/// The entry machines held by a list, as plain values.
pub open spec fn entries_of(entries: Seq<EntryMove>) -> Seq<EntryMoveView> {
    Seq::new(entries.len(), |i: int| entries[i]@)
}

impl View for MergeAction {
    type V = MergeActionView;

    open spec fn view(&self) -> MergeActionView {
        match self {
            MergeAction::Probe(p) => MergeActionView::Probe(p@),
            MergeAction::MoveTree { from, to } => MergeActionView::MoveTree {
                from: from@,
                to: to@,
            },
            MergeAction::List(p) => MergeActionView::List(p@),
            MergeAction::Resolve { source, dest, entries } => MergeActionView::Resolve {
                source: source@,
                dest: dest@,
                entries: entries_of(entries@),
            },
            MergeAction::HasFiles(p) => MergeActionView::HasFiles(p@),
            MergeAction::RemoveTree(p) => MergeActionView::RemoveTree(p@),
            MergeAction::Finish(r) => MergeActionView::Finish(*r),
        }
    }
}

/// A merge of one directory into another.
#[derive(Debug)]
pub struct MergeEngine {
    /// The replace policy, unchanged through the whole merge.
    pub policy: ReplaceOptions,
    /// The directory pairs still to be merged, oldest first.
    pub queue: VecDeque<MoveTask>,
    /// The pair being merged; before the first pair, source and destination of the merge.
    pub current: MoveTask,
    /// Where the merge stands.
    pub phase: MergePhase,
    /// The first failure met so far.
    pub failure: Option<MergeError>,
}

/// The content of a `MergeEngine`.
pub struct EngineView {
    pub policy: PolicyView,
    pub queue: Seq<TaskView>,
    pub current: TaskView,
    pub phase: MergePhase,
    pub failure: Option<MergeError>,
}

/// The tasks held by a queue, as plain values.
pub open spec fn tasks_of(tasks: Seq<MoveTask>) -> Seq<TaskView> {
    Seq::new(tasks.len(), |i: int| tasks[i]@)
}

impl View for MergeEngine {
    type V = EngineView;

    open spec fn view(&self) -> EngineView {
        EngineView {
            policy: self.policy@,
            queue: tasks_of(self.queue@),
            current: self.current@,
            phase: self.phase,
            failure: self.failure,
        }
    }
}

/// The result of a merge that met `failure`.
pub open spec fn merge_result(failure: Option<MergeError>) -> Result<(), MergeError> {
    match failure {
        Some(e) => Err(e),
        None => Ok(()),
    }
}

/// The state with `err` noted, unless an earlier failure is already noted.
pub open spec fn engine_note(m: EngineView, err: MergeError) -> EngineView {
    EngineView {
        failure: if m.failure is Some {
            m.failure
        } else {
            Some(err)
        },
        ..m
    }
}

/// The merge ends with what it has noted.
pub open spec fn engine_finish(m: EngineView) -> (EngineView, MergeActionView) {
    (
        EngineView { phase: MergePhase::Finished, ..m },
        MergeActionView::Finish(merge_result(m.failure)),
    )
}

/// The merge ends at once because of `err`.
pub open spec fn engine_abort(m: EngineView, err: MergeError) -> (EngineView, MergeActionView) {
    engine_finish(engine_note(m, err))
}

/// The merge goes on with the oldest queued pair, or ends if there is none.
pub open spec fn engine_next(m: EngineView) -> (EngineView, MergeActionView) {
    if m.queue.len() == 0 {
        engine_finish(m)
    } else {
        (
            EngineView {
                queue: m.queue.drop_first(),
                current: m.queue[0],
                phase: MergePhase::TaskKind,
                ..m
            },
            MergeActionView::Probe(m.queue[0].source),
        )
    }
}

/// The merge moves to `phase` and asks for `action`.
pub open spec fn engine_go(m: EngineView, phase: MergePhase, action: MergeActionView) -> (
    EngineView,
    MergeActionView,
) {
    (EngineView { phase, ..m }, action)
}

/// What an answer means that fits no branch of the phase it came in: an
/// error code is noted and the current pair given up; any other answer is
/// one nobody asked for and ends the merge.
pub open spec fn engine_stray(m: EngineView, e: MergeEventView) -> (EngineView, MergeActionView) {
    match e {
        MergeEventView::Failed(code) => engine_next(engine_note(m, MergeError::Io(code))),
        _ => engine_abort(m, MergeError::UnexpectedEvent),
    }
}

/// The pair made of the entry `name` on both sides of `task`.
pub open spec fn child_task(task: TaskView, name: Seq<char>) -> TaskView {
    TaskView { source: task.source.push(name), dest: task.dest.push(name) }
}

/// The pairs to queue after the entries of `task` were settled: one for each
/// deferred entry, in the order of the reports.
pub open spec fn deferred_tasks(task: TaskView, reports: Seq<ReportView>) -> Seq<TaskView>
    decreases reports.len(),
{
    if reports.len() == 0 {
        Seq::empty()
    } else {
        let before = deferred_tasks(task, reports.drop_last());
        if reports.last().outcome == EntryOutcome::Deferred {
            before.push(child_task(task, reports.last().name))
        } else {
            before
        }
    }
}

/// The error of the first report that failed.
pub open spec fn first_failure(reports: Seq<ReportView>) -> Option<MergeError>
    decreases reports.len(),
{
    if reports.len() == 0 {
        None
    } else {
        match first_failure(reports.drop_last()) {
            Some(e) => Some(e),
            None => match reports.last().outcome {
                EntryOutcome::Failed(e) => Some(e),
                _ => None,
            },
        }
    }
}

/// One fresh entry machine per name, each with the action the policy gives its name.
pub open spec fn entries_for(policy: PolicyView, names: Seq<Seq<char>>) -> Seq<EntryMoveView> {
    Seq::new(names.len(), |i: int| entry_start(names[i], resolve(policy, names[i])).0)
}

/// The state after the entries of the current pair were settled as `reports` say.
pub open spec fn engine_settled(m: EngineView, reports: Seq<ReportView>) -> EngineView {
    let queued = EngineView { queue: m.queue + deferred_tasks(m.current, reports), ..m };
    match first_failure(reports) {
        Some(e) => engine_note(queued, e),
        None => queued,
    }
}

/// The merge in its first state, and the first operation: none at all where
/// source and destination are the same path.
pub open spec fn engine_start(
    source: Seq<Seq<char>>,
    dest: Seq<Seq<char>>,
    policy: PolicyView,
) -> (EngineView, MergeActionView) {
    let m = EngineView {
        policy,
        queue: Seq::empty(),
        current: TaskView { source, dest },
        phase: MergePhase::SourceKind,
        failure: None,
    };
    if source == dest {
        engine_finish(m)
    } else {
        (m, MergeActionView::Probe(source))
    }
}

/// The transition of the merge: the state after `e` and the next operation.
///
/// - A source that is missing or no directory ends the merge with success.
/// - A missing destination gets the whole source in one move. A destination
///   that is no directory ends the merge with `DestNotDirectory`.
/// - Otherwise the pair (source, destination) is merged, and after it every
///   queued pair, oldest first. A queued pair whose source is no longer a
///   directory when its turn comes is dropped without a word.
/// - The entries of a pair are handed out together. When they are settled,
///   the deferred ones are queued in the order of the reports.
/// - Then, unless an entry failed, the source directory is removed if the
///   policy's default is not `Skip` or if it holds no regular file any more.
///   What the removal answers is ignored.
pub open spec fn engine_step(m: EngineView, e: MergeEventView) -> (EngineView, MergeActionView) {
    match m.phase {
        MergePhase::SourceKind => match e {
            MergeEventView::Kind(EntryKind::Dir) => engine_go(
                m,
                MergePhase::DestKind,
                MergeActionView::Probe(m.current.dest),
            ),
            MergeEventView::Kind(_) => engine_finish(m),
            MergeEventView::Failed(code) => engine_abort(m, MergeError::Io(code)),
            _ => engine_abort(m, MergeError::UnexpectedEvent),
        },
        MergePhase::DestKind => match e {
            MergeEventView::Kind(EntryKind::Missing) => engine_go(
                m,
                MergePhase::WholeMove,
                MergeActionView::MoveTree { from: m.current.source, to: m.current.dest },
            ),
            MergeEventView::Kind(EntryKind::Dir) => engine_go(
                m,
                MergePhase::Listing,
                MergeActionView::List(m.current.source),
            ),
            MergeEventView::Kind(_) => engine_abort(m, MergeError::DestNotDirectory),
            MergeEventView::Failed(code) => engine_abort(m, MergeError::Io(code)),
            _ => engine_abort(m, MergeError::UnexpectedEvent),
        },
        MergePhase::WholeMove => match e {
            MergeEventView::Completed => engine_finish(m),
            MergeEventView::Failed(code) => engine_abort(m, MergeError::Io(code)),
            _ => engine_abort(m, MergeError::UnexpectedEvent),
        },
        MergePhase::TaskKind => match e {
            MergeEventView::Kind(EntryKind::Dir) => engine_go(
                m,
                MergePhase::Listing,
                MergeActionView::List(m.current.source),
            ),
            MergeEventView::Kind(_) => engine_next(m),
            _ => engine_stray(m, e),
        },
        MergePhase::Listing => match e {
            MergeEventView::Listed(names) => engine_go(
                m,
                MergePhase::Children,
                MergeActionView::Resolve {
                    source: m.current.source,
                    dest: m.current.dest,
                    entries: entries_for(m.policy, names),
                },
            ),
            _ => engine_stray(m, e),
        },
        MergePhase::Children => match e {
            MergeEventView::Resolved(reports) => {
                let settled = engine_settled(m, reports);
                if first_failure(reports) is Some {
                    engine_next(settled)
                } else if m.policy.default != ReplaceAction::Skip {
                    engine_go(
                        settled,
                        MergePhase::Removal,
                        MergeActionView::RemoveTree(m.current.source),
                    )
                } else {
                    engine_go(
                        settled,
                        MergePhase::HasFiles,
                        MergeActionView::HasFiles(m.current.source),
                    )
                }
            },
            _ => engine_stray(m, e),
        },
        MergePhase::HasFiles => match e {
            MergeEventView::HasFiles(false) => engine_go(
                m,
                MergePhase::Removal,
                MergeActionView::RemoveTree(m.current.source),
            ),
            MergeEventView::HasFiles(true) => engine_next(m),
            _ => engine_stray(m, e),
        },
        MergePhase::Removal => match e {
            MergeEventView::Completed => engine_next(m),
            MergeEventView::Failed(_) => engine_next(m),
            _ => engine_abort(m, MergeError::UnexpectedEvent),
        },
        MergePhase::Finished => (m, MergeActionView::Finish(Err(MergeError::UnexpectedEvent))),
    }
}

/// Source and destination of a pair are different paths.
pub open spec fn task_apart(t: TaskView) -> bool {
    t.source != t.dest
}

/// Every pair the state holds has different paths as source and destination.
pub open spec fn engine_wf(m: EngineView) -> bool {
    &&& m.phase != MergePhase::Finished ==> task_apart(m.current)
    &&& forall|i: int| 0 <= i < m.queue.len() ==> task_apart(#[trigger] m.queue[i])
}

/// Deferred entries of a pair with different paths give pairs with different paths.
pub proof fn lemma_deferred_apart(task: TaskView, reports: Seq<ReportView>)
    requires
        task_apart(task),
    ensures
        forall|i: int|
            0 <= i < deferred_tasks(task, reports).len() ==> task_apart(
                #[trigger] deferred_tasks(task, reports)[i],
            ),
    decreases reports.len(),
{
    if reports.len() > 0 {
        lemma_deferred_apart(task, reports.drop_last());
        lemma_join_keeps_apart(task.source, task.dest, reports.last().name);
        let before = deferred_tasks(task, reports.drop_last());
        let all = deferred_tasks(task, reports);
        assert forall|i: int| 0 <= i < all.len() implies task_apart(#[trigger] all[i]) by {
            if i < before.len() {
                assert(all[i] == before[i]);
            } else {
                assert(all[i] == child_task(task, reports.last().name));
            }
        }
    }
}

/// The transition keeps sources and destinations apart.
pub proof fn lemma_step_keeps_wf(m: EngineView, e: MergeEventView)
    requires
        engine_wf(m),
    ensures
        engine_wf(engine_step(m, e).0),
{
    match e {
        MergeEventView::Resolved(reports) => {
            if m.phase == MergePhase::Children {
                lemma_deferred_apart(m.current, reports);
            }
        },
        _ => {},
    }
}

impl MergeEngine {
    /// Every pair the engine holds has different paths as source and destination.
    pub open spec fn wf(&self) -> bool {
        engine_wf(self@)
    }

    /// The engine for merging `source` into `dest` under `policy`, and its
    /// first operation.
    pub fn start(source: TreePath, dest: TreePath, policy: ReplaceOptions) -> (r: (
        MergeEngine,
        MergeAction,
    ))
        ensures
            (r.0@, r.1@) == engine_start(source@, dest@, policy@),
            r.0.wf(),
    {
        let same = source.same(&dest);
        let probe = source.duplicate();
        let mut engine = MergeEngine {
            policy,
            queue: VecDeque::new(),
            current: MoveTask { source, dest },
            phase: MergePhase::SourceKind,
            failure: None,
        };
        proof {
            assert(engine@.queue =~= Seq::empty());
        }
        if same {
            let act = engine.finish();
            (engine, act)
        } else {
            (engine, MergeAction::Probe(probe))
        }
    }

    /// Whether the merge has ended.
    pub fn is_finished(&self) -> (r: bool)
        ensures
            r == (self@.phase == MergePhase::Finished),
    {
        self.phase == MergePhase::Finished
    }

    fn note(&mut self, err: MergeError)
        ensures
            final(self)@ == engine_note(old(self)@, err),
    {
        if self.failure.is_none() {
            self.failure = Some(err);
        }
    }

    fn finish(&mut self) -> (act: MergeAction)
        ensures
            (final(self)@, act@) == engine_finish(old(self)@),
    {
        self.phase = MergePhase::Finished;
        match self.failure {
            Some(e) => MergeAction::Finish(Err(e)),
            None => MergeAction::Finish(Ok(())),
        }
    }

    fn abort(&mut self, err: MergeError) -> (act: MergeAction)
        ensures
            (final(self)@, act@) == engine_abort(old(self)@, err),
    {
        self.note(err);
        self.finish()
    }

    fn next(&mut self) -> (act: MergeAction)
        ensures
            (final(self)@, act@) == engine_next(old(self)@),
    {
        let ghost before = self.queue@;
        match self.queue.pop_front() {
            Some(task) => {
                let probe = task.source.duplicate();
                self.current = task;
                self.phase = MergePhase::TaskKind;
                proof {
                    assert(tasks_of(self.queue@) =~= tasks_of(before).drop_first());
                }
                MergeAction::Probe(probe)
            },
            None => self.finish(),
        }
    }

    fn stray(&mut self, event: MergeEvent) -> (act: MergeAction)
        ensures
            (final(self)@, act@) == engine_stray(old(self)@, event@),
    {
        match event {
            MergeEvent::Failed(code) => {
                self.note(MergeError::Io(code));
                self.next()
            },
            _ => self.abort(MergeError::UnexpectedEvent),
        }
    }

    fn list_current(&mut self) -> (act: MergeAction)
        ensures
            (final(self)@, act@) == engine_go(
                old(self)@,
                MergePhase::Listing,
                MergeActionView::List(old(self)@.current.source),
            ),
    {
        self.phase = MergePhase::Listing;
        MergeAction::List(self.current.source.duplicate())
    }

    fn remove_current(&mut self) -> (act: MergeAction)
        ensures
            (final(self)@, act@) == engine_go(
                old(self)@,
                MergePhase::Removal,
                MergeActionView::RemoveTree(old(self)@.current.source),
            ),
    {
        self.phase = MergePhase::Removal;
        MergeAction::RemoveTree(self.current.source.duplicate())
    }

    /// One fresh entry machine per listed name.
    fn hand_out(&self, names: Vec<String>) -> (entries: Vec<EntryMove>)
        ensures
            entries_of(entries@) == entries_for(self@.policy, names_of(names@)),
    {
        let mut entries: Vec<EntryMove> = Vec::new();
        let mut names = names;
        let ghost all = names_of(names@);
        let mut i: usize = 0;
        let n = names.len();
        while i < n
            invariant
                i <= n,
                n == names@.len(),
                names_of(names@) == all,
                entries@.len() == i,
                forall|j: int|
                    0 <= j < i ==> (#[trigger] entries@[j])@ == entry_start(
                        all[j],
                        resolve(self@.policy, all[j]),
                    ).0,
            decreases n - i,
        {
            let action = self.policy.for_name(names[i].as_str());
            let name = names[i].clone();
            proof {
                assert(name@ == all[i as int]);
            }
            let (entry, _first) = EntryMove::start(name, action);
            entries.push(entry);
            i += 1;
        }
        proof {
            assert(entries_of(entries@) =~= entries_for(self@.policy, all));
        }
        entries
    }

    /// Queues the deferred entries and notes the first failure.
    fn settle(&mut self, reports: Vec<EntryReport>) -> (failed: bool)
        ensures
            final(self)@ == engine_settled(old(self)@, reports_of(reports@)),
            failed == (first_failure(reports_of(reports@)) is Some),
    {
        let ghost all = reports_of(reports@);
        let ghost start_queue = tasks_of(self.queue@);
        let mut found: Option<MergeError> = None;
        let mut i: usize = 0;
        while i < reports.len()
            invariant
                i <= reports.len(),
                reports_of(reports@) == all,
                self.policy == old(self).policy,
                self.current == old(self).current,
                self.phase == old(self).phase,
                self.failure == old(self).failure,
                tasks_of(self.queue@) == start_queue + deferred_tasks(
                    old(self)@.current,
                    all.take(i as int),
                ),
                found == first_failure(all.take(i as int)),
            decreases reports.len() - i,
        {
            let ghost queue_before = tasks_of(self.queue@);
            proof {
                assert(all.take(i as int + 1).drop_last() =~= all.take(i as int));
                assert(all.take(i as int + 1).last() == all[i as int]);
                assert(all[i as int] == reports@[i as int]@);
            }
            match reports[i].outcome {
                EntryOutcome::Deferred => {
                    let name = reports[i].name.as_str();
                    let task = MoveTask {
                        source: self.current.source.join(name),
                        dest: self.current.dest.join(name),
                    };
                    self.queue.push_back(task);
                    proof {
                        assert(tasks_of(self.queue@) =~= queue_before.push(
                            child_task(old(self)@.current, all[i as int].name),
                        ));
                    }
                },
                EntryOutcome::Failed(e) => {
                    if found.is_none() {
                        found = Some(e);
                    }
                },
                _ => {},
            }
            i += 1;
        }
        proof {
            assert(all.take(reports.len() as int) =~= all);
        }
        match found {
            Some(e) => {
                self.note(e);
                true
            },
            None => false,
        }
    }

    /// Takes the answer to the last operation and returns the next one.
    pub fn step(&mut self, event: MergeEvent) -> (act: MergeAction)
        ensures
            (final(self)@, act@) == engine_step(old(self)@, event@),
            old(self).wf() ==> final(self).wf(),
    {
        proof {
            if self.wf() {
                lemma_step_keeps_wf(self@, event@);
            }
        }
        match self.phase {
            MergePhase::SourceKind => match event {
                MergeEvent::Kind(EntryKind::Dir) => {
                    self.phase = MergePhase::DestKind;
                    MergeAction::Probe(self.current.dest.duplicate())
                },
                MergeEvent::Kind(_) => self.finish(),
                MergeEvent::Failed(code) => self.abort(MergeError::Io(code)),
                _ => self.abort(MergeError::UnexpectedEvent),
            },
            MergePhase::DestKind => match event {
                MergeEvent::Kind(EntryKind::Missing) => {
                    self.phase = MergePhase::WholeMove;
                    MergeAction::MoveTree {
                        from: self.current.source.duplicate(),
                        to: self.current.dest.duplicate(),
                    }
                },
                MergeEvent::Kind(EntryKind::Dir) => self.list_current(),
                MergeEvent::Kind(_) => self.abort(MergeError::DestNotDirectory),
                MergeEvent::Failed(code) => self.abort(MergeError::Io(code)),
                _ => self.abort(MergeError::UnexpectedEvent),
            },
            MergePhase::WholeMove => match event {
                MergeEvent::Completed => self.finish(),
                MergeEvent::Failed(code) => self.abort(MergeError::Io(code)),
                _ => self.abort(MergeError::UnexpectedEvent),
            },
            MergePhase::TaskKind => match event {
                MergeEvent::Kind(EntryKind::Dir) => self.list_current(),
                MergeEvent::Kind(_) => self.next(),
                _ => self.stray(event),
            },
            MergePhase::Listing => match event {
                MergeEvent::Listed(names) => {
                    let entries = self.hand_out(names);
                    self.phase = MergePhase::Children;
                    MergeAction::Resolve {
                        source: self.current.source.duplicate(),
                        dest: self.current.dest.duplicate(),
                        entries,
                    }
                },
                _ => self.stray(event),
            },
            MergePhase::Children => match event {
                MergeEvent::Resolved(reports) => {
                    let failed = self.settle(reports);
                    if failed {
                        self.next()
                    } else if self.policy.default != ReplaceAction::Skip {
                        self.remove_current()
                    } else {
                        self.phase = MergePhase::HasFiles;
                        MergeAction::HasFiles(self.current.source.duplicate())
                    }
                },
                _ => self.stray(event),
            },
            MergePhase::HasFiles => match event {
                MergeEvent::HasFiles(false) => self.remove_current(),
                MergeEvent::HasFiles(true) => self.next(),
                _ => self.stray(event),
            },
            MergePhase::Removal => match event {
                MergeEvent::Completed => self.next(),
                MergeEvent::Failed(_) => self.next(),
                _ => self.abort(MergeError::UnexpectedEvent),
            },
            MergePhase::Finished => MergeAction::Finish(Err(MergeError::UnexpectedEvent)),
        }
    }
}

} // verus!
