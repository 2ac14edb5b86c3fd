//! What holds of every merge.
//!
//! Each law is stated over the transitions `engine_step` and `entry_step`,
//! which the executable machines are proved to follow. A law that speaks of
//! a run names the answers the run receives; it holds for every source,
//! destination and policy.

use crate::merge::engine::{
    child_task, deferred_tasks, engine_start, engine_step, entries_for, first_failure,
    merge_result, EngineView, MergeActionView, MergeEventView, MergePhase, ReportView, TaskView,
};
use crate::merge::entry::{
    candidate_name, entry_start, entry_step, lemma_first_candidate_is_name, EntryActionView,
    EntryEvent, EntryMoveView, EntryOutcome, EntryPhase,
};
use crate::merge::{EntryKind, MergeError};
use crate::path::under;
use crate::policy::{resolve, PolicyView, ReplaceAction};
use crate::text::extension_of;
use vstd::prelude::*;

verus! {

/// Merging a directory into itself does nothing: the merge ends with success
/// before it asks for any operation.
pub proof fn law_same_directory_is_noop(path: Seq<Seq<char>>, policy: PolicyView)
    ensures
        engine_start(path, path, policy).1 == MergeActionView::Finish(Ok(())),
        engine_start(path, path, policy).0.phase == MergePhase::Finished,
{
}

/// Merging from a source that does not exist, or that is no directory, does
/// nothing: the one operation asked for is the look at the source, and the
/// merge ends with success.
pub proof fn law_missing_source_is_noop(
    source: Seq<Seq<char>>,
    dest: Seq<Seq<char>>,
    policy: PolicyView,
    kind: EntryKind,
)
    requires
        source != dest,
        kind != EntryKind::Dir,
    ensures
        engine_start(source, dest, policy).1 == MergeActionView::Probe(source),
        engine_step(engine_start(source, dest, policy).0, MergeEventView::Kind(kind)).1
            == MergeActionView::Finish(Ok(())),
{
}

/// Merging into a destination that does not exist is one move of the whole
/// source onto the destination: after the looks at source and destination
/// that move is the only operation, and its result is the result of the
/// merge. So where the move succeeds, the destination holds exactly what the
/// source held and the source is gone.
pub proof fn law_missing_destination_is_one_move(
    source: Seq<Seq<char>>,
    dest: Seq<Seq<char>>,
    policy: PolicyView,
    code: i32,
)
    requires
        source != dest,
    ensures
        ({
            let (m0, a0) = engine_start(source, dest, policy);
            let (m1, a1) = engine_step(m0, MergeEventView::Kind(EntryKind::Dir));
            let (m2, a2) = engine_step(m1, MergeEventView::Kind(EntryKind::Missing));
            &&& a0 == MergeActionView::Probe(source)
            &&& a1 == MergeActionView::Probe(dest)
            &&& a2 == MergeActionView::MoveTree { from: source, to: dest }
            &&& engine_step(m2, MergeEventView::Completed).1 == MergeActionView::Finish(Ok(()))
            &&& engine_step(m2, MergeEventView::Failed(code)).1 == MergeActionView::Finish(
                Err(MergeError::Io(code)),
            )
        }),
{
}

/// A destination that exists and is no directory ends the merge with
/// `DestNotDirectory` before anything is moved.
pub proof fn law_destination_must_be_directory(
    source: Seq<Seq<char>>,
    dest: Seq<Seq<char>>,
    policy: PolicyView,
    kind: EntryKind,
)
    requires
        source != dest,
        kind == EntryKind::File || kind == EntryKind::Other,
    ensures
        ({
            let (m0, a0) = engine_start(source, dest, policy);
            let (m1, a1) = engine_step(m0, MergeEventView::Kind(EntryKind::Dir));
            engine_step(m1, MergeEventView::Kind(kind)).1 == MergeActionView::Finish(
                Err(MergeError::DestNotDirectory),
            )
        }),
{
}

/// The run of a merge whose source is an empty directory and whose
/// destination is a directory, up to the operation that follows the (empty)
/// settlement of the source's entries.
pub open spec fn drained_run(source: Seq<Seq<char>>, dest: Seq<Seq<char>>, policy: PolicyView) -> (
    EngineView,
    MergeActionView,
) {
    let m0 = engine_start(source, dest, policy).0;
    let m1 = engine_step(m0, MergeEventView::Kind(EntryKind::Dir)).0;
    let m2 = engine_step(m1, MergeEventView::Kind(EntryKind::Dir)).0;
    let m3 = engine_step(m2, MergeEventView::Listed(Seq::empty())).0;
    engine_step(m3, MergeEventView::Resolved(Seq::empty()))
}

/// Merging again after a merge has drained the source does nothing to the
/// destination. Where the source is gone, `law_missing_source_is_noop`
/// applies. Where it is left as an empty directory, the run asks for the
/// looks at source and destination, for the source's entries, for the
/// settlement of none, and then only for the removal of the empty source,
/// once it has made sure under a `Skip` default that no file is left. It
/// ends with success whatever the removal answers.
pub proof fn law_second_merge_is_noop(
    source: Seq<Seq<char>>,
    dest: Seq<Seq<char>>,
    policy: PolicyView,
    code: i32,
)
    requires
        source != dest,
    ensures
        ({
            let (m0, a0) = engine_start(source, dest, policy);
            let (m1, a1) = engine_step(m0, MergeEventView::Kind(EntryKind::Dir));
            let (m2, a2) = engine_step(m1, MergeEventView::Kind(EntryKind::Dir));
            let (m3, a3) = engine_step(m2, MergeEventView::Listed(Seq::empty()));
            &&& a0 == MergeActionView::Probe(source)
            &&& a1 == MergeActionView::Probe(dest)
            &&& a2 == MergeActionView::List(source)
            &&& a3 == MergeActionView::Resolve { source, dest, entries: Seq::empty() }
        }),
        ({
            let (m4, a4) = drained_run(source, dest, policy);
            let ok = MergeActionView::Finish(Ok(()));
            if policy.default != ReplaceAction::Skip {
                &&& a4 == MergeActionView::RemoveTree(source)
                &&& engine_step(m4, MergeEventView::Completed).1 == ok
                &&& engine_step(m4, MergeEventView::Failed(code)).1 == ok
            } else {
                let (m5, a5) = engine_step(m4, MergeEventView::HasFiles(false));
                &&& a4 == MergeActionView::HasFiles(source)
                &&& engine_step(m4, MergeEventView::HasFiles(true)).1 == ok
                &&& a5 == MergeActionView::RemoveTree(source)
                &&& engine_step(m5, MergeEventView::Completed).1 == ok
                &&& engine_step(m5, MergeEventView::Failed(code)).1 == ok
            }
        }),
{
    let m0 = engine_start(source, dest, policy).0;
    let m1 = engine_step(m0, MergeEventView::Kind(EntryKind::Dir)).0;
    let m2 = engine_step(m1, MergeEventView::Kind(EntryKind::Dir)).0;
    let a3 = engine_step(m2, MergeEventView::Listed(Seq::empty())).1;
    assert(entries_for(policy, Seq::empty()) =~= Seq::<EntryMoveView>::empty());
    let m3 = engine_step(m2, MergeEventView::Listed(Seq::empty())).0;
    assert(deferred_tasks(m3.current, Seq::empty()) =~= Seq::<TaskView>::empty());
    assert(first_failure(Seq::<ReportView>::empty()) is None);
    assert(m3.queue + Seq::<TaskView>::empty() =~= m3.queue);
}

/// The pair `t` names the same place below `source` and below `dest`.
pub open spec fn mirrors(t: TaskView, source: Seq<Seq<char>>, dest: Seq<Seq<char>>) -> bool {
    &&& under(t.source, source)
    &&& t.dest == dest + t.source.skip(source.len() as int)
}

/// Every pair the state holds names the same place below `source` and below `dest`.
pub open spec fn engine_mirrors(
    m: EngineView,
    source: Seq<Seq<char>>,
    dest: Seq<Seq<char>>,
) -> bool {
    &&& mirrors(m.current, source, dest)
    &&& forall|i: int| 0 <= i < m.queue.len() ==> mirrors(#[trigger] m.queue[i], source, dest)
}

/// An operation of a merge of `source` into `dest` stays in the two trees:
/// it looks at places in them, moves the whole source onto the destination,
/// hands out the entries of a mirrored pair, and lists, searches and removes
/// directories of the source tree only.
pub open spec fn stays_in_trees(
    action: MergeActionView,
    source: Seq<Seq<char>>,
    dest: Seq<Seq<char>>,
) -> bool {
    match action {
        MergeActionView::Probe(p) => under(p, source) || under(p, dest),
        MergeActionView::MoveTree { from, to } => from == source && to == dest,
        MergeActionView::List(p) => under(p, source),
        MergeActionView::Resolve { source: s, dest: d, entries } => mirrors(
            TaskView { source: s, dest: d },
            source,
            dest,
        ),
        MergeActionView::HasFiles(p) => under(p, source),
        MergeActionView::RemoveTree(p) => under(p, source),
        MergeActionView::Finish(_) => true,
    }
}

proof fn lemma_child_mirrors(
    t: TaskView,
    name: Seq<char>,
    source: Seq<Seq<char>>,
    dest: Seq<Seq<char>>,
)
    requires
        mirrors(t, source, dest),
    ensures
        mirrors(child_task(t, name), source, dest),
{
    let c = child_task(t, name);
    assert(c.source.skip(source.len() as int) =~= t.source.skip(source.len() as int).push(name));
    assert(c.dest =~= dest + c.source.skip(source.len() as int));
    assert(source =~= c.source.subrange(0, source.len() as int)) by {
        assert(source =~= t.source.subrange(0, source.len() as int));
    }
}

proof fn lemma_deferred_mirror(
    t: TaskView,
    reports: Seq<ReportView>,
    source: Seq<Seq<char>>,
    dest: Seq<Seq<char>>,
)
    requires
        mirrors(t, source, dest),
    ensures
        forall|i: int|
            0 <= i < deferred_tasks(t, reports).len() ==> mirrors(
                #[trigger] deferred_tasks(t, reports)[i],
                source,
                dest,
            ),
    decreases reports.len(),
{
    if reports.len() > 0 {
        lemma_deferred_mirror(t, reports.drop_last(), source, dest);
        lemma_child_mirrors(t, reports.last().name, source, dest);
        let before = deferred_tasks(t, reports.drop_last());
        let all = deferred_tasks(t, reports);
        assert forall|i: int| 0 <= i < all.len() implies mirrors(
            #[trigger] all[i],
            source,
            dest,
        ) by {
            if i < before.len() {
                assert(all[i] == before[i]);
            } else {
                assert(all[i] == child_task(t, reports.last().name));
            }
        }
    }
}

/// A merge begins inside its two trees.
pub proof fn law_start_stays_in_trees(
    source: Seq<Seq<char>>,
    dest: Seq<Seq<char>>,
    policy: PolicyView,
)
    ensures
        engine_mirrors(engine_start(source, dest, policy).0, source, dest),
        stays_in_trees(engine_start(source, dest, policy).1, source, dest),
{
    assert(source.skip(source.len() as int) =~= Seq::<Seq<char>>::empty());
    assert(dest + Seq::<Seq<char>>::empty() =~= dest);
}

/// A merge never leaves its two trees, whatever it is answered: every
/// operation stays in them, nothing but the whole source is ever moved as a
/// tree, and nothing in the destination tree is ever listed or removed by
/// the engine.
pub proof fn law_step_stays_in_trees(
    m: EngineView,
    e: MergeEventView,
    source: Seq<Seq<char>>,
    dest: Seq<Seq<char>>,
)
    requires
        engine_mirrors(m, source, dest),
        m.phase == MergePhase::WholeMove || m.phase == MergePhase::DestKind || m.phase
            == MergePhase::SourceKind ==> m.current == (TaskView { source, dest }),
    ensures
        engine_mirrors(engine_step(m, e).0, source, dest),
        stays_in_trees(engine_step(m, e).1, source, dest),
        ({
            let next = engine_step(m, e).0;
            next.phase == MergePhase::WholeMove || next.phase == MergePhase::DestKind || next.phase
                == MergePhase::SourceKind ==> next.current == (TaskView { source, dest })
        }),
{
    assert(dest.is_prefix_of(m.current.dest)) by {
        assert(dest =~= m.current.dest.subrange(0, dest.len() as int));
    }
    match e {
        MergeEventView::Resolved(reports) => {
            if m.phase == MergePhase::Children {
                lemma_deferred_mirror(m.current, reports, source, dest);
            }
        },
        _ => {},
    }
}

/// The answer `e` in the state `m` shows the current source directory
/// drained: its entries were settled without a failure under a default other
/// than `Skip`, or it was found to hold no regular file.
pub open spec fn shows_drained(m: EngineView, e: MergeEventView) -> bool {
    match (m.phase, e) {
        (MergePhase::Children, MergeEventView::Resolved(reports)) => first_failure(reports)
            is None && m.policy.default != ReplaceAction::Skip,
        (MergePhase::HasFiles, MergeEventView::HasFiles(false)) => true,
        _ => false,
    }
}

/// Nothing is removed but a drained source directory: the one removal the
/// engine ever asks for is that of the current source directory, and it
/// asks for it only when the last answer shows that directory drained. In
/// particular a directory in which an entry failed is not removed, and under
/// a `Skip` default a directory that still holds a file is not removed.
pub proof fn law_removal_needs_drained_source(m: EngineView, e: MergeEventView)
    ensures
        engine_step(m, e).1 is RemoveTree ==> shows_drained(m, e) && engine_step(m, e).1
            == MergeActionView::RemoveTree(m.current.source),
{
}

/// The policy is the same from the first step of a merge to its last.
pub proof fn law_policy_never_changes(m: EngineView, e: MergeEventView)
    ensures
        engine_step(m, e).0.policy == m.policy,
{
}

/// The result a merge ends with when it ends after `e`: none where it goes on.
pub open spec fn ends_with(m: EngineView, e: MergeEventView) -> Option<Result<(), MergeError>> {
    match engine_step(m, e).1 {
        MergeActionView::Finish(r) => Some(r),
        _ => None,
    }
}

/// A merge ends with the first failure it met, and with success if it met
/// none: a failure once noted is never replaced, and a merge that ends
/// gives what is noted as its result.
pub proof fn law_result_is_first_failure(m: EngineView, e: MergeEventView)
    ensures
        m.failure is Some ==> engine_step(m, e).0.failure == m.failure,
        m.phase != MergePhase::Finished && ends_with(m, e) is Some ==> ends_with(m, e) == Some(
            merge_result(engine_step(m, e).0.failure),
        ),
{
}

/// Under `Skip` a file whose destination name is taken stays where it is:
/// after the looks at source and destination the entry is settled as kept,
/// and no operation has touched either side.
pub proof fn law_skip_keeps_both(name: Seq<char>, taken: EntryKind)
    requires
        taken != EntryKind::Missing,
    ensures
        ({
            let (m0, a0) = entry_start(name, ReplaceAction::Skip);
            let (m1, a1) = entry_step(m0, EntryEvent::Kind(EntryKind::File));
            let (m2, a2) = entry_step(m1, EntryEvent::Kind(taken));
            &&& a0 == EntryActionView::ProbeSource
            &&& a1 == EntryActionView::ProbeDest(name)
            &&& a2 == EntryActionView::Done(EntryOutcome::Kept)
        }),
{
}

/// Under `Rename` a file with an extension whose name is taken by a file
/// with other bytes goes to the first numbered name, where that is free;
/// the file that held the name is only looked at and compared.
pub proof fn law_rename_takes_first_free_number(name: Seq<char>)
    requires
        extension_of(name) is Some,
    ensures
        ({
            let (m0, a0) = entry_start(name, ReplaceAction::Rename);
            let (m1, a1) = entry_step(m0, EntryEvent::Kind(EntryKind::File));
            let (m2, a2) = entry_step(m1, EntryEvent::Kind(EntryKind::File));
            let (m3, a3) = entry_step(m2, EntryEvent::Same(false));
            let (m4, a4) = entry_step(m3, EntryEvent::Kind(EntryKind::Missing));
            let (m5, a5) = entry_step(m4, EntryEvent::Completed);
            &&& a1 == EntryActionView::ProbeDest(name)
            &&& a2 == EntryActionView::Compare(name)
            &&& a3 == EntryActionView::ProbeDest(candidate_name(name, 1))
            &&& a4 == EntryActionView::Move(candidate_name(name, 1))
            &&& a5 == EntryActionView::Done(EntryOutcome::Moved)
        }),
{
    lemma_first_candidate_is_name(name);
}

/// Under `CheckReplace` a file whose name is taken by a file with the same
/// bytes is moved onto that file: no numbered name is looked at or made.
pub proof fn law_check_replace_collapses_equal(name: Seq<char>)
    ensures
        ({
            let (m0, a0) = entry_start(name, ReplaceAction::CheckReplace);
            let (m1, a1) = entry_step(m0, EntryEvent::Kind(EntryKind::File));
            let (m2, a2) = entry_step(m1, EntryEvent::Kind(EntryKind::File));
            let (m3, a3) = entry_step(m2, EntryEvent::Same(true));
            let (m4, a4) = entry_step(m3, EntryEvent::Completed);
            &&& a1 == EntryActionView::ProbeDest(name)
            &&& a2 == EntryActionView::Compare(name)
            &&& a3 == EntryActionView::Move(name)
            &&& a4 == EntryActionView::Done(EntryOutcome::Moved)
        }),
{
}

/// Each entry handed out carries the action the policy gives its own name:
/// an extension with an entry in the policy gets that entry's action, every
/// other extension the default.
pub proof fn law_entries_follow_policy(policy: PolicyView, names: Seq<Seq<char>>, i: int)
    requires
        0 <= i < names.len(),
    ensures
        entries_for(policy, names).len() == names.len(),
        entries_for(policy, names)[i].name == names[i],
        entries_for(policy, names)[i].action == resolve(policy, names[i]),
        entries_for(policy, names)[i].phase == EntryPhase::SourceKind,
{
}

/// The number of answers an entry can still take before it is settled,
/// counted generously: the name search may run through every number.
pub open spec fn entry_budget(phase: EntryPhase) -> nat {
    match phase {
        EntryPhase::SourceKind => 6 + 2 * 0x1_0000_0000_0000_0000,
        EntryPhase::SkipProbe => 2,
        EntryPhase::CheckProbe => 5 + 2 * 0x1_0000_0000_0000_0000,
        EntryPhase::CheckCompare => 4 + 2 * 0x1_0000_0000_0000_0000,
        EntryPhase::DirProbe => 2,
        EntryPhase::Candidate(i) => (3 + 2 * (0x1_0000_0000_0000_0000 - i)) as nat,
        EntryPhase::CandidateCompare(i) => (2 + 2 * (0x1_0000_0000_0000_0000 - i)) as nat,
        EntryPhase::Moving => 1,
        EntryPhase::Removing => 1,
        EntryPhase::Finished => 0,
    }
}

/// Every entry is settled after finitely many answers: each answer to an
/// unsettled entry lowers its budget.
pub proof fn law_entry_terminates(m: EntryMoveView, e: EntryEvent)
    requires
        m.phase != EntryPhase::Finished,
    ensures
        entry_budget(entry_step(m, e).0.phase) < entry_budget(m.phase),
{
}

} // verus!
