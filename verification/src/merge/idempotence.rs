//! Merging twice.
//!
//! A merge that has ended with success under a default other than `Skip`
//! has left no directory at the source: it has moved the source away or
//! removed it. Merging again then finds no source and does nothing. The
//! theorems of this module follow both merges on the file system of
//! `model`, whatever the two trees hold.

use crate::merge::engine::{
    engine_start, engine_step, first_failure, EngineView, MergeActionView, MergeEventView,
};
use crate::merge::entry::{entry_step, EntryActionView, EntryMoveView};
use crate::merge::frame::{lemma_under_is_transitive, merging};
use crate::merge::keeping::lemma_not_under_both;
use crate::merge::laws::{law_start_stays_in_trees, law_step_stays_in_trees};
use crate::merge::model::{
    answer, entry_answer, enough_steps, kind_at, law_merge_from_nothing, listing, merge, moved,
    removed, run, settle, settle_all, Tree,
};
use crate::merge::{EntryKind, MergeError};
use crate::path::under;
use crate::policy::{PolicyView, ReplaceAction};
use vstd::prelude::*;

verus! {

/// Nothing lies at or under `place`.
pub open spec fn gone(t: Tree, place: Seq<Seq<char>>) -> bool {
    forall|p: Seq<Seq<char>>| under(p, place) ==> !#[trigger] t.nodes.contains_key(p)
}

/// A move to a place outside a tree that is gone leaves the tree gone.
proof fn lemma_moved_keeps_gone(
    t: Tree,
    from: Seq<Seq<char>>,
    to: Seq<Seq<char>>,
    place: Seq<Seq<char>>,
    other: Seq<Seq<char>>,
)
    requires
        gone(t, place),
        under(to, other),
        !under(place, other),
        !under(other, place),
    ensures
        gone(moved(t, from, to), place),
{
    assert forall|p: Seq<Seq<char>>| under(p, place) implies !#[trigger] moved(
        t,
        from,
        to,
    ).nodes.contains_key(p) by {
        if under(p, to) {
            lemma_under_is_transitive(p, to, other);
            lemma_not_under_both(p, place, other);
        }
    }
}

/// Settling an entry of a pair whose destination lies outside a tree that
/// is gone leaves the tree gone.
proof fn lemma_settle_keeps_gone(
    t: Tree,
    s: Seq<Seq<char>>,
    d: Seq<Seq<char>>,
    m: EntryMoveView,
    action: EntryActionView,
    steps: nat,
    place: Seq<Seq<char>>,
    other: Seq<Seq<char>>,
)
    requires
        gone(t, place),
        under(d, other),
        !under(place, other),
        !under(other, place),
    ensures
        gone(settle(t, s, d, m, action, steps).0, place),
    decreases steps,
{
    match action {
        EntryActionView::Done(_) => {},
        _ => {
            if steps > 0 {
                let (t2, event) = entry_answer(t, s.push(m.name), d, action);
                let (m2, next) = entry_step(m, event);
                match action {
                    EntryActionView::Move(name) => {
                        let to = d.push(name);
                        assert(under(to, other)) by {
                            assert(under(to, d)) by {
                                assert(d =~= to.subrange(0, d.len() as int));
                            }
                            lemma_under_is_transitive(to, d, other);
                        }
                        lemma_moved_keeps_gone(t, s.push(m.name), to, place, other);
                    },
                    _ => {},
                }
                lemma_settle_keeps_gone(t2, s, d, m2, next, (steps - 1) as nat, place, other);
            }
        },
    }
}

/// Settling the entries of a pair whose destination lies outside a tree
/// that is gone leaves the tree gone.
proof fn lemma_settle_all_keeps_gone(
    t: Tree,
    s: Seq<Seq<char>>,
    d: Seq<Seq<char>>,
    entries: Seq<EntryMoveView>,
    place: Seq<Seq<char>>,
    other: Seq<Seq<char>>,
)
    requires
        gone(t, place),
        under(d, other),
        !under(place, other),
        !under(other, place),
    ensures
        gone(settle_all(t, s, d, entries).0, place),
    decreases entries.len(),
{
    if entries.len() > 0 {
        let t1 = settle(t, s, d, entries[0], EntryActionView::ProbeSource, enough_steps()).0;
        lemma_settle_keeps_gone(
            t,
            s,
            d,
            entries[0],
            EntryActionView::ProbeSource,
            enough_steps(),
            place,
            other,
        );
        lemma_settle_all_keeps_gone(t1, s, d, entries.drop_first(), place, other);
    }
}

/// However long a merge goes on after its source is gone, the source stays gone.
proof fn lemma_run_keeps_gone(
    t: Tree,
    m: EngineView,
    action: MergeActionView,
    source: Seq<Seq<char>>,
    dest: Seq<Seq<char>>,
    steps: nat,
)
    requires
        gone(t, source),
        merging(m, action, source, dest),
        !under(source, dest),
        !under(dest, source),
    ensures
        gone(run(t, m, action, steps).0, source),
    decreases steps,
{
    match action {
        MergeActionView::Finish(_) => {},
        _ => {
            if steps > 0 {
                let (t2, event) = answer(t, action);
                let (m2, next) = engine_step(m, event);
                match action {
                    MergeActionView::MoveTree { from, to } => {
                        lemma_moved_keeps_gone(t, from, to, source, dest);
                    },
                    MergeActionView::Resolve { source: s, dest: d, entries } => {
                        assert(under(d, dest)) by {
                            assert(dest =~= d.subrange(0, dest.len() as int));
                        }
                        lemma_settle_all_keeps_gone(t, s, d, entries, source, dest);
                    },
                    _ => {},
                }
                law_step_stays_in_trees(m, event, source, dest);
                lemma_run_keeps_gone(t2, m2, next, source, dest, (steps - 1) as nat);
            }
        },
    }
}

/// The engine `m`, which has asked for `action`, has noted a failure, and
/// if it has ended, it has ended with one.
pub open spec fn failed(m: EngineView, action: MergeActionView) -> bool {
    &&& m.failure is Some
    &&& action matches MergeActionView::Finish(result) ==> result is Err
}

/// A merge that has noted a failure does not end with success.
pub proof fn lemma_failed_run_fails(t: Tree, m: EngineView, action: MergeActionView, steps: nat)
    requires
        failed(m, action),
    ensures
        run(t, m, action, steps).1 != Some(Ok::<(), MergeError>(())),
    decreases steps,
{
    match action {
        MergeActionView::Finish(_) => {},
        _ => {
            if steps > 0 {
                let (t2, event) = answer(t, action);
                let (m2, next) = engine_step(m, event);
                lemma_failed_run_fails(t2, m2, next, (steps - 1) as nat);
            }
        },
    }
}

/// A successful merge leaves no directory at the source. Under a policy
/// whose default is not `Skip`, a merge of a source into a destination that
/// does not lie in it, nor it in the destination, that ends with success
/// has moved the source away or removed it, whatever the two trees held.
pub proof fn law_merged_source_is_gone(
    t: Tree,
    source: Seq<Seq<char>>,
    dest: Seq<Seq<char>>,
    policy: PolicyView,
    steps: nat,
)
    requires
        policy.default != ReplaceAction::Skip,
        !under(source, dest),
        !under(dest, source),
        merge(t, source, dest, policy, steps).1 == Some(Ok::<(), MergeError>(())),
    ensures
        kind_at(merge(t, source, dest, policy, steps).0, source) != EntryKind::Dir,
{
    reveal_with_fuel(run, 6);
    let (m0, a0) = engine_start(source, dest, policy);
    law_start_stays_in_trees(source, dest, policy);
    assert(under(source, source));
    if kind_at(t, source) == EntryKind::Dir && steps >= 5 {
        let (m1, a1) = engine_step(m0, MergeEventView::Kind(EntryKind::Dir));
        law_step_stays_in_trees(m0, MergeEventView::Kind(EntryKind::Dir), source, dest);
        let e1 = answer(t, a1).1;
        let (m2, a2) = engine_step(m1, e1);
        law_step_stays_in_trees(m1, e1, source, dest);
        if kind_at(t, dest) == EntryKind::Missing {
            let (t3, e2) = answer(t, a2);
            if e2 == MergeEventView::Completed {
                assert(gone(t3, source)) by {
                    assert forall|p: Seq<Seq<char>>| under(p, source) implies !#[trigger] t3.nodes.contains_key(
                        p,
                    ) by {
                        lemma_not_under_both(p, source, dest);
                    }
                }
            }
        } else if kind_at(t, dest) == EntryKind::Dir {
            let e2 = answer(t, a2).1;
            let (m3, a3) = engine_step(m2, e2);
            law_step_stays_in_trees(m2, e2, source, dest);
            let (t4, e3) = answer(t, a3);
            let (m4, a4) = engine_step(m3, e3);
            law_step_stays_in_trees(m3, e3, source, dest);
            let reports = settle_all(
                t,
                source,
                dest,
                crate::merge::engine::entries_for(policy, listing(t, source)),
            ).1;
            assert(e3 == MergeEventView::Resolved(reports));
            if first_failure(reports) is Some {
                assert(failed(m4, a4));
                lemma_failed_run_fails(t4, m4, a4, (steps - 4) as nat);
            } else {
                assert(a4 == MergeActionView::RemoveTree(source));
                let (t5, e4) = answer(t4, a4);
                let (m5, a5) = engine_step(m4, e4);
                law_step_stays_in_trees(m4, e4, source, dest);
                assert(gone(t5, source));
                lemma_run_keeps_gone(t5, m5, a5, source, dest, (steps - 5) as nat);
            }
        }
    }
}

/// Idempotence. After a merge that has ended with success under a policy
/// whose default is not `Skip`, merging again does nothing at all: the
/// second merge ends with success and leaves the file system as the first
/// left it.
pub proof fn law_merging_again_does_nothing(
    t: Tree,
    source: Seq<Seq<char>>,
    dest: Seq<Seq<char>>,
    policy: PolicyView,
    steps: nat,
    more: nat,
)
    requires
        policy.default != ReplaceAction::Skip,
        !under(source, dest),
        !under(dest, source),
        merge(t, source, dest, policy, steps).1 == Some(Ok::<(), MergeError>(())),
        more >= 1,
    ensures
        merge(merge(t, source, dest, policy, steps).0, source, dest, policy, more) == (
            merge(t, source, dest, policy, steps).0,
            Some(Ok::<(), MergeError>(())),
        ),
{
    law_merged_source_is_gone(t, source, dest, policy, steps);
    law_merge_from_nothing(merge(t, source, dest, policy, steps).0, source, dest, policy, more);
}

} // verus!
