//! What a merge keeps.
//!
//! Of the four actions only `Replace` writes over what the destination
//! holds: `Skip` and `Rename` take a file only to a free name, and
//! `CheckReplace` takes it onto a file only where that file holds the same
//! bytes. The theorem of this module follows a merge under a policy without
//! `Replace` on the file system of `model` through every step, whatever the
//! two trees hold, and finds everything the destination held still in its
//! place, byte for byte.

use crate::merge::engine::{
    engine_start, engine_step, entries_for, EngineView, MergeActionView, MergeEventView,
};
use crate::merge::entry::{
    candidate_name, entry_step, EntryActionView, EntryMoveView, EntryPhase,
};
use crate::merge::frame::{lemma_under_is_transitive, merging};
use crate::merge::laws::{law_start_stays_in_trees, law_step_stays_in_trees};
use crate::merge::model::{
    answer, can_hold, enough_steps, entry_answer, kind_at, lemma_prefixes_nest, merge, moved,
    rebased, removed, run, settle, settle_all, tree_wf, Tree,
};
use crate::merge::EntryKind;
use crate::path::under;
use crate::policy::{resolve, PolicyView, ReplaceAction};
use vstd::prelude::*;

verus! {

/// The policy skips every file: its default is `Skip`, and so is every entry.
pub open spec fn skips_all(policy: PolicyView) -> bool {
    &&& policy.default == ReplaceAction::Skip
    &&& forall|k: Seq<char>| policy.ext.contains_key(k) ==> #[trigger] policy.ext[k]
        == ReplaceAction::Skip
}

/// The policy never replaces: neither its default nor any entry is `Replace`.
pub open spec fn never_replaces(policy: PolicyView) -> bool {
    &&& policy.default != ReplaceAction::Replace
    &&& forall|k: Seq<char>| policy.ext.contains_key(k) ==> #[trigger] policy.ext[k]
        != ReplaceAction::Replace
}

/// The operation `action` is the one the machine `m` waits to be answered.
pub open spec fn awaited(m: EntryMoveView, action: EntryActionView) -> bool {
    match m.phase {
        EntryPhase::SourceKind => action == EntryActionView::ProbeSource,
        EntryPhase::SkipProbe => action == EntryActionView::ProbeDest(m.name),
        EntryPhase::CheckProbe => action == EntryActionView::ProbeDest(m.name),
        EntryPhase::DirProbe => action == EntryActionView::ProbeDest(m.name),
        EntryPhase::CheckCompare => action == EntryActionView::Compare(m.name),
        EntryPhase::Candidate(i) => action == EntryActionView::ProbeDest(
            candidate_name(m.name, i as nat),
        ),
        EntryPhase::CandidateCompare(i) => action == EntryActionView::Compare(
            candidate_name(m.name, i as nat),
        ),
        EntryPhase::Moving => action is Move,
        EntryPhase::Removing => action == EntryActionView::RemoveSource,
        EntryPhase::Finished => action is Done,
    }
}

/// The operation `action` on the entry at `source` writes over nothing: if
/// it is a move, the place it goes to is free or holds what the entry holds.
pub open spec fn harmless(
    t: Tree,
    source: Seq<Seq<char>>,
    dest_dir: Seq<Seq<char>>,
    action: EntryActionView,
) -> bool {
    match action {
        EntryActionView::Move(name) => {
            let to = dest_dir.push(name);
            kind_at(t, to) == EntryKind::Missing || (kind_at(t, source) == EntryKind::File
                && kind_at(t, to) == EntryKind::File && t.nodes[to] == t.nodes[source])
        },
        _ => true,
    }
}

/// Everything the tree `root` held in `before` it holds in `after`, unchanged.
pub open spec fn kept_under(before: Tree, after: Tree, root: Seq<Seq<char>>) -> bool {
    forall|p: Seq<Seq<char>>|
        under(p, root) && #[trigger] before.nodes.contains_key(p) ==> after.nodes.contains_key(p)
            && after.nodes[p] == before.nodes[p]
}

/// Nothing lies at or under a missing place that has a name.
pub proof fn lemma_nothing_under_missing(t: Tree, gap: Seq<Seq<char>>, q: Seq<Seq<char>>)
    requires
        tree_wf(t),
        kind_at(t, gap) == EntryKind::Missing,
        gap.len() > 0,
        under(q, gap),
    ensures
        !t.nodes.contains_key(q),
{
    assert(gap =~= q.take(gap.len() as int));
    if q.len() == gap.len() {
        assert(q.take(gap.len() as int) =~= q);
    }
}

/// No place lies under two trees of which neither lies in the other.
pub proof fn lemma_not_under_both(
    p: Seq<Seq<char>>,
    a: Seq<Seq<char>>,
    b: Seq<Seq<char>>,
)
    requires
        !under(a, b),
        !under(b, a),
    ensures
        !(under(p, a) && under(p, b)),
{
    if under(p, a) && under(p, b) {
        lemma_prefixes_nest(p, a, b);
    }
}

/// Moving something onto a missing place that can hold it leaves the file
/// system well-formed.
pub proof fn lemma_moved_keeps_wf(t: Tree, from: Seq<Seq<char>>, to: Seq<Seq<char>>)
    requires
        tree_wf(t),
        t.nodes.contains_key(from),
        can_hold(t, to),
        !under(to, from),
    ensures
        tree_wf(moved(t, from, to)),
{
    let after = moved(t, from, to);
    assert forall|p: Seq<Seq<char>>, k: int|
        after.nodes.contains_key(p) && 0 < k < p.len() implies after.nodes.contains_key(
        #[trigger] p.take(k),
    ) && after.nodes[p.take(k)] is Dir by {
        let q = p.take(k);
        if under(p, to) {
            let origin = rebased(p, to, from);
            if k < to.len() {
                assert(q =~= to.take(k));
                assert(!under(q, to));
                if k == to.len() - 1 {
                    assert(q =~= to.drop_last());
                } else {
                    assert(q =~= to.drop_last().take(k));
                    assert(t.nodes.contains_key(to.drop_last()));
                }
                assert(t.nodes.contains_key(q) && t.nodes[q] is Dir);
                if under(q, from) {
                    assert(under(to, q)) by {
                        assert(q =~= to.subrange(0, q.len() as int));
                    }
                    lemma_under_is_transitive(to, q, from);
                }
            } else {
                assert(under(q, to)) by {
                    assert(to =~= p.subrange(0, to.len() as int));
                    assert(to =~= q.subrange(0, to.len() as int));
                }
                let cut = from.len() + k - to.len();
                assert(rebased(q, to, from) =~= origin.take(cut));
                if cut > 0 {
                    assert(t.nodes.contains_key(origin.take(cut)));
                } else {
                    assert(origin.take(cut) =~= from);
                    assert(from.len() == 0);
                    assert(from =~= Seq::<Seq<char>>::empty());
                    assert(under(to, from));
                }
            }
        } else {
            assert(t.nodes.contains_key(q) && t.nodes[q] is Dir);
            if under(q, to) {
                assert(under(p, q)) by {
                    assert(q =~= p.subrange(0, q.len() as int));
                }
                lemma_under_is_transitive(p, q, to);
            }
            if under(q, from) {
                assert(under(p, q)) by {
                    assert(q =~= p.subrange(0, q.len() as int));
                }
                lemma_under_is_transitive(p, q, from);
            }
        }
    }
}

/// Removing a tree leaves the file system well-formed.
pub proof fn lemma_removed_keeps_wf(t: Tree, gone: Seq<Seq<char>>)
    requires
        tree_wf(t),
    ensures
        tree_wf(removed(t, gone)),
{
    let after = removed(t, gone);
    assert forall|p: Seq<Seq<char>>, k: int|
        after.nodes.contains_key(p) && 0 < k < p.len() implies after.nodes.contains_key(
        #[trigger] p.take(k),
    ) && after.nodes[p.take(k)] is Dir by {
        let q = p.take(k);
        assert(t.nodes.contains_key(q) && t.nodes[q] is Dir);
        if under(q, gone) {
            assert(under(p, q)) by {
                assert(q =~= p.subrange(0, q.len() as int));
            }
            lemma_under_is_transitive(p, q, gone);
        }
    }
}

/// Moving something from the source tree onto a missing place keeps all
/// that the destination tree holds.
pub proof fn lemma_moved_keeps_dest(
    t: Tree,
    from: Seq<Seq<char>>,
    to: Seq<Seq<char>>,
    source: Seq<Seq<char>>,
    dest: Seq<Seq<char>>,
)
    requires
        tree_wf(t),
        kind_at(t, to) == EntryKind::Missing,
        to.len() > 0,
        under(from, source),
        !under(source, dest),
        !under(dest, source),
    ensures
        kept_under(t, moved(t, from, to), dest),
{
    let after = moved(t, from, to);
    assert forall|p: Seq<Seq<char>>|
        under(p, dest) && #[trigger] t.nodes.contains_key(p) implies after.nodes.contains_key(p)
        && after.nodes[p] == t.nodes[p] by {
        if under(p, to) {
            lemma_nothing_under_missing(t, to, p);
        }
        if under(p, from) {
            lemma_under_is_transitive(p, from, source);
            lemma_not_under_both(p, source, dest);
        }
    }
}

/// What is kept twice in a row is kept.
pub proof fn lemma_kept_chains(first: Tree, second: Tree, third: Tree, root: Seq<Seq<char>>)
    requires
        kept_under(first, second, root),
        kept_under(second, third, root),
    ensures
        kept_under(first, third, root),
{
    assert forall|p: Seq<Seq<char>>|
        under(p, root) && #[trigger] first.nodes.contains_key(p) implies third.nodes.contains_key(
        p,
    ) && third.nodes[p] == first.nodes[p] by {
        assert(second.nodes.contains_key(p));
    }
}

/// Moving a file of the source tree onto a file that holds the same bytes
/// keeps all that the destination tree holds.
pub proof fn lemma_moved_onto_equal_keeps_dest(
    t: Tree,
    from: Seq<Seq<char>>,
    to: Seq<Seq<char>>,
    source: Seq<Seq<char>>,
    dest: Seq<Seq<char>>,
)
    requires
        tree_wf(t),
        kind_at(t, from) == EntryKind::File,
        kind_at(t, to) == EntryKind::File,
        t.nodes[to] == t.nodes[from],
        to.len() > 0,
        under(from, source),
        !under(source, dest),
        !under(dest, source),
    ensures
        kept_under(t, moved(t, from, to), dest),
{
    let after = moved(t, from, to);
    assert(rebased(to, to, from) =~= from);
    assert forall|p: Seq<Seq<char>>|
        under(p, dest) && #[trigger] t.nodes.contains_key(p) implies after.nodes.contains_key(p)
        && after.nodes[p] == t.nodes[p] by {
        if under(p, to) && p != to {
            assert(to =~= p.take(to.len() as int));
            if p.len() == to.len() {
                assert(p.take(to.len() as int) =~= p);
            }
        }
        if under(p, from) {
            lemma_under_is_transitive(p, from, source);
            lemma_not_under_both(p, source, dest);
        }
    }
}

/// One step of an entry that does not go by `Replace`, answered by the file
/// system: the machine waits for what it asks next, what it asks next
/// writes over nothing, and the file system is well-formed and keeps all
/// that the destination tree holds.
pub proof fn lemma_entry_step_keeps_dest(
    t: Tree,
    source_dir: Seq<Seq<char>>,
    dest_dir: Seq<Seq<char>>,
    m: EntryMoveView,
    action: EntryActionView,
    source: Seq<Seq<char>>,
    dest: Seq<Seq<char>>,
)
    requires
        tree_wf(t),
        awaited(m, action),
        harmless(t, source_dir.push(m.name), dest_dir, action),
        m.action != ReplaceAction::Replace,
        under(source_dir, source),
        !under(source, dest),
        !under(dest, source),
    ensures
        ({
            let (t2, event) = entry_answer(t, source_dir.push(m.name), dest_dir, action);
            let (m2, next) = entry_step(m, event);
            &&& tree_wf(t2)
            &&& kept_under(t, t2, dest)
            &&& awaited(m2, next)
            &&& harmless(t2, source_dir.push(m.name), dest_dir, next)
            &&& m2.action == m.action
            &&& m2.name == m.name
        }),
{
    let from = source_dir.push(m.name);
    assert(under(from, source)) by {
        assert(under(from, source_dir)) by {
            assert(source_dir =~= from.subrange(0, source_dir.len() as int));
        }
        lemma_under_is_transitive(from, source_dir, source);
    }
    match action {
        EntryActionView::Move(name) => {
            let to = dest_dir.push(name);
            if kind_at(t, from) != EntryKind::Missing && kind_at(t, to) != EntryKind::Dir && !under(
                to,
                from,
            ) && can_hold(t, to) {
                lemma_moved_keeps_wf(t, from, to);
                if kind_at(t, to) == EntryKind::Missing {
                    lemma_moved_keeps_dest(t, from, to, source, dest);
                } else {
                    lemma_moved_onto_equal_keeps_dest(t, from, to, source, dest);
                }
            }
        },
        EntryActionView::RemoveSource => {
            if kind_at(t, from) == EntryKind::File {
                lemma_removed_keeps_wf(t, from);
                assert forall|p: Seq<Seq<char>>|
                    under(p, dest) && #[trigger] t.nodes.contains_key(p) implies removed(
                    t,
                    from,
                ).nodes.contains_key(p) && removed(t, from).nodes[p] == t.nodes[p] by {
                    if under(p, from) {
                        lemma_under_is_transitive(p, from, source);
                        lemma_not_under_both(p, source, dest);
                    }
                }
            }
        },
        _ => {},
    }
}

/// Settling an entry that does not go by `Replace` keeps the file system
/// well-formed and keeps all that the destination tree holds.
proof fn lemma_settle_keeps_dest(
    t: Tree,
    source_dir: Seq<Seq<char>>,
    dest_dir: Seq<Seq<char>>,
    m: EntryMoveView,
    action: EntryActionView,
    steps: nat,
    source: Seq<Seq<char>>,
    dest: Seq<Seq<char>>,
)
    requires
        tree_wf(t),
        awaited(m, action),
        harmless(t, source_dir.push(m.name), dest_dir, action),
        m.action != ReplaceAction::Replace,
        under(source_dir, source),
        !under(source, dest),
        !under(dest, source),
    ensures
        tree_wf(settle(t, source_dir, dest_dir, m, action, steps).0),
        kept_under(t, settle(t, source_dir, dest_dir, m, action, steps).0, dest),
    decreases steps,
{
    match action {
        EntryActionView::Done(_) => {},
        _ => {
            if steps > 0 {
                let (t2, event) = entry_answer(t, source_dir.push(m.name), dest_dir, action);
                let (m2, next) = entry_step(m, event);
                lemma_entry_step_keeps_dest(t, source_dir, dest_dir, m, action, source, dest);
                lemma_settle_keeps_dest(
                    t2,
                    source_dir,
                    dest_dir,
                    m2,
                    next,
                    (steps - 1) as nat,
                    source,
                    dest,
                );
                lemma_kept_chains(
                    t,
                    t2,
                    settle(t2, source_dir, dest_dir, m2, next, (steps - 1) as nat).0,
                    dest,
                );
            }
        },
    }
}

/// Every machine of `entries` is fresh and does not go by `Replace`.
pub open spec fn none_replaces(entries: Seq<EntryMoveView>) -> bool {
    forall|i: int|
        0 <= i < entries.len() ==> (#[trigger] entries[i]).action != ReplaceAction::Replace
            && entries[i].phase == EntryPhase::SourceKind
}

/// Settling entries of which none goes by `Replace` keeps the file system
/// well-formed and keeps all that the destination tree holds.
pub proof fn lemma_entries_keep_dest(
    t: Tree,
    source_dir: Seq<Seq<char>>,
    dest_dir: Seq<Seq<char>>,
    entries: Seq<EntryMoveView>,
    source: Seq<Seq<char>>,
    dest: Seq<Seq<char>>,
)
    requires
        tree_wf(t),
        none_replaces(entries),
        under(source_dir, source),
        !under(source, dest),
        !under(dest, source),
    ensures
        tree_wf(settle_all(t, source_dir, dest_dir, entries).0),
        kept_under(t, settle_all(t, source_dir, dest_dir, entries).0, dest),
    decreases entries.len(),
{
    if entries.len() > 0 {
        let first = entries[0];
        let t1 = settle(
            t,
            source_dir,
            dest_dir,
            first,
            EntryActionView::ProbeSource,
            enough_steps(),
        ).0;
        lemma_settle_keeps_dest(
            t,
            source_dir,
            dest_dir,
            first,
            EntryActionView::ProbeSource,
            enough_steps(),
            source,
            dest,
        );
        assert forall|i: int| 0 <= i < entries.drop_first().len() implies (
        #[trigger] entries.drop_first()[i]).action != ReplaceAction::Replace
            && entries.drop_first()[i].phase == EntryPhase::SourceKind by {
            assert(entries.drop_first()[i] == entries[i + 1]);
        }
        lemma_entries_keep_dest(t1, source_dir, dest_dir, entries.drop_first(), source, dest);
        lemma_kept_chains(
            t,
            t1,
            settle_all(t1, source_dir, dest_dir, entries.drop_first()).0,
            dest,
        );
    }
}

/// The engine `m`, which has asked for `action`, is in the middle of a
/// merge of `source` into `dest` under a policy that never replaces.
pub open spec fn keeping(
    m: EngineView,
    action: MergeActionView,
    source: Seq<Seq<char>>,
    dest: Seq<Seq<char>>,
) -> bool {
    &&& merging(m, action, source, dest)
    &&& never_replaces(m.policy)
    &&& action matches MergeActionView::Resolve { entries, .. } ==> none_replaces(entries)
}

/// A step of a merge that never replaces leaves it one.
pub proof fn lemma_step_stays_keeping(
    m: EngineView,
    action: MergeActionView,
    e: MergeEventView,
    source: Seq<Seq<char>>,
    dest: Seq<Seq<char>>,
)
    requires
        keeping(m, action, source, dest),
    ensures
        keeping(engine_step(m, e).0, engine_step(m, e).1, source, dest),
{
    law_step_stays_in_trees(m, e, source, dest);
    match engine_step(m, e).1 {
        MergeActionView::Resolve { entries, .. } => {
            match e {
                MergeEventView::Listed(names) => {
                    assert(entries == entries_for(m.policy, names));
                    assert forall|i: int| 0 <= i < entries.len() implies (#[trigger] entries[i]).action
                        != ReplaceAction::Replace && entries[i].phase == EntryPhase::SourceKind by {
                        lemma_resolves_without_replace(m.policy, names[i]);
                    }
                },
                _ => {},
            }
        },
        _ => {},
    }
}

/// A policy that never replaces gives `Replace` to no name.
pub proof fn lemma_resolves_without_replace(policy: PolicyView, name: Seq<char>)
    requires
        never_replaces(policy),
    ensures
        resolve(policy, name) != ReplaceAction::Replace,
{
}

/// An operation of a merge that never replaces keeps the file system
/// well-formed and keeps all that the destination tree holds.
pub proof fn lemma_answer_keeps_dest(
    t: Tree,
    m: EngineView,
    action: MergeActionView,
    source: Seq<Seq<char>>,
    dest: Seq<Seq<char>>,
)
    requires
        tree_wf(t),
        keeping(m, action, source, dest),
        !under(source, dest),
        !under(dest, source),
    ensures
        tree_wf(answer(t, action).0),
        kept_under(t, answer(t, action).0, dest),
{
    match action {
        MergeActionView::MoveTree { from, to } => {
            if kind_at(t, from) == EntryKind::Dir && kind_at(t, to) == EntryKind::Missing && !under(
                to,
                from,
            ) && can_hold(t, to) {
                lemma_moved_keeps_wf(t, from, to);
                lemma_moved_keeps_dest(t, from, to, source, dest);
            }
        },
        MergeActionView::Resolve { source: s, dest: d, entries } => {
            lemma_entries_keep_dest(t, s, d, entries, source, dest);
        },
        MergeActionView::RemoveTree(gone) => {
            lemma_removed_keeps_wf(t, gone);
            assert forall|p: Seq<Seq<char>>|
                under(p, dest) && #[trigger] t.nodes.contains_key(p) implies removed(
                t,
                gone,
            ).nodes.contains_key(p) && removed(t, gone).nodes[p] == t.nodes[p] by {
                if under(p, gone) {
                    lemma_under_is_transitive(p, gone, source);
                    lemma_not_under_both(p, source, dest);
                }
            }
        },
        _ => {},
    }
}

/// However long a merge that never replaces runs, it keeps all that the
/// destination tree holds.
proof fn lemma_run_keeps_dest(
    t: Tree,
    m: EngineView,
    action: MergeActionView,
    source: Seq<Seq<char>>,
    dest: Seq<Seq<char>>,
    steps: nat,
)
    requires
        tree_wf(t),
        keeping(m, action, source, dest),
        !under(source, dest),
        !under(dest, source),
    ensures
        kept_under(t, run(t, m, action, steps).0, dest),
    decreases steps,
{
    match action {
        MergeActionView::Finish(_) => {},
        _ => {
            if steps > 0 {
                let (t2, event) = answer(t, action);
                let (m2, next) = engine_step(m, event);
                lemma_answer_keeps_dest(t, m, action, source, dest);
                lemma_step_stays_keeping(m, action, event, source, dest);
                lemma_run_keeps_dest(t2, m2, next, source, dest, (steps - 1) as nat);
                lemma_kept_chains(t, t2, run(t2, m2, next, (steps - 1) as nat).0, dest);
            }
        },
    }
}

/// Only `Replace` overwrites. Under a policy that never replaces, a merge
/// of a source into a destination that does not lie in it, nor it in the
/// destination, changes and removes nothing that the destination holds:
/// whatever the two trees hold, and however many steps the merge is given,
/// every file and directory found at or under the destination before is
/// found there afterwards, byte for byte.
pub proof fn law_only_replace_overwrites(
    t: Tree,
    source: Seq<Seq<char>>,
    dest: Seq<Seq<char>>,
    policy: PolicyView,
    steps: nat,
)
    requires
        tree_wf(t),
        never_replaces(policy),
        !under(source, dest),
        !under(dest, source),
    ensures
        kept_under(t, merge(t, source, dest, policy, steps).0, dest),
{
    let (m, action) = engine_start(source, dest, policy);
    law_start_stays_in_trees(source, dest, policy);
    lemma_run_keeps_dest(t, m, action, source, dest, steps);
}

/// Skip preserves the destination: what `law_only_replace_overwrites` says
/// of every policy without `Replace` holds of a policy that skips every file.
pub proof fn law_skip_preserves_destination(
    t: Tree,
    source: Seq<Seq<char>>,
    dest: Seq<Seq<char>>,
    policy: PolicyView,
    steps: nat,
)
    requires
        tree_wf(t),
        skips_all(policy),
        !under(source, dest),
        !under(dest, source),
    ensures
        kept_under(t, merge(t, source, dest, policy, steps).0, dest),
{
    law_only_replace_overwrites(t, source, dest, policy, steps);
}

} // verus!
