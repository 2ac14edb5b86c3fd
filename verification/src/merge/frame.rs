//! What a merge leaves alone.
//!
//! A merge of one directory into another works in these two trees and
//! nowhere else, and it moves and removes but never writes. The theorems of
//! this module follow a merge on the file system of `model` through every
//! step, whatever the trees hold and however long the merge runs. They find
//! everything outside the two trees as it was, and nothing anywhere that
//! was not there before.

use crate::merge::engine::{
    engine_start, engine_step, EngineView, MergeActionView, MergePhase, TaskView,
};
use crate::merge::entry::{entry_step, EntryActionView, EntryMoveView};
use crate::merge::laws::{
    engine_mirrors, law_start_stays_in_trees, law_step_stays_in_trees, stays_in_trees,
};
use crate::merge::model::{
    answer, entry_answer, enough_steps, holds_somewhere, merge, moved, removed, run, settle,
    settle_all, Tree,
};
use crate::path::under;
use crate::policy::PolicyView;
use vstd::prelude::*;

verus! {

/// The place `p` holds in `after` what it held in `before`.
pub open spec fn same_at(before: Tree, after: Tree, p: Seq<Seq<char>>) -> bool {
    &&& after.nodes.contains_key(p) == before.nodes.contains_key(p)
    &&& before.nodes.contains_key(p) ==> after.nodes[p] == before.nodes[p]
}

/// Every place outside the trees `a` and `b` holds in `after` what it held in `before`.
pub open spec fn same_outside(
    before: Tree,
    after: Tree,
    a: Seq<Seq<char>>,
    b: Seq<Seq<char>>,
) -> bool {
    forall|p: Seq<Seq<char>>| !under(p, a) && !under(p, b) ==> #[trigger] same_at(before, after, p)
}

/// What lies under a place lies under every place the place lies under.
pub proof fn lemma_under_is_transitive(p: Seq<Seq<char>>, q: Seq<Seq<char>>, r: Seq<Seq<char>>)
    requires
        under(p, q),
        under(q, r),
    ensures
        under(p, r),
{
    assert(r =~= p.subrange(0, r.len() as int)) by {
        assert(q =~= p.subrange(0, q.len() as int));
        assert(r =~= q.subrange(0, r.len() as int));
    }
}

/// Trees that are left alone stay left alone when the trees worked in grow wider.
proof fn lemma_same_outside_widens(
    before: Tree,
    after: Tree,
    a: Seq<Seq<char>>,
    b: Seq<Seq<char>>,
    wide_a: Seq<Seq<char>>,
    wide_b: Seq<Seq<char>>,
)
    requires
        same_outside(before, after, a, b),
        under(a, wide_a),
        under(b, wide_b),
    ensures
        same_outside(before, after, wide_a, wide_b),
{
    assert forall|p: Seq<Seq<char>>| !under(p, wide_a) && !under(p, wide_b) implies #[trigger] same_at(
        before,
        after,
        p,
    ) by {
        if under(p, a) {
            lemma_under_is_transitive(p, a, wide_a);
        }
        if under(p, b) {
            lemma_under_is_transitive(p, b, wide_b);
        }
    }
}

/// What is left alone twice in a row is left alone.
proof fn lemma_same_outside_chains(
    first: Tree,
    second: Tree,
    third: Tree,
    a: Seq<Seq<char>>,
    b: Seq<Seq<char>>,
)
    requires
        same_outside(first, second, a, b),
        same_outside(second, third, a, b),
    ensures
        same_outside(first, third, a, b),
{
    assert forall|p: Seq<Seq<char>>| !under(p, a) && !under(p, b) implies #[trigger] same_at(
        first,
        third,
        p,
    ) by {
        assert(same_at(first, second, p));
        assert(same_at(second, third, p));
    }
}

/// An operation on an entry leaves alone what lies outside the entry's two directories.
proof fn lemma_entry_answer_frame(
    t: Tree,
    source_dir: Seq<Seq<char>>,
    dest_dir: Seq<Seq<char>>,
    name: Seq<char>,
    action: EntryActionView,
)
    ensures
        same_outside(
            t,
            entry_answer(t, source_dir.push(name), dest_dir, action).0,
            source_dir,
            dest_dir,
        ),
{
    let source = source_dir.push(name);
    let after = entry_answer(t, source, dest_dir, action).0;
    assert forall|p: Seq<Seq<char>>| !under(p, source_dir) && !under(p, dest_dir) implies #[trigger] same_at(
        t,
        after,
        p,
    ) by {
        assert(under(source, source_dir)) by {
            assert(source_dir =~= source.subrange(0, source_dir.len() as int));
        }
        if under(p, source) {
            lemma_under_is_transitive(p, source, source_dir);
        }
        match action {
            EntryActionView::Move(target) => {
                let to = dest_dir.push(target);
                assert(under(to, dest_dir)) by {
                    assert(dest_dir =~= to.subrange(0, dest_dir.len() as int));
                }
                if under(p, to) {
                    lemma_under_is_transitive(p, to, dest_dir);
                }
            },
            _ => {},
        }
    }
}

/// Settling an entry leaves alone what lies outside the entry's two directories.
proof fn lemma_settle_frame(
    t: Tree,
    source_dir: Seq<Seq<char>>,
    dest_dir: Seq<Seq<char>>,
    m: EntryMoveView,
    action: EntryActionView,
    steps: nat,
)
    ensures
        same_outside(
            t,
            settle(t, source_dir, dest_dir, m, action, steps).0,
            source_dir,
            dest_dir,
        ),
    decreases steps,
{
    match action {
        EntryActionView::Done(_) => {},
        _ => {
            if steps > 0 {
                let (t2, event) = entry_answer(t, source_dir.push(m.name), dest_dir, action);
                let (m2, next) = entry_step(m, event);
                lemma_entry_answer_frame(t, source_dir, dest_dir, m.name, action);
                lemma_settle_frame(t2, source_dir, dest_dir, m2, next, (steps - 1) as nat);
                lemma_same_outside_chains(
                    t,
                    t2,
                    settle(t2, source_dir, dest_dir, m2, next, (steps - 1) as nat).0,
                    source_dir,
                    dest_dir,
                );
            }
        },
    }
}

/// Settling the entries of a directory leaves alone what lies outside the
/// directory and its counterpart.
proof fn lemma_settle_all_frame(
    t: Tree,
    source_dir: Seq<Seq<char>>,
    dest_dir: Seq<Seq<char>>,
    entries: Seq<EntryMoveView>,
)
    ensures
        same_outside(t, settle_all(t, source_dir, dest_dir, entries).0, source_dir, dest_dir),
    decreases entries.len(),
{
    if entries.len() > 0 {
        let first = entries[0];
        let t1 = settle(
            t,
            source_dir,
            dest_dir,
            first,
            EntryActionView::ProbeSource,
            enough_steps(),
        ).0;
        lemma_settle_frame(
            t,
            source_dir,
            dest_dir,
            first,
            EntryActionView::ProbeSource,
            enough_steps(),
        );
        lemma_settle_all_frame(t1, source_dir, dest_dir, entries.drop_first());
        lemma_same_outside_chains(
            t,
            t1,
            settle_all(t1, source_dir, dest_dir, entries.drop_first()).0,
            source_dir,
            dest_dir,
        );
    }
}

/// An operation of the engine that stays in the two trees of a merge leaves
/// alone what lies outside them.
proof fn lemma_answer_frame(
    t: Tree,
    action: MergeActionView,
    source: Seq<Seq<char>>,
    dest: Seq<Seq<char>>,
)
    requires
        stays_in_trees(action, source, dest),
    ensures
        same_outside(t, answer(t, action).0, source, dest),
{
    let after = answer(t, action).0;
    match action {
        MergeActionView::Resolve { source: s, dest: d, entries } => {
            lemma_settle_all_frame(t, s, d, entries);
            assert(under(d, dest)) by {
                assert(dest =~= d.subrange(0, dest.len() as int));
            }
            lemma_same_outside_widens(t, after, s, d, source, dest);
        },
        MergeActionView::RemoveTree(r) => {
            assert forall|p: Seq<Seq<char>>| !under(p, source) && !under(p, dest) implies #[trigger] same_at(
                t,
                after,
                p,
            ) by {
                if under(p, r) {
                    lemma_under_is_transitive(p, r, source);
                }
            }
        },
        _ => {},
    }
}

/// The engine `m`, which has asked for `action`, is in the middle of a
/// merge of `source` into `dest`: all its pairs mirror each other below the
/// two, what it asks for stays in the two trees, and before the first
/// listing the pair it holds is the two themselves.
pub open spec fn merging(
    m: EngineView,
    action: MergeActionView,
    source: Seq<Seq<char>>,
    dest: Seq<Seq<char>>,
) -> bool {
    &&& engine_mirrors(m, source, dest)
    &&& stays_in_trees(action, source, dest)
    &&& m.phase == MergePhase::WholeMove || m.phase == MergePhase::DestKind || m.phase
        == MergePhase::SourceKind ==> m.current == (TaskView { source, dest })
}

/// However long the engine runs, what lies outside the two trees stays as it is.
proof fn lemma_run_frame(
    t: Tree,
    m: EngineView,
    action: MergeActionView,
    source: Seq<Seq<char>>,
    dest: Seq<Seq<char>>,
    steps: nat,
)
    requires
        merging(m, action, source, dest),
    ensures
        same_outside(t, run(t, m, action, steps).0, source, dest),
    decreases steps,
{
    match action {
        MergeActionView::Finish(_) => {},
        _ => {
            if steps > 0 {
                let (t2, event) = answer(t, action);
                let (m2, next) = engine_step(m, event);
                lemma_answer_frame(t, action, source, dest);
                law_step_stays_in_trees(m, event, source, dest);
                lemma_run_frame(t2, m2, next, source, dest, (steps - 1) as nat);
                lemma_same_outside_chains(
                    t,
                    t2,
                    run(t2, m2, next, (steps - 1) as nat).0,
                    source,
                    dest,
                );
            }
        },
    }
}

/// A merge works in its two trees and nowhere else: whatever the file
/// system holds, whatever the policy, and however many steps the merge is
/// given, every place that lies neither at or under the source nor at or
/// under the destination holds afterwards what it held before.
pub proof fn law_merge_stays_in_its_trees(
    t: Tree,
    source: Seq<Seq<char>>,
    dest: Seq<Seq<char>>,
    policy: PolicyView,
    steps: nat,
)
    ensures
        same_outside(t, merge(t, source, dest, policy, steps).0, source, dest),
{
    let (m, action) = engine_start(source, dest, policy);
    law_start_stays_in_trees(source, dest, policy);
    lemma_run_frame(t, m, action, source, dest, steps);
}

/// Whatever `after` holds anywhere, `before` held somewhere.
pub open spec fn taken_from(before: Tree, after: Tree) -> bool {
    forall|p: Seq<Seq<char>>|
        after.nodes.contains_key(p) ==> #[trigger] holds_somewhere(before, after.nodes[p])
}

/// What is taken from what was taken is taken.
proof fn lemma_taken_from_chains(first: Tree, second: Tree, third: Tree)
    requires
        taken_from(first, second),
        taken_from(second, third),
    ensures
        taken_from(first, third),
{
    assert forall|p: Seq<Seq<char>>| third.nodes.contains_key(p) implies #[trigger] holds_somewhere(
        first,
        third.nodes[p],
    ) by {
        assert(holds_somewhere(second, third.nodes[p]));
        let mid = choose|q: Seq<Seq<char>>| #[trigger]
            second.nodes.contains_key(q) && second.nodes[q] == third.nodes[p];
        assert(holds_somewhere(first, second.nodes[mid]));
    }
}

/// A move makes up nothing.
proof fn lemma_moved_takes(t: Tree, from: Seq<Seq<char>>, to: Seq<Seq<char>>)
    ensures
        taken_from(t, moved(t, from, to)),
{
    let after = moved(t, from, to);
    assert forall|p: Seq<Seq<char>>| after.nodes.contains_key(p) implies #[trigger] holds_somewhere(
        t,
        after.nodes[p],
    ) by {
        if under(p, to) {
            assert(t.nodes.contains_key(crate::merge::model::rebased(p, to, from)));
        } else {
            assert(t.nodes.contains_key(p));
        }
    }
}

/// A removal makes up nothing.
proof fn lemma_removed_takes(t: Tree, gone: Seq<Seq<char>>)
    ensures
        taken_from(t, removed(t, gone)),
{
    let after = removed(t, gone);
    assert forall|p: Seq<Seq<char>>| after.nodes.contains_key(p) implies #[trigger] holds_somewhere(
        t,
        after.nodes[p],
    ) by {
        assert(t.nodes.contains_key(p));
    }
}

/// A file system is taken from itself.
proof fn lemma_taken_from_itself(t: Tree)
    ensures
        taken_from(t, t),
{
    assert forall|p: Seq<Seq<char>>| t.nodes.contains_key(p) implies #[trigger] holds_somewhere(
        t,
        t.nodes[p],
    ) by {
        assert(t.nodes.contains_key(p));
    }
}

/// Settling an entry makes up nothing.
proof fn lemma_settle_takes(
    t: Tree,
    source_dir: Seq<Seq<char>>,
    dest_dir: Seq<Seq<char>>,
    m: EntryMoveView,
    action: EntryActionView,
    steps: nat,
)
    ensures
        taken_from(t, settle(t, source_dir, dest_dir, m, action, steps).0),
    decreases steps,
{
    lemma_taken_from_itself(t);
    match action {
        EntryActionView::Done(_) => {},
        _ => {
            if steps > 0 {
                let source = source_dir.push(m.name);
                let (t2, event) = entry_answer(t, source, dest_dir, action);
                let (m2, next) = entry_step(m, event);
                match action {
                    EntryActionView::Move(name) => {
                        lemma_moved_takes(t, source, dest_dir.push(name));
                    },
                    EntryActionView::RemoveSource => {
                        lemma_removed_takes(t, source);
                    },
                    _ => {},
                }
                lemma_settle_takes(t2, source_dir, dest_dir, m2, next, (steps - 1) as nat);
                lemma_taken_from_chains(
                    t,
                    t2,
                    settle(t2, source_dir, dest_dir, m2, next, (steps - 1) as nat).0,
                );
            }
        },
    }
}

/// Settling the entries of a directory makes up nothing.
proof fn lemma_settle_all_takes(
    t: Tree,
    source_dir: Seq<Seq<char>>,
    dest_dir: Seq<Seq<char>>,
    entries: Seq<EntryMoveView>,
)
    ensures
        taken_from(t, settle_all(t, source_dir, dest_dir, entries).0),
    decreases entries.len(),
{
    lemma_taken_from_itself(t);
    if entries.len() > 0 {
        let t1 = settle(
            t,
            source_dir,
            dest_dir,
            entries[0],
            EntryActionView::ProbeSource,
            enough_steps(),
        ).0;
        lemma_settle_takes(
            t,
            source_dir,
            dest_dir,
            entries[0],
            EntryActionView::ProbeSource,
            enough_steps(),
        );
        lemma_settle_all_takes(t1, source_dir, dest_dir, entries.drop_first());
        lemma_taken_from_chains(
            t,
            t1,
            settle_all(t1, source_dir, dest_dir, entries.drop_first()).0,
        );
    }
}

/// However long the engine runs, it makes up nothing.
proof fn lemma_run_takes(t: Tree, m: EngineView, action: MergeActionView, steps: nat)
    ensures
        taken_from(t, run(t, m, action, steps).0),
    decreases steps,
{
    lemma_taken_from_itself(t);
    match action {
        MergeActionView::Finish(_) => {},
        _ => {
            if steps > 0 {
                let (t2, event) = answer(t, action);
                let (m2, next) = engine_step(m, event);
                match action {
                    MergeActionView::MoveTree { from, to } => {
                        lemma_moved_takes(t, from, to);
                    },
                    MergeActionView::Resolve { source, dest, entries } => {
                        lemma_settle_all_takes(t, source, dest, entries);
                    },
                    MergeActionView::RemoveTree(gone) => {
                        lemma_removed_takes(t, gone);
                    },
                    _ => {},
                }
                lemma_run_takes(t2, m2, next, (steps - 1) as nat);
                lemma_taken_from_chains(t, t2, run(t2, m2, next, (steps - 1) as nat).0);
            }
        },
    }
}

/// A merge makes up nothing: whatever the file system holds, whatever the
/// policy, and however many steps the merge is given, every file found
/// anywhere afterwards was found somewhere before, with the same bytes, and
/// every directory found afterwards was a directory somewhere before. A
/// merge moves and removes; it never writes.
pub proof fn law_merge_makes_up_nothing(
    t: Tree,
    source: Seq<Seq<char>>,
    dest: Seq<Seq<char>>,
    policy: PolicyView,
    steps: nat,
)
    ensures
        taken_from(t, merge(t, source, dest, policy, steps).0),
{
    let (m, action) = engine_start(source, dest, policy);
    lemma_run_takes(t, m, action, steps);
}

} // verus!
