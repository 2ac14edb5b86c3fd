//! How a merge comes to rest.
//!
//! A merge that has ended with success has left the two trees at rest.
//! Under a default other than `Skip` the source is gone. Under a `Skip`
//! default every entry of every directory the merge went through was moved
//! away, removed as redundant, kept because the policy skips it and its
//! place is taken, or handed on as a pair of directories to a later turn.
//! The theorems of this module follow a merge on the file system of
//! `model`, in which every directory has finitely many entries.

use crate::merge::collisions::lemma_nothing_under_leaf;
use crate::merge::engine::{
    child_task, deferred_tasks, engine_next, engine_start, engine_step, entries_for,
    first_failure, EngineView, MergeActionView, MergeEventView, MergePhase, ReportView, TaskView,
};
use crate::merge::entry::{
    entry_start, entry_step, EntryActionView, EntryMoveView, EntryOutcome, EntryPhase,
};
use crate::merge::frame::{lemma_under_is_transitive, merging};
use crate::merge::idempotence::{
    failed, gone, law_merged_source_is_gone, lemma_failed_run_fails,
};
use crate::merge::keeping::{
    awaited, lemma_moved_keeps_wf, lemma_not_under_both, lemma_removed_keeps_wf,
};
use crate::merge::laws::{law_start_stays_in_trees, law_step_stays_in_trees, mirrors};
use crate::merge::lossless::mirror;
use crate::merge::model::{
    answer, can_hold, entry_answer, enough_steps, is_listing, kind_at, listing, merge, moved,
    rebased, removed, run, settle, settle_all, tree_wf, Tree,
};
use crate::merge::rest::{
    all_rest, asks, at_rest, finite_tree, law_merge_at_rest_moves_nothing,
    lemma_finite_tree_lists, lemma_removed_stays_finite, none_failed, only_dirs_gone, rests,
};
use crate::merge::{EntryKind, MergeError};
use crate::path::under;
use crate::policy::{resolve, PolicyView, ReplaceAction};
use vstd::prelude::*;
use vstd::set_lib::lemma_set_subset_finite;

verus! {

/// The file system is well-formed and finite.
pub open spec fn sound(t: Tree) -> bool {
    tree_wf(t) && finite_tree(t)
}

/// Moving a tree leaves the file system finite.
proof fn lemma_moved_stays_finite(t: Tree, from: Seq<Seq<char>>, to: Seq<Seq<char>>)
    requires
        finite_tree(t),
    ensures
        finite_tree(moved(t, from, to)),
{
    let held = t.nodes.dom();
    let shifted = held.map(|q: Seq<Seq<char>>| rebased(q, from, to));
    held.lemma_map_finite(|q: Seq<Seq<char>>| rebased(q, from, to));
    let after = moved(t, from, to).nodes.dom();
    assert forall|p: Seq<Seq<char>>| after.contains(p) implies held.union(shifted).contains(p) by {
        if under(p, to) {
            let q = rebased(p, to, from);
            assert(held.contains(q));
            assert(rebased(q, from, to) =~= p);
        }
    }
    assert(held.union(shifted).finite());
    lemma_set_subset_finite(held.union(shifted), after);
}

/// Whatever is asked for an entry, the file system stays sound.
proof fn lemma_entry_answer_stays_sound(
    t: Tree,
    source: Seq<Seq<char>>,
    dest_dir: Seq<Seq<char>>,
    action: EntryActionView,
)
    requires
        sound(t),
    ensures
        sound(entry_answer(t, source, dest_dir, action).0),
{
    match action {
        EntryActionView::Move(name) => {
            let to = dest_dir.push(name);
            if !(kind_at(t, source) == EntryKind::Missing || kind_at(t, to) == EntryKind::Dir
                || under(to, source) || !can_hold(t, to)) {
                lemma_moved_keeps_wf(t, source, to);
                lemma_moved_stays_finite(t, source, to);
            }
        },
        EntryActionView::RemoveSource => {
            lemma_removed_keeps_wf(t, source);
            lemma_removed_stays_finite(t, source);
        },
        _ => {},
    }
}

/// Settling an entry leaves the file system sound.
proof fn lemma_settle_stays_sound(
    t: Tree,
    s: Seq<Seq<char>>,
    d: Seq<Seq<char>>,
    m: EntryMoveView,
    action: EntryActionView,
    steps: nat,
)
    requires
        sound(t),
    ensures
        sound(settle(t, s, d, m, action, steps).0),
    decreases steps,
{
    match action {
        EntryActionView::Done(_) => {},
        _ => {
            if steps > 0 {
                let (t2, event) = entry_answer(t, s.push(m.name), d, action);
                let (m2, next) = entry_step(m, event);
                lemma_entry_answer_stays_sound(t, s.push(m.name), d, action);
                lemma_settle_stays_sound(t2, s, d, m2, next, (steps - 1) as nat);
            }
        },
    }
}

/// Settling entries leaves the file system sound.
proof fn lemma_settle_all_stays_sound(
    t: Tree,
    s: Seq<Seq<char>>,
    d: Seq<Seq<char>>,
    entries: Seq<EntryMoveView>,
)
    requires
        sound(t),
    ensures
        sound(settle_all(t, s, d, entries).0),
    decreases entries.len(),
{
    if entries.len() > 0 {
        let t1 = settle(t, s, d, entries[0], EntryActionView::ProbeSource, enough_steps()).0;
        lemma_settle_stays_sound(t, s, d, entries[0], EntryActionView::ProbeSource, enough_steps());
        lemma_settle_all_stays_sound(t1, s, d, entries.drop_first());
    }
}

/// Whatever the engine asks for, the file system stays sound.
proof fn lemma_answer_stays_sound(t: Tree, action: MergeActionView)
    requires
        sound(t),
    ensures
        sound(answer(t, action).0),
{
    match action {
        MergeActionView::MoveTree { from, to } => {
            if answer(t, action).0 != t {
                lemma_moved_keeps_wf(t, from, to);
                lemma_moved_stays_finite(t, from, to);
            }
        },
        MergeActionView::Resolve { source, dest, entries } => {
            lemma_settle_all_stays_sound(t, source, dest, entries);
        },
        MergeActionView::RemoveTree(p) => {
            lemma_removed_keeps_wf(t, p);
            lemma_removed_stays_finite(t, p);
        },
        _ => {},
    }
}

/// However long the engine runs, the file system stays sound.
proof fn lemma_run_stays_sound(t: Tree, m: EngineView, action: MergeActionView, steps: nat)
    requires
        sound(t),
    ensures
        sound(run(t, m, action, steps).0),
    decreases steps,
{
    match action {
        MergeActionView::Finish(_) => {},
        _ => {
            if steps > 0 {
                let (t2, event) = answer(t, action);
                let (m2, next) = engine_step(m, event);
                lemma_answer_stays_sound(t, action);
                lemma_run_stays_sound(t2, m2, next, (steps - 1) as nat);
            }
        },
    }
}

/// A merge leaves a well-formed and finite file system well-formed and finite.
pub proof fn law_merge_stays_sound(
    t: Tree,
    source: Seq<Seq<char>>,
    dest: Seq<Seq<char>>,
    policy: PolicyView,
    steps: nat,
)
    requires
        sound(t),
    ensures
        sound(merge(t, source, dest, policy, steps).0),
{
    let (m, action) = crate::merge::engine::engine_start(source, dest, policy);
    lemma_run_stays_sound(t, m, action, steps);
}

/// What the entry at `place` has come to when it was settled with
/// `outcome`: kept, it is a file that the policy skips and whose `twin` in
/// the destination is there; deferred, it is a directory and so is its
/// twin; moved or redundant, it is gone. The file system never tells of an
/// entry that is neither file nor directory.
pub open spec fn settled_as(
    t: Tree,
    place: Seq<Seq<char>>,
    twin: Seq<Seq<char>>,
    action: ReplaceAction,
    outcome: EntryOutcome,
) -> bool {
    match outcome {
        EntryOutcome::Kept => kind_at(t, place) == EntryKind::File && action == ReplaceAction::Skip
            && t.nodes.contains_key(twin),
        EntryOutcome::Deferred => kind_at(t, place) == EntryKind::Dir && kind_at(t, twin)
            == EntryKind::Dir,
        EntryOutcome::Moved => gone(t, place),
        EntryOutcome::Redundant => gone(t, place),
        EntryOutcome::Ignored => false,
        EntryOutcome::Failed(_) => true,
    }
}

/// All that lies in the source tree, but not at or under `place`, rests
/// where it is or lies at one of the places `waiting`.
pub open spec fn others_wait(
    t: Tree,
    place: Seq<Seq<char>>,
    waiting: Set<Seq<Seq<char>>>,
    source: Seq<Seq<char>>,
    dest: Seq<Seq<char>>,
    policy: PolicyView,
) -> bool {
    forall|p: Seq<Seq<char>>|
        under(p, source) && #[trigger] t.nodes.contains_key(p) && !under(p, place) ==> rests(
            t,
            p,
            source,
            dest,
            policy,
        ) || waiting.contains(p)
}

/// The entry machine `m`, which has asked for `action`, is on its course:
/// it waits for what it has asked, it probes the destination for `Skip`
/// only with a file that the policy skips, and as a directory only with a
/// directory, and if it has settled, the entry has come to what the
/// outcome says.
pub open spec fn on_course(
    t: Tree,
    place: Seq<Seq<char>>,
    twin: Seq<Seq<char>>,
    m: EntryMoveView,
    action: EntryActionView,
) -> bool {
    &&& awaited(m, action)
    &&& m.phase == EntryPhase::SkipProbe ==> m.action == ReplaceAction::Skip && kind_at(t, place)
        == EntryKind::File
    &&& m.phase == EntryPhase::DirProbe ==> kind_at(t, place) == EntryKind::Dir
    &&& action matches EntryActionView::Done(outcome) ==> settled_as(
        t,
        place,
        twin,
        m.action,
        outcome,
    )
}

/// A place in a pair's destination lies in the destination tree.
proof fn lemma_target_in_dest(
    s: Seq<Seq<char>>,
    d: Seq<Seq<char>>,
    name: Seq<char>,
    source: Seq<Seq<char>>,
    dest: Seq<Seq<char>>,
)
    requires
        mirrors(TaskView { source: s, dest: d }, source, dest),
    ensures
        under(d.push(name), dest),
        under(s.push(name), source),
        d.push(name).len() > 0,
{
    assert(dest =~= d.push(name).subrange(0, dest.len() as int));
    assert(source =~= s.push(name).subrange(0, source.len() as int)) by {
        assert(source =~= s.subrange(0, source.len() as int));
    }
}

/// Moving an entry of the source tree onto a place of the destination tree
/// that holds no directory leaves the entry gone and the others as they
/// were: at rest, or waiting.
proof fn lemma_move_leaves_others(
    t: Tree,
    place: Seq<Seq<char>>,
    to: Seq<Seq<char>>,
    waiting: Set<Seq<Seq<char>>>,
    source: Seq<Seq<char>>,
    dest: Seq<Seq<char>>,
    policy: PolicyView,
)
    requires
        tree_wf(t),
        others_wait(t, place, waiting, source, dest, policy),
        under(place, source),
        under(to, dest),
        to.len() > 0,
        !under(source, dest),
        !under(dest, source),
        kind_at(t, place) != EntryKind::Missing,
        kind_at(t, to) != EntryKind::Dir,
    ensures
        others_wait(moved(t, place, to), place, waiting, source, dest, policy),
        gone(moved(t, place, to), place),
{
    let after = moved(t, place, to);
    assert forall|p: Seq<Seq<char>>| under(p, place) implies !#[trigger] after.nodes.contains_key(
        p,
    ) by {
        if under(p, to) {
            lemma_under_is_transitive(p, place, source);
            lemma_under_is_transitive(p, to, dest);
            lemma_not_under_both(p, source, dest);
        }
    }
    assert forall|p: Seq<Seq<char>>|
        under(p, source) && #[trigger] after.nodes.contains_key(p) && !under(
            p,
            place,
        ) implies rests(after, p, source, dest, policy) || waiting.contains(p) by {
        if under(p, to) {
            lemma_under_is_transitive(p, to, dest);
            lemma_not_under_both(p, source, dest);
        }
        assert(t.nodes.contains_key(p) && after.nodes[p] == t.nodes[p]);
        if rests(t, p, source, dest, policy) {
            let twin = mirror(p, source, dest);
            assert(under(twin, dest)) by {
                assert(dest =~= twin.subrange(0, dest.len() as int));
            }
            if under(twin, place) {
                lemma_under_is_transitive(twin, place, source);
                lemma_not_under_both(twin, source, dest);
            }
            if under(twin, to) {
                if twin != to {
                    lemma_nothing_under_leaf(t, to, twin);
                }
                assert(rebased(to, to, place) =~= place);
            }
        }
    }
}

/// Removing an entry of the source tree leaves the entry gone and the
/// others as they were: at rest, or waiting.
proof fn lemma_removal_leaves_others(
    t: Tree,
    place: Seq<Seq<char>>,
    waiting: Set<Seq<Seq<char>>>,
    source: Seq<Seq<char>>,
    dest: Seq<Seq<char>>,
    policy: PolicyView,
)
    requires
        others_wait(t, place, waiting, source, dest, policy),
        under(place, source),
        !under(source, dest),
        !under(dest, source),
    ensures
        others_wait(removed(t, place), place, waiting, source, dest, policy),
        gone(removed(t, place), place),
{
    let after = removed(t, place);
    assert forall|p: Seq<Seq<char>>|
        under(p, source) && #[trigger] after.nodes.contains_key(p) && !under(
            p,
            place,
        ) implies rests(after, p, source, dest, policy) || waiting.contains(p) by {
        if rests(t, p, source, dest, policy) {
            let twin = mirror(p, source, dest);
            assert(under(twin, dest)) by {
                assert(dest =~= twin.subrange(0, dest.len() as int));
            }
            if under(twin, place) {
                lemma_under_is_transitive(twin, place, source);
                lemma_not_under_both(twin, source, dest);
            }
        }
    }
}

/// One step of an entry on its course, answered by the file system, leaves
/// it on its course and the other entries as they were.
proof fn lemma_entry_step_stays_on_course(
    t: Tree,
    s: Seq<Seq<char>>,
    d: Seq<Seq<char>>,
    m: EntryMoveView,
    action: EntryActionView,
    waiting: Set<Seq<Seq<char>>>,
    source: Seq<Seq<char>>,
    dest: Seq<Seq<char>>,
    policy: PolicyView,
)
    requires
        tree_wf(t),
        mirrors(TaskView { source: s, dest: d }, source, dest),
        !under(source, dest),
        !under(dest, source),
        on_course(t, s.push(m.name), d.push(m.name), m, action),
        others_wait(t, s.push(m.name), waiting, source, dest, policy),
        !(action is Done),
    ensures
        ({
            let (t2, event) = entry_answer(t, s.push(m.name), d, action);
            let (m2, next) = entry_step(m, event);
            &&& m2.name == m.name
            &&& m2.action == m.action
            &&& on_course(t2, s.push(m.name), d.push(m.name), m2, next)
            &&& others_wait(t2, s.push(m.name), waiting, source, dest, policy)
        }),
{
    let place = s.push(m.name);
    match action {
        EntryActionView::Move(name) => {
            let to = d.push(name);
            lemma_target_in_dest(s, d, name, source, dest);
            lemma_target_in_dest(s, d, m.name, source, dest);
            if !(kind_at(t, place) == EntryKind::Missing || kind_at(t, to) == EntryKind::Dir
                || under(to, place) || !can_hold(t, to)) {
                lemma_move_leaves_others(t, place, to, waiting, source, dest, policy);
            }
        },
        EntryActionView::RemoveSource => {
            lemma_target_in_dest(s, d, m.name, source, dest);
            lemma_removal_leaves_others(t, place, waiting, source, dest, policy);
        },
        _ => {},
    }
}

/// Settling an entry on its course brings it to what its outcome says and
/// leaves the other entries as they were.
proof fn lemma_settle_comes_to_rest(
    t: Tree,
    s: Seq<Seq<char>>,
    d: Seq<Seq<char>>,
    m: EntryMoveView,
    action: EntryActionView,
    steps: nat,
    waiting: Set<Seq<Seq<char>>>,
    source: Seq<Seq<char>>,
    dest: Seq<Seq<char>>,
    policy: PolicyView,
)
    requires
        sound(t),
        mirrors(TaskView { source: s, dest: d }, source, dest),
        !under(source, dest),
        !under(dest, source),
        on_course(t, s.push(m.name), d.push(m.name), m, action),
        others_wait(t, s.push(m.name), waiting, source, dest, policy),
    ensures
        ({
            let (after, outcome) = settle(t, s, d, m, action, steps);
            &&& settled_as(after, s.push(m.name), d.push(m.name), m.action, outcome)
            &&& others_wait(after, s.push(m.name), waiting, source, dest, policy)
        }),
    decreases steps,
{
    match action {
        EntryActionView::Done(_) => {},
        _ => {
            if steps > 0 {
                let (t2, event) = entry_answer(t, s.push(m.name), d, action);
                let (m2, next) = entry_step(m, event);
                lemma_entry_step_stays_on_course(t, s, d, m, action, waiting, source, dest, policy);
                lemma_entry_answer_stays_sound(t, s.push(m.name), d, action);
                lemma_settle_comes_to_rest(
                    t2,
                    s,
                    d,
                    m2,
                    next,
                    (steps - 1) as nat,
                    waiting,
                    source,
                    dest,
                    policy,
                );
            }
        },
    }
}

/// The names of the entries.
pub open spec fn names_in(entries: Seq<EntryMoveView>) -> Set<Seq<char>> {
    Set::new(
        |n: Seq<char>| exists|i: int| 0 <= i < entries.len() && (#[trigger] entries[i]).name == n,
    )
}

/// The names of the entries that were deferred.
pub open spec fn deferred_in(reports: Seq<ReportView>) -> Set<Seq<char>> {
    Set::new(
        |n: Seq<char>|
            exists|i: int|
                0 <= i < reports.len() && (#[trigger] reports[i]).name == n && reports[i].outcome
                    == EntryOutcome::Deferred,
    )
}

/// `p` lies at or under an entry of the directory `dir` that is named in `names`.
pub open spec fn below(p: Seq<Seq<char>>, dir: Seq<Seq<char>>, names: Set<Seq<char>>) -> bool {
    under(p, dir) && p.len() > dir.len() && names.contains(p[dir.len() as int])
}

/// `p` lies under, and not at, an entry of the directory `dir` that is
/// named in `names`.
pub open spec fn deep_below(p: Seq<Seq<char>>, dir: Seq<Seq<char>>, names: Set<Seq<char>>) -> bool {
    under(p, dir) && p.len() > dir.len() + 1 && names.contains(p[dir.len() as int])
}

/// What lies at `p` rests there, or its turn is still to come: it lies at
/// one of the places `outer`, at or under an entry of `dir` that is still
/// `waiting`, or under an entry of `dir` that was `deferred`.
pub open spec fn on_the_way(
    t: Tree,
    p: Seq<Seq<char>>,
    source: Seq<Seq<char>>,
    dest: Seq<Seq<char>>,
    policy: PolicyView,
    outer: Set<Seq<Seq<char>>>,
    dir: Seq<Seq<char>>,
    waiting: Set<Seq<char>>,
    deferred: Set<Seq<char>>,
) -> bool {
    ||| rests(t, p, source, dest, policy)
    ||| outer.contains(p)
    ||| below(p, dir, waiting)
    ||| deep_below(p, dir, deferred)
}

/// All that lies in the source tree rests where it is, or its turn is
/// still to come.
pub open spec fn all_on_the_way(
    t: Tree,
    source: Seq<Seq<char>>,
    dest: Seq<Seq<char>>,
    policy: PolicyView,
    outer: Set<Seq<Seq<char>>>,
    dir: Seq<Seq<char>>,
    waiting: Set<Seq<char>>,
    deferred: Set<Seq<char>>,
) -> bool {
    forall|p: Seq<Seq<char>>|
        under(p, source) && #[trigger] t.nodes.contains_key(p) ==> on_the_way(
            t,
            p,
            source,
            dest,
            policy,
            outer,
            dir,
            waiting,
            deferred,
        )
}

/// Each of the entries is fresh and has the action the policy gives its name.
pub open spec fn fresh_entries(entries: Seq<EntryMoveView>, policy: PolicyView) -> bool {
    forall|i: int|
        0 <= i < entries.len() ==> (#[trigger] entries[i]) == entry_start(
            entries[i].name,
            resolve(policy, entries[i].name),
        ).0
}

/// What lies at or under the entry `name` of `dir` lies at or under `dir`,
/// beyond it, with `name` as its next component; and the other way round.
proof fn lemma_under_entry(p: Seq<Seq<char>>, dir: Seq<Seq<char>>, name: Seq<char>)
    ensures
        under(p, dir.push(name)) <==> under(p, dir) && p.len() > dir.len() && p[dir.len() as int]
            == name,
{
    if under(p, dir.push(name)) {
        assert(p[dir.len() as int] == dir.push(name)[dir.len() as int]);
        assert(dir =~= p.subrange(0, dir.len() as int)) by {
            assert(dir.push(name) =~= p.subrange(0, dir.len() as int + 1));
        }
    }
    if under(p, dir) && p.len() > dir.len() && p[dir.len() as int] == name {
        assert(dir.push(name) =~= p.subrange(0, dir.len() as int + 1));
    }
}

/// When the entries of a pair are settled without a failure, all that lies
/// in the source tree rests where it is or has its turn still to come: none
/// of the entries is waiting any more, and those that were deferred have
/// joined the deferred.
proof fn lemma_entries_come_to_rest(
    t: Tree,
    s: Seq<Seq<char>>,
    d: Seq<Seq<char>>,
    entries: Seq<EntryMoveView>,
    source: Seq<Seq<char>>,
    dest: Seq<Seq<char>>,
    policy: PolicyView,
    outer: Set<Seq<Seq<char>>>,
    deferred: Set<Seq<char>>,
)
    requires
        sound(t),
        mirrors(TaskView { source: s, dest: d }, source, dest),
        !under(source, dest),
        !under(dest, source),
        fresh_entries(entries, policy),
        all_on_the_way(t, source, dest, policy, outer, s, names_in(entries), deferred),
    ensures
        ({
            let (after, reports) = settle_all(t, s, d, entries);
            none_failed(reports) ==> all_on_the_way(
                after,
                source,
                dest,
                policy,
                outer,
                s,
                Set::empty(),
                deferred.union(deferred_in(reports)),
            )
        }),
    decreases entries.len(),
{
    let (after, reports) = settle_all(t, s, d, entries);
    if entries.len() == 0 {
        assert forall|p: Seq<Seq<char>>|
            under(p, source) && #[trigger] t.nodes.contains_key(p) implies on_the_way(
            t,
            p,
            source,
            dest,
            policy,
            outer,
            s,
            Set::empty(),
            deferred.union(deferred_in(reports)),
        ) by {
            assert(on_the_way(t, p, source, dest, policy, outer, s, names_in(entries), deferred));
        }
    } else {
        let first = entries[0];
        let rest = entries.drop_first();
        let place = s.push(first.name);
        let twin = d.push(first.name);
        let (t1, outcome) = settle(t, s, d, first, EntryActionView::ProbeSource, enough_steps());
        let (t2, later) = settle_all(t1, s, d, rest);
        assert(reports == seq![ReportView { name: first.name, outcome }] + later);
        assert(reports[0].outcome == outcome);
        if none_failed(reports) {
            let waiting = Set::new(
                |p: Seq<Seq<char>>|
                    outer.contains(p) || below(p, s, names_in(rest)) || deep_below(p, s, deferred),
            );
            assert(others_wait(t, place, waiting, source, dest, policy)) by {
                assert forall|p: Seq<Seq<char>>|
                    under(p, source) && #[trigger] t.nodes.contains_key(p) && !under(
                        p,
                        place,
                    ) implies rests(t, p, source, dest, policy) || waiting.contains(p) by {
                    assert(on_the_way(
                        t,
                        p,
                        source,
                        dest,
                        policy,
                        outer,
                        s,
                        names_in(entries),
                        deferred,
                    ));
                    if below(p, s, names_in(entries)) {
                        let i = choose|i: int|
                            0 <= i < entries.len() && (#[trigger] entries[i]).name == p[s.len()
                                as int];
                        lemma_under_entry(p, s, first.name);
                        assert(i > 0);
                        assert(rest[i - 1] == entries[i]);
                        assert(names_in(rest).contains(p[s.len() as int]));
                    }
                }
            }
            lemma_settle_comes_to_rest(
                t,
                s,
                d,
                first,
                EntryActionView::ProbeSource,
                enough_steps(),
                waiting,
                source,
                dest,
                policy,
            );
            lemma_settle_stays_sound(t, s, d, first, EntryActionView::ProbeSource, enough_steps());
            lemma_target_in_dest(s, d, first.name, source, dest);
            crate::merge::rest::lemma_mirror_of_child(s, d, first.name, source, dest);
            let joined = if outcome == EntryOutcome::Deferred {
                deferred.insert(first.name)
            } else {
                deferred
            };
            assert(!(outcome is Failed));
            assert(fresh_entries(rest, policy)) by {
                assert forall|i: int| 0 <= i < rest.len() implies (#[trigger] rest[i])
                    == entry_start(rest[i].name, resolve(policy, rest[i].name)).0 by {
                    assert(rest[i] == entries[i + 1]);
                }
            }
            assert(all_on_the_way(t1, source, dest, policy, outer, s, names_in(rest), joined)) by {
                assert forall|p: Seq<Seq<char>>|
                    under(p, source) && #[trigger] t1.nodes.contains_key(p) implies on_the_way(
                    t1,
                    p,
                    source,
                    dest,
                    policy,
                    outer,
                    s,
                    names_in(rest),
                    joined,
                ) by {
                    if under(p, place) {
                        lemma_under_entry(p, s, first.name);
                        assert(settled_as(t1, place, twin, first.action, outcome));
                        if p == place {
                            assert(place.last() == first.name);
                        } else {
                            if kind_at(t1, place) != EntryKind::Dir {
                                lemma_nothing_under_leaf(t1, place, p);
                            }
                            if p.len() == place.len() {
                                assert(p =~= place);
                            }
                            assert(joined.contains(first.name));
                            assert(deep_below(p, s, joined));
                        }
                    } else {
                        assert(rests(t1, p, source, dest, policy) || waiting.contains(p));
                    }
                }
            }
            assert(none_failed(later)) by {
                assert forall|i: int| 0 <= i < later.len() implies !((
                #[trigger] later[i]).outcome is Failed) by {
                    assert(later[i] == reports[i + 1]);
                }
            }
            lemma_entries_come_to_rest(t1, s, d, rest, source, dest, policy, outer, joined);
            assert forall|p: Seq<Seq<char>>|
                under(p, source) && #[trigger] t2.nodes.contains_key(p) implies on_the_way(
                t2,
                p,
                source,
                dest,
                policy,
                outer,
                s,
                Set::empty(),
                deferred.union(deferred_in(reports)),
            ) by {
                assert(on_the_way(
                    t2,
                    p,
                    source,
                    dest,
                    policy,
                    outer,
                    s,
                    Set::empty(),
                    joined.union(deferred_in(later)),
                ));
                if deep_below(p, s, joined.union(deferred_in(later))) {
                    let n = p[s.len() as int];
                    if deferred_in(later).contains(n) {
                        let i = choose|i: int|
                            0 <= i < later.len() && (#[trigger] later[i]).name == n
                                && later[i].outcome == EntryOutcome::Deferred;
                        assert(reports[i + 1] == later[i]);
                        assert(deferred_in(reports).contains(n));
                    } else if !deferred.contains(n) {
                        assert(n == first.name && outcome == EntryOutcome::Deferred);
                        assert(reports[0].name == n);
                        assert(deferred_in(reports).contains(n));
                    }
                }
            }
        }
    }
}

/// The pairs whose entries are still to be settled: those in the queue,
/// and the current pair until its entries are settled.
pub open spec fn pending(m: EngineView) -> Seq<TaskView> {
    if m.phase == MergePhase::TaskKind || m.phase == MergePhase::Listing || m.phase
        == MergePhase::Children {
        seq![m.current] + m.queue
    } else {
        m.queue
    }
}

/// `p` lies under, and not at, the source of one of the pairs.
pub open spec fn shadowed(tasks: Seq<TaskView>, p: Seq<Seq<char>>) -> bool {
    exists|i: int|
        0 <= i < tasks.len() && under(p, (#[trigger] tasks[i]).source) && p != tasks[i].source
}

/// The engine `m`, which has asked for `action`, is in the middle of a
/// merge under a `Skip` default that has met no failure: all that lies in
/// the source tree rests where it is or lies under the source of a pair
/// whose entries are still to be settled.
pub open spec fn settling(
    t: Tree,
    m: EngineView,
    action: MergeActionView,
    source: Seq<Seq<char>>,
    dest: Seq<Seq<char>>,
) -> bool {
    &&& sound(t)
    &&& m.policy.default == ReplaceAction::Skip
    &&& merging(m, action, source, dest)
    &&& asks(m, action)
    &&& m.failure is None
    &&& m.phase != MergePhase::SourceKind && m.phase != MergePhase::DestKind && m.phase
        != MergePhase::WholeMove
    &&& m.phase == MergePhase::Listing ==> kind_at(t, m.current.source) == EntryKind::Dir
    &&& m.phase == MergePhase::Finished ==> m.queue.len() == 0
    &&& action matches MergeActionView::Resolve { source: s, dest: d, entries } ==> entries
        == entries_for(m.policy, listing(t, s)) && is_listing(t, s, listing(t, s))
    &&& forall|p: Seq<Seq<char>>|
        under(p, source) && #[trigger] t.nodes.contains_key(p) ==> rests(
            t,
            p,
            source,
            dest,
            m.policy,
        ) || shadowed(pending(m), p)
}

/// Where there is no first failure, no report tells of a failure.
proof fn lemma_no_first_failure(reports: Seq<ReportView>)
    requires
        first_failure(reports) is None,
    ensures
        none_failed(reports),
    decreases reports.len(),
{
    if reports.len() > 0 {
        lemma_no_first_failure(reports.drop_last());
        assert forall|i: int| 0 <= i < reports.len() implies !((
        #[trigger] reports[i]).outcome is Failed) by {
            if i < reports.len() - 1 {
                assert(reports.drop_last()[i] == reports[i]);
            }
        }
    }
}

/// A deferred entry is queued as a pair.
proof fn lemma_deferred_is_queued(task: TaskView, reports: Seq<ReportView>, name: Seq<char>)
    requires
        deferred_in(reports).contains(name),
    ensures
        exists|j: int|
            0 <= j < deferred_tasks(task, reports).len() && #[trigger] deferred_tasks(
                task,
                reports,
            )[j] == child_task(task, name),
    decreases reports.len(),
{
    let i = choose|i: int|
        0 <= i < reports.len() && (#[trigger] reports[i]).name == name && reports[i].outcome
            == EntryOutcome::Deferred;
    let before = deferred_tasks(task, reports.drop_last());
    let all = deferred_tasks(task, reports);
    if i == reports.len() - 1 {
        assert(all[before.len() as int] == child_task(task, name));
    } else {
        assert(reports.drop_last()[i] == reports[i]);
        assert(deferred_in(reports.drop_last()).contains(name));
        lemma_deferred_is_queued(task, reports.drop_last(), name);
        let j = choose|j: int|
            0 <= j < before.len() && #[trigger] before[j] == child_task(task, name);
        assert(all[j] == child_task(task, name));
    }
}

/// Going on to the next pair leaves the same pairs to be settled as the
/// queue held.
proof fn lemma_next_takes_from_queue(m: EngineView)
    ensures
        pending(engine_next(m).0) =~= m.queue,
{
}

/// What is shadowed by the pairs of a queue is shadowed by those of a
/// longer one.
proof fn lemma_shadow_grows(tasks: Seq<TaskView>, more: Seq<TaskView>, p: Seq<Seq<char>>)
    requires
        shadowed(tasks, p),
    ensures
        shadowed(tasks + more, p),
{
    let i = choose|i: int|
        0 <= i < tasks.len() && under(p, (#[trigger] tasks[i]).source) && p != tasks[i].source;
    assert((tasks + more)[i] == tasks[i]);
}

/// A step of a merge under a `Skip` default leaves it settling, unless it
/// meets a failure.
proof fn lemma_step_stays_settling(
    t: Tree,
    m: EngineView,
    action: MergeActionView,
    source: Seq<Seq<char>>,
    dest: Seq<Seq<char>>,
)
    requires
        settling(t, m, action, source, dest),
        !(action is Finish),
        !under(source, dest),
        !under(dest, source),
    ensures
        ({
            let (t2, event) = answer(t, action);
            let (m2, next) = engine_step(m, event);
            failed(m2, next) || settling(t2, m2, next, source, dest)
        }),
{
    let (t2, event) = answer(t, action);
    let (m2, next) = engine_step(m, event);
    let s = m.current.source;
    let d = m.current.dest;
    law_step_stays_in_trees(m, event, source, dest);
    lemma_answer_stays_sound(t, action);
    assert(source.len() > 0) by {
        if source.len() == 0 {
            assert(source =~= dest.subrange(0, 0));
        }
    }
    assert(s.len() > 0);
    match m.phase {
        MergePhase::TaskKind => {
            if kind_at(t, s) != EntryKind::Dir {
                lemma_next_takes_from_queue(m);
                assert forall|p: Seq<Seq<char>>|
                    under(p, source) && #[trigger] t2.nodes.contains_key(p) implies rests(
                    t2,
                    p,
                    source,
                    dest,
                    m2.policy,
                ) || shadowed(pending(m2), p) by {
                    if shadowed(pending(m), p) {
                        let i = choose|i: int|
                            0 <= i < pending(m).len() && under(p, (#[trigger] pending(m)[i]).source)
                                && p != pending(m)[i].source;
                        if i == 0 {
                            lemma_nothing_under_leaf(t, s, p);
                        } else {
                            assert(m.queue[i - 1] == pending(m)[i]);
                        }
                    }
                }
            } else {
                assert(pending(m2) =~= pending(m));
            }
        },
        MergePhase::Listing => {
            lemma_finite_tree_lists(t, s);
            assert(pending(m2) =~= pending(m));
        },
        MergePhase::Children => {
            match action {
                MergeActionView::Resolve { source: s0, dest: d0, entries } => {
                    let reports = settle_all(t, s, d, entries);
                    if first_failure(reports.1) is None {
                        lemma_no_first_failure(reports.1);
                        let names = listing(t, s);
                        let outer = Set::new(|p: Seq<Seq<char>>| shadowed(m.queue, p));
                        assert(all_on_the_way(
                            t,
                            source,
                            dest,
                            m.policy,
                            outer,
                            s,
                            names_in(entries),
                            Set::empty(),
                        )) by {
                            assert forall|p: Seq<Seq<char>>|
                                under(p, source) && #[trigger] t.nodes.contains_key(
                                    p,
                                ) implies on_the_way(
                                t,
                                p,
                                source,
                                dest,
                                m.policy,
                                outer,
                                s,
                                names_in(entries),
                                Set::empty(),
                            ) by {
                                if shadowed(pending(m), p) {
                                    let i = choose|i: int|
                                        0 <= i < pending(m).len() && under(
                                            p,
                                            (#[trigger] pending(m)[i]).source,
                                        ) && p != pending(m)[i].source;
                                    if i == 0 {
                                        if p.len() == s.len() {
                                            assert(p =~= s);
                                        }
                                        let n = p[s.len() as int];
                                        let q = p.take(s.len() as int + 1);
                                        if p.len() == s.len() + 1 {
                                            assert(q =~= p);
                                        }
                                        assert(q =~= s.push(n));
                                        assert(t.nodes.contains_key(s.push(n)));
                                        assert(names.contains(n));
                                        let j = choose|j: int| 0 <= j < names.len() && names[j] == n;
                                        assert(entries[j].name == n);
                                        assert(names_in(entries).contains(n));
                                    } else {
                                        assert(m.queue[i - 1] == pending(m)[i]);
                                        assert(shadowed(m.queue, p));
                                    }
                                }
                            }
                        }
                        lemma_entries_come_to_rest(
                            t,
                            s,
                            d,
                            entries,
                            source,
                            dest,
                            m.policy,
                            outer,
                            Set::empty(),
                        );
                        assert forall|p: Seq<Seq<char>>|
                            under(p, source) && #[trigger] t2.nodes.contains_key(p) implies rests(
                            t2,
                            p,
                            source,
                            dest,
                            m2.policy,
                        ) || shadowed(pending(m2), p) by {
                            assert(on_the_way(
                                t2,
                                p,
                                source,
                                dest,
                                m.policy,
                                outer,
                                s,
                                Set::empty(),
                                Set::<Seq<char>>::empty().union(deferred_in(reports.1)),
                            ));
                            let queued = deferred_tasks(m.current, reports.1);
                            if outer.contains(p) {
                                lemma_shadow_grows(m.queue, queued, p);
                            } else if !rests(t2, p, source, dest, m.policy) {
                                let n = p[s.len() as int];
                                lemma_deferred_is_queued(m.current, reports.1, n);
                                let j = choose|j: int|
                                    0 <= j < queued.len() && #[trigger] queued[j] == child_task(
                                        m.current,
                                        n,
                                    );
                                lemma_under_entry(p, s, n);
                                assert((m.queue + queued)[m.queue.len() + j] == queued[j]);
                            }
                        }
                    }
                },
                _ => {},
            }
        },
        MergePhase::HasFiles => {
            lemma_next_takes_from_queue(m);
        },
        MergePhase::Removal => {
            lemma_next_takes_from_queue(m);
            let waiting = Set::new(|p: Seq<Seq<char>>| shadowed(m.queue, p));
            lemma_removal_leaves_others(t, s, waiting, source, dest, m.policy);
        },
        _ => {},
    }
}

/// A merge under a `Skip` default that ends with success leaves all that
/// lies in the source tree at rest.
proof fn lemma_run_comes_to_rest(
    t: Tree,
    m: EngineView,
    action: MergeActionView,
    source: Seq<Seq<char>>,
    dest: Seq<Seq<char>>,
    steps: nat,
)
    requires
        settling(t, m, action, source, dest),
        !under(source, dest),
        !under(dest, source),
    ensures
        run(t, m, action, steps).1 == Some(Ok::<(), MergeError>(())) ==> all_rest(
            run(t, m, action, steps).0,
            source,
            dest,
            m.policy,
        ),
    decreases steps,
{
    match action {
        MergeActionView::Finish(_) => {
            assert forall|p: Seq<Seq<char>>|
                under(p, source) && #[trigger] t.nodes.contains_key(p) implies rests(
                t,
                p,
                source,
                dest,
                m.policy,
            ) by {
                assert(!shadowed(pending(m), p));
            }
        },
        _ => {
            if steps > 0 {
                let (t2, event) = answer(t, action);
                let (m2, next) = engine_step(m, event);
                lemma_step_stays_settling(t, m, action, source, dest);
                crate::merge::laws::law_policy_never_changes(m, event);
                if failed(m2, next) {
                    lemma_failed_run_fails(t2, m2, next, (steps - 1) as nat);
                } else {
                    lemma_run_comes_to_rest(t2, m2, next, source, dest, (steps - 1) as nat);
                }
            }
        },
    }
}

/// A merge that succeeds comes to rest. In a well-formed and finite file
/// system, a merge of a source into a destination of which neither lies in
/// the other, that has ended with success, has left the two trees at rest:
/// the source is gone, or the policy's default is `Skip` and all that is
/// left in the source is what the policy skips and the destination holds
/// under the same name, in directories that the destination has too.
pub proof fn law_merge_comes_to_rest(
    t: Tree,
    source: Seq<Seq<char>>,
    dest: Seq<Seq<char>>,
    policy: PolicyView,
    steps: nat,
)
    requires
        sound(t),
        !under(source, dest),
        !under(dest, source),
        merge(t, source, dest, policy, steps).1 == Some(Ok::<(), MergeError>(())),
    ensures
        at_rest(merge(t, source, dest, policy, steps).0, source, dest, policy),
{
    if policy.default != ReplaceAction::Skip {
        law_merged_source_is_gone(t, source, dest, policy, steps);
    } else {
        reveal_with_fuel(run, 4);
        let (m0, a0) = engine_start(source, dest, policy);
        law_start_stays_in_trees(source, dest, policy);
        assert(under(source, source));
        if kind_at(t, source) == EntryKind::Dir && steps >= 2 {
            let (m1, a1) = engine_step(m0, MergeEventView::Kind(EntryKind::Dir));
            law_step_stays_in_trees(m0, MergeEventView::Kind(EntryKind::Dir), source, dest);
            let e1 = answer(t, a1).1;
            let (m2, a2) = engine_step(m1, e1);
            law_step_stays_in_trees(m1, e1, source, dest);
            if kind_at(t, dest) == EntryKind::Dir {
                assert(settling(t, m2, a2, source, dest)) by {
                    assert(mirror(source, source, dest) =~= dest);
                    assert forall|p: Seq<Seq<char>>|
                        under(p, source) && #[trigger] t.nodes.contains_key(p) implies rests(
                        t,
                        p,
                        source,
                        dest,
                        m2.policy,
                    ) || shadowed(pending(m2), p) by {
                        if p != source {
                            assert(pending(m2)[0].source == source);
                        }
                    }
                }
                lemma_run_comes_to_rest(t, m2, a2, source, dest, (steps - 2) as nat);
            } else if kind_at(t, dest) == EntryKind::Missing {
                let (t3, e2) = answer(t, a2);
                if e2 == MergeEventView::Completed {
                    assert(!t3.nodes.contains_key(source));
                }
            }
        }
    }
}

/// Idempotence. After a merge that has ended with success, merging again
/// moves nothing, whatever the policy: the second merge never fails, and
/// it leaves every file where the first left it, with the bytes it has. All
/// that it may take away are directories of the source that hold no file.
pub proof fn law_merging_again_moves_nothing(
    t: Tree,
    source: Seq<Seq<char>>,
    dest: Seq<Seq<char>>,
    policy: PolicyView,
    steps: nat,
    more: nat,
)
    requires
        sound(t),
        !under(source, dest),
        !under(dest, source),
        merge(t, source, dest, policy, steps).1 == Some(Ok::<(), MergeError>(())),
    ensures
        merge(merge(t, source, dest, policy, steps).0, source, dest, policy, more).1 matches Some(
            result,
        ) ==> result is Ok,
        only_dirs_gone(
            merge(t, source, dest, policy, steps).0,
            merge(merge(t, source, dest, policy, steps).0, source, dest, policy, more).0,
            source,
        ),
{
    law_merge_stays_sound(t, source, dest, policy, steps);
    law_merge_comes_to_rest(t, source, dest, policy, steps);
    law_merge_at_rest_moves_nothing(
        merge(t, source, dest, policy, steps).0,
        source,
        dest,
        policy,
        more,
    );
}

} // verus!
