//! Trees at rest.
//!
//! Under a `Skip` default a merge may leave things in the source: files
//! that the policy skips and whose places in the destination are taken, and
//! directories that hold them. Two trees in which nothing else is left are
//! at rest. A merge of trees at rest moves nothing and writes over nothing;
//! all it may do is remove directories of the source that hold no file.

use crate::merge::engine::{
    deferred_tasks, engine_start, engine_step, entries_for, first_failure, EngineView,
    MergeActionView, MergeEventView, MergePhase, ReportView, TaskView,
};
use crate::merge::entry::{entry_start, EntryActionView, EntryMoveView, EntryOutcome};
use crate::merge::frame::{lemma_under_is_transitive, merging};
use crate::merge::keeping::lemma_not_under_both;
use crate::merge::laws::{law_start_stays_in_trees, law_step_stays_in_trees, mirrors};
use crate::merge::lossless::mirror;
use crate::merge::model::{
    answer, enough_steps, holds_file, is_listing, kind_at, listing, merge, removed, run, settle,
    settle_all, Node, Tree,
};
use crate::merge::{EntryKind, MergeError};
use crate::path::under;
use crate::policy::{resolve, PolicyView, ReplaceAction};
use vstd::prelude::*;
use vstd::set_lib::lemma_set_subset_finite;

verus! {

/// The file system holds something at finitely many places.
pub open spec fn finite_tree(t: Tree) -> bool {
    t.nodes.dom().finite()
}

/// The members of a finite set can be named one after the other, each once.
proof fn lemma_finite_set_is_listed(s: Set<Seq<char>>)
    requires
        s.finite(),
    ensures
        exists|names: Seq<Seq<char>>|
            names.no_duplicates() && forall|n: Seq<char>| #[trigger]
                names.contains(n) <==> s.contains(n),
    decreases s.len(),
{
    if s.len() == 0 {
        let names = Seq::<Seq<char>>::empty();
        assert(names.no_duplicates() && forall|n: Seq<char>| #[trigger]
            names.contains(n) <==> s.contains(n));
    } else {
        let x = s.choose();
        lemma_finite_set_is_listed(s.remove(x));
        let rest = choose|names: Seq<Seq<char>>|
            names.no_duplicates() && forall|n: Seq<char>| #[trigger]
                names.contains(n) <==> s.remove(x).contains(n);
        let names = rest.push(x);
        assert(!rest.contains(x));
        assert forall|n: Seq<char>| #[trigger] names.contains(n) <==> s.contains(n) by {
            if names.contains(n) {
                let i = choose|i: int| 0 <= i < names.len() && names[i] == n;
                if i < rest.len() {
                    assert(rest.contains(n));
                }
            }
            if s.contains(n) {
                if n == x {
                    assert(names[rest.len() as int] == n);
                } else {
                    assert(rest.contains(n));
                    let i = choose|i: int| 0 <= i < rest.len() && rest[i] == n;
                    assert(names[i] == n);
                }
            }
        }
        assert(names.no_duplicates());
    }
}

/// In a finite file system every directory has a listing.
pub proof fn lemma_finite_tree_lists(t: Tree, p: Seq<Seq<char>>)
    requires
        finite_tree(t),
    ensures
        is_listing(t, p, listing(t, p)),
{
    let children = t.nodes.dom().filter(
        |q: Seq<Seq<char>>| q.len() == p.len() + 1 && q.drop_last() == p,
    );
    t.nodes.dom().lemma_len_filter(
        |q: Seq<Seq<char>>| q.len() == p.len() + 1 && q.drop_last() == p,
    );
    let entries = children.map(|q: Seq<Seq<char>>| q.last());
    children.lemma_map_finite(|q: Seq<Seq<char>>| q.last());
    lemma_finite_set_is_listed(entries);
    let names = choose|names: Seq<Seq<char>>|
        names.no_duplicates() && forall|n: Seq<char>| #[trigger]
            names.contains(n) <==> entries.contains(n);
    assert forall|n: Seq<char>| names.contains(n) <==> t.nodes.contains_key(p.push(n)) by {
        if entries.contains(n) {
            let q = choose|q: Seq<Seq<char>>| children.contains(q) && q.last() == n;
            assert(q =~= p.push(n));
        }
        if t.nodes.contains_key(p.push(n)) {
            let q = p.push(n);
            assert(q.drop_last() =~= p);
            assert(children.contains(q));
            assert(q.last() == n);
        }
    }
    assert(is_listing(t, p, names));
}

/// Removing a tree leaves the file system finite.
pub proof fn lemma_removed_stays_finite(t: Tree, gone: Seq<Seq<char>>)
    requires
        finite_tree(t),
    ensures
        finite_tree(removed(t, gone)),
{
    assert(removed(t, gone).nodes.dom().subset_of(t.nodes.dom()));
    lemma_set_subset_finite(t.nodes.dom(), removed(t, gone).nodes.dom());
}

/// What lies at `p` in the source tree rests there: a file that the policy
/// skips and whose place in the destination is taken, or a directory whose
/// place in the destination holds a directory.
pub open spec fn rests(
    t: Tree,
    p: Seq<Seq<char>>,
    source: Seq<Seq<char>>,
    dest: Seq<Seq<char>>,
    policy: PolicyView,
) -> bool {
    match t.nodes[p] {
        Node::File(_) => resolve(policy, p.last()) == ReplaceAction::Skip && t.nodes.contains_key(
            mirror(p, source, dest),
        ),
        Node::Dir => kind_at(t, mirror(p, source, dest)) == EntryKind::Dir,
    }
}

/// All that lies at or under the source rests there.
pub open spec fn all_rest(
    t: Tree,
    source: Seq<Seq<char>>,
    dest: Seq<Seq<char>>,
    policy: PolicyView,
) -> bool {
    forall|p: Seq<Seq<char>>|
        under(p, source) && #[trigger] t.nodes.contains_key(p) ==> rests(
            t,
            p,
            source,
            dest,
            policy,
        )
}

/// The two trees are at rest under the policy: the source is no directory,
/// or the policy's default is `Skip` and all that lies in the source rests
/// there.
pub open spec fn at_rest(
    t: Tree,
    source: Seq<Seq<char>>,
    dest: Seq<Seq<char>>,
    policy: PolicyView,
) -> bool {
    kind_at(t, source) == EntryKind::Dir ==> policy.default == ReplaceAction::Skip && all_rest(
        t,
        source,
        dest,
        policy,
    )
}

/// From `before` to `after` nothing has changed but that directories at or
/// under `source` are gone: what `after` holds, `before` held at the same
/// place, and what `before` held and `after` lacks was such a directory.
pub open spec fn only_dirs_gone(before: Tree, after: Tree, source: Seq<Seq<char>>) -> bool {
    &&& forall|p: Seq<Seq<char>>| #[trigger]
        after.nodes.contains_key(p) ==> before.nodes.contains_key(p) && after.nodes[p]
            == before.nodes[p]
    &&& forall|p: Seq<Seq<char>>| #[trigger]
        before.nodes.contains_key(p) && !after.nodes.contains_key(p) ==> under(p, source)
            && before.nodes[p] is Dir
}

/// The engine asks for the operation that belongs to its phase, on the
/// pair it holds.
pub open spec fn asks(m: EngineView, action: MergeActionView) -> bool {
    match m.phase {
        MergePhase::SourceKind => action == MergeActionView::Probe(m.current.source),
        MergePhase::DestKind => action == MergeActionView::Probe(m.current.dest),
        MergePhase::WholeMove => action == (MergeActionView::MoveTree {
            from: m.current.source,
            to: m.current.dest,
        }),
        MergePhase::TaskKind => action == MergeActionView::Probe(m.current.source),
        MergePhase::Listing => action == MergeActionView::List(m.current.source),
        MergePhase::Children => action matches MergeActionView::Resolve { source, dest, entries }
            && source == m.current.source && dest == m.current.dest,
        MergePhase::HasFiles => action == MergeActionView::HasFiles(m.current.source),
        MergePhase::Removal => action == MergeActionView::RemoveTree(m.current.source),
        MergePhase::Finished => action is Finish,
    }
}

/// Each of the entries is fresh, has the action the policy gives its name,
/// and names something that lies in the directory `dir`.
pub open spec fn entries_lie_in(
    t: Tree,
    dir: Seq<Seq<char>>,
    entries: Seq<EntryMoveView>,
    policy: PolicyView,
) -> bool {
    forall|i: int|
        0 <= i < entries.len() ==> (#[trigger] entries[i]) == entry_start(
            entries[i].name,
            resolve(policy, entries[i].name),
        ).0 && t.nodes.contains_key(dir.push(entries[i].name))
}

/// The engine `m`, which has asked for `action`, is in the middle of a
/// merge of trees at rest and has met no failure.
pub open spec fn resting(
    t: Tree,
    m: EngineView,
    action: MergeActionView,
    source: Seq<Seq<char>>,
    dest: Seq<Seq<char>>,
) -> bool {
    &&& finite_tree(t)
    &&& m.policy.default == ReplaceAction::Skip
    &&& all_rest(t, source, dest, m.policy)
    &&& merging(m, action, source, dest)
    &&& asks(m, action)
    &&& m.failure is None
    &&& action matches MergeActionView::Finish(result) ==> result is Ok
    &&& m.phase != MergePhase::WholeMove
    &&& m.phase == MergePhase::DestKind || m.phase == MergePhase::Listing ==> kind_at(
        t,
        m.current.source,
    ) == EntryKind::Dir
    &&& m.phase == MergePhase::Removal ==> !holds_file(t, m.current.source)
    &&& action matches MergeActionView::Resolve { source: s, dest: d, entries }
        ==> entries_lie_in(t, s, entries, m.policy)
}

/// The place of an entry of a mirrored pair is mirrored by its place in
/// the pair's destination.
pub proof fn lemma_mirror_of_child(
    s: Seq<Seq<char>>,
    d: Seq<Seq<char>>,
    name: Seq<char>,
    source: Seq<Seq<char>>,
    dest: Seq<Seq<char>>,
)
    requires
        mirrors(TaskView { source: s, dest: d }, source, dest),
    ensures
        under(s.push(name), source),
        mirror(s.push(name), source, dest) == d.push(name),
{
    assert(source =~= s.push(name).subrange(0, source.len() as int)) by {
        assert(source =~= s.subrange(0, source.len() as int));
    }
    assert(s.push(name).skip(source.len() as int) =~= s.skip(source.len() as int).push(name));
    assert(dest + s.skip(source.len() as int).push(name) =~= (dest + s.skip(
        source.len() as int,
    )).push(name));
}

/// An entry that rests is left where it is: a file is kept, a directory is
/// deferred, and the file system is not touched.
proof fn lemma_resting_entry_stays(
    t: Tree,
    s: Seq<Seq<char>>,
    d: Seq<Seq<char>>,
    name: Seq<char>,
    source: Seq<Seq<char>>,
    dest: Seq<Seq<char>>,
    policy: PolicyView,
)
    requires
        all_rest(t, source, dest, policy),
        mirrors(TaskView { source: s, dest: d }, source, dest),
        t.nodes.contains_key(s.push(name)),
    ensures
        ({
            let (after, outcome) = settle(
                t,
                s,
                d,
                entry_start(name, resolve(policy, name)).0,
                EntryActionView::ProbeSource,
                enough_steps(),
            );
            after == t && (outcome == EntryOutcome::Kept || outcome == EntryOutcome::Deferred)
        }),
{
    reveal_with_fuel(settle, 4);
    lemma_mirror_of_child(s, d, name, source, dest);
    assert(rests(t, s.push(name), source, dest, policy));
    assert(s.push(name).last() == name);
}

/// No report tells of a failure.
pub open spec fn none_failed(reports: Seq<ReportView>) -> bool {
    forall|i: int| 0 <= i < reports.len() ==> !((#[trigger] reports[i]).outcome is Failed)
}

/// Where no report tells of a failure, there is no first failure.
proof fn lemma_none_failed(reports: Seq<ReportView>)
    requires
        none_failed(reports),
    ensures
        first_failure(reports) is None,
    decreases reports.len(),
{
    if reports.len() > 0 {
        assert forall|i: int| 0 <= i < reports.drop_last().len() implies !((
        #[trigger] reports.drop_last()[i]).outcome is Failed) by {
            assert(reports.drop_last()[i] == reports[i]);
        }
        lemma_none_failed(reports.drop_last());
        assert(!(reports[reports.len() - 1].outcome is Failed));
    }
}

/// Entries that rest are all left where they are: none fails and the file
/// system is not touched.
proof fn lemma_resting_entries_stay(
    t: Tree,
    s: Seq<Seq<char>>,
    d: Seq<Seq<char>>,
    entries: Seq<EntryMoveView>,
    source: Seq<Seq<char>>,
    dest: Seq<Seq<char>>,
    policy: PolicyView,
)
    requires
        all_rest(t, source, dest, policy),
        mirrors(TaskView { source: s, dest: d }, source, dest),
        entries_lie_in(t, s, entries, policy),
    ensures
        settle_all(t, s, d, entries).0 == t,
        none_failed(settle_all(t, s, d, entries).1),
    decreases entries.len(),
{
    if entries.len() > 0 {
        let first = entries[0];
        lemma_resting_entry_stays(t, s, d, first.name, source, dest, policy);
        let rest = entries.drop_first();
        assert(entries_lie_in(t, s, rest, policy)) by {
            assert forall|i: int| 0 <= i < rest.len() implies (#[trigger] rest[i]) == entry_start(
                rest[i].name,
                resolve(policy, rest[i].name),
            ).0 && t.nodes.contains_key(s.push(rest[i].name)) by {
                assert(rest[i] == entries[i + 1]);
            }
        }
        lemma_resting_entries_stay(t, s, d, rest, source, dest, policy);
        let outcome = settle(t, s, d, first, EntryActionView::ProbeSource, enough_steps()).1;
        let reports = settle_all(t, s, d, entries).1;
        let later = settle_all(t, s, d, rest).1;
        assert(reports == seq![ReportView { name: first.name, outcome }] + later);
        assert forall|i: int| 0 <= i < reports.len() implies !((
        #[trigger] reports[i]).outcome is Failed) by {
            if i > 0 {
                assert(reports[i] == later[i - 1]);
            }
        }
    }
}

/// Removing a directory of the source that holds no file leaves at rest
/// what is left, and takes nothing but directories.
proof fn lemma_removal_leaves_rest(
    t: Tree,
    gone: Seq<Seq<char>>,
    source: Seq<Seq<char>>,
    dest: Seq<Seq<char>>,
    policy: PolicyView,
)
    requires
        all_rest(t, source, dest, policy),
        under(gone, source),
        !holds_file(t, gone),
        !under(source, dest),
        !under(dest, source),
    ensures
        all_rest(removed(t, gone), source, dest, policy),
        only_dirs_gone(t, removed(t, gone), source),
{
    let after = removed(t, gone);
    assert forall|p: Seq<Seq<char>>|
        under(p, source) && #[trigger] after.nodes.contains_key(p) implies rests(
        after,
        p,
        source,
        dest,
        policy,
    ) by {
        let twin = mirror(p, source, dest);
        assert(rests(t, p, source, dest, policy));
        assert(under(twin, dest)) by {
            assert(dest =~= twin.subrange(0, dest.len() as int));
        }
        if under(twin, gone) {
            lemma_under_is_transitive(twin, gone, source);
            lemma_not_under_both(twin, source, dest);
        }
    }
    assert forall|p: Seq<Seq<char>>| #[trigger]
        t.nodes.contains_key(p) && !after.nodes.contains_key(p) implies under(p, source)
        && t.nodes[p] is Dir by {
        lemma_under_is_transitive(p, gone, source);
        if t.nodes[p] is File {
            assert(holds_file(t, gone));
        }
    }
}

/// Where only directories went twice in a row, only directories went.
proof fn lemma_only_dirs_gone_chains(
    first: Tree,
    second: Tree,
    third: Tree,
    source: Seq<Seq<char>>,
)
    requires
        only_dirs_gone(first, second, source),
        only_dirs_gone(second, third, source),
    ensures
        only_dirs_gone(first, third, source),
{
    assert forall|p: Seq<Seq<char>>| #[trigger]
        first.nodes.contains_key(p) && !third.nodes.contains_key(p) implies under(p, source)
        && first.nodes[p] is Dir by {
        if second.nodes.contains_key(p) {
            assert(second.nodes[p] == first.nodes[p]);
        }
    }
}

/// A step of a merge of trees at rest leaves them at rest, and takes
/// nothing from the file system but directories of the source.
proof fn lemma_step_stays_resting(
    t: Tree,
    m: EngineView,
    action: MergeActionView,
    source: Seq<Seq<char>>,
    dest: Seq<Seq<char>>,
)
    requires
        resting(t, m, action, source, dest),
        !(action is Finish),
        !under(source, dest),
        !under(dest, source),
    ensures
        ({
            let (t2, event) = answer(t, action);
            let (m2, next) = engine_step(m, event);
            resting(t2, m2, next, source, dest) && only_dirs_gone(t, t2, source)
        }),
{
    let (t2, event) = answer(t, action);
    let (m2, next) = engine_step(m, event);
    law_step_stays_in_trees(m, event, source, dest);
    match m.phase {
        MergePhase::SourceKind => {},
        MergePhase::DestKind => {
            assert(m.current.source == source && m.current.dest == dest);
            assert(under(source, source));
            assert(rests(t, source, source, dest, m.policy));
            assert(mirror(source, source, dest) =~= dest);
        },
        MergePhase::WholeMove => {},
        MergePhase::TaskKind => {},
        MergePhase::Listing => {
            let s = m.current.source;
            let names = listing(t, s);
            lemma_finite_tree_lists(t, s);
            let entries = entries_for(m.policy, names);
            assert(entries_lie_in(t, s, entries, m.policy)) by {
                assert forall|i: int| 0 <= i < entries.len() implies (
                #[trigger] entries[i]) == entry_start(
                    entries[i].name,
                    resolve(m.policy, entries[i].name),
                ).0 && t.nodes.contains_key(s.push(entries[i].name)) by {
                    assert(names.contains(names[i]));
                }
            }
        },
        MergePhase::Children => {
            match action {
                MergeActionView::Resolve { source: s, dest: d, entries } => {
                    lemma_resting_entries_stay(t, s, d, entries, source, dest, m.policy);
                    lemma_none_failed(settle_all(t, s, d, entries).1);
                },
                _ => {},
            }
        },
        MergePhase::HasFiles => {},
        MergePhase::Removal => {
            lemma_removal_leaves_rest(t, m.current.source, source, dest, m.policy);
            lemma_removed_stays_finite(t, m.current.source);
        },
        MergePhase::Finished => {},
    }
}

/// However long a merge of trees at rest goes on, it meets no failure and
/// takes nothing from the file system but directories of the source.
proof fn lemma_run_stays_resting(
    t: Tree,
    m: EngineView,
    action: MergeActionView,
    source: Seq<Seq<char>>,
    dest: Seq<Seq<char>>,
    steps: nat,
)
    requires
        resting(t, m, action, source, dest),
        !under(source, dest),
        !under(dest, source),
    ensures
        run(t, m, action, steps).1 matches Some(result) ==> result is Ok,
        only_dirs_gone(t, run(t, m, action, steps).0, source),
    decreases steps,
{
    match action {
        MergeActionView::Finish(_) => {},
        _ => {
            if steps > 0 {
                let (t2, event) = answer(t, action);
                let (m2, next) = engine_step(m, event);
                lemma_step_stays_resting(t, m, action, source, dest);
                lemma_run_stays_resting(t2, m2, next, source, dest, (steps - 1) as nat);
                lemma_only_dirs_gone_chains(
                    t,
                    t2,
                    run(t2, m2, next, (steps - 1) as nat).0,
                    source,
                );
            }
        },
    }
}

/// A merge of trees at rest moves nothing. In a finite file system, with a
/// source and a destination of which neither lies in the other, a merge of
/// trees at rest never fails, however many steps it is given, and leaves
/// every file where it is with the bytes it has: all that it may take away
/// are directories of the source that hold no file.
pub proof fn law_merge_at_rest_moves_nothing(
    t: Tree,
    source: Seq<Seq<char>>,
    dest: Seq<Seq<char>>,
    policy: PolicyView,
    steps: nat,
)
    requires
        finite_tree(t),
        !under(source, dest),
        !under(dest, source),
        at_rest(t, source, dest, policy),
    ensures
        merge(t, source, dest, policy, steps).1 matches Some(result) ==> result is Ok,
        only_dirs_gone(t, merge(t, source, dest, policy, steps).0, source),
{
    let (m, action) = engine_start(source, dest, policy);
    law_start_stays_in_trees(source, dest, policy);
    assert(under(source, source));
    if kind_at(t, source) == EntryKind::Dir {
        lemma_run_stays_resting(t, m, action, source, dest, steps);
    } else {
        reveal_with_fuel(run, 2);
    }
}

} // verus!
