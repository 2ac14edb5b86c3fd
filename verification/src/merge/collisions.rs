//! What a merge does where names collide.
//!
//! The theorems of this module follow a merge on the file system of `model`
//! through a source directory that holds one or two files whose names are
//! taken in the destination, and say what the file system is afterwards,
//! for every name and all bytes.

use crate::merge::engine::{
    deferred_tasks, engine_start, entries_for, first_failure, ReportView, TaskView,
};
use crate::merge::entry::{
    candidate_name, lemma_first_candidate_is_name, EntryActionView, EntryMoveView,
    EntryOutcome, EntryPhase,
};
use crate::merge::model::{
    enough_steps, holds_file, is_listing, kind_at, listing, merge, moved, rebased, removed, run,
    settle, settle_all, tree_wf, Node, Tree,
};
use crate::merge::{EntryKind, MergeError};
use crate::path::under;
use crate::policy::{resolve, PolicyView, ReplaceAction};
use crate::text::{extension_of, lemma_decimal_digits, lemma_stem_dot_extension};
use vstd::prelude::*;

verus! {

/// `source` and `dest` can be merged entry by entry: both are directories
/// of a well-formed file system, and neither lies in the other.
pub open spec fn ready(t: Tree, source: Seq<Seq<char>>, dest: Seq<Seq<char>>) -> bool {
    &&& tree_wf(t)
    &&& kind_at(t, source) == EntryKind::Dir
    &&& kind_at(t, dest) == EntryKind::Dir
    &&& !under(dest, source)
    &&& !under(source, dest)
}

/// The directory `dir` holds the regular file `name` with the bytes `x`.
pub open spec fn holds(t: Tree, dir: Seq<Seq<char>>, name: Seq<char>, x: Seq<u8>) -> bool {
    t.nodes.contains_key(dir.push(name)) && t.nodes[dir.push(name)] == Node::File(x)
}

/// The file system with the file at `from` taken to `to`, where it replaces
/// what was there.
pub open spec fn file_taken(t: Tree, from: Seq<Seq<char>>, to: Seq<Seq<char>>) -> Tree {
    Tree { nodes: t.nodes.remove(from).insert(to, t.nodes[from]) }
}

/// An entry of one directory is no entry of a directory that neither holds
/// the first nor lies in it, and none lies under the other.
pub proof fn lemma_entries_apart(
    a: Seq<Seq<char>>,
    b: Seq<Seq<char>>,
    n: Seq<char>,
    m: Seq<char>,
)
    requires
        !under(a, b),
        !under(b, a),
    ensures
        a.push(n) != b.push(m),
        !under(a.push(n), b.push(m)),
        !under(b.push(m), a.push(n)),
        !under(a.push(n), b),
        !under(b.push(m), a),
{
    if under(a.push(n), b) {
        if b.len() <= a.len() {
            assert(b =~= a.subrange(0, b.len() as int)) by {
                assert(b =~= a.push(n).subrange(0, b.len() as int));
            }
        } else {
            assert(b =~= a.push(n));
            assert(a =~= b.subrange(0, a.len() as int));
        }
    }
    if under(b.push(m), a) {
        if a.len() <= b.len() {
            assert(a =~= b.subrange(0, a.len() as int)) by {
                assert(a =~= b.push(m).subrange(0, a.len() as int));
            }
        } else {
            assert(a =~= b.push(m));
            assert(b =~= a.subrange(0, b.len() as int));
        }
    }
    if under(a.push(n), b.push(m)) {
        assert(b =~= b.push(m).subrange(0, b.len() as int));
        assert(b.push(m) =~= a.push(n).subrange(0, b.len() as int + 1));
        assert(b =~= a.push(n).subrange(0, b.len() as int));
    }
    if under(b.push(m), a.push(n)) {
        assert(a =~= a.push(n).subrange(0, a.len() as int));
        assert(a.push(n) =~= b.push(m).subrange(0, a.len() as int + 1));
        assert(a =~= b.push(m).subrange(0, a.len() as int));
    }
}

/// Two entries of one directory are the same path only if they have the
/// same name, and neither lies under the other.
pub proof fn lemma_siblings_apart(d: Seq<Seq<char>>, n: Seq<char>, m: Seq<char>)
    requires
        n != m,
    ensures
        d.push(n) != d.push(m),
        !under(d.push(n), d.push(m)),
{
    if under(d.push(n), d.push(m)) {
        assert(d.push(m) =~= d.push(n).subrange(0, d.len() as int + 1));
        assert(d.push(m)[d.len() as int] == m);
        assert(d.push(n)[d.len() as int] == n);
    }
}

/// Nothing lies under a path that is missing or holds a file.
pub proof fn lemma_nothing_under_leaf(t: Tree, leaf: Seq<Seq<char>>, q: Seq<Seq<char>>)
    requires
        tree_wf(t),
        kind_at(t, leaf) != EntryKind::Dir,
        leaf.len() > 0,
        under(q, leaf),
        q != leaf,
    ensures
        !t.nodes.contains_key(q),
{
    assert(leaf =~= q.take(leaf.len() as int));
    if q.len() == leaf.len() {
        assert(q.take(leaf.len() as int) =~= q);
    }
}

/// At every place, moving a file of the source to a name in the
/// destination gives what taking the file there gives.
proof fn lemma_moved_pointwise(
    t: Tree,
    source: Seq<Seq<char>>,
    dest: Seq<Seq<char>>,
    name: Seq<char>,
    target: Seq<char>,
    p: Seq<Seq<char>>,
)
    requires
        ready(t, source, dest),
        kind_at(t, source.push(name)) == EntryKind::File,
        kind_at(t, dest.push(target)) != EntryKind::Dir,
    ensures
        moved(t, source.push(name), dest.push(target)).nodes.contains_key(p) == file_taken(
            t,
            source.push(name),
            dest.push(target),
        ).nodes.contains_key(p),
        moved(t, source.push(name), dest.push(target)).nodes.contains_key(p) ==> moved(
            t,
            source.push(name),
            dest.push(target),
        ).nodes[p] == file_taken(t, source.push(name), dest.push(target)).nodes[p],
{
    let from = source.push(name);
    let to = dest.push(target);
    lemma_entries_apart(source, dest, name, target);
    assert(rebased(to, to, from) =~= from);
    if under(p, to) {
        if p != to {
            lemma_nothing_under_leaf(t, to, p);
            let q = rebased(p, to, from);
            assert(under(q, from)) by {
                assert(from =~= q.subrange(0, from.len() as int));
            }
            assert(q != from) by {
                assert(q.len() == from.len() + p.len() - to.len());
                if p.len() == to.len() {
                    assert(to =~= p.subrange(0, to.len() as int));
                    assert(p =~= to);
                }
            }
            lemma_nothing_under_leaf(t, from, q);
        }
    } else if under(p, from) {
        if p != from {
            lemma_nothing_under_leaf(t, from, p);
        }
    }
}

/// Moving a file of the source to a name in the destination that no
/// directory holds takes the file there and changes nothing else; source
/// and destination can be merged on.
pub proof fn lemma_file_moved(
    t: Tree,
    source: Seq<Seq<char>>,
    dest: Seq<Seq<char>>,
    name: Seq<char>,
    target: Seq<char>,
)
    requires
        ready(t, source, dest),
        kind_at(t, source.push(name)) == EntryKind::File,
        kind_at(t, dest.push(target)) != EntryKind::Dir,
    ensures
        moved(t, source.push(name), dest.push(target)) == file_taken(
            t,
            source.push(name),
            dest.push(target),
        ),
        ready(file_taken(t, source.push(name), dest.push(target)), source, dest),
{
    let from = source.push(name);
    let to = dest.push(target);
    let after = file_taken(t, from, to);
    lemma_entries_apart(source, dest, name, target);
    let there = moved(t, from, to);
    assert forall|p: Seq<Seq<char>>| #[trigger]
        there.nodes.dom().contains(p) == after.nodes.dom().contains(p) by {
        lemma_moved_pointwise(t, source, dest, name, target, p);
    }
    assert forall|p: Seq<Seq<char>>| there.nodes.dom().contains(p) implies #[trigger] there.nodes[p]
        == after.nodes[p] by {
        lemma_moved_pointwise(t, source, dest, name, target, p);
    }
    assert(there.nodes.dom() =~= after.nodes.dom());
    assert(there.nodes =~= after.nodes);
    assert(tree_wf(after)) by {
        assert forall|p: Seq<Seq<char>>, k: int|
            after.nodes.contains_key(p) && 0 < k < p.len() implies after.nodes.contains_key(
            #[trigger] p.take(k),
        ) && after.nodes[p.take(k)] is Dir by {
            if p == to {
                if k < dest.len() {
                    assert(to.take(k) =~= dest.take(k));
                } else {
                    assert(to.take(k) =~= dest);
                }
            }
            let q = p.take(k);
            assert(t.nodes.contains_key(q) && t.nodes[q] is Dir);
        }
    }
}

/// Taking a file elsewhere leaves every other place as it was.
pub proof fn lemma_file_taken_elsewhere(
    t: Tree,
    from: Seq<Seq<char>>,
    to: Seq<Seq<char>>,
    p: Seq<Seq<char>>,
)
    requires
        p != from,
        p != to,
    ensures
        file_taken(t, from, to).nodes.contains_key(p) == t.nodes.contains_key(p),
        t.nodes.contains_key(p) ==> file_taken(t, from, to).nodes[p] == t.nodes[p],
        kind_at(file_taken(t, from, to), p) == kind_at(t, p),
{
}

/// A fresh entry machine for `name` under `action`.
pub open spec fn fresh(name: Seq<char>, action: ReplaceAction) -> EntryMoveView {
    EntryMoveView { name, action, phase: EntryPhase::SourceKind }
}

/// How a fresh entry for `name` under `action` is settled on `t`.
pub open spec fn settled(
    t: Tree,
    source: Seq<Seq<char>>,
    dest: Seq<Seq<char>>,
    name: Seq<char>,
    action: ReplaceAction,
) -> (Tree, EntryOutcome) {
    settle(t, source, dest, fresh(name, action), EntryActionView::ProbeSource, enough_steps())
}

/// Under `Replace` a file goes onto its name in the destination, whatever
/// file is there.
pub proof fn lemma_replace_overwrites(
    t: Tree,
    source: Seq<Seq<char>>,
    dest: Seq<Seq<char>>,
    name: Seq<char>,
)
    requires
        ready(t, source, dest),
        kind_at(t, source.push(name)) == EntryKind::File,
        kind_at(t, dest.push(name)) != EntryKind::Dir,
    ensures
        settled(t, source, dest, name, ReplaceAction::Replace) == (
            file_taken(t, source.push(name), dest.push(name)),
            EntryOutcome::Moved,
        ),
{
    reveal_with_fuel(settle, 4);
    lemma_file_moved(t, source, dest, name, name);
    lemma_entries_apart(source, dest, name, name);
}

/// Under `Skip` a file whose name is taken in the destination stays, and
/// nothing changes.
pub proof fn lemma_skip_keeps(
    t: Tree,
    source: Seq<Seq<char>>,
    dest: Seq<Seq<char>>,
    name: Seq<char>,
)
    requires
        kind_at(t, source.push(name)) == EntryKind::File,
        t.nodes.contains_key(dest.push(name)),
    ensures
        settled(t, source, dest, name, ReplaceAction::Skip) == (t, EntryOutcome::Kept),
{
    reveal_with_fuel(settle, 4);
}

/// Under `CheckReplace` a file goes onto a file of its name that holds the
/// same bytes.
pub proof fn lemma_check_replace_merges_equal(
    t: Tree,
    source: Seq<Seq<char>>,
    dest: Seq<Seq<char>>,
    name: Seq<char>,
    x: Seq<u8>,
)
    requires
        ready(t, source, dest),
        holds(t, source, name, x),
        holds(t, dest, name, x),
    ensures
        settled(t, source, dest, name, ReplaceAction::CheckReplace) == (
            file_taken(t, source.push(name), dest.push(name)),
            EntryOutcome::Moved,
        ),
{
    reveal_with_fuel(settle, 5);
    lemma_file_moved(t, source, dest, name, name);
    lemma_entries_apart(source, dest, name, name);
}

/// A numbered candidate is never the name itself.
pub proof fn lemma_numbered_candidate_differs(name: Seq<char>, attempt: nat)
    requires
        extension_of(name) is Some,
        attempt > 0,
    ensures
        candidate_name(name, attempt) != name,
{
    lemma_stem_dot_extension(name);
    lemma_decimal_digits(attempt);
}

/// Under `Rename` a file with an extension whose name is taken by a file
/// with other bytes goes to the first numbered name, where that is free.
pub proof fn lemma_rename_goes_beside(
    t: Tree,
    source: Seq<Seq<char>>,
    dest: Seq<Seq<char>>,
    name: Seq<char>,
    x: Seq<u8>,
    y: Seq<u8>,
)
    requires
        ready(t, source, dest),
        holds(t, source, name, x),
        holds(t, dest, name, y),
        x != y,
        extension_of(name) is Some,
        !t.nodes.contains_key(dest.push(candidate_name(name, 1))),
    ensures
        settled(t, source, dest, name, ReplaceAction::Rename) == (
            file_taken(t, source.push(name), dest.push(candidate_name(name, 1))),
            EntryOutcome::Moved,
        ),
{
    reveal_with_fuel(settle, 7);
    lemma_first_candidate_is_name(name);
    lemma_file_moved(t, source, dest, name, candidate_name(name, 1));
    lemma_entries_apart(source, dest, name, candidate_name(name, 1));
    assert(Node::File(x) != Node::File(y));
}

/// The only listing of a directory with one entry names that entry.
pub proof fn lemma_listing_of_one(t: Tree, p: Seq<Seq<char>>, name: Seq<char>)
    requires
        forall|n: Seq<char>| t.nodes.contains_key(#[trigger] p.push(n)) <==> n == name,
    ensures
        listing(t, p) == seq![name],
{
    assert(is_listing(t, p, seq![name])) by {
        assert(seq![name][0] == name);
        assert forall|n: Seq<char>| seq![name].contains(n) <==> t.nodes.contains_key(
            p.push(n),
        ) by {
            if t.nodes.contains_key(p.push(n)) {
                assert(seq![name][0] == n);
            }
        }
    }
    let names = listing(t, p);
    assert(names.contains(name));
    assert(names.len() == 1) by {
        if names.len() > 1 {
            assert(names.contains(names[0]));
            assert(names.contains(names[1]));
            assert(t.nodes.contains_key(p.push(names[0])));
            assert(t.nodes.contains_key(p.push(names[1])));
        }
    }
    assert(names.contains(names[0]));
    assert(t.nodes.contains_key(p.push(names[0])));
    assert(names =~= seq![name]);
}

/// A listing of a directory with two entries names them in one order or the other.
pub proof fn lemma_listing_of_two(t: Tree, p: Seq<Seq<char>>, a: Seq<char>, b: Seq<char>)
    requires
        a != b,
        forall|n: Seq<char>| t.nodes.contains_key(#[trigger] p.push(n)) <==> n == a || n == b,
    ensures
        listing(t, p) == seq![a, b] || listing(t, p) == seq![b, a],
{
    let both = seq![a, b];
    assert(is_listing(t, p, both)) by {
        assert(both[0] == a && both[1] == b);
        assert forall|n: Seq<char>| both.contains(n) <==> t.nodes.contains_key(p.push(n)) by {
            if n == a {
                assert(both[0] == n);
            }
            if n == b {
                assert(both[1] == n);
            }
        }
    }
    let names = listing(t, p);
    assert(names.contains(a) && names.contains(b));
    let i = choose|i: int| 0 <= i < names.len() && names[i] == a;
    let j = choose|j: int| 0 <= j < names.len() && names[j] == b;
    assert(names.len() == 2) by {
        if names.len() > 2 {
            assert(names.contains(names[0]));
            assert(names.contains(names[1]));
            assert(names.contains(names[2]));
            assert(t.nodes.contains_key(p.push(names[0])));
            assert(t.nodes.contains_key(p.push(names[1])));
            assert(t.nodes.contains_key(p.push(names[2])));
        }
    }
    if i == 0 {
        assert(names =~= seq![a, b]);
    } else {
        assert(names =~= seq![b, a]);
    }
}

/// The reports of entries that were all moved hold no failure and defer nothing.
pub proof fn lemma_all_moved(task: TaskView, reports: Seq<ReportView>)
    requires
        forall|i: int| 0 <= i < reports.len() ==> (#[trigger] reports[i]).outcome != EntryOutcome::Deferred
            && !(reports[i].outcome is Failed),
    ensures
        first_failure(reports) is None,
        deferred_tasks(task, reports) == Seq::<TaskView>::empty(),
    decreases reports.len(),
{
    if reports.len() > 0 {
        assert forall|i: int| 0 <= i < reports.drop_last().len() implies (
        #[trigger] reports.drop_last()[i]).outcome != EntryOutcome::Deferred && !(
        reports.drop_last()[i].outcome is Failed) by {
            assert(reports.drop_last()[i] == reports[i]);
        }
        lemma_all_moved(task, reports.drop_last());
        assert(reports.last() == reports[reports.len() - 1]);
    }
}

/// The file system and the result of a merge of `source` into `dest`, both
/// directories, whose entries are settled as `settled_tree` and `reports`
/// say, none failing and none deferred, under a default other than `Skip`:
/// the source is removed and the merge succeeds.
pub proof fn lemma_merge_of_settled(
    t: Tree,
    source: Seq<Seq<char>>,
    dest: Seq<Seq<char>>,
    policy: PolicyView,
    steps: nat,
)
    requires
        kind_at(t, source) == EntryKind::Dir,
        kind_at(t, dest) == EntryKind::Dir,
        source != dest,
        policy.default != ReplaceAction::Skip,
        steps >= 5,
        ({
            let reports = settle_all(t, source, dest, entries_for(policy, listing(t, source))).1;
            forall|i: int|
                0 <= i < reports.len() ==> (#[trigger] reports[i]).outcome
                    != EntryOutcome::Deferred && !(reports[i].outcome is Failed)
        }),
    ensures
        merge(t, source, dest, policy, steps) == (
            removed(
                settle_all(t, source, dest, entries_for(policy, listing(t, source))).0,
                source,
            ),
            Some(Ok::<(), MergeError>(())),
        ),
{
    reveal_with_fuel(run, 7);
    let reports = settle_all(t, source, dest, entries_for(policy, listing(t, source))).1;
    lemma_all_moved(TaskView { source, dest }, reports);
    let m0 = engine_start(source, dest, policy).0;
    assert(m0.queue + Seq::<TaskView>::empty() =~= m0.queue);
}

/// Skip preserves source and destination. With a source that holds one
/// file and a destination that holds something of the same name, a merge
/// under a policy that skips this file and has the default `Skip` succeeds
/// and changes nothing: the destination keeps what it held and the source
/// keeps its file.
pub proof fn law_skip_changes_nothing(
    t: Tree,
    source: Seq<Seq<char>>,
    dest: Seq<Seq<char>>,
    policy: PolicyView,
    name: Seq<char>,
    x: Seq<u8>,
    steps: nat,
)
    requires
        ready(t, source, dest),
        forall|n: Seq<char>| t.nodes.contains_key(#[trigger] source.push(n)) <==> n == name,
        holds(t, source, name, x),
        t.nodes.contains_key(dest.push(name)),
        resolve(policy, name) == ReplaceAction::Skip,
        policy.default == ReplaceAction::Skip,
        steps >= 6,
    ensures
        merge(t, source, dest, policy, steps) == (t, Some(Ok::<(), MergeError>(()))),
{
    reveal_with_fuel(run, 7);
    reveal_with_fuel(settle_all, 3);
    lemma_listing_of_one(t, source, name);
    lemma_skip_keeps(t, source, dest, name);
    assert(source != dest);
    let entries = entries_for(policy, seq![name]);
    assert(entries =~= seq![fresh(name, ReplaceAction::Skip)]);
    assert(entries.drop_first() =~= Seq::<EntryMoveView>::empty());
    let outcome = settle_all(t, source, dest, entries);
    assert(outcome.0 == t);
    let reports = seq![ReportView { name, outcome: EntryOutcome::Kept }];
    assert(outcome.1 =~= reports);
    lemma_all_moved(TaskView { source, dest }, reports);
    assert(holds_file(t, source)) by {
        let q = source.push(name);
        assert(under(q, source)) by {
            assert(source =~= q.subrange(0, source.len() as int));
        }
        assert(t.nodes[q] is File);
    }
    let m0 = engine_start(source, dest, policy).0;
    assert(m0.queue + Seq::<TaskView>::empty() =~= m0.queue);
}

/// Between `t` and `after` the one file of the source went to `to`: the
/// file with the bytes `x` lies at `to`, nothing lies at or under `source`,
/// and everything else is what it was.
pub open spec fn drained_into(
    t: Tree,
    after: Tree,
    source: Seq<Seq<char>>,
    to: Seq<Seq<char>>,
    x: Seq<u8>,
) -> bool {
    &&& after.nodes.contains_key(to)
    &&& after.nodes[to] == Node::File(x)
    &&& forall|p: Seq<Seq<char>>| #[trigger] under(p, source) ==> !after.nodes.contains_key(p)
    &&& forall|p: Seq<Seq<char>>|
        !under(p, source) && p != to ==> #[trigger] after.nodes.contains_key(p)
            == t.nodes.contains_key(p) && (t.nodes.contains_key(p) ==> after.nodes[p]
            == t.nodes[p])
}

/// A merge that takes the one file of the source to `target` and removes
/// the source drains the source into that place.
proof fn lemma_one_file_drained(
    t: Tree,
    source: Seq<Seq<char>>,
    dest: Seq<Seq<char>>,
    name: Seq<char>,
    x: Seq<u8>,
    target: Seq<char>,
)
    requires
        ready(t, source, dest),
        holds(t, source, name, x),
    ensures
        drained_into(
            t,
            removed(file_taken(t, source.push(name), dest.push(target)), source),
            source,
            dest.push(target),
            x,
        ),
{
    let from = source.push(name);
    let to = dest.push(target);
    let mid = file_taken(t, from, to);
    let after = removed(mid, source);
    lemma_entries_apart(source, dest, name, target);
    assert(under(from, source)) by {
        assert(source =~= from.subrange(0, source.len() as int));
    }
    assert(after.nodes.contains_key(to) && after.nodes[to] == Node::File(x));
    assert forall|p: Seq<Seq<char>>| #[trigger] under(p, source) implies !after.nodes.contains_key(
        p,
    ) by {}
    assert forall|p: Seq<Seq<char>>| !under(p, source) && p != to implies #[trigger] after.nodes.contains_key(
        p,
    ) == t.nodes.contains_key(p) && (t.nodes.contains_key(p) ==> after.nodes[p] == t.nodes[p]) by {
        lemma_file_taken_elsewhere(t, from, to, p);
    }
    assert(drained_into(t, after, source, to, x));
}

/// Rename disambiguation. With a source that holds one file with an
/// extension, a destination that holds a different file of the same name
/// and nothing at the first numbered name, a merge under a policy that
/// renames this file and has a default other than `Skip` succeeds; the
/// destination keeps its file, the source's file lies beside it under the
/// first numbered name, the source is gone, and nothing else has changed.
pub proof fn law_rename_puts_beside(
    t: Tree,
    source: Seq<Seq<char>>,
    dest: Seq<Seq<char>>,
    policy: PolicyView,
    name: Seq<char>,
    x: Seq<u8>,
    y: Seq<u8>,
    steps: nat,
)
    requires
        ready(t, source, dest),
        forall|n: Seq<char>| t.nodes.contains_key(#[trigger] source.push(n)) <==> n == name,
        holds(t, source, name, x),
        holds(t, dest, name, y),
        x != y,
        extension_of(name) is Some,
        !t.nodes.contains_key(dest.push(candidate_name(name, 1))),
        resolve(policy, name) == ReplaceAction::Rename,
        policy.default != ReplaceAction::Skip,
        steps >= 6,
    ensures
        merge(t, source, dest, policy, steps).1 == Some(Ok::<(), MergeError>(())),
        holds(merge(t, source, dest, policy, steps).0, dest, name, y),
        drained_into(
            t,
            merge(t, source, dest, policy, steps).0,
            source,
            dest.push(candidate_name(name, 1)),
            x,
        ),
{
    let numbered = candidate_name(name, 1);
    reveal_with_fuel(settle_all, 3);
    lemma_listing_of_one(t, source, name);
    lemma_rename_goes_beside(t, source, dest, name, x, y);
    lemma_numbered_candidate_differs(name, 1);
    lemma_one_file_drained(t, source, dest, name, x, numbered);
    lemma_entries_apart(source, dest, name, name);
    lemma_siblings_apart(dest, name, numbered);
    let entries = entries_for(policy, seq![name]);
    assert(entries =~= seq![fresh(name, ReplaceAction::Rename)]);
    assert(entries.drop_first() =~= Seq::<EntryMoveView>::empty());
    let mid = file_taken(t, source.push(name), dest.push(numbered));
    let outcome = settle_all(t, source, dest, entries);
    assert(outcome.0 == mid);
    assert(outcome.1 =~= seq![ReportView { name, outcome: EntryOutcome::Moved }]);
    lemma_merge_of_settled(t, source, dest, policy, steps);
}

/// Content-equal collapse. With a source that holds one file and a
/// destination that holds a file of the same name and the same bytes, a
/// merge under a policy that checks this file and has a default other than
/// `Skip` succeeds; the destination holds the file once, under its name,
/// the source is gone, and nothing else has changed: no numbered name is made.
pub proof fn law_check_replace_keeps_one(
    t: Tree,
    source: Seq<Seq<char>>,
    dest: Seq<Seq<char>>,
    policy: PolicyView,
    name: Seq<char>,
    x: Seq<u8>,
    steps: nat,
)
    requires
        ready(t, source, dest),
        forall|n: Seq<char>| t.nodes.contains_key(#[trigger] source.push(n)) <==> n == name,
        holds(t, source, name, x),
        holds(t, dest, name, x),
        resolve(policy, name) == ReplaceAction::CheckReplace,
        policy.default != ReplaceAction::Skip,
        steps >= 6,
    ensures
        merge(t, source, dest, policy, steps).1 == Some(Ok::<(), MergeError>(())),
        drained_into(t, merge(t, source, dest, policy, steps).0, source, dest.push(name), x),
        forall|p: Seq<Seq<char>>|
            !under(p, source) ==> #[trigger] merge(
                t,
                source,
                dest,
                policy,
                steps,
            ).0.nodes.contains_key(p) == t.nodes.contains_key(p),
{
    reveal_with_fuel(settle_all, 3);
    lemma_listing_of_one(t, source, name);
    lemma_check_replace_merges_equal(t, source, dest, name, x);
    lemma_one_file_drained(t, source, dest, name, x, name);
    let entries = entries_for(policy, seq![name]);
    assert(entries =~= seq![fresh(name, ReplaceAction::CheckReplace)]);
    assert(entries.drop_first() =~= Seq::<EntryMoveView>::empty());
    let mid = file_taken(t, source.push(name), dest.push(name));
    let outcome = settle_all(t, source, dest, entries);
    assert(outcome.0 == mid);
    assert(outcome.1 =~= seq![ReportView { name, outcome: EntryOutcome::Moved }]);
    lemma_merge_of_settled(t, source, dest, policy, steps);
}

/// Extension-specific override. With a source that holds two files whose
/// names are both taken in the destination, one with an extension that the
/// policy renames and one that falls under the default `Replace`, a merge
/// succeeds; the first lies beside the file that held its name, under the
/// first numbered name, the second has replaced the file that held its
/// name, and the source is gone. This holds in whichever order the file
/// system names the two.
pub proof fn law_override_beats_default(
    t: Tree,
    source: Seq<Seq<char>>,
    dest: Seq<Seq<char>>,
    policy: PolicyView,
    renamed: Seq<char>,
    x: Seq<u8>,
    y: Seq<u8>,
    replaced: Seq<char>,
    z: Seq<u8>,
    steps: nat,
)
    requires
        ready(t, source, dest),
        renamed != replaced,
        forall|n: Seq<char>|
            t.nodes.contains_key(#[trigger] source.push(n)) <==> n == renamed || n == replaced,
        holds(t, source, renamed, x),
        holds(t, dest, renamed, y),
        x != y,
        extension_of(renamed) is Some,
        !t.nodes.contains_key(dest.push(candidate_name(renamed, 1))),
        candidate_name(renamed, 1) != replaced,
        holds(t, source, replaced, z),
        kind_at(t, dest.push(replaced)) == EntryKind::File,
        resolve(policy, renamed) == ReplaceAction::Rename,
        resolve(policy, replaced) == ReplaceAction::Replace,
        policy.default == ReplaceAction::Replace,
        steps >= 6,
    ensures
        merge(t, source, dest, policy, steps).1 == Some(Ok::<(), MergeError>(())),
        ({
            let after = merge(t, source, dest, policy, steps).0;
            &&& holds(after, dest, renamed, y)
            &&& holds(after, dest, candidate_name(renamed, 1), x)
            &&& holds(after, dest, replaced, z)
            &&& forall|p: Seq<Seq<char>>| #[trigger] under(p, source) ==> !after.nodes.contains_key(p)
        }),
{
    let numbered = candidate_name(renamed, 1);
    let a = source.push(renamed);
    let b = source.push(replaced);
    let a_to = dest.push(numbered);
    let b_to = dest.push(replaced);
    reveal_with_fuel(settle_all, 4);
    lemma_listing_of_two(t, source, renamed, replaced);
    lemma_numbered_candidate_differs(renamed, 1);
    lemma_entries_apart(source, dest, renamed, renamed);
    lemma_entries_apart(source, dest, renamed, numbered);
    lemma_entries_apart(source, dest, renamed, replaced);
    lemma_entries_apart(source, dest, replaced, renamed);
    lemma_entries_apart(source, dest, replaced, numbered);
    lemma_entries_apart(source, dest, replaced, replaced);
    lemma_siblings_apart(source, renamed, replaced);
    lemma_siblings_apart(dest, renamed, replaced);
    lemma_siblings_apart(dest, renamed, numbered);
    lemma_siblings_apart(dest, numbered, replaced);
    let first = fresh(renamed, ReplaceAction::Rename);
    let second = fresh(replaced, ReplaceAction::Replace);
    let after = if listing(t, source) == seq![renamed, replaced] {
        let t1 = file_taken(t, a, a_to);
        lemma_rename_goes_beside(t, source, dest, renamed, x, y);
        lemma_file_moved(t, source, dest, renamed, numbered);
        lemma_file_taken_elsewhere(t, a, a_to, b);
        lemma_file_taken_elsewhere(t, a, a_to, b_to);
        lemma_replace_overwrites(t1, source, dest, replaced);
        let t2 = file_taken(t1, b, b_to);
        let entries = entries_for(policy, seq![renamed, replaced]);
        assert(entries =~= seq![first, second]);
        assert(entries.drop_first() =~= seq![second]);
        assert(entries.drop_first().drop_first() =~= Seq::<EntryMoveView>::empty());
        let outcome = settle_all(t, source, dest, entries);
        assert(outcome.0 == t2);
        assert(outcome.1 =~= seq![
            ReportView { name: renamed, outcome: EntryOutcome::Moved },
            ReportView { name: replaced, outcome: EntryOutcome::Moved },
        ]);
        t2
    } else {
        let t1 = file_taken(t, b, b_to);
        lemma_replace_overwrites(t, source, dest, replaced);
        lemma_file_moved(t, source, dest, replaced, replaced);
        lemma_file_taken_elsewhere(t, b, b_to, a);
        lemma_file_taken_elsewhere(t, b, b_to, dest.push(renamed));
        lemma_file_taken_elsewhere(t, b, b_to, a_to);
        lemma_rename_goes_beside(t1, source, dest, renamed, x, y);
        let t2 = file_taken(t1, a, a_to);
        let entries = entries_for(policy, seq![replaced, renamed]);
        assert(entries =~= seq![second, first]);
        assert(entries.drop_first() =~= seq![first]);
        assert(entries.drop_first().drop_first() =~= Seq::<EntryMoveView>::empty());
        let outcome = settle_all(t, source, dest, entries);
        assert(outcome.0 == t2);
        assert(outcome.1 =~= seq![
            ReportView { name: replaced, outcome: EntryOutcome::Moved },
            ReportView { name: renamed, outcome: EntryOutcome::Moved },
        ]);
        t2
    };
    lemma_merge_of_settled(t, source, dest, policy, steps);
    assert(merge(t, source, dest, policy, steps).0 == removed(after, source));
}

} // verus!
