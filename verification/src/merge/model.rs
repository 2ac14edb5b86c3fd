//! A file system to run merges on.
//!
//! The machines of this crate ask for operations and never perform one. To
//! say what a merge does to the files, this module describes a file system
//! as a mathematical value, says how it answers each operation, and lets a
//! merge run on it to its end. The file system here is a quiet one: nothing
//! else changes it, and an operation fails only where what it asks for
//! cannot be done.

use crate::merge::engine::{
    engine_start, engine_step, EngineView, MergeActionView, MergeEventView, ReportView,
};
use crate::merge::entry::{
    entry_step, EntryActionView, EntryEvent, EntryMoveView, EntryOutcome, EntryPhase,
};
use crate::merge::{EntryKind, MergeError};
use crate::path::under;
use crate::policy::PolicyView;
use vstd::prelude::*;

verus! {

/// What a path holds.
pub enum Node {
    /// A regular file with these bytes.
    File(Seq<u8>),
    /// A directory.
    Dir,
}

/// A file system: what each path holds. A path that holds nothing is missing.
pub struct Tree {
    pub nodes: Map<Seq<Seq<char>>, Node>,
}

/// The error code with which the model refuses an operation.
pub open spec fn refusal() -> i32 {
    1
}

/// Every path that holds something lies in directories: each of its proper
/// beginnings, from one component on, holds a directory.
pub open spec fn tree_wf(t: Tree) -> bool {
    forall|p: Seq<Seq<char>>, k: int|
        t.nodes.contains_key(p) && 0 < k < p.len() ==> t.nodes.contains_key(#[trigger] p.take(k))
            && t.nodes[p.take(k)] is Dir
}

/// What `p` is.
pub open spec fn kind_at(t: Tree, p: Seq<Seq<char>>) -> EntryKind {
    if !t.nodes.contains_key(p) {
        EntryKind::Missing
    } else {
        match t.nodes[p] {
            Node::File(_) => EntryKind::File,
            Node::Dir => EntryKind::Dir,
        }
    }
}

/// Something can be put at `p`: `p` has a name and lies in a directory, or
/// is a name at the top.
pub open spec fn can_hold(t: Tree, p: Seq<Seq<char>>) -> bool {
    p.len() == 1 || (p.len() > 1 && kind_at(t, p.drop_last()) == EntryKind::Dir)
}

/// The place under `to` that mirrors the place `p` under `from`.
pub open spec fn rebased(p: Seq<Seq<char>>, from: Seq<Seq<char>>, to: Seq<Seq<char>>) -> Seq<
    Seq<char>,
> {
    to + p.skip(from.len() as int)
}

/// The file system after `from`, with all under it, was moved to `to`,
/// replacing what was at and under `to`.
pub open spec fn moved(t: Tree, from: Seq<Seq<char>>, to: Seq<Seq<char>>) -> Tree {
    Tree {
        nodes: Map::new(
            |p: Seq<Seq<char>>|
                if under(p, to) {
                    t.nodes.contains_key(rebased(p, to, from))
                } else {
                    t.nodes.contains_key(p) && !under(p, from)
                },
            |p: Seq<Seq<char>>|
                if under(p, to) {
                    t.nodes[rebased(p, to, from)]
                } else {
                    t.nodes[p]
                },
        ),
    }
}

/// The file system after `p`, with all under it, was removed.
pub open spec fn removed(t: Tree, p: Seq<Seq<char>>) -> Tree {
    Tree { nodes: t.nodes.restrict(Set::new(|q: Seq<Seq<char>>| !under(q, p))) }
}

/// Whether a regular file lies at or under `p`.
pub open spec fn holds_file(t: Tree, p: Seq<Seq<char>>) -> bool {
    exists|q: Seq<Seq<char>>| under(q, p) && t.nodes.contains_key(q) && #[trigger] t.nodes[q] is File
}

/// Whether the file system holds `node` at some place.
pub open spec fn holds_somewhere(t: Tree, node: Node) -> bool {
    exists|p: Seq<Seq<char>>| #[trigger] t.nodes.contains_key(p) && t.nodes[p] == node
}

/// `names` names each entry of the directory `p` once.
pub open spec fn is_listing(t: Tree, p: Seq<Seq<char>>, names: Seq<Seq<char>>) -> bool {
    &&& names.no_duplicates()
    &&& forall|n: Seq<char>| names.contains(n) <==> t.nodes.contains_key(p.push(n))
}

/// The entries of the directory `p`, in the order in which the file system names them.
pub open spec fn listing(t: Tree, p: Seq<Seq<char>>) -> Seq<Seq<char>> {
    choose|names: Seq<Seq<char>>| is_listing(t, p, names)
}

/// How the file system answers an operation on the entry at `source` that
/// is to go to the directory `dest_dir`, and what it is afterwards.
///
/// A move takes the entry, with all under it, to its new name and replaces
/// what was there; it is refused where the entry is missing, where a
/// directory is in the way, and where the new name lies in no directory. A
/// comparison is refused unless both sides are regular files. A removal is
/// refused unless the entry is a regular file.
pub open spec fn entry_answer(
    t: Tree,
    source: Seq<Seq<char>>,
    dest_dir: Seq<Seq<char>>,
    action: EntryActionView,
) -> (Tree, EntryEvent) {
    match action {
        EntryActionView::ProbeSource => (t, EntryEvent::Kind(kind_at(t, source))),
        EntryActionView::ProbeDest(name) => (t, EntryEvent::Kind(kind_at(t, dest_dir.push(name)))),
        EntryActionView::Compare(name) => {
            let other = dest_dir.push(name);
            if kind_at(t, source) == EntryKind::File && kind_at(t, other) == EntryKind::File {
                (t, EntryEvent::Same(t.nodes[source] == t.nodes[other]))
            } else {
                (t, EntryEvent::Failed(refusal()))
            }
        },
        EntryActionView::Move(name) => {
            let to = dest_dir.push(name);
            if kind_at(t, source) == EntryKind::Missing || kind_at(t, to) == EntryKind::Dir
                || under(to, source) || !can_hold(t, to) {
                (t, EntryEvent::Failed(refusal()))
            } else {
                (moved(t, source, to), EntryEvent::Completed)
            }
        },
        EntryActionView::RemoveSource => {
            if kind_at(t, source) == EntryKind::File {
                (removed(t, source), EntryEvent::Completed)
            } else {
                (t, EntryEvent::Failed(refusal()))
            }
        },
        EntryActionView::Done(_) => (t, EntryEvent::Completed),
    }
}

/// The file system after the entry machine `m`, which has asked for
/// `action`, has run to its end, and how the entry was settled. `steps`
/// bounds the run.
pub open spec fn settle(
    t: Tree,
    source_dir: Seq<Seq<char>>,
    dest_dir: Seq<Seq<char>>,
    m: EntryMoveView,
    action: EntryActionView,
    steps: nat,
) -> (Tree, EntryOutcome)
    decreases steps,
{
    match action {
        EntryActionView::Done(outcome) => (t, outcome),
        _ => if steps == 0 {
            (t, EntryOutcome::Failed(MergeError::UnexpectedEvent))
        } else {
            let (t2, event) = entry_answer(t, source_dir.push(m.name), dest_dir, action);
            let (m2, next) = entry_step(m, event);
            settle(t2, source_dir, dest_dir, m2, next, (steps - 1) as nat)
        },
    }
}

/// The number of steps that lets every entry run to its end.
pub open spec fn enough_steps() -> nat {
    0x2_0000_0000_0000_0010
}

/// The file system after the entries were settled one after the other, and
/// the reports of how each was settled.
pub open spec fn settle_all(
    t: Tree,
    source_dir: Seq<Seq<char>>,
    dest_dir: Seq<Seq<char>>,
    entries: Seq<EntryMoveView>,
) -> (Tree, Seq<ReportView>)
    decreases entries.len(),
{
    if entries.len() == 0 {
        (t, Seq::empty())
    } else {
        let first = entries[0];
        let (t1, outcome) = settle(
            t,
            source_dir,
            dest_dir,
            first,
            EntryActionView::ProbeSource,
            enough_steps(),
        );
        let (t2, rest) = settle_all(t1, source_dir, dest_dir, entries.drop_first());
        (t2, seq![ReportView { name: first.name, outcome }] + rest)
    }
}

/// An entry machine and the operation it has asked for fit together: the
/// operation is `Done` exactly when the machine has finished.
pub open spec fn in_step(m: EntryMoveView, action: EntryActionView) -> bool {
    action is Done <==> m.phase == EntryPhase::Finished
}

/// A step leaves machine and operation fitting together.
pub proof fn lemma_step_stays_in_step(m: EntryMoveView, e: EntryEvent)
    ensures
        in_step(entry_step(m, e).0, entry_step(m, e).1),
{
}

/// The bound on the steps of an entry never cuts a run short: with at least
/// as many steps as the entry's budget, the run ends the same way however
/// many steps it is given.
pub proof fn law_settle_needs_no_more_steps(
    t: Tree,
    source_dir: Seq<Seq<char>>,
    dest_dir: Seq<Seq<char>>,
    m: EntryMoveView,
    action: EntryActionView,
    steps: nat,
    more: nat,
)
    requires
        in_step(m, action),
        steps >= crate::merge::laws::entry_budget(m.phase),
        more >= steps,
    ensures
        settle(t, source_dir, dest_dir, m, action, steps) == settle(
            t,
            source_dir,
            dest_dir,
            m,
            action,
            more,
        ),
    decreases steps,
{
    match action {
        EntryActionView::Done(_) => {},
        _ => {
            let (t2, event) = entry_answer(t, source_dir.push(m.name), dest_dir, action);
            let (m2, next) = entry_step(m, event);
            crate::merge::laws::law_entry_terminates(m, event);
            lemma_step_stays_in_step(m, event);
            law_settle_needs_no_more_steps(
                t2,
                source_dir,
                dest_dir,
                m2,
                next,
                (steps - 1) as nat,
                (more - 1) as nat,
            );
        },
    }
}

/// Every entry is settled: the steps the model gives a fresh entry are
/// enough for it to run to its end, whatever the file system is.
pub proof fn law_every_entry_is_settled(
    t: Tree,
    source_dir: Seq<Seq<char>>,
    dest_dir: Seq<Seq<char>>,
    entry: EntryMoveView,
    more: nat,
)
    requires
        entry.phase == EntryPhase::SourceKind,
        more >= enough_steps(),
    ensures
        settle(t, source_dir, dest_dir, entry, EntryActionView::ProbeSource, enough_steps())
            == settle(t, source_dir, dest_dir, entry, EntryActionView::ProbeSource, more),
{
    law_settle_needs_no_more_steps(
        t,
        source_dir,
        dest_dir,
        entry,
        EntryActionView::ProbeSource,
        enough_steps(),
        more,
    );
}

/// How the file system answers an operation of the engine, and what it is
/// afterwards.
///
/// The whole source is moved only onto a missing destination outside
/// itself that lies in a directory. Only a directory is listed. A removal
/// takes what is there and succeeds.
pub open spec fn answer(t: Tree, action: MergeActionView) -> (Tree, MergeEventView) {
    match action {
        MergeActionView::Probe(p) => (t, MergeEventView::Kind(kind_at(t, p))),
        MergeActionView::MoveTree { from, to } => {
            if kind_at(t, from) == EntryKind::Dir && kind_at(t, to) == EntryKind::Missing && !under(
                to,
                from,
            ) && can_hold(t, to) {
                (moved(t, from, to), MergeEventView::Completed)
            } else {
                (t, MergeEventView::Failed(refusal()))
            }
        },
        MergeActionView::List(p) => {
            if kind_at(t, p) == EntryKind::Dir {
                (t, MergeEventView::Listed(listing(t, p)))
            } else {
                (t, MergeEventView::Failed(refusal()))
            }
        },
        MergeActionView::Resolve { source, dest, entries } => {
            let (t2, reports) = settle_all(t, source, dest, entries);
            (t2, MergeEventView::Resolved(reports))
        },
        MergeActionView::HasFiles(p) => (t, MergeEventView::HasFiles(holds_file(t, p))),
        MergeActionView::RemoveTree(p) => (removed(t, p), MergeEventView::Completed),
        MergeActionView::Finish(_) => (t, MergeEventView::Completed),
    }
}

/// The file system after the engine `m`, which has asked for `action`, has
/// run for at most `steps` operations, and the result of the merge if it
/// has ended by then.
pub open spec fn run(t: Tree, m: EngineView, action: MergeActionView, steps: nat) -> (
    Tree,
    Option<Result<(), MergeError>>,
)
    decreases steps,
{
    match action {
        MergeActionView::Finish(result) => (t, Some(result)),
        _ => if steps == 0 {
            (t, None)
        } else {
            let (t2, event) = answer(t, action);
            let (m2, next) = engine_step(m, event);
            run(t2, m2, next, (steps - 1) as nat)
        },
    }
}

/// The file system after a merge of `source` into `dest` under `policy` that
/// may take `steps` operations, and the result of the merge if it has ended
/// by then.
pub open spec fn merge(
    t: Tree,
    source: Seq<Seq<char>>,
    dest: Seq<Seq<char>>,
    policy: PolicyView,
    steps: nat,
) -> (Tree, Option<Result<(), MergeError>>) {
    let (m, action) = engine_start(source, dest, policy);
    run(t, m, action, steps)
}

/// Merging a directory into itself never changes anything: the merge ends
/// with success and the file system is what it was.
pub proof fn law_merge_into_itself(t: Tree, path: Seq<Seq<char>>, policy: PolicyView, steps: nat)
    ensures
        merge(t, path, path, policy, steps) == (t, Some(Ok::<(), MergeError>(()))),
{
}

/// Merging from a source that does not exist, or that is no directory,
/// succeeds and leaves the file system, and so the destination, as it was.
pub proof fn law_merge_from_nothing(
    t: Tree,
    source: Seq<Seq<char>>,
    dest: Seq<Seq<char>>,
    policy: PolicyView,
    steps: nat,
)
    requires
        kind_at(t, source) != EntryKind::Dir,
        steps >= 1,
    ensures
        merge(t, source, dest, policy, steps) == (t, Some(Ok::<(), MergeError>(()))),
{
    reveal_with_fuel(run, 2);
}

/// Merging into a destination that does not exist, but can be made where it
/// is to lie: afterwards the destination holds exactly what the source
/// held, byte for byte, the source no longer exists, and nothing else has
/// changed.
pub proof fn law_merge_into_nothing(
    t: Tree,
    source: Seq<Seq<char>>,
    dest: Seq<Seq<char>>,
    policy: PolicyView,
    steps: nat,
)
    requires
        tree_wf(t),
        kind_at(t, source) == EntryKind::Dir,
        kind_at(t, dest) == EntryKind::Missing,
        can_hold(t, dest),
        !under(dest, source),
        steps >= 3,
    ensures
        merge(t, source, dest, policy, steps).1 == Some(Ok::<(), MergeError>(())),
        ({
            let after = merge(t, source, dest, policy, steps).0;
            &&& forall|rel: Seq<Seq<char>>|
                after.nodes.contains_key(#[trigger] (dest + rel)) == t.nodes.contains_key(
                    source + rel,
                ) && (t.nodes.contains_key(source + rel) ==> after.nodes[dest + rel]
                    == t.nodes[source + rel])
            &&& forall|p: Seq<Seq<char>>| #[trigger]
                under(p, source) ==> !after.nodes.contains_key(p)
            &&& forall|p: Seq<Seq<char>>|
                !under(p, source) && !#[trigger] under(p, dest) ==> after.nodes.contains_key(p)
                    == t.nodes.contains_key(p) && (t.nodes.contains_key(p) ==> after.nodes[p]
                    == t.nodes[p])
        }),
{
    reveal_with_fuel(run, 4);
    assert(source != dest);
    let after = moved(t, source, dest);
    assert(merge(t, source, dest, policy, steps).0 == after);
    assert forall|rel: Seq<Seq<char>>|
        after.nodes.contains_key(#[trigger] (dest + rel)) == t.nodes.contains_key(source + rel)
            && (t.nodes.contains_key(source + rel) ==> after.nodes[dest + rel] == t.nodes[source
            + rel]) by {
        assert(dest.is_prefix_of(dest + rel)) by {
            assert((dest + rel).subrange(0, dest.len() as int) =~= dest);
        }
        assert(rebased(dest + rel, dest, source) =~= source + rel);
    }
    assert forall|p: Seq<Seq<char>>| #[trigger] under(p, source) implies !after.nodes.contains_key(
        p,
    ) by {
        if under(p, dest) {
            lemma_prefixes_nest(p, source, dest);
            assert(under(source, dest));
            assert(source.take(dest.len() as int) =~= dest);
            assert(dest.len() < source.len());
        }
    }
}

/// Two beginnings of one path: one is a beginning of the other.
pub proof fn lemma_prefixes_nest(p: Seq<Seq<char>>, a: Seq<Seq<char>>, b: Seq<Seq<char>>)
    requires
        under(p, a),
        under(p, b),
    ensures
        under(a, b) || under(b, a),
{
    if a.len() <= b.len() {
        assert(a =~= b.subrange(0, a.len() as int)) by {
            assert(a =~= p.subrange(0, a.len() as int));
            assert(b =~= p.subrange(0, b.len() as int));
        }
    } else {
        assert(b =~= a.subrange(0, b.len() as int)) by {
            assert(a =~= p.subrange(0, a.len() as int));
            assert(b =~= p.subrange(0, b.len() as int));
        }
    }
}

/// The directory `p` has no entries.
pub open spec fn is_empty_dir(t: Tree, p: Seq<Seq<char>>) -> bool {
    kind_at(t, p) == EntryKind::Dir && forall|n: Seq<char>| !t.nodes.contains_key(#[trigger] p.push(n))
}

/// In an empty directory nothing lies but the directory itself.
pub proof fn lemma_empty_dir_holds_nothing(t: Tree, p: Seq<Seq<char>>, q: Seq<Seq<char>>)
    requires
        tree_wf(t),
        is_empty_dir(t, p),
        under(q, p),
        t.nodes.contains_key(q),
    ensures
        q == p,
{
    if q.len() > p.len() {
        let k = p.len() as int + 1;
        let first = q.take(k);
        assert(first =~= p.push(q[p.len() as int])) by {
            assert(p =~= q.subrange(0, p.len() as int));
        }
        if k < q.len() {
            assert(t.nodes.contains_key(q.take(k)));
        } else {
            assert(q.take(k) =~= q);
        }
        assert(t.nodes.contains_key(p.push(q[p.len() as int])));
    } else {
        assert(p =~= q.subrange(0, p.len() as int));
        assert(q =~= p);
    }
}

/// The only listing of an empty directory is the empty one.
pub proof fn lemma_listing_of_empty(t: Tree, p: Seq<Seq<char>>)
    requires
        is_empty_dir(t, p),
    ensures
        listing(t, p) == Seq::<Seq<char>>::empty(),
{
    assert(is_listing(t, p, Seq::<Seq<char>>::empty()));
    let names = listing(t, p);
    if names.len() > 0 {
        assert(names.contains(names[0]));
        assert(t.nodes.contains_key(p.push(names[0])));
    }
    assert(names =~= Seq::<Seq<char>>::empty());
}

/// Merging again after a merge has drained the source is a no-op for the
/// destination. With a source that is gone, or that is left as an empty
/// directory, and a destination that is a directory, the merge succeeds;
/// all it does is remove the empty source; whatever lies outside the source
/// is what it was.
pub proof fn law_merge_again(
    t: Tree,
    source: Seq<Seq<char>>,
    dest: Seq<Seq<char>>,
    policy: PolicyView,
    steps: nat,
)
    requires
        tree_wf(t),
        kind_at(t, source) != EntryKind::Dir || is_empty_dir(t, source),
        kind_at(t, dest) == EntryKind::Dir,
        steps >= 7,
    ensures
        merge(t, source, dest, policy, steps).1 == Some(Ok::<(), MergeError>(())),
        merge(t, source, dest, policy, steps).0 == if source != dest && is_empty_dir(t, source) {
            removed(t, source)
        } else {
            t
        },
        forall|p: Seq<Seq<char>>|
            !under(p, source) ==> merge(t, source, dest, policy, steps).0.nodes.contains_key(p)
                == t.nodes.contains_key(p) && (t.nodes.contains_key(p) ==> #[trigger] merge(
                t,
                source,
                dest,
                policy,
                steps,
            ).0.nodes[p] == t.nodes[p]),
{
    reveal_with_fuel(run, 8);
    if source != dest && kind_at(t, source) == EntryKind::Dir {
        lemma_listing_of_empty(t, source);
        let m0 = engine_start(source, dest, policy).0;
        let m1 = engine_step(m0, MergeEventView::Kind(EntryKind::Dir)).0;
        let m2 = engine_step(m1, MergeEventView::Kind(EntryKind::Dir)).0;
        assert(crate::merge::engine::entries_for(policy, Seq::empty()) =~= Seq::<
            EntryMoveView,
        >::empty());
        let m3 = engine_step(m2, MergeEventView::Listed(Seq::empty())).0;
        assert(crate::merge::engine::deferred_tasks(m3.current, Seq::empty()) =~= Seq::empty());
        assert(m3.queue + Seq::<crate::merge::engine::TaskView>::empty() =~= m3.queue);
        assert(!holds_file(t, source)) by {
            if holds_file(t, source) {
                let q = choose|q: Seq<Seq<char>>|
                    under(q, source) && t.nodes.contains_key(q) && #[trigger] t.nodes[q] is File;
                lemma_empty_dir_holds_nothing(t, source, q);
            }
        }
    }
}

} // verus!
