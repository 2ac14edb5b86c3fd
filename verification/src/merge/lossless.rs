//! What a merge under a `Skip` default loses: nothing.
//!
//! Under a default of `Skip` a source directory is removed only when no
//! file is left in it, and without `Replace` a file is taken only to a free
//! name or onto a file with the same bytes, and removed from the source
//! only where the destination holds the same bytes. The theorems of this
//! module follow such merges on the file system of `model` through every
//! step, whatever the two trees hold. Where every file is skipped, every
//! file that was there before is found where it was or at its place in the
//! destination; under any policy with a `Skip` default and without
//! `Replace`, the bytes of every file are found somewhere.

use crate::merge::engine::{
    engine_start, engine_step, EngineView, MergeActionView, MergeEventView, MergePhase, TaskView,
};
use crate::merge::entry::{entry_step, EntryActionView, EntryMoveView, EntryPhase};
use crate::merge::frame::lemma_under_is_transitive;
use crate::merge::keeping::{
    awaited, harmless, keeping, kept_under, lemma_answer_keeps_dest, lemma_entry_step_keeps_dest,
    lemma_kept_chains, lemma_not_under_both, lemma_nothing_under_missing,
    lemma_step_stays_keeping, never_replaces, none_replaces, skips_all,
};
use crate::merge::laws::{law_start_stays_in_trees, mirrors};
use crate::merge::model::{
    answer, can_hold, enough_steps, entry_answer, holds_file, holds_somewhere, kind_at, merge,
    moved, rebased, removed, run, settle, settle_all, tree_wf, Tree,
};
use crate::merge::EntryKind;
use crate::path::under;
use crate::policy::{PolicyView, ReplaceAction};
use vstd::prelude::*;

verus! {

/// The place in the tree `dest` that mirrors the place `q` of the tree `source`.
pub open spec fn mirror(q: Seq<Seq<char>>, source: Seq<Seq<char>>, dest: Seq<Seq<char>>) -> Seq<
    Seq<char>,
> {
    dest + q.skip(source.len() as int)
}

/// The file that `before` holds at `q` is found in `after`: where it was,
/// or at its place in the destination.
pub open spec fn found(
    before: Tree,
    after: Tree,
    q: Seq<Seq<char>>,
    source: Seq<Seq<char>>,
    dest: Seq<Seq<char>>,
) -> bool {
    ||| after.nodes.contains_key(q) && after.nodes[q] == before.nodes[q]
    ||| under(q, source) && after.nodes.contains_key(mirror(q, source, dest))
        && after.nodes[mirror(q, source, dest)] == before.nodes[q]
}

/// Every file that `before` holds is found in `after`.
pub open spec fn nothing_lost(
    before: Tree,
    after: Tree,
    source: Seq<Seq<char>>,
    dest: Seq<Seq<char>>,
) -> bool {
    forall|q: Seq<Seq<char>>|
        #[trigger] before.nodes.contains_key(q) && before.nodes[q] is File ==> found(
            before,
            after,
            q,
            source,
            dest,
        )
}

/// What is not lost twice in a row, with the destination kept the second
/// time, is not lost.
proof fn lemma_nothing_lost_chains(
    first: Tree,
    second: Tree,
    third: Tree,
    source: Seq<Seq<char>>,
    dest: Seq<Seq<char>>,
)
    requires
        nothing_lost(first, second, source, dest),
        nothing_lost(second, third, source, dest),
        kept_under(second, third, dest),
    ensures
        nothing_lost(first, third, source, dest),
{
    assert forall|q: Seq<Seq<char>>|
        #[trigger] first.nodes.contains_key(q) && first.nodes[q] is File implies found(
        first,
        third,
        q,
        source,
        dest,
    ) by {
        assert(found(first, second, q, source, dest));
        if second.nodes.contains_key(q) && second.nodes[q] == first.nodes[q] {
            assert(found(second, third, q, source, dest));
        } else {
            let there = mirror(q, source, dest);
            assert(under(there, dest)) by {
                assert(dest =~= there.subrange(0, dest.len() as int));
            }
            assert(second.nodes.contains_key(there));
        }
    }
}

/// Nothing is lost where nothing changes.
proof fn lemma_nothing_lost_in_place(t: Tree, source: Seq<Seq<char>>, dest: Seq<Seq<char>>)
    ensures
        nothing_lost(t, t, source, dest),
{
}

/// The place that mirrors a place under an entry of a mirrored pair lies
/// under the entry of the same name in the pair's other directory.
proof fn lemma_mirror_of_entry(
    q: Seq<Seq<char>>,
    s: Seq<Seq<char>>,
    d: Seq<Seq<char>>,
    name: Seq<char>,
    source: Seq<Seq<char>>,
    dest: Seq<Seq<char>>,
)
    requires
        mirrors(TaskView { source: s, dest: d }, source, dest),
        under(q, s.push(name)),
    ensures
        rebased(q, s.push(name), d.push(name)) == mirror(q, source, dest),
{
    let from = s.push(name);
    let k = source.len() as int;
    let left = rebased(q, from, d.push(name));
    let right = mirror(q, source, dest);
    assert(k <= s.len());
    assert(left.len() == right.len());
    assert forall|i: int| 0 <= i < left.len() implies left[i] == right[i] by {
        if dest.len() <= i < d.len() {
            assert(d[i] == s[i - dest.len() + k]);
            assert(q[i - dest.len() + k] == from[i - dest.len() + k]);
        } else if i == d.len() {
            assert(q[s.len() as int] == from[s.len() as int]);
        }
    }
    assert(left =~= right);
}

/// Moving an entry of a source directory onto its free name in the
/// mirrored directory loses nothing.
proof fn lemma_moved_loses_nothing(
    t: Tree,
    s: Seq<Seq<char>>,
    d: Seq<Seq<char>>,
    name: Seq<char>,
    source: Seq<Seq<char>>,
    dest: Seq<Seq<char>>,
)
    requires
        tree_wf(t),
        mirrors(TaskView { source: s, dest: d }, source, dest),
        kind_at(t, d.push(name)) == EntryKind::Missing,
    ensures
        nothing_lost(t, moved(t, s.push(name), d.push(name)), source, dest),
{
    let from = s.push(name);
    let to = d.push(name);
    let after = moved(t, from, to);
    assert forall|q: Seq<Seq<char>>|
        #[trigger] t.nodes.contains_key(q) && t.nodes[q] is File implies found(
        t,
        after,
        q,
        source,
        dest,
    ) by {
        if under(q, to) {
            lemma_nothing_under_missing(t, to, q);
        } else if under(q, from) {
            let there = rebased(q, from, to);
            assert(under(from, s)) by {
                assert(s =~= from.subrange(0, s.len() as int));
            }
            lemma_under_is_transitive(q, from, s);
            lemma_under_is_transitive(q, s, source);
            assert(there =~= mirror(q, source, dest)) by {
                lemma_mirror_of_entry(q, s, d, name, source, dest);
            }
            assert(under(there, to)) by {
                assert(to =~= there.subrange(0, to.len() as int));
            }
            assert(rebased(there, to, from) =~= q);
        }
    }
}

/// Moving the whole source onto the missing destination loses nothing.
proof fn lemma_whole_move_loses_nothing(t: Tree, source: Seq<Seq<char>>, dest: Seq<Seq<char>>)
    requires
        tree_wf(t),
        kind_at(t, dest) == EntryKind::Missing,
        dest.len() > 0,
    ensures
        nothing_lost(t, moved(t, source, dest), source, dest),
{
    let after = moved(t, source, dest);
    assert forall|q: Seq<Seq<char>>|
        #[trigger] t.nodes.contains_key(q) && t.nodes[q] is File implies found(
        t,
        after,
        q,
        source,
        dest,
    ) by {
        if under(q, dest) {
            lemma_nothing_under_missing(t, dest, q);
        } else if under(q, source) {
            let there = mirror(q, source, dest);
            assert(under(there, dest)) by {
                assert(dest =~= there.subrange(0, dest.len() as int));
            }
            assert(rebased(there, dest, source) =~= q) by {
                assert(source =~= q.subrange(0, source.len() as int));
            }
        }
    }
}

/// Settling one entry under `Skip` loses nothing.
proof fn lemma_skip_entry_loses_nothing(
    t: Tree,
    s: Seq<Seq<char>>,
    d: Seq<Seq<char>>,
    name: Seq<char>,
    source: Seq<Seq<char>>,
    dest: Seq<Seq<char>>,
)
    requires
        tree_wf(t),
        mirrors(TaskView { source: s, dest: d }, source, dest),
    ensures
        nothing_lost(
            t,
            settle(
                t,
                s,
                d,
                EntryMoveView { name, action: ReplaceAction::Skip, phase: EntryPhase::SourceKind },
                EntryActionView::ProbeSource,
                enough_steps(),
            ).0,
            source,
            dest,
        ),
{
    reveal_with_fuel(settle, 4);
    let from = s.push(name);
    let to = d.push(name);
    if kind_at(t, from) != EntryKind::Missing && kind_at(t, to) == EntryKind::Missing && !under(
        to,
        from,
    ) && can_hold(t, to) {
        lemma_moved_loses_nothing(t, s, d, name, source, dest);
    }
}

/// Every machine of `entries` is fresh and goes by `Skip`.
pub open spec fn all_skip(entries: Seq<EntryMoveView>) -> bool {
    forall|i: int|
        0 <= i < entries.len() ==> (#[trigger] entries[i]).action == ReplaceAction::Skip
            && entries[i].phase == EntryPhase::SourceKind
}

/// Settling entries that all go by `Skip` keeps the file system
/// well-formed, keeps all that the destination holds, and loses nothing.
proof fn lemma_skip_entries_lose_nothing(
    t: Tree,
    s: Seq<Seq<char>>,
    d: Seq<Seq<char>>,
    entries: Seq<EntryMoveView>,
    source: Seq<Seq<char>>,
    dest: Seq<Seq<char>>,
)
    requires
        tree_wf(t),
        all_skip(entries),
        mirrors(TaskView { source: s, dest: d }, source, dest),
        !under(source, dest),
        !under(dest, source),
    ensures
        nothing_lost(t, settle_all(t, s, d, entries).0, source, dest),
    decreases entries.len(),
{
    if entries.len() > 0 {
        let first = entries[0];
        let t1 = settle(t, s, d, first, EntryActionView::ProbeSource, enough_steps()).0;
        assert(first == (EntryMoveView {
            name: first.name,
            action: ReplaceAction::Skip,
            phase: EntryPhase::SourceKind,
        }));
        lemma_skip_entry_loses_nothing(t, s, d, first.name, source, dest);
        let rest = entries.drop_first();
        assert(all_skip(rest)) by {
            assert forall|i: int| 0 <= i < rest.len() implies (#[trigger] rest[i]).action
                == ReplaceAction::Skip && rest[i].phase == EntryPhase::SourceKind by {
                assert(rest[i] == entries[i + 1]);
            }
        }
        assert(none_replaces(seq![first]));
        assert(none_replaces(rest));
        assert(settle_all(t, s, d, seq![first]).0 == t1) by {
            reveal_with_fuel(settle_all, 2);
            assert(seq![first].drop_first() =~= Seq::<EntryMoveView>::empty());
        }
        crate::merge::keeping::lemma_entries_keep_dest(t, s, d, seq![first], source, dest);
        crate::merge::keeping::lemma_entries_keep_dest(t1, s, d, rest, source, dest);
        lemma_skip_entries_lose_nothing(t1, s, d, rest, source, dest);
        lemma_nothing_lost_chains(t, t1, settle_all(t1, s, d, rest).0, source, dest);
    }
}

/// The operation `action` is the one the engine `m` waits to be answered,
/// as far as removals go: an engine that has asked whether files are left
/// has asked it of its current source, and only an engine that has asked
/// for a removal waits for one.
pub open spec fn awaits_removal(m: EngineView, action: MergeActionView) -> bool {
    match m.phase {
        MergePhase::HasFiles => action == MergeActionView::HasFiles(m.current.source),
        MergePhase::Removal => action == MergeActionView::RemoveTree(m.current.source),
        _ => !(action is RemoveTree),
    }
}

/// The operation `action` removes no file.
pub open spec fn removes_no_file(t: Tree, action: MergeActionView) -> bool {
    action matches MergeActionView::RemoveTree(gone) ==> !holds_file(t, gone)
}

/// The engine `m`, which has asked for `action` of the file system `t`, is
/// in the middle of a merge of `source` into `dest` under a policy that
/// skips every file.
pub open spec fn skipping(
    t: Tree,
    m: EngineView,
    action: MergeActionView,
    source: Seq<Seq<char>>,
    dest: Seq<Seq<char>>,
) -> bool {
    &&& tree_wf(t)
    &&& keeping(m, action, source, dest)
    &&& skips_all(m.policy)
    &&& awaits_removal(m, action)
    &&& removes_no_file(t, action)
    &&& action matches MergeActionView::Resolve { entries, .. } ==> all_skip(entries)
}

/// One operation of a merge that skips every file, answered by the file
/// system: nothing is lost, the destination is kept, and the merge is still
/// one that skips every file.
proof fn lemma_step_loses_nothing(
    t: Tree,
    m: EngineView,
    action: MergeActionView,
    source: Seq<Seq<char>>,
    dest: Seq<Seq<char>>,
)
    requires
        skipping(t, m, action, source, dest),
        !under(source, dest),
        !under(dest, source),
        !(action is Finish),
    ensures
        ({
            let (t2, event) = answer(t, action);
            let (m2, next) = engine_step(m, event);
            &&& nothing_lost(t, t2, source, dest)
            &&& kept_under(t, t2, dest)
            &&& skipping(t2, m2, next, source, dest)
        }),
{
    let (t2, event) = answer(t, action);
    let (m2, next) = engine_step(m, event);
    lemma_answer_keeps_dest(t, m, action, source, dest);
    lemma_step_stays_keeping(m, action, event, source, dest);
    lemma_nothing_lost_in_place(t, source, dest);
    match action {
        MergeActionView::MoveTree { from, to } => {
            if kind_at(t, from) == EntryKind::Dir && kind_at(t, to) == EntryKind::Missing && !under(
                to,
                from,
            ) && can_hold(t, to) {
                lemma_whole_move_loses_nothing(t, source, dest);
            }
        },
        MergeActionView::Resolve { source: s, dest: d, entries } => {
            lemma_skip_entries_lose_nothing(t, s, d, entries, source, dest);
        },
        MergeActionView::RemoveTree(gone) => {
            assert forall|q: Seq<Seq<char>>|
                #[trigger] t.nodes.contains_key(q) && t.nodes[q] is File implies found(
                t,
                t2,
                q,
                source,
                dest,
            ) by {
                if under(q, gone) {
                    assert(holds_file(t, gone));
                }
            }
        },
        _ => {},
    }
    match next {
        MergeActionView::Resolve { entries, .. } => {
            match event {
                MergeEventView::Listed(names) => {
                    assert forall|i: int| 0 <= i < entries.len() implies (#[trigger] entries[i]).action
                        == ReplaceAction::Skip && entries[i].phase == EntryPhase::SourceKind by {
                        lemma_resolves_to_skip(m.policy, names[i]);
                    }
                },
                _ => {},
            }
        },
        _ => {},
    }
}

/// A policy that skips every file gives `Skip` to every name.
proof fn lemma_resolves_to_skip(policy: PolicyView, name: Seq<char>)
    requires
        skips_all(policy),
    ensures
        crate::policy::resolve(policy, name) == ReplaceAction::Skip,
{
}

/// However long a merge that skips every file runs, it loses nothing.
proof fn lemma_run_loses_nothing(
    t: Tree,
    m: EngineView,
    action: MergeActionView,
    source: Seq<Seq<char>>,
    dest: Seq<Seq<char>>,
    steps: nat,
)
    requires
        skipping(t, m, action, source, dest),
        !under(source, dest),
        !under(dest, source),
    ensures
        nothing_lost(t, run(t, m, action, steps).0, source, dest),
        kept_under(t, run(t, m, action, steps).0, dest),
    decreases steps,
{
    lemma_nothing_lost_in_place(t, source, dest);
    match action {
        MergeActionView::Finish(_) => {},
        _ => {
            if steps > 0 {
                let (t2, event) = answer(t, action);
                let (m2, next) = engine_step(m, event);
                lemma_step_loses_nothing(t, m, action, source, dest);
                lemma_run_loses_nothing(t2, m2, next, source, dest, (steps - 1) as nat);
                let end = run(t2, m2, next, (steps - 1) as nat).0;
                lemma_nothing_lost_chains(t, t2, end, source, dest);
                lemma_kept_chains(t, t2, end, dest);
            }
        },
    }
}

/// Skip loses nothing. Under a policy that skips every file, a merge of a
/// source into a destination that does not lie in it, nor it in the
/// destination, loses no file: whatever the two trees hold, and however
/// many steps the merge is given, every file found anywhere before is found
/// afterwards, byte for byte, where it was or at its place in the
/// destination.
pub proof fn law_skip_loses_nothing(
    t: Tree,
    source: Seq<Seq<char>>,
    dest: Seq<Seq<char>>,
    policy: PolicyView,
    steps: nat,
)
    requires
        tree_wf(t),
        skips_all(policy),
        !under(source, dest),
        !under(dest, source),
    ensures
        nothing_lost(t, merge(t, source, dest, policy, steps).0, source, dest),
{
    let (m, action) = engine_start(source, dest, policy);
    law_start_stays_in_trees(source, dest, policy);
    lemma_run_loses_nothing(t, m, action, source, dest, steps);
}

/// The bytes of every file that `before` holds are found in `after`.
pub open spec fn bytes_kept(before: Tree, after: Tree) -> bool {
    forall|q: Seq<Seq<char>>|
        before.nodes.contains_key(q) && before.nodes[q] is File ==> #[trigger] holds_somewhere(
            after,
            before.nodes[q],
        )
}

/// Bytes kept twice in a row are kept.
proof fn lemma_bytes_kept_chains(first: Tree, second: Tree, third: Tree)
    requires
        bytes_kept(first, second),
        bytes_kept(second, third),
    ensures
        bytes_kept(first, third),
{
    assert forall|q: Seq<Seq<char>>|
        first.nodes.contains_key(q) && first.nodes[q] is File implies #[trigger] holds_somewhere(
        third,
        first.nodes[q],
    ) by {
        assert(holds_somewhere(second, first.nodes[q]));
        let mid = choose|p: Seq<Seq<char>>| #[trigger]
            second.nodes.contains_key(p) && second.nodes[p] == first.nodes[q];
        assert(holds_somewhere(third, second.nodes[mid]));
    }
}

/// Bytes are kept where nothing changes.
proof fn lemma_bytes_kept_in_place(t: Tree)
    ensures
        bytes_kept(t, t),
{
    assert forall|q: Seq<Seq<char>>|
        t.nodes.contains_key(q) && t.nodes[q] is File implies #[trigger] holds_somewhere(
        t,
        t.nodes[q],
    ) by {
        assert(t.nodes.contains_key(q));
    }
}

/// The directory `dest_dir` holds, under `name`, a file with the bytes of
/// the file at `source`.
pub open spec fn twin_at(
    t: Tree,
    source: Seq<Seq<char>>,
    dest_dir: Seq<Seq<char>>,
    name: Seq<char>,
) -> bool {
    &&& kind_at(t, source) == EntryKind::File
    &&& kind_at(t, dest_dir.push(name)) == EntryKind::File
    &&& t.nodes[dest_dir.push(name)] == t.nodes[source]
}

/// The operation `action` removes the entry at `source` only where the
/// directory `dest_dir` holds a file with the same bytes.
pub open spec fn spares_bytes(
    t: Tree,
    source: Seq<Seq<char>>,
    dest_dir: Seq<Seq<char>>,
    action: EntryActionView,
) -> bool {
    action == EntryActionView::RemoveSource ==> exists|name: Seq<char>| #[trigger]
        twin_at(t, source, dest_dir, name)
}

/// A move that writes over nothing keeps the bytes of every file.
proof fn lemma_harmless_move_keeps_bytes(t: Tree, from: Seq<Seq<char>>, to: Seq<Seq<char>>)
    requires
        tree_wf(t),
        to.len() > 0,
        kind_at(t, to) == EntryKind::Missing || (kind_at(t, from) == EntryKind::File && kind_at(
            t,
            to,
        ) == EntryKind::File && t.nodes[to] == t.nodes[from]),
    ensures
        bytes_kept(t, moved(t, from, to)),
{
    let after = moved(t, from, to);
    assert forall|q: Seq<Seq<char>>|
        t.nodes.contains_key(q) && t.nodes[q] is File implies #[trigger] holds_somewhere(
        after,
        t.nodes[q],
    ) by {
        if under(q, to) {
            if kind_at(t, to) == EntryKind::Missing {
                lemma_nothing_under_missing(t, to, q);
            } else {
                assert(to =~= q.take(to.len() as int));
                if q.len() == to.len() {
                    assert(q.take(to.len() as int) =~= q);
                }
                assert(q == to);
                assert(rebased(to, to, from) =~= from);
                assert(after.nodes.contains_key(to));
            }
        } else if under(q, from) {
            let there = rebased(q, from, to);
            assert(under(there, to)) by {
                assert(to =~= there.subrange(0, to.len() as int));
            }
            assert(rebased(there, to, from) =~= q) by {
                assert(from =~= q.subrange(0, from.len() as int));
            }
            assert(after.nodes.contains_key(there));
        } else {
            assert(after.nodes.contains_key(q));
        }
    }
}

/// The directories of a mirrored pair of two trees that lie apart lie apart.
proof fn lemma_pair_apart(
    s: Seq<Seq<char>>,
    d: Seq<Seq<char>>,
    source: Seq<Seq<char>>,
    dest: Seq<Seq<char>>,
)
    requires
        mirrors(TaskView { source: s, dest: d }, source, dest),
        !under(source, dest),
        !under(dest, source),
    ensures
        !under(s, d),
        !under(d, s),
        under(d, dest),
{
    assert(under(d, dest)) by {
        assert(dest =~= d.subrange(0, dest.len() as int));
    }
    if under(s, d) {
        lemma_under_is_transitive(s, d, dest);
        lemma_not_under_both(s, source, dest);
    }
    if under(d, s) {
        lemma_under_is_transitive(d, s, source);
        lemma_not_under_both(d, source, dest);
    }
}

/// What an entry asks next, after the file system has answered what it
/// waited for, spares the bytes of its file.
proof fn lemma_next_spares_bytes(
    t: Tree,
    s: Seq<Seq<char>>,
    d: Seq<Seq<char>>,
    m: EntryMoveView,
    action: EntryActionView,
)
    requires
        awaited(m, action),
    ensures
        ({
            let (t2, event) = entry_answer(t, s.push(m.name), d, action);
            let (m2, next) = entry_step(m, event);
            spares_bytes(t2, s.push(m.name), d, next)
        }),
{
    let from = s.push(m.name);
    let (t2, event) = entry_answer(t, from, d, action);
    let (m2, next) = entry_step(m, event);
    if next == EntryActionView::RemoveSource {
        match m.phase {
            EntryPhase::CandidateCompare(i) => {
                let twin = crate::merge::entry::candidate_name(m.name, i as nat);
                assert(action == EntryActionView::Compare(twin));
                assert(t2 == t);
                assert(twin_at(t, from, d, twin));
            },
            _ => {},
        }
    }
}

/// Removing a file of the source whose bytes the destination holds keeps
/// the bytes of every file.
proof fn lemma_spared_removal_keeps_bytes(
    t: Tree,
    s: Seq<Seq<char>>,
    d: Seq<Seq<char>>,
    name: Seq<char>,
    twin: Seq<char>,
)
    requires
        tree_wf(t),
        !under(s, d),
        !under(d, s),
        kind_at(t, s.push(name)) == EntryKind::File,
        kind_at(t, d.push(twin)) == EntryKind::File,
        t.nodes[d.push(twin)] == t.nodes[s.push(name)],
    ensures
        bytes_kept(t, removed(t, s.push(name))),
{
    let from = s.push(name);
    let other = d.push(twin);
    let after = removed(t, from);
    assert(!under(other, from)) by {
        if under(other, from) {
            assert(under(from, s)) by {
                assert(s =~= from.subrange(0, s.len() as int));
            }
            lemma_under_is_transitive(other, from, s);
            assert(under(other, d)) by {
                assert(d =~= other.subrange(0, d.len() as int));
            }
            lemma_not_under_both(other, s, d);
        }
    }
    assert(after.nodes.contains_key(other));
    assert forall|q: Seq<Seq<char>>|
        t.nodes.contains_key(q) && t.nodes[q] is File implies #[trigger] holds_somewhere(
        after,
        t.nodes[q],
    ) by {
        if under(q, from) {
            assert(from =~= q.take(from.len() as int));
            if q.len() == from.len() {
                assert(q.take(from.len() as int) =~= q);
            }
            assert(q == from);
            assert(after.nodes[other] == t.nodes[q]);
        } else {
            assert(after.nodes.contains_key(q));
        }
    }
}

/// An operation on an entry that writes over nothing and spares the bytes
/// of the entry's file keeps the bytes of every file.
proof fn lemma_entry_answer_keeps_bytes(
    t: Tree,
    s: Seq<Seq<char>>,
    d: Seq<Seq<char>>,
    name: Seq<char>,
    action: EntryActionView,
)
    requires
        tree_wf(t),
        harmless(t, s.push(name), d, action),
        spares_bytes(t, s.push(name), d, action),
        !under(s, d),
        !under(d, s),
    ensures
        bytes_kept(t, entry_answer(t, s.push(name), d, action).0),
{
    let from = s.push(name);
    lemma_bytes_kept_in_place(t);
    match action {
        EntryActionView::Move(target) => {
            let to = d.push(target);
            if kind_at(t, from) != EntryKind::Missing && kind_at(t, to) != EntryKind::Dir && !under(
                to,
                from,
            ) && can_hold(t, to) {
                lemma_harmless_move_keeps_bytes(t, from, to);
            }
        },
        EntryActionView::RemoveSource => {
            if kind_at(t, from) == EntryKind::File {
                let twin = choose|twin: Seq<char>| #[trigger] twin_at(t, from, d, twin);
                lemma_spared_removal_keeps_bytes(t, s, d, name, twin);
            }
        },
        _ => {},
    }
}

/// Settling an entry that does not go by `Replace` keeps the bytes of every file.
proof fn lemma_settle_keeps_bytes(
    t: Tree,
    s: Seq<Seq<char>>,
    d: Seq<Seq<char>>,
    m: EntryMoveView,
    action: EntryActionView,
    steps: nat,
    source: Seq<Seq<char>>,
    dest: Seq<Seq<char>>,
)
    requires
        tree_wf(t),
        awaited(m, action),
        harmless(t, s.push(m.name), d, action),
        spares_bytes(t, s.push(m.name), d, action),
        m.action != ReplaceAction::Replace,
        mirrors(TaskView { source: s, dest: d }, source, dest),
        !under(source, dest),
        !under(dest, source),
    ensures
        bytes_kept(t, settle(t, s, d, m, action, steps).0),
        tree_wf(settle(t, s, d, m, action, steps).0),
    decreases steps,
{
    lemma_bytes_kept_in_place(t);
    match action {
        EntryActionView::Done(_) => {},
        _ => {
            if steps > 0 {
                let (t2, event) = entry_answer(t, s.push(m.name), d, action);
                let (m2, next) = entry_step(m, event);
                lemma_pair_apart(s, d, source, dest);
                lemma_entry_step_keeps_dest(t, s, d, m, action, source, dest);
                lemma_entry_answer_keeps_bytes(t, s, d, m.name, action);
                lemma_next_spares_bytes(t, s, d, m, action);
                lemma_settle_keeps_bytes(t2, s, d, m2, next, (steps - 1) as nat, source, dest);
                lemma_bytes_kept_chains(t, t2, settle(t2, s, d, m2, next, (steps - 1) as nat).0);
            }
        },
    }
}

/// Settling entries of which none goes by `Replace` keeps the bytes of every file.
proof fn lemma_entries_keep_bytes(
    t: Tree,
    s: Seq<Seq<char>>,
    d: Seq<Seq<char>>,
    entries: Seq<EntryMoveView>,
    source: Seq<Seq<char>>,
    dest: Seq<Seq<char>>,
)
    requires
        tree_wf(t),
        none_replaces(entries),
        mirrors(TaskView { source: s, dest: d }, source, dest),
        !under(source, dest),
        !under(dest, source),
    ensures
        bytes_kept(t, settle_all(t, s, d, entries).0),
    decreases entries.len(),
{
    lemma_bytes_kept_in_place(t);
    if entries.len() > 0 {
        let first = entries[0];
        let t1 = settle(t, s, d, first, EntryActionView::ProbeSource, enough_steps()).0;
        lemma_settle_keeps_bytes(
            t,
            s,
            d,
            first,
            EntryActionView::ProbeSource,
            enough_steps(),
            source,
            dest,
        );
        let rest = entries.drop_first();
        assert(none_replaces(rest)) by {
            assert forall|i: int| 0 <= i < rest.len() implies (#[trigger] rest[i]).action
                != ReplaceAction::Replace && rest[i].phase == EntryPhase::SourceKind by {
                assert(rest[i] == entries[i + 1]);
            }
        }
        lemma_entries_keep_bytes(t1, s, d, rest, source, dest);
        lemma_bytes_kept_chains(t, t1, settle_all(t1, s, d, rest).0);
    }
}

/// The engine `m`, which has asked for `action` of the file system `t`, is
/// in the middle of a merge of `source` into `dest` under a policy with a
/// `Skip` default and without `Replace`.
pub open spec fn sparing(
    t: Tree,
    m: EngineView,
    action: MergeActionView,
    source: Seq<Seq<char>>,
    dest: Seq<Seq<char>>,
) -> bool {
    &&& tree_wf(t)
    &&& keeping(m, action, source, dest)
    &&& m.policy.default == ReplaceAction::Skip
    &&& awaits_removal(m, action)
    &&& removes_no_file(t, action)
}

/// One operation of a merge under a `Skip` default and without `Replace`,
/// answered by the file system: the bytes of every file are kept, and the
/// merge is still one of its kind.
proof fn lemma_step_keeps_bytes(
    t: Tree,
    m: EngineView,
    action: MergeActionView,
    source: Seq<Seq<char>>,
    dest: Seq<Seq<char>>,
)
    requires
        sparing(t, m, action, source, dest),
        !under(source, dest),
        !under(dest, source),
        !(action is Finish),
    ensures
        ({
            let (t2, event) = answer(t, action);
            let (m2, next) = engine_step(m, event);
            &&& bytes_kept(t, t2)
            &&& sparing(t2, m2, next, source, dest)
        }),
{
    let (t2, event) = answer(t, action);
    lemma_answer_keeps_dest(t, m, action, source, dest);
    lemma_step_stays_keeping(m, action, event, source, dest);
    lemma_bytes_kept_in_place(t);
    match action {
        MergeActionView::MoveTree { from, to } => {
            if kind_at(t, from) == EntryKind::Dir && kind_at(t, to) == EntryKind::Missing && !under(
                to,
                from,
            ) && can_hold(t, to) {
                lemma_harmless_move_keeps_bytes(t, from, to);
            }
        },
        MergeActionView::Resolve { source: s, dest: d, entries } => {
            lemma_entries_keep_bytes(t, s, d, entries, source, dest);
        },
        MergeActionView::RemoveTree(gone) => {
            assert forall|q: Seq<Seq<char>>|
        t.nodes.contains_key(q) && t.nodes[q] is File implies #[trigger] holds_somewhere(
        t2,
        t.nodes[q],
    ) by {
                if under(q, gone) {
                    assert(holds_file(t, gone));
                }
                assert(t2.nodes.contains_key(q));
            }
        },
        _ => {},
    }
}

/// However long a merge under a `Skip` default and without `Replace` runs,
/// it keeps the bytes of every file.
proof fn lemma_run_keeps_bytes(
    t: Tree,
    m: EngineView,
    action: MergeActionView,
    source: Seq<Seq<char>>,
    dest: Seq<Seq<char>>,
    steps: nat,
)
    requires
        sparing(t, m, action, source, dest),
        !under(source, dest),
        !under(dest, source),
    ensures
        bytes_kept(t, run(t, m, action, steps).0),
    decreases steps,
{
    lemma_bytes_kept_in_place(t);
    match action {
        MergeActionView::Finish(_) => {},
        _ => {
            if steps > 0 {
                let (t2, event) = answer(t, action);
                let (m2, next) = engine_step(m, event);
                lemma_step_keeps_bytes(t, m, action, source, dest);
                lemma_run_keeps_bytes(t2, m2, next, source, dest, (steps - 1) as nat);
                lemma_bytes_kept_chains(t, t2, run(t2, m2, next, (steps - 1) as nat).0);
            }
        },
    }
}

/// No bytes are lost under a `Skip` default. Under a policy whose default
/// is `Skip` and that never replaces, a merge of a source into a
/// destination that does not lie in it, nor it in the destination, loses
/// the bytes of no file: whatever the two trees hold, and however many
/// steps the merge is given, for every file found anywhere before a file
/// with the same bytes is found afterwards. A file is removed from the
/// source only where the destination holds its bytes, and a source
/// directory only when no file is left in it.
pub proof fn law_skip_default_loses_no_bytes(
    t: Tree,
    source: Seq<Seq<char>>,
    dest: Seq<Seq<char>>,
    policy: PolicyView,
    steps: nat,
)
    requires
        tree_wf(t),
        policy.default == ReplaceAction::Skip,
        never_replaces(policy),
        !under(source, dest),
        !under(dest, source),
    ensures
        bytes_kept(t, merge(t, source, dest, policy, steps).0),
{
    let (m, action) = engine_start(source, dest, policy);
    law_start_stays_in_trees(source, dest, policy);
    lemma_run_keeps_bytes(t, m, action, source, dest, steps);
}

} // verus!
