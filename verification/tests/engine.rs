use be_music_cabinet::merge::engine::{
    EntryReport, MergeAction, MergeEngine, MergeEvent, MergePhase,
};
use be_music_cabinet::merge::entry::{EntryOutcome, EntryPhase};
use be_music_cabinet::merge::{EntryKind, MergeError};
use be_music_cabinet::path::TreePath;
use be_music_cabinet::policy::{ReplaceAction, ReplaceOptions};

fn path(text: &str) -> TreePath {
    TreePath {
        parts: text.split('/').filter(|p| !p.is_empty()).map(|p| p.to_string()).collect(),
    }
}

fn show(p: &TreePath) -> String {
    p.parts.join("/")
}

fn names(list: &[&str]) -> Vec<String> {
    list.iter().map(|n| n.to_string()).collect()
}

fn report(name: &str, outcome: EntryOutcome) -> EntryReport {
    EntryReport {
        name: name.to_string(),
        outcome,
    }
}

fn policy(default: ReplaceAction) -> ReplaceOptions {
    ReplaceOptions::new(default)
}

fn probed(action: MergeAction) -> String {
    match action {
        MergeAction::Probe(p) => show(&p),
        other => panic!("expected a look, got {:?}", other),
    }
}

fn listed(action: MergeAction) -> String {
    match action {
        MergeAction::List(p) => show(&p),
        other => panic!("expected a listing, got {:?}", other),
    }
}

fn removed(action: MergeAction) -> String {
    match action {
        MergeAction::RemoveTree(p) => show(&p),
        other => panic!("expected a removal, got {:?}", other),
    }
}

fn searched(action: MergeAction) -> String {
    match action {
        MergeAction::HasFiles(p) => show(&p),
        other => panic!("expected a search for files, got {:?}", other),
    }
}

fn finished(action: MergeAction) -> Result<(), MergeError> {
    match action {
        MergeAction::Finish(r) => r,
        other => panic!("expected the end, got {:?}", other),
    }
}

/// Brings a merge of A into B to the point where the entries of A are handed out.
fn listing(default: ReplaceAction, entries: &[&str]) -> (MergeEngine, MergeAction) {
    let (mut engine, first) = MergeEngine::start(path("A"), path("B"), policy(default));
    assert_eq!(probed(first), "A");
    assert_eq!(probed(engine.step(MergeEvent::Kind(EntryKind::Dir))), "B");
    assert_eq!(listed(engine.step(MergeEvent::Kind(EntryKind::Dir))), "A");
    let action = engine.step(MergeEvent::Listed(names(entries)));
    (engine, action)
}

#[test]
fn merging_a_directory_into_itself_asks_for_nothing() {
    let (engine, first) = MergeEngine::start(path("/data/A"), path("/data/A"), policy(ReplaceAction::Replace));
    assert_eq!(finished(first), Ok(()));
    assert!(engine.is_finished());
}

#[test]
fn a_missing_source_ends_the_merge_at_once() {
    for kind in [EntryKind::Missing, EntryKind::File, EntryKind::Other] {
        let (mut engine, first) = MergeEngine::start(path("A"), path("B"), policy(ReplaceAction::Replace));
        assert_eq!(probed(first), "A");
        assert_eq!(finished(engine.step(MergeEvent::Kind(kind))), Ok(()));
        assert!(engine.is_finished());
    }
}

#[test]
fn a_missing_destination_gets_the_whole_source() {
    let (mut engine, first) = MergeEngine::start(path("A"), path("B"), policy(ReplaceAction::Skip));
    assert_eq!(probed(first), "A");
    assert_eq!(probed(engine.step(MergeEvent::Kind(EntryKind::Dir))), "B");
    match engine.step(MergeEvent::Kind(EntryKind::Missing)) {
        MergeAction::MoveTree { from, to } => {
            assert_eq!(show(&from), "A");
            assert_eq!(show(&to), "B");
        }
        other => panic!("expected the move of the tree, got {:?}", other),
    }
    assert_eq!(finished(engine.step(MergeEvent::Completed)), Ok(()));
}

#[test]
fn a_failed_whole_move_fails_the_merge() {
    let (mut engine, _) = MergeEngine::start(path("A"), path("B"), policy(ReplaceAction::Replace));
    engine.step(MergeEvent::Kind(EntryKind::Dir));
    engine.step(MergeEvent::Kind(EntryKind::Missing));
    assert_eq!(finished(engine.step(MergeEvent::Failed(18))), Err(MergeError::Io(18)));
}

#[test]
fn a_destination_that_is_no_directory_is_refused() {
    for kind in [EntryKind::File, EntryKind::Other] {
        let (mut engine, _) = MergeEngine::start(path("A"), path("B"), policy(ReplaceAction::Replace));
        engine.step(MergeEvent::Kind(EntryKind::Dir));
        assert_eq!(
            finished(engine.step(MergeEvent::Kind(kind))),
            Err(MergeError::DestNotDirectory)
        );
    }
}

#[test]
fn failed_looks_at_source_or_destination_fail_the_merge() {
    let (mut engine, _) = MergeEngine::start(path("A"), path("B"), policy(ReplaceAction::Replace));
    assert_eq!(finished(engine.step(MergeEvent::Failed(13))), Err(MergeError::Io(13)));

    let (mut engine, _) = MergeEngine::start(path("A"), path("B"), policy(ReplaceAction::Replace));
    engine.step(MergeEvent::Kind(EntryKind::Dir));
    assert_eq!(finished(engine.step(MergeEvent::Failed(5))), Err(MergeError::Io(5)));
}

#[test]
fn entries_are_handed_out_with_their_actions() {
    let mut options = policy(ReplaceAction::Replace);
    options.insert("bms", ReplaceAction::Rename);
    options.insert("txt", ReplaceAction::Skip);
    let (mut engine, _) = MergeEngine::start(path("A"), path("B"), options);
    engine.step(MergeEvent::Kind(EntryKind::Dir));
    engine.step(MergeEvent::Kind(EntryKind::Dir));
    match engine.step(MergeEvent::Listed(names(&["a.BMS", "b.txt", "c.ogg", "d"]))) {
        MergeAction::Resolve { source, dest, entries } => {
            assert_eq!(show(&source), "A");
            assert_eq!(show(&dest), "B");
            let got: Vec<(String, ReplaceAction, EntryPhase)> = entries
                .into_iter()
                .map(|e| (e.name, e.action, e.phase))
                .collect();
            assert_eq!(
                got,
                vec![
                    ("a.BMS".to_string(), ReplaceAction::Rename, EntryPhase::SourceKind),
                    ("b.txt".to_string(), ReplaceAction::Skip, EntryPhase::SourceKind),
                    ("c.ogg".to_string(), ReplaceAction::Replace, EntryPhase::SourceKind),
                    ("d".to_string(), ReplaceAction::Replace, EntryPhase::SourceKind),
                ]
            );
        }
        other => panic!("expected the entries, got {:?}", other),
    }
    assert_eq!(engine.phase, MergePhase::Children);
}

#[test]
fn an_empty_source_is_removed_and_the_merge_succeeds() {
    let (mut engine, action) = listing(ReplaceAction::Replace, &[]);
    assert!(matches!(action, MergeAction::Resolve { ref entries, .. } if entries.is_empty()));
    assert_eq!(removed(engine.step(MergeEvent::Resolved(vec![]))), "A");
    assert_eq!(finished(engine.step(MergeEvent::Completed)), Ok(()));
}

#[test]
fn a_failed_removal_does_not_fail_the_merge() {
    let (mut engine, _) = listing(ReplaceAction::Replace, &["f.txt"]);
    assert_eq!(
        removed(engine.step(MergeEvent::Resolved(vec![report("f.txt", EntryOutcome::Moved)]))),
        "A"
    );
    assert_eq!(finished(engine.step(MergeEvent::Failed(13))), Ok(()));
}

#[test]
fn under_a_skip_default_only_a_source_without_files_is_removed() {
    let (mut engine, _) = listing(ReplaceAction::Skip, &["f.txt"]);
    assert_eq!(
        searched(engine.step(MergeEvent::Resolved(vec![report("f.txt", EntryOutcome::Kept)]))),
        "A"
    );
    assert_eq!(finished(engine.step(MergeEvent::HasFiles(true))), Ok(()));

    let (mut engine, _) = listing(ReplaceAction::Skip, &["f.txt"]);
    assert_eq!(
        searched(engine.step(MergeEvent::Resolved(vec![report("f.txt", EntryOutcome::Moved)]))),
        "A"
    );
    assert_eq!(removed(engine.step(MergeEvent::HasFiles(false))), "A");
    assert_eq!(finished(engine.step(MergeEvent::Completed)), Ok(()));
}

#[test]
fn a_failed_search_for_files_is_a_failure_of_the_merge() {
    let (mut engine, _) = listing(ReplaceAction::Skip, &[]);
    assert_eq!(searched(engine.step(MergeEvent::Resolved(vec![]))), "A");
    assert_eq!(finished(engine.step(MergeEvent::Failed(5))), Err(MergeError::Io(5)));
}

#[test]
fn deferred_directories_are_merged_oldest_first() {
    let (mut engine, _) = listing(ReplaceAction::Skip, &["x", "f.txt", "y"]);
    let reports = vec![
        report("x", EntryOutcome::Deferred),
        report("f.txt", EntryOutcome::Moved),
        report("y", EntryOutcome::Deferred),
    ];
    assert_eq!(searched(engine.step(MergeEvent::Resolved(reports))), "A");
    assert_eq!(engine.queue.len(), 2);
    assert_eq!(show(&engine.queue[0].source), "A/x");
    assert_eq!(show(&engine.queue[0].dest), "B/x");
    assert_eq!(show(&engine.queue[1].source), "A/y");
    assert_eq!(show(&engine.queue[1].dest), "B/y");

    assert_eq!(probed(engine.step(MergeEvent::HasFiles(true))), "A/x");
    assert_eq!(listed(engine.step(MergeEvent::Kind(EntryKind::Dir))), "A/x");
    match engine.step(MergeEvent::Listed(names(&["z"]))) {
        MergeAction::Resolve { source, dest, entries } => {
            assert_eq!(show(&source), "A/x");
            assert_eq!(show(&dest), "B/x");
            assert_eq!(entries.len(), 1);
        }
        other => panic!("expected the entries, got {:?}", other),
    }
    assert_eq!(
        searched(engine.step(MergeEvent::Resolved(vec![report("z", EntryOutcome::Deferred)]))),
        "A/x"
    );
    assert_eq!(probed(engine.step(MergeEvent::HasFiles(true))), "A/y");
    assert_eq!(listed(engine.step(MergeEvent::Kind(EntryKind::Dir))), "A/y");
    engine.step(MergeEvent::Listed(vec![]));
    assert_eq!(searched(engine.step(MergeEvent::Resolved(vec![]))), "A/y");
    assert_eq!(removed(engine.step(MergeEvent::HasFiles(false))), "A/y");
    assert_eq!(probed(engine.step(MergeEvent::Completed)), "A/x/z");
    assert_eq!(listed(engine.step(MergeEvent::Kind(EntryKind::Dir))), "A/x/z");
    engine.step(MergeEvent::Listed(vec![]));
    assert_eq!(searched(engine.step(MergeEvent::Resolved(vec![]))), "A/x/z");
    assert_eq!(finished(engine.step(MergeEvent::HasFiles(true))), Ok(()));
    assert!(engine.is_finished());
}

#[test]
fn a_queued_directory_that_is_gone_is_dropped_silently() {
    let (mut engine, _) = listing(ReplaceAction::Replace, &["x", "y"]);
    let reports = vec![
        report("x", EntryOutcome::Deferred),
        report("y", EntryOutcome::Deferred),
    ];
    assert_eq!(removed(engine.step(MergeEvent::Resolved(reports))), "A");
    assert_eq!(probed(engine.step(MergeEvent::Completed)), "A/x");
    assert_eq!(probed(engine.step(MergeEvent::Kind(EntryKind::Missing))), "A/y");
    assert_eq!(finished(engine.step(MergeEvent::Kind(EntryKind::File))), Ok(()));
}

#[test]
fn a_failed_entry_spares_its_directory_and_fails_the_merge_at_the_end() {
    let (mut engine, _) = listing(ReplaceAction::Replace, &["a.txt", "sub", "b.txt"]);
    let reports = vec![
        report("a.txt", EntryOutcome::Failed(MergeError::TooManyDuplicates)),
        report("sub", EntryOutcome::Deferred),
        report("b.txt", EntryOutcome::Failed(MergeError::Io(13))),
    ];
    assert_eq!(probed(engine.step(MergeEvent::Resolved(reports))), "A/sub");
    assert_eq!(engine.failure, Some(MergeError::TooManyDuplicates));
    assert_eq!(listed(engine.step(MergeEvent::Kind(EntryKind::Dir))), "A/sub");
    engine.step(MergeEvent::Listed(names(&["c.txt"])));
    assert_eq!(
        removed(engine.step(MergeEvent::Resolved(vec![report("c.txt", EntryOutcome::Moved)]))),
        "A/sub"
    );
    assert_eq!(
        finished(engine.step(MergeEvent::Completed)),
        Err(MergeError::TooManyDuplicates)
    );
}

#[test]
fn a_failed_listing_gives_up_the_directory_only() {
    let (mut engine, _) = listing(ReplaceAction::Replace, &["x", "y"]);
    let reports = vec![
        report("x", EntryOutcome::Deferred),
        report("y", EntryOutcome::Deferred),
    ];
    engine.step(MergeEvent::Resolved(reports));
    assert_eq!(probed(engine.step(MergeEvent::Completed)), "A/x");
    assert_eq!(listed(engine.step(MergeEvent::Kind(EntryKind::Dir))), "A/x");
    assert_eq!(probed(engine.step(MergeEvent::Failed(13))), "A/y");
    assert_eq!(finished(engine.step(MergeEvent::Failed(5))), Err(MergeError::Io(13)));
}

#[test]
fn an_answer_nobody_asked_for_ends_the_merge() {
    let (mut engine, _) = MergeEngine::start(path("A"), path("B"), policy(ReplaceAction::Replace));
    assert_eq!(
        finished(engine.step(MergeEvent::HasFiles(true))),
        Err(MergeError::UnexpectedEvent)
    );
    assert_eq!(
        finished(engine.step(MergeEvent::Completed)),
        Err(MergeError::UnexpectedEvent)
    );

    let (mut engine, _) = listing(ReplaceAction::Replace, &[]);
    assert_eq!(
        finished(engine.step(MergeEvent::Listed(vec![]))),
        Err(MergeError::UnexpectedEvent)
    );
}
