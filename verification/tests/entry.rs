use be_music_cabinet::merge::entry::{
    candidate, EntryAction, EntryEvent, EntryMove, EntryOutcome, EntryPhase,
    RENAME_ATTEMPT_LIMIT,
};
use be_music_cabinet::merge::{EntryKind, MergeError};
use be_music_cabinet::policy::ReplaceAction;

fn started(name: &str, action: ReplaceAction) -> EntryMove {
    let (entry, first) = EntryMove::start(name.to_string(), action);
    assert!(matches!(first, EntryAction::ProbeSource));
    assert_eq!(entry.phase, EntryPhase::SourceKind);
    assert!(!entry.is_finished());
    entry
}

fn probe_dest(action: EntryAction) -> String {
    match action {
        EntryAction::ProbeDest(name) => name,
        other => panic!("expected a look at the destination, got {:?}", other),
    }
}

fn compare(action: EntryAction) -> String {
    match action {
        EntryAction::Compare(name) => name,
        other => panic!("expected a comparison, got {:?}", other),
    }
}

fn move_to(action: EntryAction) -> String {
    match action {
        EntryAction::Move(name) => name,
        other => panic!("expected a move, got {:?}", other),
    }
}

fn outcome(action: EntryAction) -> EntryOutcome {
    match action {
        EntryAction::Done(o) => o,
        other => panic!("expected the end, got {:?}", other),
    }
}

#[test]
fn candidate_names_are_numbered_before_the_extension() {
    assert_eq!(candidate("f.txt", 0), "f.txt");
    assert_eq!(candidate("f.txt", 1), "f.1.txt");
    assert_eq!(candidate("f.txt", 2), "f.2.txt");
    assert_eq!(candidate("f.txt", 10), "f.10.txt");
    assert_eq!(candidate("a.b.c", 3), "a.b.3.c");
    assert_eq!(candidate("README", 0), "README.");
    assert_eq!(candidate("README", 1), "README.1.");
    assert_eq!(candidate(".hidden", 1), ".hidden.1.");
    assert_eq!(
        candidate("f.txt", RENAME_ATTEMPT_LIMIT),
        "f.18446744073709551615.txt"
    );
}

#[test]
fn replace_moves_without_looking() {
    let mut e = started("f.txt", ReplaceAction::Replace);
    assert_eq!(move_to(e.step(EntryEvent::Kind(EntryKind::File))), "f.txt");
    assert_eq!(outcome(e.step(EntryEvent::Completed)), EntryOutcome::Moved);
    assert!(e.is_finished());
}

#[test]
fn skip_keeps_a_file_whose_name_is_taken() {
    for taken in [EntryKind::File, EntryKind::Dir, EntryKind::Other] {
        let mut e = started("f.txt", ReplaceAction::Skip);
        assert_eq!(probe_dest(e.step(EntryEvent::Kind(EntryKind::File))), "f.txt");
        assert_eq!(outcome(e.step(EntryEvent::Kind(taken))), EntryOutcome::Kept);
    }
}

#[test]
fn skip_moves_a_file_whose_name_is_free() {
    let mut e = started("f.txt", ReplaceAction::Skip);
    assert_eq!(probe_dest(e.step(EntryEvent::Kind(EntryKind::File))), "f.txt");
    assert_eq!(move_to(e.step(EntryEvent::Kind(EntryKind::Missing))), "f.txt");
    assert_eq!(outcome(e.step(EntryEvent::Completed)), EntryOutcome::Moved);
}

#[test]
fn rename_searches_from_the_plain_name() {
    let mut e = started("f.txt", ReplaceAction::Rename);
    assert_eq!(probe_dest(e.step(EntryEvent::Kind(EntryKind::File))), "f.txt");
    assert_eq!(compare(e.step(EntryEvent::Kind(EntryKind::File))), "f.txt");
    assert_eq!(probe_dest(e.step(EntryEvent::Same(false))), "f.1.txt");
    assert_eq!(compare(e.step(EntryEvent::Kind(EntryKind::File))), "f.1.txt");
    assert_eq!(probe_dest(e.step(EntryEvent::Same(false))), "f.2.txt");
    assert_eq!(move_to(e.step(EntryEvent::Kind(EntryKind::Missing))), "f.2.txt");
    assert_eq!(outcome(e.step(EntryEvent::Completed)), EntryOutcome::Moved);
}

#[test]
fn rename_removes_a_source_that_is_already_there() {
    let mut e = started("f.txt", ReplaceAction::Rename);
    assert_eq!(probe_dest(e.step(EntryEvent::Kind(EntryKind::File))), "f.txt");
    assert_eq!(compare(e.step(EntryEvent::Kind(EntryKind::File))), "f.txt");
    assert!(matches!(e.step(EntryEvent::Same(true)), EntryAction::RemoveSource));
    assert_eq!(outcome(e.step(EntryEvent::Completed)), EntryOutcome::Redundant);
}

#[test]
fn rename_gives_up_after_the_last_number() {
    let mut e = EntryMove {
        name: "f.txt".to_string(),
        action: ReplaceAction::Rename,
        phase: EntryPhase::CandidateCompare(RENAME_ATTEMPT_LIMIT - 1),
    };
    assert_eq!(
        probe_dest(e.step(EntryEvent::Same(false))),
        "f.18446744073709551615.txt"
    );
    assert_eq!(e.phase, EntryPhase::Candidate(RENAME_ATTEMPT_LIMIT));
    assert_eq!(
        compare(e.step(EntryEvent::Kind(EntryKind::File))),
        "f.18446744073709551615.txt"
    );
    assert_eq!(
        outcome(e.step(EntryEvent::Same(false))),
        EntryOutcome::Failed(MergeError::TooManyDuplicates)
    );
    assert!(e.is_finished());
}

#[test]
fn check_replace_moves_onto_a_missing_or_equal_destination() {
    let mut e = started("f.txt", ReplaceAction::CheckReplace);
    assert_eq!(probe_dest(e.step(EntryEvent::Kind(EntryKind::File))), "f.txt");
    assert_eq!(move_to(e.step(EntryEvent::Kind(EntryKind::Missing))), "f.txt");

    let mut e = started("f.txt", ReplaceAction::CheckReplace);
    assert_eq!(probe_dest(e.step(EntryEvent::Kind(EntryKind::File))), "f.txt");
    assert_eq!(compare(e.step(EntryEvent::Kind(EntryKind::File))), "f.txt");
    assert_eq!(move_to(e.step(EntryEvent::Same(true))), "f.txt");
    assert_eq!(outcome(e.step(EntryEvent::Completed)), EntryOutcome::Moved);
}

#[test]
fn check_replace_searches_a_name_for_a_different_file() {
    let mut e = started("f.txt", ReplaceAction::CheckReplace);
    assert_eq!(probe_dest(e.step(EntryEvent::Kind(EntryKind::File))), "f.txt");
    assert_eq!(compare(e.step(EntryEvent::Kind(EntryKind::File))), "f.txt");
    assert_eq!(probe_dest(e.step(EntryEvent::Same(false))), "f.txt");
    assert_eq!(compare(e.step(EntryEvent::Kind(EntryKind::File))), "f.txt");
    assert_eq!(probe_dest(e.step(EntryEvent::Same(false))), "f.1.txt");
    assert_eq!(move_to(e.step(EntryEvent::Kind(EntryKind::Missing))), "f.1.txt");
}

#[test]
fn directories_are_moved_or_deferred() {
    for action in [
        ReplaceAction::Skip,
        ReplaceAction::Replace,
        ReplaceAction::Rename,
        ReplaceAction::CheckReplace,
    ] {
        let mut e = started("sub", action);
        assert_eq!(probe_dest(e.step(EntryEvent::Kind(EntryKind::Dir))), "sub");
        assert_eq!(move_to(e.step(EntryEvent::Kind(EntryKind::Missing))), "sub");
        assert_eq!(outcome(e.step(EntryEvent::Completed)), EntryOutcome::Moved);

        let mut e = started("sub", action);
        assert_eq!(probe_dest(e.step(EntryEvent::Kind(EntryKind::Dir))), "sub");
        assert_eq!(outcome(e.step(EntryEvent::Kind(EntryKind::Dir))), EntryOutcome::Deferred);
    }
}

#[test]
fn kinds_that_do_not_fit_are_type_conflicts() {
    let mut e = started("sub", ReplaceAction::Replace);
    probe_dest(e.step(EntryEvent::Kind(EntryKind::Dir)));
    assert_eq!(
        outcome(e.step(EntryEvent::Kind(EntryKind::File))),
        EntryOutcome::Failed(MergeError::TypeConflict)
    );

    let mut e = started("f.txt", ReplaceAction::CheckReplace);
    probe_dest(e.step(EntryEvent::Kind(EntryKind::File)));
    assert_eq!(
        outcome(e.step(EntryEvent::Kind(EntryKind::Dir))),
        EntryOutcome::Failed(MergeError::TypeConflict)
    );

    let mut e = started("f.txt", ReplaceAction::Rename);
    probe_dest(e.step(EntryEvent::Kind(EntryKind::File)));
    assert_eq!(
        outcome(e.step(EntryEvent::Kind(EntryKind::Other))),
        EntryOutcome::Failed(MergeError::TypeConflict)
    );
}

#[test]
fn a_source_that_is_gone_or_odd() {
    let mut e = started("f.txt", ReplaceAction::Replace);
    assert_eq!(
        outcome(e.step(EntryEvent::Kind(EntryKind::Missing))),
        EntryOutcome::Failed(MergeError::SourceVanished)
    );
    let mut e = started("socket", ReplaceAction::Replace);
    assert_eq!(outcome(e.step(EntryEvent::Kind(EntryKind::Other))), EntryOutcome::Ignored);
}

#[test]
fn failures_carry_their_code() {
    let mut e = started("f.txt", ReplaceAction::Replace);
    assert_eq!(
        outcome(e.step(EntryEvent::Failed(13))),
        EntryOutcome::Failed(MergeError::Io(13))
    );

    let mut e = started("f.txt", ReplaceAction::Replace);
    move_to(e.step(EntryEvent::Kind(EntryKind::File)));
    assert_eq!(
        outcome(e.step(EntryEvent::Failed(28))),
        EntryOutcome::Failed(MergeError::Io(28))
    );

    let mut e = started("f.txt", ReplaceAction::CheckReplace);
    probe_dest(e.step(EntryEvent::Kind(EntryKind::File)));
    compare(e.step(EntryEvent::Kind(EntryKind::File)));
    assert_eq!(
        outcome(e.step(EntryEvent::Failed(5))),
        EntryOutcome::Failed(MergeError::Io(5))
    );
}

#[test]
fn answers_nobody_asked_for_end_the_entry() {
    let mut e = started("f.txt", ReplaceAction::Replace);
    assert_eq!(
        outcome(e.step(EntryEvent::Same(true))),
        EntryOutcome::Failed(MergeError::UnexpectedEvent)
    );
    assert!(e.is_finished());
    assert_eq!(
        outcome(e.step(EntryEvent::Completed)),
        EntryOutcome::Failed(MergeError::UnexpectedEvent)
    );

    let mut e = started("f.txt", ReplaceAction::Replace);
    move_to(e.step(EntryEvent::Kind(EntryKind::File)));
    assert_eq!(
        outcome(e.step(EntryEvent::Kind(EntryKind::File))),
        EntryOutcome::Failed(MergeError::UnexpectedEvent)
    );
}
