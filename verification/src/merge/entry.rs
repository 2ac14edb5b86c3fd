//! Settling one directory entry.
//!
//! An `EntryMove` stands for one child of a source directory that is to end
//! up under the same name, or a numbered variant of it, in the destination
//! directory. `step` takes the answer to the last operation and returns the
//! next one, until it returns `Done`.

use crate::merge::{EntryKind, MergeError};
use crate::policy::ReplaceAction;
use crate::text::{
    append_chars, chars_of, decimal, decimal_of, extension_of, split_name, stem_of, string_of,
};
use vstd::prelude::*;

verus! {

/// The highest number tried by the rename search before it gives up.
pub const RENAME_ATTEMPT_LIMIT: u64 = 0xffff_ffff_ffff_ffff;

/// Where an entry stands.
#[derive(Debug, Clone, Copy, PartialEq, Eq, Structural)]
pub enum EntryPhase {
    /// Asked what the source entry is.
    SourceKind,
    /// `Skip`: asked what is at the destination.
    SkipProbe,
    /// `CheckReplace`: asked what is at the destination.
    CheckProbe,
    /// `CheckReplace`: asked whether source and destination hold the same bytes.
    CheckCompare,
    /// A directory: asked what is at the destination.
    DirProbe,
    /// Rename search: asked what is at the candidate with this number.
    Candidate(u64),
    /// Rename search: asked whether source and candidate hold the same bytes.
    CandidateCompare(u64),
    /// Asked for the move.
    Moving,
    /// Asked for the removal of the redundant source.
    Removing,
    /// Settled.
    Finished,
}

/// The answer to an operation.
#[derive(Debug, Clone, Copy, PartialEq, Eq, Structural)]
pub enum EntryEvent {
    /// What a probed path is.
    Kind(EntryKind),
    /// Whether two compared files hold the same bytes.
    Same(bool),
    /// A move or removal succeeded.
    Completed,
    /// The operation failed with this error code.
    Failed(i32),
}

/// How an entry was settled.
#[derive(Debug, Clone, Copy, PartialEq, Eq, Structural)]
pub enum EntryOutcome {
    /// It was moved to the destination.
    Moved,
    /// It was left in the source because the destination exists.
    Kept,
    /// It was removed from the source because the destination holds the same bytes.
    Redundant,
    /// It is a directory that exists on both sides; its contents are merged later.
    Deferred,
    /// It is neither file nor directory and was left alone.
    Ignored,
    /// It was left in the source because of this error.
    Failed(MergeError),
}

/// The next operation on an entry. Names are names in the destination directory.
#[derive(Debug)]
pub enum EntryAction {
    /// Find out what the source entry is.
    ProbeSource,
    /// Find out what is at this name in the destination.
    ProbeDest(String),
    /// Compare the source with the file at this name in the destination.
    Compare(String),
    /// Move the source to this name in the destination, replacing what is there.
    Move(String),
    /// Remove the source file.
    RemoveSource,
    /// Nothing more: the entry is settled.
    Done(EntryOutcome),
}

/// The content of an `EntryAction`.
pub enum EntryActionView {
    ProbeSource,
    ProbeDest(Seq<char>),
    Compare(Seq<char>),
    Move(Seq<char>),
    RemoveSource,
    Done(EntryOutcome),
}

impl View for EntryAction {
    type V = EntryActionView;

    open spec fn view(&self) -> EntryActionView {
        match self {
            EntryAction::ProbeSource => EntryActionView::ProbeSource,
            EntryAction::ProbeDest(n) => EntryActionView::ProbeDest(n@),
            EntryAction::Compare(n) => EntryActionView::Compare(n@),
            EntryAction::Move(n) => EntryActionView::Move(n@),
            EntryAction::RemoveSource => EntryActionView::RemoveSource,
            EntryAction::Done(o) => EntryActionView::Done(*o),
        }
    }
}

/// One directory entry on its way from source to destination.
#[derive(Debug)]
pub struct EntryMove {
    /// The entry's name in the source directory.
    pub name: String,
    /// What the policy says for this name, should it be a file.
    pub action: ReplaceAction,
    /// Where the entry stands.
    pub phase: EntryPhase,
}

/// The content of an `EntryMove`.
pub struct EntryMoveView {
    pub name: Seq<char>,
    pub action: ReplaceAction,
    pub phase: EntryPhase,
}

impl View for EntryMove {
    type V = EntryMoveView;

    open spec fn view(&self) -> EntryMoveView {
        EntryMoveView { name: self.name@, action: self.action, phase: self.phase }
    }
}

/// The extension used by the rename search: that of the name, or the empty text.
pub open spec fn extension_or_empty(name: Seq<char>) -> Seq<char> {
    match extension_of(name) {
        Some(e) => e,
        None => Seq::empty(),
    }
}

/// The name tried by the rename search at a given number: stem, dot and
/// extension at 0; stem, dot, the number in decimal, dot and extension after.
pub open spec fn candidate_name(name: Seq<char>, attempt: nat) -> Seq<char> {
    if attempt == 0 {
        stem_of(name) + seq!['.'] + extension_or_empty(name)
    } else {
        stem_of(name) + seq!['.'] + decimal(attempt) + seq!['.'] + extension_or_empty(name)
    }
}

/// For a name with an extension the search starts at the name itself.
pub proof fn lemma_first_candidate_is_name(name: Seq<char>)
    requires
        extension_of(name) is Some,
    ensures
        candidate_name(name, 0) == name,
{
    crate::text::lemma_stem_dot_extension(name);
}

/// The machine in its first state, and the first operation.
pub open spec fn entry_start(name: Seq<char>, action: ReplaceAction) -> (
    EntryMoveView,
    EntryActionView,
) {
    (EntryMoveView { name, action, phase: EntryPhase::SourceKind }, EntryActionView::ProbeSource)
}

/// The machine moves to `phase` and asks for `action`.
pub open spec fn entry_go(m: EntryMoveView, phase: EntryPhase, action: EntryActionView) -> (
    EntryMoveView,
    EntryActionView,
) {
    (EntryMoveView { phase, ..m }, action)
}

/// The machine settles with `outcome`.
pub open spec fn entry_done(m: EntryMoveView, outcome: EntryOutcome) -> (
    EntryMoveView,
    EntryActionView,
) {
    entry_go(m, EntryPhase::Finished, EntryActionView::Done(outcome))
}

/// The machine starts the move to `name`.
pub open spec fn entry_move_to(m: EntryMoveView, name: Seq<char>) -> (
    EntryMoveView,
    EntryActionView,
) {
    entry_go(m, EntryPhase::Moving, EntryActionView::Move(name))
}

/// The rename search looks at the candidate with number `attempt`.
pub open spec fn entry_try(m: EntryMoveView, attempt: u64) -> (EntryMoveView, EntryActionView) {
    entry_go(
        m,
        EntryPhase::Candidate(attempt),
        EntryActionView::ProbeDest(candidate_name(m.name, attempt as nat)),
    )
}

/// What an answer means that fits no branch of the phase it came in: an
/// error code is passed on, anything else is an answer nobody asked for.
pub open spec fn entry_stray(m: EntryMoveView, e: EntryEvent) -> (EntryMoveView, EntryActionView) {
    match e {
        EntryEvent::Failed(code) => entry_done(m, EntryOutcome::Failed(MergeError::Io(code))),
        _ => entry_done(m, EntryOutcome::Failed(MergeError::UnexpectedEvent)),
    }
}

/// The first operation on a source that is a regular file.
pub open spec fn entry_file(m: EntryMoveView) -> (EntryMoveView, EntryActionView) {
    match m.action {
        ReplaceAction::Replace => entry_move_to(m, m.name),
        ReplaceAction::Skip => entry_go(
            m,
            EntryPhase::SkipProbe,
            EntryActionView::ProbeDest(m.name),
        ),
        ReplaceAction::Rename => entry_try(m, 0),
        ReplaceAction::CheckReplace => entry_go(
            m,
            EntryPhase::CheckProbe,
            EntryActionView::ProbeDest(m.name),
        ),
    }
}

/// The transition of the entry machine: the state after `e` and the next operation.
///
/// - The source is probed first. A file goes by its action, a directory by
///   what is at the destination, anything else is left alone, and a source
///   that is gone is an error.
/// - `Replace` moves at once. `Skip` moves only where nothing is at the
///   destination. `CheckReplace` moves where nothing is there or where a file
///   with the same bytes is there, and searches a name otherwise. `Rename`
///   always searches a name.
/// - The name search probes candidate after candidate. A free candidate gets
///   the source; a candidate with the same bytes makes the source redundant,
///   and the source is removed; a candidate with other bytes leads to the
///   next number, or to `TooManyDuplicates` after the last.
/// - A directory is moved whole where nothing is at the destination and
///   deferred where a directory is there.
/// - A file facing a directory, or a directory facing a file, is a
///   `TypeConflict`, except under `Skip`, which keeps the source whatever is
///   at the destination.
pub open spec fn entry_step(m: EntryMoveView, e: EntryEvent) -> (EntryMoveView, EntryActionView) {
    match m.phase {
        EntryPhase::SourceKind => match e {
            EntryEvent::Kind(EntryKind::File) => entry_file(m),
            EntryEvent::Kind(EntryKind::Dir) => entry_go(
                m,
                EntryPhase::DirProbe,
                EntryActionView::ProbeDest(m.name),
            ),
            EntryEvent::Kind(EntryKind::Other) => entry_done(m, EntryOutcome::Ignored),
            EntryEvent::Kind(EntryKind::Missing) => entry_done(
                m,
                EntryOutcome::Failed(MergeError::SourceVanished),
            ),
            _ => entry_stray(m, e),
        },
        EntryPhase::SkipProbe => match e {
            EntryEvent::Kind(EntryKind::Missing) => entry_move_to(m, m.name),
            EntryEvent::Kind(_) => entry_done(m, EntryOutcome::Kept),
            _ => entry_stray(m, e),
        },
        EntryPhase::CheckProbe => match e {
            EntryEvent::Kind(EntryKind::Missing) => entry_move_to(m, m.name),
            EntryEvent::Kind(EntryKind::File) => entry_go(
                m,
                EntryPhase::CheckCompare,
                EntryActionView::Compare(m.name),
            ),
            EntryEvent::Kind(_) => entry_done(m, EntryOutcome::Failed(MergeError::TypeConflict)),
            _ => entry_stray(m, e),
        },
        EntryPhase::CheckCompare => match e {
            EntryEvent::Same(true) => entry_move_to(m, m.name),
            EntryEvent::Same(false) => entry_try(m, 0),
            _ => entry_stray(m, e),
        },
        EntryPhase::DirProbe => match e {
            EntryEvent::Kind(EntryKind::Missing) => entry_move_to(m, m.name),
            EntryEvent::Kind(EntryKind::Dir) => entry_done(m, EntryOutcome::Deferred),
            EntryEvent::Kind(_) => entry_done(m, EntryOutcome::Failed(MergeError::TypeConflict)),
            _ => entry_stray(m, e),
        },
        EntryPhase::Candidate(i) => match e {
            EntryEvent::Kind(EntryKind::Missing) => entry_move_to(
                m,
                candidate_name(m.name, i as nat),
            ),
            EntryEvent::Kind(EntryKind::File) => entry_go(
                m,
                EntryPhase::CandidateCompare(i),
                EntryActionView::Compare(candidate_name(m.name, i as nat)),
            ),
            EntryEvent::Kind(_) => entry_done(m, EntryOutcome::Failed(MergeError::TypeConflict)),
            _ => entry_stray(m, e),
        },
        EntryPhase::CandidateCompare(i) => match e {
            EntryEvent::Same(true) => entry_go(
                m,
                EntryPhase::Removing,
                EntryActionView::RemoveSource,
            ),
            EntryEvent::Same(false) => if i < RENAME_ATTEMPT_LIMIT {
                entry_try(m, (i + 1) as u64)
            } else {
                entry_done(m, EntryOutcome::Failed(MergeError::TooManyDuplicates))
            },
            _ => entry_stray(m, e),
        },
        EntryPhase::Moving => match e {
            EntryEvent::Completed => entry_done(m, EntryOutcome::Moved),
            _ => entry_stray(m, e),
        },
        EntryPhase::Removing => match e {
            EntryEvent::Completed => entry_done(m, EntryOutcome::Redundant),
            _ => entry_stray(m, e),
        },
        EntryPhase::Finished => entry_done(m, EntryOutcome::Failed(MergeError::UnexpectedEvent)),
    }
}

/// Builds the candidate name with number `attempt` for `name`.
pub fn candidate(name: &str, attempt: u64) -> (r: String)
    ensures
        r@ == candidate_name(name@, attempt as nat),
{
    let chars = chars_of(name);
    let (stem, ext) = split_name(&chars);
    let mut out = stem;
    out.push('.');
    if attempt != 0 {
        let digits = decimal_of(attempt);
        append_chars(&mut out, &digits);
        out.push('.');
    }
    match ext {
        Some(e) => {
            append_chars(&mut out, &e);
        },
        None => {
            proof {
                assert(out@ + Seq::<char>::empty() =~= out@);
            }
        },
    }
    proof {
        assert(out@ =~= candidate_name(name@, attempt as nat));
    }
    string_of(&out)
}

impl EntryMove {
    /// The machine for the entry `name` under `action`, and its first operation.
    pub fn start(name: String, action: ReplaceAction) -> (r: (EntryMove, EntryAction))
        ensures
            (r.0@, r.1@) == entry_start(name@, action),
    {
        (EntryMove { name, action, phase: EntryPhase::SourceKind }, EntryAction::ProbeSource)
    }

    /// Whether the entry is settled.
    pub fn is_finished(&self) -> (r: bool)
        ensures
            r == (self@.phase == EntryPhase::Finished),
    {
        self.phase == EntryPhase::Finished
    }

    fn done(&mut self, outcome: EntryOutcome) -> (act: EntryAction)
        ensures
            (final(self)@, act@) == entry_done(old(self)@, outcome),
    {
        self.phase = EntryPhase::Finished;
        EntryAction::Done(outcome)
    }

    fn stray(&mut self, event: EntryEvent) -> (act: EntryAction)
        ensures
            (final(self)@, act@) == entry_stray(old(self)@, event),
    {
        match event {
            EntryEvent::Failed(code) => self.done(EntryOutcome::Failed(MergeError::Io(code))),
            _ => self.done(EntryOutcome::Failed(MergeError::UnexpectedEvent)),
        }
    }

    fn move_to_name(&mut self) -> (act: EntryAction)
        ensures
            (final(self)@, act@) == entry_move_to(old(self)@, old(self)@.name),
    {
        self.phase = EntryPhase::Moving;
        EntryAction::Move(self.name.clone())
    }

    fn attempt(&mut self, number: u64) -> (act: EntryAction)
        ensures
            (final(self)@, act@) == entry_try(old(self)@, number),
    {
        self.phase = EntryPhase::Candidate(number);
        EntryAction::ProbeDest(candidate(self.name.as_str(), number))
    }

    fn file(&mut self) -> (act: EntryAction)
        ensures
            (final(self)@, act@) == entry_file(old(self)@),
    {
        match self.action {
            ReplaceAction::Replace => self.move_to_name(),
            ReplaceAction::Skip => {
                self.phase = EntryPhase::SkipProbe;
                EntryAction::ProbeDest(self.name.clone())
            },
            ReplaceAction::Rename => self.attempt(0),
            ReplaceAction::CheckReplace => {
                self.phase = EntryPhase::CheckProbe;
                EntryAction::ProbeDest(self.name.clone())
            },
        }
    }

    /// Takes the answer to the last operation and returns the next one.
    pub fn step(&mut self, event: EntryEvent) -> (act: EntryAction)
        ensures
            (final(self)@, act@) == entry_step(old(self)@, event),
    {
        match self.phase {
            EntryPhase::SourceKind => match event {
                EntryEvent::Kind(EntryKind::File) => self.file(),
                EntryEvent::Kind(EntryKind::Dir) => {
                    self.phase = EntryPhase::DirProbe;
                    EntryAction::ProbeDest(self.name.clone())
                },
                EntryEvent::Kind(EntryKind::Other) => self.done(EntryOutcome::Ignored),
                EntryEvent::Kind(EntryKind::Missing) => self.done(
                    EntryOutcome::Failed(MergeError::SourceVanished),
                ),
                _ => self.stray(event),
            },
            EntryPhase::SkipProbe => match event {
                EntryEvent::Kind(EntryKind::Missing) => self.move_to_name(),
                EntryEvent::Kind(_) => self.done(EntryOutcome::Kept),
                _ => self.stray(event),
            },
            EntryPhase::CheckProbe => match event {
                EntryEvent::Kind(EntryKind::Missing) => self.move_to_name(),
                EntryEvent::Kind(EntryKind::File) => {
                    self.phase = EntryPhase::CheckCompare;
                    EntryAction::Compare(self.name.clone())
                },
                EntryEvent::Kind(_) => self.done(EntryOutcome::Failed(MergeError::TypeConflict)),
                _ => self.stray(event),
            },
            EntryPhase::CheckCompare => match event {
                EntryEvent::Same(true) => self.move_to_name(),
                EntryEvent::Same(false) => self.attempt(0),
                _ => self.stray(event),
            },
            EntryPhase::DirProbe => match event {
                EntryEvent::Kind(EntryKind::Missing) => self.move_to_name(),
                EntryEvent::Kind(EntryKind::Dir) => self.done(EntryOutcome::Deferred),
                EntryEvent::Kind(_) => self.done(EntryOutcome::Failed(MergeError::TypeConflict)),
                _ => self.stray(event),
            },
            EntryPhase::Candidate(i) => match event {
                EntryEvent::Kind(EntryKind::Missing) => {
                    self.phase = EntryPhase::Moving;
                    EntryAction::Move(candidate(self.name.as_str(), i))
                },
                EntryEvent::Kind(EntryKind::File) => {
                    self.phase = EntryPhase::CandidateCompare(i);
                    EntryAction::Compare(candidate(self.name.as_str(), i))
                },
                EntryEvent::Kind(_) => self.done(EntryOutcome::Failed(MergeError::TypeConflict)),
                _ => self.stray(event),
            },
            EntryPhase::CandidateCompare(i) => match event {
                EntryEvent::Same(true) => {
                    self.phase = EntryPhase::Removing;
                    EntryAction::RemoveSource
                },
                EntryEvent::Same(false) => {
                    if i < RENAME_ATTEMPT_LIMIT {
                        self.attempt(i + 1)
                    } else {
                        self.done(EntryOutcome::Failed(MergeError::TooManyDuplicates))
                    }
                },
                _ => self.stray(event),
            },
            EntryPhase::Moving => match event {
                EntryEvent::Completed => self.done(EntryOutcome::Moved),
                _ => self.stray(event),
            },
            EntryPhase::Removing => match event {
                EntryEvent::Completed => self.done(EntryOutcome::Redundant),
                _ => self.stray(event),
            },
            EntryPhase::Finished => self.done(EntryOutcome::Failed(MergeError::UnexpectedEvent)),
        }
    }
}

} // verus!
