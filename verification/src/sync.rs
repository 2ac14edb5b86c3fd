//! The tree synchronizer's decisions.
//!
//! Synchronizing brings the files of a source directory to a destination
//! directory, one direction only, under a preset: which extensions take
//! part, which files count as equal, whether a file that differs is copied,
//! moved or only found, and what is removed afterwards. The walk over the
//! directories belongs to the caller. What is decided for each entry is
//! decided here: `SyncEntry` is a state machine that says which operation
//! comes next and takes the operation's result as its next input.

use crate::path::names_of;
use crate::text::{
    chars_of, find_last, last_index_of, lower, same_text, slice_of, string_of, to_lower,
};
use vstd::prelude::*;
use vstd::string::StringExecFns;

verus! {

/// What is done with a source file that is missing or different at the destination.
#[derive(Debug, Clone, Copy, PartialEq, Eq, Structural)]
pub enum SoftSyncExec {
    /// Nothing: the difference is only found.
    NoOp,
    /// The source file is copied to the destination.
    Copy,
    /// The source file is moved to the destination.
    Move,
}

impl SoftSyncExec {
    /// The mode in words.
    pub fn label(&self) -> (r: &'static str)
        ensures
            r@ == match self {
                SoftSyncExec::NoOp => "无操作"@,
                SoftSyncExec::Copy => "使用复制命令"@,
                SoftSyncExec::Move => "使用移动命令"@,
            },
    {
        match self {
            SoftSyncExec::NoOp => "无操作",
            SoftSyncExec::Copy => "使用复制命令",
            SoftSyncExec::Move => "使用移动命令",
        }
    }
}

/// A synchronization preset.
#[derive(Debug)]
pub struct SoftSyncPreset {
    /// The preset's name.
    pub name: String,
    /// Extensions that take part whatever `allow_other_exts` says.
    pub allow_src_exts: Vec<String>,
    /// Extensions that never take part.
    pub disallow_src_exts: Vec<String>,
    /// Whether extensions named in neither list take part.
    pub allow_other_exts: bool,
    /// Bound pairs (from, to): a file with an extension in `from` is left
    /// alone where the destination holds its name with an extension in `to`.
    pub no_activate_ext_bound_pairs: Vec<(Vec<String>, Vec<String>)>,
    /// Whether destination entries without a source entry are removed.
    pub remove_dst_extra_files: bool,
    /// Whether files of different size count as different.
    pub check_file_size: bool,
    /// Whether files of different modification time count as different.
    pub check_file_mtime: bool,
    /// Whether files of different content count as different.
    pub check_file_sha512: bool,
    /// Whether a source file that equals its destination is removed.
    pub remove_src_same_files: bool,
    /// What is done with a file that is missing or different at the destination.
    pub exec_mode: SoftSyncExec,
}

/// The content of a `SoftSyncPreset`.
pub struct PresetView {
    pub name: Seq<char>,
    pub allow_src_exts: Seq<Seq<char>>,
    pub disallow_src_exts: Seq<Seq<char>>,
    pub allow_other_exts: bool,
    pub no_activate_ext_bound_pairs: Seq<(Seq<Seq<char>>, Seq<Seq<char>>)>,
    pub remove_dst_extra_files: bool,
    pub check_file_size: bool,
    pub check_file_mtime: bool,
    pub check_file_sha512: bool,
    pub remove_src_same_files: bool,
    pub exec_mode: SoftSyncExec,
}

/// The bound pairs held by a list, as plain values.
pub open spec fn pairs_of(pairs: Seq<(Vec<String>, Vec<String>)>) -> Seq<
    (Seq<Seq<char>>, Seq<Seq<char>>),
> {
    Seq::new(pairs.len(), |i: int| (names_of(pairs[i].0@), names_of(pairs[i].1@)))
}

impl View for SoftSyncPreset {
    type V = PresetView;

    open spec fn view(&self) -> PresetView {
        PresetView {
            name: self.name@,
            allow_src_exts: names_of(self.allow_src_exts@),
            disallow_src_exts: names_of(self.disallow_src_exts@),
            allow_other_exts: self.allow_other_exts,
            no_activate_ext_bound_pairs: pairs_of(self.no_activate_ext_bound_pairs@),
            remove_dst_extra_files: self.remove_dst_extra_files,
            check_file_size: self.check_file_size,
            check_file_mtime: self.check_file_mtime,
            check_file_sha512: self.check_file_sha512,
            remove_src_same_files: self.remove_src_same_files,
            exec_mode: self.exec_mode,
        }
    }
}

/// The default preset: every extension takes part, size and modification
/// time are compared, differing files are copied, and destination entries
/// without a source are removed.
pub open spec fn default_preset() -> PresetView {
    PresetView {
        name: "本地文件同步预设"@,
        allow_src_exts: Seq::empty(),
        disallow_src_exts: Seq::empty(),
        allow_other_exts: true,
        no_activate_ext_bound_pairs: Seq::empty(),
        remove_dst_extra_files: true,
        check_file_size: true,
        check_file_mtime: true,
        check_file_sha512: false,
        remove_src_same_files: false,
        exec_mode: SoftSyncExec::Copy,
    }
}

/// The preset for update packs: size and content are compared, nothing is
/// transferred, and source files that equal their destination are removed.
pub open spec fn append_preset() -> PresetView {
    PresetView {
        name: "同步预设（用于更新包）"@,
        check_file_size: true,
        check_file_mtime: false,
        check_file_sha512: true,
        remove_src_same_files: true,
        remove_dst_extra_files: false,
        exec_mode: SoftSyncExec::NoOp,
        ..default_preset()
    }
}

/// The default preset restricted to `exts`, without removal at the destination.
pub open spec fn only_preset(exts: Seq<Seq<char>>) -> PresetView {
    PresetView {
        allow_src_exts: exts,
        allow_other_exts: false,
        remove_dst_extra_files: false,
        ..default_preset()
    }
}

impl Default for SoftSyncPreset {
    fn default() -> (r: Self)
        ensures
            r@ == default_preset(),
    {
        let r = SoftSyncPreset {
            name: String::from_str("本地文件同步预设"),
            allow_src_exts: Vec::new(),
            disallow_src_exts: Vec::new(),
            allow_other_exts: true,
            no_activate_ext_bound_pairs: Vec::new(),
            remove_dst_extra_files: true,
            check_file_size: true,
            check_file_mtime: true,
            check_file_sha512: false,
            remove_src_same_files: false,
            exec_mode: SoftSyncExec::Copy,
        };
        proof {
            assert(r@.allow_src_exts =~= Seq::empty());
            assert(r@.disallow_src_exts =~= Seq::empty());
            assert(r@.no_activate_ext_bound_pairs =~= Seq::empty());
        }
        r
    }
}

/// The default preset.
pub fn preset_default() -> (r: SoftSyncPreset)
    ensures
        r@ == default_preset(),
{
    SoftSyncPreset::default()
}

/// The preset for update packs.
pub fn preset_for_append() -> (r: SoftSyncPreset)
    ensures
        r@ == append_preset(),
{
    let mut r = SoftSyncPreset::default();
    r.name = String::from_str("同步预设（用于更新包）");
    r.check_file_size = true;
    r.check_file_mtime = false;
    r.check_file_sha512 = true;
    r.remove_src_same_files = true;
    r.remove_dst_extra_files = false;
    r.exec_mode = SoftSyncExec::NoOp;
    r
}

/// The default preset restricted to the extensions of `exts`.
fn preset_only(exts: Vec<String>) -> (r: SoftSyncPreset)
    ensures
        r@ == only_preset(names_of(exts@)),
{
    let mut r = SoftSyncPreset::default();
    r.allow_src_exts = exts;
    r.allow_other_exts = false;
    r.remove_dst_extra_files = false;
    r
}

/// The preset that copies `flac` files only.
pub fn preset_flac() -> (r: SoftSyncPreset)
    ensures
        r@ == only_preset(seq!["flac"@]),
{
    let mut exts: Vec<String> = Vec::new();
    exts.push(String::from_str("flac"));
    proof {
        assert(names_of(exts@) =~= seq!["flac"@]);
    }
    preset_only(exts)
}

/// The preset that copies `mp4` and `avi` files only.
pub fn preset_mp4_avi() -> (r: SoftSyncPreset)
    ensures
        r@ == only_preset(seq!["mp4"@, "avi"@]),
{
    let mut exts: Vec<String> = Vec::new();
    exts.push(String::from_str("mp4"));
    exts.push(String::from_str("avi"));
    proof {
        assert(names_of(exts@) =~= seq!["mp4"@, "avi"@]);
    }
    preset_only(exts)
}

/// The preset that only finds differing `mp4`, `avi` and `flac` files.
pub fn preset_cache() -> (r: SoftSyncPreset)
    ensures
        r@ == (PresetView {
            exec_mode: SoftSyncExec::NoOp,
            ..only_preset(seq!["mp4"@, "avi"@, "flac"@])
        }),
{
    let mut exts: Vec<String> = Vec::new();
    exts.push(String::from_str("mp4"));
    exts.push(String::from_str("avi"));
    exts.push(String::from_str("flac"));
    proof {
        assert(names_of(exts@) =~= seq!["mp4"@, "avi"@, "flac"@]);
    }
    let mut r = preset_only(exts);
    r.exec_mode = SoftSyncExec::NoOp;
    r
}

/// The extension by which a file takes part in a synchronization: the text
/// after the last dot of its name, lower-cased. A name without a dot has none.
pub open spec fn sync_extension(name: Seq<char>) -> Option<Seq<char>> {
    let dot = last_index_of(name, '.');
    if dot < 0 {
        None
    } else {
        Some(lower(name.skip(dot + 1)))
    }
}

/// Whether files with extension `ext` take part: never where the extension
/// is refused, always where it is allowed by name, and else as the preset
/// says of the other extensions.
pub open spec fn ext_allowed(p: PresetView, ext: Seq<char>) -> bool {
    if p.disallow_src_exts.contains(ext) {
        false
    } else if p.allow_src_exts.contains(ext) {
        true
    } else {
        p.allow_other_exts
    }
}

/// The extensions whose presence at the destination, under the file's name,
/// keeps a file with extension `ext` from being synchronized: the `to` lists
/// of all bound pairs whose `from` list holds `ext`, in order.
pub open spec fn bound_targets(
    pairs: Seq<(Seq<Seq<char>>, Seq<Seq<char>>)>,
    ext: Seq<char>,
) -> Seq<Seq<char>>
    decreases pairs.len(),
{
    if pairs.len() == 0 {
        Seq::empty()
    } else {
        let before = bound_targets(pairs.drop_last(), ext);
        if pairs.last().0.contains(ext) {
            before + pairs.last().1
        } else {
            before
        }
    }
}

/// Whether source and destination count as equal before their content is
/// looked at: each of size and modification time that the preset checks is equal.
pub open spec fn facts_agree(p: PresetView, size_equal: bool, mtime_equal: bool) -> bool {
    (p.check_file_size ==> size_equal) && (p.check_file_mtime ==> mtime_equal)
}

/// What is done with a destination entry when the source has been gone through.
#[derive(Debug, Clone, Copy, PartialEq, Eq, Structural)]
pub enum PruneAction {
    /// The entry stays.
    Keep,
    /// The entry is a directory and is removed with all it holds.
    RemoveDir,
    /// The entry is a file and is removed.
    RemoveFile,
}

/// What a preset does with a destination entry: it is removed where the
/// preset removes extra entries and the source has no entry of that name.
pub open spec fn prune_for(p: PresetView, in_source: bool, is_dir: bool) -> PruneAction {
    if !p.remove_dst_extra_files || in_source {
        PruneAction::Keep
    } else if is_dir {
        PruneAction::RemoveDir
    } else {
        PruneAction::RemoveFile
    }
}

/// Why a synchronization step failed.
#[derive(Debug, Clone, Copy, PartialEq, Eq, Structural)]
pub enum SyncError {
    /// A file-system operation failed with this error code.
    Io(i32),
    /// The machine was given an answer to a question it had not asked.
    UnexpectedEvent,
}

/// How a source entry was settled.
#[derive(Debug, Clone, Copy, PartialEq, Eq, Structural)]
pub enum SyncOutcome {
    /// A directory: its destination exists now and its entries were synchronized.
    Entered,
    /// A file without extension: left alone.
    NoExtension,
    /// A file whose extension does not take part: left alone.
    ExtensionRefused,
    /// A file whose bound counterpart exists at the destination: left alone.
    Bound,
    /// The destination is missing or different, and the preset transfers nothing.
    Pending,
    /// The file was copied to the destination.
    Copied,
    /// The file was moved to the destination.
    Moved,
    /// Source and destination are equal; both stay.
    InSync,
    /// Source and destination are equal; the source was removed.
    Removed,
    /// The entry was left as it was because of this error.
    Failed(SyncError),
}

/// Where a source entry stands.
#[derive(Debug, Clone, Copy, PartialEq, Eq, Structural)]
pub enum SyncPhase {
    /// Asked for the synchronization of the directory's own entries.
    Entering,
    /// Asked whether the bound counterpart with this number exists.
    BoundProbe(usize),
    /// Asked whether the destination exists.
    DestProbe,
    /// Asked whether size and modification time are equal.
    Stat,
    /// Asked whether the contents are equal.
    Comparing,
    /// Asked for the copy.
    Copying,
    /// Asked for the move.
    Moving,
    /// Asked for the removal of the source.
    Removing,
    /// Settled.
    Finished,
}

/// The answer to an operation.
#[derive(Debug, Clone, Copy, PartialEq, Eq, Structural)]
pub enum SyncEvent {
    /// Whether a probed path exists.
    Exists(bool),
    /// Whether size and modification time of source and destination are equal.
    Facts { size_equal: bool, mtime_equal: bool },
    /// Whether source and destination hold the same bytes.
    Same(bool),
    /// The operation succeeded.
    Completed,
    /// The operation failed with this error code.
    Failed(i32),
}

/// The next operation on a source entry.
#[derive(Debug)]
pub enum SyncAction {
    /// Make sure the destination directory exists and synchronize the entries
    /// of the source directory.
    EnterDir,
    /// Find out whether the destination, with its extension replaced by this one, exists.
    ProbeBound(String),
    /// Find out whether the destination exists.
    ProbeDest,
    /// Compare size and modification time of source and destination.
    Stat,
    /// Compare the contents of source and destination.
    Compare,
    /// Copy the source to the destination.
    Copy,
    /// Move the source to the destination.
    Move,
    /// Remove the source.
    RemoveSource,
    /// Nothing more: the entry is settled.
    Done(SyncOutcome),
}

/// The content of a `SyncAction`.
pub enum SyncActionView {
    EnterDir,
    ProbeBound(Seq<char>),
    ProbeDest,
    Stat,
    Compare,
    Copy,
    Move,
    RemoveSource,
    Done(SyncOutcome),
}

impl View for SyncAction {
    type V = SyncActionView;

    open spec fn view(&self) -> SyncActionView {
        match self {
            SyncAction::EnterDir => SyncActionView::EnterDir,
            SyncAction::ProbeBound(e) => SyncActionView::ProbeBound(e@),
            SyncAction::ProbeDest => SyncActionView::ProbeDest,
            SyncAction::Stat => SyncActionView::Stat,
            SyncAction::Compare => SyncActionView::Compare,
            SyncAction::Copy => SyncActionView::Copy,
            SyncAction::Move => SyncActionView::Move,
            SyncAction::RemoveSource => SyncActionView::RemoveSource,
            SyncAction::Done(o) => SyncActionView::Done(*o),
        }
    }
}

/// One source entry on its way through a synchronization.
#[derive(Debug)]
pub struct SyncEntry {
    /// The bound counterparts to look for, in order.
    pub targets: Vec<String>,
    /// Where the entry stands.
    pub phase: SyncPhase,
}

/// The content of a `SyncEntry`.
pub struct SyncEntryView {
    pub targets: Seq<Seq<char>>,
    pub phase: SyncPhase,
}

impl View for SyncEntry {
    type V = SyncEntryView;

    open spec fn view(&self) -> SyncEntryView {
        SyncEntryView { targets: names_of(self.targets@), phase: self.phase }
    }
}

/// The machine moves to `phase` and asks for `action`.
pub open spec fn sync_go(m: SyncEntryView, phase: SyncPhase, action: SyncActionView) -> (
    SyncEntryView,
    SyncActionView,
) {
    (SyncEntryView { phase, ..m }, action)
}

/// The machine settles with `outcome`.
pub open spec fn sync_done(m: SyncEntryView, outcome: SyncOutcome) -> (
    SyncEntryView,
    SyncActionView,
) {
    sync_go(m, SyncPhase::Finished, SyncActionView::Done(outcome))
}

/// What is done with a file that is missing or different at the destination.
pub open spec fn sync_transfer(m: SyncEntryView, p: PresetView) -> (SyncEntryView, SyncActionView) {
    match p.exec_mode {
        SoftSyncExec::NoOp => sync_done(m, SyncOutcome::Pending),
        SoftSyncExec::Copy => sync_go(m, SyncPhase::Copying, SyncActionView::Copy),
        SoftSyncExec::Move => sync_go(m, SyncPhase::Moving, SyncActionView::Move),
    }
}

/// What is done with a file that equals its destination.
pub open spec fn sync_equal(m: SyncEntryView, p: PresetView) -> (SyncEntryView, SyncActionView) {
    if p.remove_src_same_files {
        sync_go(m, SyncPhase::Removing, SyncActionView::RemoveSource)
    } else {
        sync_done(m, SyncOutcome::InSync)
    }
}

/// What follows once the facts the preset checks are found equal: the
/// comparison of the contents where the preset asks for it.
pub open spec fn sync_after_facts(m: SyncEntryView, p: PresetView) -> (
    SyncEntryView,
    SyncActionView,
) {
    if p.check_file_sha512 {
        sync_go(m, SyncPhase::Comparing, SyncActionView::Compare)
    } else {
        sync_equal(m, p)
    }
}

/// The look at the bound counterpart with number `i`, or at the destination
/// itself when the counterparts are used up.
pub open spec fn sync_probe_from(m: SyncEntryView, i: int) -> (SyncEntryView, SyncActionView) {
    if 0 <= i < m.targets.len() && i <= usize::MAX {
        sync_go(m, SyncPhase::BoundProbe(i as usize), SyncActionView::ProbeBound(m.targets[i]))
    } else {
        sync_go(m, SyncPhase::DestProbe, SyncActionView::ProbeDest)
    }
}

/// What an answer means that fits no branch of the phase it came in.
pub open spec fn sync_stray(m: SyncEntryView, e: SyncEvent) -> (SyncEntryView, SyncActionView) {
    match e {
        SyncEvent::Failed(code) => sync_done(m, SyncOutcome::Failed(SyncError::Io(code))),
        _ => sync_done(m, SyncOutcome::Failed(SyncError::UnexpectedEvent)),
    }
}

/// The machine for a source entry in its first state, and the first operation.
///
/// A directory is entered. A file takes part only with an extension that the
/// preset lets through; its bound counterparts are looked for first.
pub open spec fn sync_start(name: Seq<char>, is_dir: bool, p: PresetView) -> (
    SyncEntryView,
    SyncActionView,
) {
    let idle = SyncEntryView { targets: Seq::empty(), phase: SyncPhase::Finished };
    if is_dir {
        sync_go(idle, SyncPhase::Entering, SyncActionView::EnterDir)
    } else {
        match sync_extension(name) {
            None => sync_done(idle, SyncOutcome::NoExtension),
            Some(ext) => if !ext_allowed(p, ext) {
                sync_done(idle, SyncOutcome::ExtensionRefused)
            } else {
                sync_probe_from(
                    SyncEntryView {
                        targets: bound_targets(p.no_activate_ext_bound_pairs, ext),
                        phase: SyncPhase::Finished,
                    },
                    0,
                )
            },
        }
    }
}

/// The transition of the machine: the state after `e` and the next operation.
///
/// - A bound counterpart that exists settles the file as bound.
/// - A missing destination gets the file as the preset's mode says.
/// - An existing destination is compared: first by the facts the preset
///   checks, then by content where the preset asks for it. A file found
///   different is transferred as the mode says; a file found equal stays, or
///   is removed from the source where the preset says so.
pub open spec fn sync_step(m: SyncEntryView, p: PresetView, e: SyncEvent) -> (
    SyncEntryView,
    SyncActionView,
) {
    match m.phase {
        SyncPhase::Entering => match e {
            SyncEvent::Completed => sync_done(m, SyncOutcome::Entered),
            _ => sync_stray(m, e),
        },
        SyncPhase::BoundProbe(i) => match e {
            SyncEvent::Exists(true) => sync_done(m, SyncOutcome::Bound),
            SyncEvent::Exists(false) => sync_probe_from(m, i + 1),
            _ => sync_stray(m, e),
        },
        SyncPhase::DestProbe => match e {
            SyncEvent::Exists(false) => sync_transfer(m, p),
            SyncEvent::Exists(true) => if p.check_file_size || p.check_file_mtime {
                sync_go(m, SyncPhase::Stat, SyncActionView::Stat)
            } else {
                sync_after_facts(m, p)
            },
            _ => sync_stray(m, e),
        },
        SyncPhase::Stat => match e {
            SyncEvent::Facts { size_equal, mtime_equal } => if facts_agree(
                p,
                size_equal,
                mtime_equal,
            ) {
                sync_after_facts(m, p)
            } else {
                sync_transfer(m, p)
            },
            _ => sync_stray(m, e),
        },
        SyncPhase::Comparing => match e {
            SyncEvent::Same(true) => sync_equal(m, p),
            SyncEvent::Same(false) => sync_transfer(m, p),
            _ => sync_stray(m, e),
        },
        SyncPhase::Copying => match e {
            SyncEvent::Completed => sync_done(m, SyncOutcome::Copied),
            _ => sync_stray(m, e),
        },
        SyncPhase::Moving => match e {
            SyncEvent::Completed => sync_done(m, SyncOutcome::Moved),
            _ => sync_stray(m, e),
        },
        SyncPhase::Removing => match e {
            SyncEvent::Completed => sync_done(m, SyncOutcome::Removed),
            _ => sync_stray(m, e),
        },
        SyncPhase::Finished => sync_done(m, SyncOutcome::Failed(SyncError::UnexpectedEvent)),
    }
}

/// Whether `list` holds the text `x`.
pub fn contains_name(list: &Vec<String>, x: &str) -> (r: bool)
    ensures
        r == names_of(list@).contains(x@),
{
    let mut i: usize = 0;
    while i < list.len()
        invariant
            i <= list.len(),
            forall|j: int| 0 <= j < i ==> names_of(list@)[j] != x@,
        decreases list.len() - i,
    {
        if same_text(list[i].as_str(), x) {
            proof {
                assert(names_of(list@)[i as int] == x@);
            }
            return true;
        }
        i += 1;
    }
    false
}

/// The extension by which the file `name` takes part in a synchronization.
pub fn extension_for_sync(name: &str) -> (r: Option<String>)
    ensures
        match r {
            Some(e) => sync_extension(name@) == Some(e@),
            None => sync_extension(name@) is None,
        },
{
    let chars = chars_of(name);
    match find_last(&chars, '.') {
        Some(dot) => {
            let tail = slice_of(&chars, dot + 1, chars.len());
            proof {
                assert(tail@ =~= name@.skip(dot as int + 1));
            }
            Some(string_of(&to_lower(&tail)))
        },
        None => None,
    }
}

impl SoftSyncPreset {
    /// Whether files with extension `ext` take part.
    pub fn allows(&self, ext: &str) -> (r: bool)
        ensures
            r == ext_allowed(self@, ext@),
    {
        if contains_name(&self.disallow_src_exts, ext) {
            false
        } else if contains_name(&self.allow_src_exts, ext) {
            true
        } else {
            self.allow_other_exts
        }
    }

    /// The extensions of the bound counterparts of a file with extension `ext`.
    pub fn bound_targets_for(&self, ext: &str) -> (r: Vec<String>)
        ensures
            names_of(r@) == bound_targets(self@.no_activate_ext_bound_pairs, ext@),
    {
        let ghost pairs = self@.no_activate_ext_bound_pairs;
        let mut out: Vec<String> = Vec::new();
        let mut i: usize = 0;
        proof {
            assert(names_of(out@) =~= Seq::<Seq<char>>::empty());
        }
        while i < self.no_activate_ext_bound_pairs.len()
            invariant
                i <= self.no_activate_ext_bound_pairs.len(),
                pairs == self@.no_activate_ext_bound_pairs,
                names_of(out@) == bound_targets(pairs.take(i as int), ext@),
            decreases self.no_activate_ext_bound_pairs.len() - i,
        {
            proof {
                assert(pairs.take(i as int + 1).drop_last() =~= pairs.take(i as int));
                assert(pairs.take(i as int + 1).last() == pairs[i as int]);
            }
            let pair = &self.no_activate_ext_bound_pairs[i];
            if contains_name(&pair.0, ext) {
                let ghost before = names_of(out@);
                let mut j: usize = 0;
                while j < pair.1.len()
                    invariant
                        j <= pair.1.len(),
                        names_of(out@) == before + names_of(pair.1@).take(j as int),
                    decreases pair.1.len() - j,
                {
                    let ghost was = names_of(out@);
                    out.push(pair.1[j].clone());
                    proof {
                        assert(names_of(out@) =~= was.push(names_of(pair.1@)[j as int]));
                        assert(names_of(pair.1@).take(j as int + 1) =~= names_of(pair.1@).take(
                            j as int,
                        ).push(names_of(pair.1@)[j as int]));
                    }
                    j += 1;
                }
                proof {
                    assert(names_of(pair.1@).take(pair.1.len() as int) =~= names_of(pair.1@));
                }
            }
            i += 1;
        }
        proof {
            assert(pairs.take(self.no_activate_ext_bound_pairs.len() as int) =~= pairs);
        }
        out
    }

    /// What is done with a destination entry when the source has been gone through.
    pub fn prune(&self, in_source: bool, is_dir: bool) -> (r: PruneAction)
        ensures
            r == prune_for(self@, in_source, is_dir),
    {
        if !self.remove_dst_extra_files || in_source {
            PruneAction::Keep
        } else if is_dir {
            PruneAction::RemoveDir
        } else {
            PruneAction::RemoveFile
        }
    }
}

impl SyncEntry {
    /// The machine for the source entry `name`, and its first operation.
    pub fn start(name: &str, is_dir: bool, preset: &SoftSyncPreset) -> (r: (SyncEntry, SyncAction))
        ensures
            (r.0@, r.1@) == sync_start(name@, is_dir, preset@),
    {
        let mut entry = SyncEntry { targets: Vec::new(), phase: SyncPhase::Finished };
        proof {
            assert(entry@.targets =~= Seq::empty());
        }
        if is_dir {
            entry.phase = SyncPhase::Entering;
            return (entry, SyncAction::EnterDir);
        }
        match extension_for_sync(name) {
            None => (entry, SyncAction::Done(SyncOutcome::NoExtension)),
            Some(ext) => {
                if !preset.allows(ext.as_str()) {
                    (entry, SyncAction::Done(SyncOutcome::ExtensionRefused))
                } else {
                    entry.targets = preset.bound_targets_for(ext.as_str());
                    let act = entry.probe_from(0);
                    (entry, act)
                }
            },
        }
    }

    /// Whether the entry is settled.
    pub fn is_finished(&self) -> (r: bool)
        ensures
            r == (self@.phase == SyncPhase::Finished),
    {
        self.phase == SyncPhase::Finished
    }

    fn done(&mut self, outcome: SyncOutcome) -> (act: SyncAction)
        ensures
            (final(self)@, act@) == sync_done(old(self)@, outcome),
    {
        self.phase = SyncPhase::Finished;
        SyncAction::Done(outcome)
    }

    fn stray(&mut self, event: SyncEvent) -> (act: SyncAction)
        ensures
            (final(self)@, act@) == sync_stray(old(self)@, event),
    {
        match event {
            SyncEvent::Failed(code) => self.done(SyncOutcome::Failed(SyncError::Io(code))),
            _ => self.done(SyncOutcome::Failed(SyncError::UnexpectedEvent)),
        }
    }

    fn probe_from(&mut self, i: usize) -> (act: SyncAction)
        ensures
            (final(self)@, act@) == sync_probe_from(old(self)@, i as int),
    {
        if i < self.targets.len() {
            self.phase = SyncPhase::BoundProbe(i);
            SyncAction::ProbeBound(self.targets[i].clone())
        } else {
            self.phase = SyncPhase::DestProbe;
            SyncAction::ProbeDest
        }
    }

    fn transfer(&mut self, preset: &SoftSyncPreset) -> (act: SyncAction)
        ensures
            (final(self)@, act@) == sync_transfer(old(self)@, preset@),
    {
        match preset.exec_mode {
            SoftSyncExec::NoOp => self.done(SyncOutcome::Pending),
            SoftSyncExec::Copy => {
                self.phase = SyncPhase::Copying;
                SyncAction::Copy
            },
            SoftSyncExec::Move => {
                self.phase = SyncPhase::Moving;
                SyncAction::Move
            },
        }
    }

    fn equal(&mut self, preset: &SoftSyncPreset) -> (act: SyncAction)
        ensures
            (final(self)@, act@) == sync_equal(old(self)@, preset@),
    {
        if preset.remove_src_same_files {
            self.phase = SyncPhase::Removing;
            SyncAction::RemoveSource
        } else {
            self.done(SyncOutcome::InSync)
        }
    }

    fn after_facts(&mut self, preset: &SoftSyncPreset) -> (act: SyncAction)
        ensures
            (final(self)@, act@) == sync_after_facts(old(self)@, preset@),
    {
        if preset.check_file_sha512 {
            self.phase = SyncPhase::Comparing;
            SyncAction::Compare
        } else {
            self.equal(preset)
        }
    }

    /// Takes the answer to the last operation and returns the next one.
    pub fn step(&mut self, preset: &SoftSyncPreset, event: SyncEvent) -> (act: SyncAction)
        ensures
            (final(self)@, act@) == sync_step(old(self)@, preset@, event),
    {
        match self.phase {
            SyncPhase::Entering => match event {
                SyncEvent::Completed => self.done(SyncOutcome::Entered),
                _ => self.stray(event),
            },
            SyncPhase::BoundProbe(i) => match event {
                SyncEvent::Exists(true) => self.done(SyncOutcome::Bound),
                SyncEvent::Exists(false) => {
                    if i < self.targets.len() {
                        self.probe_from(i + 1)
                    } else {
                        self.phase = SyncPhase::DestProbe;
                        SyncAction::ProbeDest
                    }
                },
                _ => self.stray(event),
            },
            SyncPhase::DestProbe => match event {
                SyncEvent::Exists(false) => self.transfer(preset),
                SyncEvent::Exists(true) => {
                    if preset.check_file_size || preset.check_file_mtime {
                        self.phase = SyncPhase::Stat;
                        SyncAction::Stat
                    } else {
                        self.after_facts(preset)
                    }
                },
                _ => self.stray(event),
            },
            SyncPhase::Stat => match event {
                SyncEvent::Facts { size_equal, mtime_equal } => {
                    let agree = (!preset.check_file_size || size_equal) && (
                    !preset.check_file_mtime || mtime_equal);
                    if agree {
                        self.after_facts(preset)
                    } else {
                        self.transfer(preset)
                    }
                },
                _ => self.stray(event),
            },
            SyncPhase::Comparing => match event {
                SyncEvent::Same(true) => self.equal(preset),
                SyncEvent::Same(false) => self.transfer(preset),
                _ => self.stray(event),
            },
            SyncPhase::Copying => match event {
                SyncEvent::Completed => self.done(SyncOutcome::Copied),
                _ => self.stray(event),
            },
            SyncPhase::Moving => match event {
                SyncEvent::Completed => self.done(SyncOutcome::Moved),
                _ => self.stray(event),
            },
            SyncPhase::Removing => match event {
                SyncEvent::Completed => self.done(SyncOutcome::Removed),
                _ => self.stray(event),
            },
            SyncPhase::Finished => self.done(SyncOutcome::Failed(SyncError::UnexpectedEvent)),
        }
    }
}

/// The answer `e` in the state `m` finds source and destination equal by
/// everything the preset checks.
pub open spec fn finds_equal(m: SyncEntryView, p: PresetView, e: SyncEvent) -> bool {
    match (m.phase, e) {
        (SyncPhase::DestProbe, SyncEvent::Exists(true)) => !p.check_file_size
            && !p.check_file_mtime && !p.check_file_sha512,
        (SyncPhase::Stat, SyncEvent::Facts { size_equal, mtime_equal }) => facts_agree(
            p,
            size_equal,
            mtime_equal,
        ) && !p.check_file_sha512,
        (SyncPhase::Comparing, SyncEvent::Same(true)) => true,
        _ => false,
    }
}

/// The answer `e` in the state `m` finds the destination missing or different.
pub open spec fn finds_different(m: SyncEntryView, p: PresetView, e: SyncEvent) -> bool {
    match (m.phase, e) {
        (SyncPhase::DestProbe, SyncEvent::Exists(false)) => true,
        (SyncPhase::Stat, SyncEvent::Facts { size_equal, mtime_equal }) => !facts_agree(
            p,
            size_equal,
            mtime_equal,
        ),
        (SyncPhase::Comparing, SyncEvent::Same(false)) => true,
        _ => false,
    }
}

/// A source file is removed only when it was just found equal to its
/// destination and the preset removes such files, and it is copied or moved
/// only when the destination was just found missing or different.
pub proof fn law_sync_acts_on_findings(m: SyncEntryView, p: PresetView, e: SyncEvent)
    ensures
        sync_step(m, p, e).1 == SyncActionView::RemoveSource ==> p.remove_src_same_files
            && finds_equal(m, p, e),
        sync_step(m, p, e).1 == SyncActionView::Copy ==> p.exec_mode == SoftSyncExec::Copy
            && finds_different(m, p, e),
        sync_step(m, p, e).1 == SyncActionView::Move ==> p.exec_mode == SoftSyncExec::Move
            && finds_different(m, p, e),
{
}

} // verus!
