use be_music_cabinet::sync::{
    contains_name, extension_for_sync, preset_cache, preset_default, preset_flac,
    preset_for_append, preset_mp4_avi, PruneAction, SoftSyncExec, SoftSyncPreset, SyncAction,
    SyncEntry, SyncError, SyncEvent, SyncOutcome, SyncPhase,
};

fn list(items: &[&str]) -> Vec<String> {
    items.iter().map(|i| i.to_string()).collect()
}

fn outcome(action: SyncAction) -> SyncOutcome {
    match action {
        SyncAction::Done(o) => o,
        other => panic!("expected the end, got {:?}", other),
    }
}

#[test]
fn the_default_preset_copies_everything() {
    let p = preset_default();
    assert_eq!(p.name, "本地文件同步预设");
    assert!(p.allow_src_exts.is_empty());
    assert!(p.disallow_src_exts.is_empty());
    assert!(p.allow_other_exts);
    assert!(p.no_activate_ext_bound_pairs.is_empty());
    assert!(p.remove_dst_extra_files);
    assert!(p.check_file_size);
    assert!(p.check_file_mtime);
    assert!(!p.check_file_sha512);
    assert!(!p.remove_src_same_files);
    assert_eq!(p.exec_mode, SoftSyncExec::Copy);
    let d = SoftSyncPreset::default();
    assert_eq!(d.name, p.name);
    assert_eq!(d.exec_mode, p.exec_mode);
}

#[test]
fn the_append_preset_only_removes_what_is_equal() {
    let p = preset_for_append();
    assert_eq!(p.name, "同步预设（用于更新包）");
    assert!(p.check_file_size);
    assert!(!p.check_file_mtime);
    assert!(p.check_file_sha512);
    assert!(p.remove_src_same_files);
    assert!(!p.remove_dst_extra_files);
    assert_eq!(p.exec_mode, SoftSyncExec::NoOp);
    assert!(p.allow_other_exts);
    assert!(p.allow_src_exts.is_empty());
}

#[test]
fn the_media_presets_name_their_extensions() {
    let flac = preset_flac();
    assert_eq!(flac.allow_src_exts, list(&["flac"]));
    assert!(!flac.allow_other_exts);
    assert!(!flac.remove_dst_extra_files);
    assert_eq!(flac.exec_mode, SoftSyncExec::Copy);

    let video = preset_mp4_avi();
    assert_eq!(video.allow_src_exts, list(&["mp4", "avi"]));
    assert!(!video.allow_other_exts);
    assert!(!video.remove_dst_extra_files);
    assert_eq!(video.exec_mode, SoftSyncExec::Copy);

    let cache = preset_cache();
    assert_eq!(cache.allow_src_exts, list(&["mp4", "avi", "flac"]));
    assert!(!cache.allow_other_exts);
    assert!(!cache.remove_dst_extra_files);
    assert_eq!(cache.exec_mode, SoftSyncExec::NoOp);
    assert_eq!(cache.name, "本地文件同步预设");
    assert!(cache.check_file_mtime);
}

#[test]
fn modes_have_labels() {
    assert_eq!(SoftSyncExec::NoOp.label(), "无操作");
    assert_eq!(SoftSyncExec::Copy.label(), "使用复制命令");
    assert_eq!(SoftSyncExec::Move.label(), "使用移动命令");
}

#[test]
fn the_extension_is_what_follows_the_last_dot() {
    assert_eq!(extension_for_sync("a.FLAC"), Some("flac".to_string()));
    assert_eq!(extension_for_sync("a.tar.Gz"), Some("gz".to_string()));
    assert_eq!(extension_for_sync(".bashrc"), Some("bashrc".to_string()));
    assert_eq!(extension_for_sync("name."), Some("".to_string()));
    assert_eq!(extension_for_sync("name"), None);
    assert_eq!(extension_for_sync(""), None);
}

#[test]
fn refusal_beats_permission() {
    let mut p = preset_default();
    p.allow_src_exts = list(&["flac", "ogg"]);
    p.disallow_src_exts = list(&["ogg", "tmp"]);
    p.allow_other_exts = false;
    assert!(p.allows("flac"));
    assert!(!p.allows("ogg"));
    assert!(!p.allows("tmp"));
    assert!(!p.allows("wav"));
    p.allow_other_exts = true;
    assert!(p.allows("wav"));
    assert!(!p.allows("tmp"));
    assert!(contains_name(&list(&["a", "b"]), "b"));
    assert!(!contains_name(&list(&["a", "b"]), "c"));
    assert!(!contains_name(&vec![], ""));
}

#[test]
fn bound_targets_come_from_every_pair_that_names_the_extension() {
    let mut p = preset_default();
    p.no_activate_ext_bound_pairs = vec![
        (list(&["wav"]), list(&["flac", "ogg"])),
        (list(&["bmp"]), list(&["png"])),
        (list(&["wav", "mp3"]), list(&["opus"])),
    ];
    assert_eq!(p.bound_targets_for("wav"), list(&["flac", "ogg", "opus"]));
    assert_eq!(p.bound_targets_for("mp3"), list(&["opus"]));
    assert_eq!(p.bound_targets_for("bmp"), list(&["png"]));
    assert_eq!(p.bound_targets_for("txt"), Vec::<String>::new());
}

#[test]
fn pruning_removes_what_the_source_lacks() {
    let p = preset_default();
    assert_eq!(p.prune(true, false), PruneAction::Keep);
    assert_eq!(p.prune(true, true), PruneAction::Keep);
    assert_eq!(p.prune(false, false), PruneAction::RemoveFile);
    assert_eq!(p.prune(false, true), PruneAction::RemoveDir);
    let q = preset_flac();
    assert_eq!(q.prune(false, false), PruneAction::Keep);
    assert_eq!(q.prune(false, true), PruneAction::Keep);
}

#[test]
fn directories_are_entered() {
    let p = preset_flac();
    let (mut e, first) = SyncEntry::start("sub.flac", true, &p);
    assert!(matches!(first, SyncAction::EnterDir));
    assert_eq!(e.phase, SyncPhase::Entering);
    assert_eq!(outcome(e.step(&p, SyncEvent::Completed)), SyncOutcome::Entered);
    assert!(e.is_finished());
}

#[test]
fn files_that_do_not_take_part_are_left_alone() {
    let p = preset_flac();
    let (e, first) = SyncEntry::start("README", false, &p);
    assert_eq!(outcome(first), SyncOutcome::NoExtension);
    assert!(e.is_finished());
    let (_, first) = SyncEntry::start("a.ogg", false, &p);
    assert_eq!(outcome(first), SyncOutcome::ExtensionRefused);
}

#[test]
fn a_missing_file_is_copied() {
    let p = preset_default();
    let (mut e, first) = SyncEntry::start("a.ogg", false, &p);
    assert!(matches!(first, SyncAction::ProbeDest));
    assert!(matches!(e.step(&p, SyncEvent::Exists(false)), SyncAction::Copy));
    assert_eq!(outcome(e.step(&p, SyncEvent::Completed)), SyncOutcome::Copied);
}

#[test]
fn a_missing_file_is_moved_or_only_found() {
    let mut p = preset_default();
    p.exec_mode = SoftSyncExec::Move;
    let (mut e, _) = SyncEntry::start("a.ogg", false, &p);
    assert!(matches!(e.step(&p, SyncEvent::Exists(false)), SyncAction::Move));
    assert_eq!(outcome(e.step(&p, SyncEvent::Completed)), SyncOutcome::Moved);

    p.exec_mode = SoftSyncExec::NoOp;
    let (mut e, _) = SyncEntry::start("a.ogg", false, &p);
    assert_eq!(outcome(e.step(&p, SyncEvent::Exists(false))), SyncOutcome::Pending);
}

#[test]
fn size_and_time_decide_under_the_default_preset() {
    let p = preset_default();
    for (size_equal, mtime_equal, copied) in [
        (true, true, false),
        (true, false, true),
        (false, true, true),
        (false, false, true),
    ] {
        let (mut e, _) = SyncEntry::start("a.ogg", false, &p);
        assert!(matches!(e.step(&p, SyncEvent::Exists(true)), SyncAction::Stat));
        let next = e.step(&p, SyncEvent::Facts { size_equal, mtime_equal });
        if copied {
            assert!(matches!(next, SyncAction::Copy));
        } else {
            assert_eq!(outcome(next), SyncOutcome::InSync);
        }
    }
}

#[test]
fn the_append_preset_compares_contents_and_removes_equal_sources() {
    let p = preset_for_append();
    let (mut e, _) = SyncEntry::start("a.bms", false, &p);
    assert!(matches!(e.step(&p, SyncEvent::Exists(true)), SyncAction::Stat));
    assert!(matches!(
        e.step(&p, SyncEvent::Facts { size_equal: true, mtime_equal: false }),
        SyncAction::Compare
    ));
    assert!(matches!(e.step(&p, SyncEvent::Same(true)), SyncAction::RemoveSource));
    assert_eq!(outcome(e.step(&p, SyncEvent::Completed)), SyncOutcome::Removed);

    let (mut e, _) = SyncEntry::start("a.bms", false, &p);
    e.step(&p, SyncEvent::Exists(true));
    e.step(&p, SyncEvent::Facts { size_equal: true, mtime_equal: true });
    assert_eq!(outcome(e.step(&p, SyncEvent::Same(false))), SyncOutcome::Pending);

    let (mut e, _) = SyncEntry::start("a.bms", false, &p);
    e.step(&p, SyncEvent::Exists(true));
    assert_eq!(
        outcome(e.step(&p, SyncEvent::Facts { size_equal: false, mtime_equal: true })),
        SyncOutcome::Pending
    );
}

#[test]
fn without_any_check_an_existing_file_counts_as_equal() {
    let mut p = preset_default();
    p.check_file_size = false;
    p.check_file_mtime = false;
    let (mut e, _) = SyncEntry::start("a.ogg", false, &p);
    assert_eq!(outcome(e.step(&p, SyncEvent::Exists(true))), SyncOutcome::InSync);

    p.check_file_sha512 = true;
    let (mut e, _) = SyncEntry::start("a.ogg", false, &p);
    assert!(matches!(e.step(&p, SyncEvent::Exists(true)), SyncAction::Compare));
    assert!(matches!(e.step(&p, SyncEvent::Same(false)), SyncAction::Copy));
}

#[test]
fn a_bound_counterpart_keeps_the_file_out() {
    let mut p = preset_default();
    p.no_activate_ext_bound_pairs = vec![(list(&["wav"]), list(&["flac", "ogg"]))];
    let (mut e, first) = SyncEntry::start("a.WAV", false, &p);
    assert!(matches!(first, SyncAction::ProbeBound(ref ext) if ext == "flac"));
    assert_eq!(e.phase, SyncPhase::BoundProbe(0));
    let next = e.step(&p, SyncEvent::Exists(false));
    assert!(matches!(next, SyncAction::ProbeBound(ref ext) if ext == "ogg"));
    assert_eq!(outcome(e.step(&p, SyncEvent::Exists(true))), SyncOutcome::Bound);

    let (mut e, _) = SyncEntry::start("a.wav", false, &p);
    e.step(&p, SyncEvent::Exists(false));
    assert!(matches!(e.step(&p, SyncEvent::Exists(false)), SyncAction::ProbeDest));
    assert!(matches!(e.step(&p, SyncEvent::Exists(false)), SyncAction::Copy));

    let (_, first) = SyncEntry::start("a.mp3", false, &p);
    assert!(matches!(first, SyncAction::ProbeDest));
}

#[test]
fn failures_and_stray_answers_end_the_entry() {
    let p = preset_default();
    let (mut e, _) = SyncEntry::start("a.ogg", false, &p);
    assert_eq!(
        outcome(e.step(&p, SyncEvent::Failed(13))),
        SyncOutcome::Failed(SyncError::Io(13))
    );
    assert_eq!(
        outcome(e.step(&p, SyncEvent::Completed)),
        SyncOutcome::Failed(SyncError::UnexpectedEvent)
    );
    let (mut e, _) = SyncEntry::start("a.ogg", false, &p);
    assert_eq!(
        outcome(e.step(&p, SyncEvent::Same(true))),
        SyncOutcome::Failed(SyncError::UnexpectedEvent)
    );
    let (mut e, _) = SyncEntry::start("a.ogg", false, &p);
    e.step(&p, SyncEvent::Exists(false));
    assert_eq!(
        outcome(e.step(&p, SyncEvent::Failed(28))),
        SyncOutcome::Failed(SyncError::Io(28))
    );
}
