use be_music_cabinet::merge::engine::{EntryReport, MergeAction, MergeEngine, MergeEvent};
use be_music_cabinet::merge::entry::{EntryAction, EntryEvent, EntryMove, EntryOutcome};
use be_music_cabinet::merge::{EntryKind, MergeError};
use be_music_cabinet::path::TreePath;
use be_music_cabinet::policy::{ReplaceAction, ReplaceOptions};
use smol::fs;
use smol::stream::StreamExt;
use std::io;
use std::path::{Path, PathBuf};
use tempfile::{tempdir, TempDir};

fn tree_path(path: &Path) -> TreePath {
    TreePath {
        parts: path
            .components()
            .map(|c| c.as_os_str().to_string_lossy().into_owned())
            .collect(),
    }
}

fn real_path(path: &TreePath) -> PathBuf {
    path.parts.iter().collect()
}

fn code_of(e: &io::Error) -> i32 {
    e.raw_os_error().unwrap_or(0)
}

async fn kind_of(path: &Path) -> Result<EntryKind, i32> {
    match fs::metadata(path).await {
        Ok(m) if m.is_file() => Ok(EntryKind::File),
        Ok(m) if m.is_dir() => Ok(EntryKind::Dir),
        Ok(_) => Ok(EntryKind::Other),
        Err(e) if e.kind() == io::ErrorKind::NotFound => Ok(EntryKind::Missing),
        Err(e) => Err(code_of(&e)),
    }
}

async fn same_content(a: &Path, b: &Path) -> io::Result<bool> {
    Ok(fs::read(a).await? == fs::read(b).await?)
}

async fn has_files(dir: &Path) -> io::Result<bool> {
    let mut stack = vec![dir.to_path_buf()];
    while let Some(d) = stack.pop() {
        let mut entries = fs::read_dir(&d).await?;
        while let Some(entry) = entries.next().await {
            let entry = entry?;
            let md = fs::metadata(entry.path()).await?;
            if md.is_file() {
                return Ok(true);
            }
            if md.is_dir() {
                stack.push(entry.path());
            }
        }
    }
    Ok(false)
}

fn done(r: io::Result<()>) -> EntryEvent {
    match r {
        Ok(()) => EntryEvent::Completed,
        Err(e) => EntryEvent::Failed(code_of(&e)),
    }
}

async fn settle(src_dir: &Path, dst_dir: &Path, mut entry: EntryMove) -> EntryReport {
    let src = src_dir.join(&entry.name);
    let mut action = EntryAction::ProbeSource;
    loop {
        let event = match action {
            EntryAction::ProbeSource => match kind_of(&src).await {
                Ok(k) => EntryEvent::Kind(k),
                Err(c) => EntryEvent::Failed(c),
            },
            EntryAction::ProbeDest(name) => match kind_of(&dst_dir.join(name)).await {
                Ok(k) => EntryEvent::Kind(k),
                Err(c) => EntryEvent::Failed(c),
            },
            EntryAction::Compare(name) => match same_content(&src, &dst_dir.join(name)).await {
                Ok(b) => EntryEvent::Same(b),
                Err(e) => EntryEvent::Failed(code_of(&e)),
            },
            EntryAction::Move(name) => done(fs::rename(&src, dst_dir.join(name)).await),
            EntryAction::RemoveSource => done(fs::remove_file(&src).await),
            EntryAction::Done(outcome) => {
                return EntryReport { name: entry.name, outcome };
            }
        };
        action = entry.step(event);
    }
}

/// Runs a merge against the file system, one operation at a time.
async fn move_elements_across_dir(
    dir_path_ori: impl AsRef<Path>,
    dir_path_dst: impl AsRef<Path>,
    replace_options: ReplaceOptions,
) -> Result<(), MergeError> {
    let (mut engine, mut action) = MergeEngine::start(
        tree_path(dir_path_ori.as_ref()),
        tree_path(dir_path_dst.as_ref()),
        replace_options,
    );
    loop {
        let event = match action {
            MergeAction::Probe(p) => match kind_of(&real_path(&p)).await {
                Ok(k) => MergeEvent::Kind(k),
                Err(c) => MergeEvent::Failed(c),
            },
            MergeAction::MoveTree { from, to } => {
                match fs::rename(real_path(&from), real_path(&to)).await {
                    Ok(()) => MergeEvent::Completed,
                    Err(e) => MergeEvent::Failed(code_of(&e)),
                }
            }
            MergeAction::List(p) => {
                let mut names = Vec::new();
                let mut failed = None;
                match fs::read_dir(real_path(&p)).await {
                    Ok(mut entries) => {
                        while let Some(entry) = entries.next().await {
                            match entry {
                                Ok(e) => names.push(e.file_name().to_string_lossy().into_owned()),
                                Err(e) => failed = Some(code_of(&e)),
                            }
                        }
                    }
                    Err(e) => failed = Some(code_of(&e)),
                }
                match failed {
                    Some(c) => MergeEvent::Failed(c),
                    None => MergeEvent::Listed(names),
                }
            }
            MergeAction::Resolve { source, dest, entries } => {
                let src_dir = real_path(&source);
                let dst_dir = real_path(&dest);
                let mut reports = Vec::new();
                for entry in entries {
                    reports.push(settle(&src_dir, &dst_dir, entry).await);
                }
                MergeEvent::Resolved(reports)
            }
            MergeAction::HasFiles(p) => match has_files(&real_path(&p)).await {
                Ok(b) => MergeEvent::HasFiles(b),
                Err(e) => MergeEvent::Failed(code_of(&e)),
            },
            MergeAction::RemoveTree(p) => match fs::remove_dir_all(real_path(&p)).await {
                Ok(()) => MergeEvent::Completed,
                Err(e) => MergeEvent::Failed(code_of(&e)),
            },
            MergeAction::Finish(result) => return result,
        };
        action = engine.step(event);
    }
}

/// Create test directory structure
async fn create_test_structure(base_dir: &Path) -> io::Result<()> {
    let sub_dir = base_dir.join("subdir");
    fs::create_dir_all(&sub_dir).await?;

    fs::write(base_dir.join("file1.txt"), "content1").await?;
    fs::write(base_dir.join("file2.bms"), "content2").await?;
    fs::write(sub_dir.join("file3.txt"), "content3").await?;

    let nested_dir = sub_dir.join("nested");
    fs::create_dir_all(&nested_dir).await?;
    fs::write(nested_dir.join("file4.txt"), "content4").await?;

    Ok(())
}

/// Verify directory structure
async fn verify_structure(dir: &Path, expected_files: &[(&str, &str)]) -> io::Result<()> {
    for (file_path, expected_content) in expected_files {
        let full_path = dir.join(file_path);
        assert!(
            full_path.exists(),
            "File does not exist: {}",
            full_path.display()
        );

        let content = fs::read_to_string(&full_path).await?;
        assert_eq!(
            &content,
            expected_content,
            "File content mismatch: {}",
            full_path.display()
        );
    }
    Ok(())
}

/// Clean up test directory
async fn cleanup_test_dir(dir: &TempDir) {
    if let Err(e) = fs::remove_dir_all(dir.path()).await {
        println!("Failed to clean up test directory: {e}");
    }
}

fn with_default(default: ReplaceAction) -> ReplaceOptions {
    ReplaceOptions {
        default,
        ..Default::default()
    }
}

#[test]
fn test_move_elements_across_dir_basic() {
    smol::block_on(async {
        let temp_dir = tempdir().expect("Failed to create temp directory");
        let src_dir = temp_dir.path().join("src");
        let dst_dir = temp_dir.path().join("dst");

        fs::create_dir_all(&src_dir)
            .await
            .expect("Failed to create source directory");
        create_test_structure(&src_dir)
            .await
            .expect("Failed to create test structure");

        let replace_options = ReplaceOptions::default();

        move_elements_across_dir(&src_dir, &dst_dir, replace_options)
            .await
            .expect("Move operation failed");

        let expected_files = [
            ("file1.txt", "content1"),
            ("file2.bms", "content2"),
            ("subdir/file3.txt", "content3"),
            ("subdir/nested/file4.txt", "content4"),
        ];

        verify_structure(&dst_dir, &expected_files)
            .await
            .expect("Failed to verify structure");

        assert!(!src_dir.exists(), "Source directory should be deleted");

        cleanup_test_dir(&temp_dir).await;
    });
}

#[test]
fn test_move_elements_across_dir_skip_existing() {
    smol::block_on(async {
        let temp_dir = tempdir().expect("Failed to create temp directory");
        let src_dir = temp_dir.path().join("src");
        let dst_dir = temp_dir.path().join("dst");

        fs::create_dir_all(&src_dir)
            .await
            .expect("Failed to create source directory");
        create_test_structure(&src_dir)
            .await
            .expect("Failed to create test structure");

        fs::create_dir_all(&dst_dir)
            .await
            .expect("Failed to create target directory");
        fs::write(dst_dir.join("file1.txt"), "existing_content")
            .await
            .expect("Failed to create file");

        let replace_options = with_default(ReplaceAction::Skip);

        move_elements_across_dir(&src_dir, &dst_dir, replace_options)
            .await
            .expect("Move operation failed");

        let content = fs::read_to_string(dst_dir.join("file1.txt"))
            .await
            .expect("Failed to read file");
        assert_eq!(
            content, "existing_content",
            "File content should remain unchanged"
        );

        assert!(dst_dir.join("file2.bms").exists());
        assert!(dst_dir.join("subdir").exists());

        cleanup_test_dir(&temp_dir).await;
    });
}

#[test]
fn test_move_elements_across_dir_rename_conflict() {
    smol::block_on(async {
        let temp_dir = tempdir().expect("Failed to create temp directory");
        let src_dir = temp_dir.path().join("src");
        let dst_dir = temp_dir.path().join("dst");

        fs::create_dir_all(&src_dir)
            .await
            .expect("Failed to create source directory");
        fs::write(src_dir.join("file1.txt"), "new_content")
            .await
            .expect("Failed to create file");

        fs::create_dir_all(&dst_dir)
            .await
            .expect("Failed to create target directory");
        fs::write(dst_dir.join("file1.txt"), "existing_content")
            .await
            .expect("Failed to create file");

        let replace_options = with_default(ReplaceAction::Rename);

        move_elements_across_dir(&src_dir, &dst_dir, replace_options)
            .await
            .expect("Move operation failed");

        let content = fs::read_to_string(dst_dir.join("file1.txt"))
            .await
            .expect("Failed to read file");
        assert_eq!(
            content, "existing_content",
            "Original file should remain unchanged"
        );

        assert!(
            dst_dir.join("file1.1.txt").exists(),
            "Should create renamed file"
        );

        cleanup_test_dir(&temp_dir).await;
    });
}

#[test]
fn test_move_elements_across_dir_check_replace() {
    smol::block_on(async {
        let temp_dir = tempdir().expect("Failed to create temp directory");
        let src_dir = temp_dir.path().join("src");
        let dst_dir = temp_dir.path().join("dst");

        fs::create_dir_all(&src_dir)
            .await
            .expect("Failed to create source directory");
        fs::write(src_dir.join("file1.txt"), "same_content")
            .await
            .expect("Failed to create file");

        fs::create_dir_all(&dst_dir)
            .await
            .expect("Failed to create target directory");
        fs::write(dst_dir.join("file1.txt"), "same_content")
            .await
            .expect("Failed to create file");

        let replace_options = with_default(ReplaceAction::CheckReplace);

        move_elements_across_dir(&src_dir, &dst_dir, replace_options)
            .await
            .expect("Move operation failed");

        let content = fs::read_to_string(dst_dir.join("file1.txt"))
            .await
            .expect("Failed to read file");
        assert_eq!(
            content, "same_content",
            "File content should remain unchanged"
        );

        assert!(!src_dir.exists(), "Source directory should be deleted");

        cleanup_test_dir(&temp_dir).await;
    });
}

#[test]
fn test_move_elements_across_dir_same_directory() {
    smol::block_on(async {
        let temp_dir = tempdir().expect("Failed to create temp directory");
        let src_dir = temp_dir.path().join("src");

        fs::create_dir_all(&src_dir)
            .await
            .expect("Failed to create source directory");
        create_test_structure(&src_dir)
            .await
            .expect("Failed to create test structure");

        let replace_options = ReplaceOptions::default();
        let result = move_elements_across_dir(&src_dir, &src_dir, replace_options).await;
        assert!(result.is_ok(), "Moving to same directory should succeed");

        assert!(src_dir.exists(), "Source directory should still exist");
        assert!(
            src_dir.join("file1.txt").exists(),
            "File should still exist"
        );

        cleanup_test_dir(&temp_dir).await;
    });
}

#[test]
fn test_move_elements_across_dir_nonexistent_source() {
    smol::block_on(async {
        let temp_dir = tempdir().expect("Failed to create temp directory");
        let src_dir = temp_dir.path().join("nonexistent");
        let dst_dir = temp_dir.path().join("dst");

        let replace_options = ReplaceOptions::default();
        let result = move_elements_across_dir(&src_dir, &dst_dir, replace_options).await;
        assert!(
            result.is_ok(),
            "Moving non-existent directory should succeed (no operation)"
        );

        cleanup_test_dir(&temp_dir).await;
    });
}

#[test]
fn test_move_elements_across_dir_with_ext_specific_rules() {
    smol::block_on(async {
        let temp_dir = tempdir().expect("Failed to create temp directory");
        let src_dir = temp_dir.path().join("src");
        let dst_dir = temp_dir.path().join("dst");

        fs::create_dir_all(&src_dir)
            .await
            .expect("Failed to create source directory");
        fs::write(src_dir.join("file1.txt"), "content1")
            .await
            .expect("Failed to create file");
        fs::write(src_dir.join("file2.bms"), "content2")
            .await
            .expect("Failed to create file");
        fs::write(src_dir.join("file3.other"), "content3")
            .await
            .expect("Failed to create file");

        fs::create_dir_all(&dst_dir)
            .await
            .expect("Failed to create target directory");
        fs::write(dst_dir.join("file1.txt"), "existing_txt")
            .await
            .expect("Failed to create file");
        fs::write(dst_dir.join("file2.bms"), "existing_bms")
            .await
            .expect("Failed to create file");
        fs::write(dst_dir.join("file3.other"), "existing_other")
            .await
            .expect("Failed to create file");

        let mut replace_options = ReplaceOptions::default();
        replace_options.insert("txt", ReplaceAction::Skip);
        replace_options.insert("bms", ReplaceAction::Rename);
        replace_options.default = ReplaceAction::Replace;

        move_elements_across_dir(&src_dir, &dst_dir, replace_options)
            .await
            .expect("Move operation failed");

        let content = fs::read_to_string(dst_dir.join("file1.txt"))
            .await
            .expect("Failed to read file");
        assert_eq!(content, "existing_txt", "txt file should be skipped");

        assert!(
            dst_dir.join("file2.1.bms").exists(),
            "bms file should be renamed"
        );

        let content = fs::read_to_string(dst_dir.join("file3.other"))
            .await
            .expect("Failed to read file");
        assert_eq!(content, "content3", "other file should be replaced");

        cleanup_test_dir(&temp_dir).await;
    })
}

#[test]
fn merging_twice_changes_nothing_more() {
    smol::block_on(async {
        let temp_dir = tempdir().expect("Failed to create temp directory");
        let src_dir = temp_dir.path().join("src");
        let dst_dir = temp_dir.path().join("dst");
        fs::create_dir_all(&src_dir).await.expect("create source");
        fs::create_dir_all(&dst_dir).await.expect("create destination");
        create_test_structure(&src_dir).await.expect("fill source");

        move_elements_across_dir(&src_dir, &dst_dir, ReplaceOptions::default())
            .await
            .expect("first merge");
        let expected_files = [
            ("file1.txt", "content1"),
            ("file2.bms", "content2"),
            ("subdir/file3.txt", "content3"),
            ("subdir/nested/file4.txt", "content4"),
        ];
        verify_structure(&dst_dir, &expected_files).await.expect("after first merge");
        assert!(!src_dir.exists());

        move_elements_across_dir(&src_dir, &dst_dir, ReplaceOptions::default())
            .await
            .expect("second merge");
        verify_structure(&dst_dir, &expected_files).await.expect("after second merge");

        fs::create_dir_all(&src_dir).await.expect("create empty source");
        move_elements_across_dir(&src_dir, &dst_dir, ReplaceOptions::default())
            .await
            .expect("merge of an empty source");
        verify_structure(&dst_dir, &expected_files).await.expect("after third merge");
        assert!(!src_dir.exists());
    });
}

#[test]
fn missing_destination_receives_the_whole_source() {
    smol::block_on(async {
        let temp_dir = tempdir().expect("Failed to create temp directory");
        let src_dir = temp_dir.path().join("src");
        let dst_dir = temp_dir.path().join("dst");
        fs::create_dir_all(&src_dir).await.expect("create source");
        create_test_structure(&src_dir).await.expect("fill source");

        move_elements_across_dir(&src_dir, &dst_dir, with_default(ReplaceAction::Skip))
            .await
            .expect("merge");

        let expected_files = [
            ("file1.txt", "content1"),
            ("file2.bms", "content2"),
            ("subdir/file3.txt", "content3"),
            ("subdir/nested/file4.txt", "content4"),
        ];
        verify_structure(&dst_dir, &expected_files).await.expect("destination");
        assert!(!src_dir.exists());
    });
}

#[test]
fn skip_keeps_source_and_destination() {
    smol::block_on(async {
        let temp_dir = tempdir().expect("Failed to create temp directory");
        let src_dir = temp_dir.path().join("A");
        let dst_dir = temp_dir.path().join("B");
        fs::create_dir_all(&src_dir).await.expect("create source");
        fs::create_dir_all(&dst_dir).await.expect("create destination");
        fs::write(src_dir.join("f.txt"), "x").await.expect("write");
        fs::write(dst_dir.join("f.txt"), "y").await.expect("write");

        move_elements_across_dir(&src_dir, &dst_dir, with_default(ReplaceAction::Skip))
            .await
            .expect("merge");

        assert_eq!(fs::read_to_string(dst_dir.join("f.txt")).await.expect("read"), "y");
        assert_eq!(fs::read_to_string(src_dir.join("f.txt")).await.expect("read"), "x");
    });
}

#[test]
fn rename_puts_the_new_file_beside_the_old() {
    smol::block_on(async {
        let temp_dir = tempdir().expect("Failed to create temp directory");
        let src_dir = temp_dir.path().join("A");
        let dst_dir = temp_dir.path().join("B");
        fs::create_dir_all(&src_dir).await.expect("create source");
        fs::create_dir_all(&dst_dir).await.expect("create destination");
        fs::write(src_dir.join("f.txt"), "new").await.expect("write");
        fs::write(dst_dir.join("f.txt"), "old").await.expect("write");

        move_elements_across_dir(&src_dir, &dst_dir, with_default(ReplaceAction::Rename))
            .await
            .expect("merge");

        assert_eq!(fs::read_to_string(dst_dir.join("f.txt")).await.expect("read"), "old");
        assert_eq!(fs::read_to_string(dst_dir.join("f.1.txt")).await.expect("read"), "new");
        assert!(!src_dir.exists());
    });
}

#[test]
fn rename_without_conflict_keeps_the_name() {
    smol::block_on(async {
        let temp_dir = tempdir().expect("Failed to create temp directory");
        let src_dir = temp_dir.path().join("A");
        let dst_dir = temp_dir.path().join("B");
        fs::create_dir_all(&src_dir).await.expect("create source");
        fs::create_dir_all(&dst_dir).await.expect("create destination");
        fs::write(src_dir.join("f.txt"), "new").await.expect("write");

        move_elements_across_dir(&src_dir, &dst_dir, with_default(ReplaceAction::Rename))
            .await
            .expect("merge");

        assert_eq!(fs::read_to_string(dst_dir.join("f.txt")).await.expect("read"), "new");
        assert!(!dst_dir.join("f.1.txt").exists());
    });
}

#[test]
fn rename_drops_a_source_that_a_candidate_already_holds() {
    smol::block_on(async {
        let temp_dir = tempdir().expect("Failed to create temp directory");
        let src_dir = temp_dir.path().join("A");
        let dst_dir = temp_dir.path().join("B");
        fs::create_dir_all(&src_dir).await.expect("create source");
        fs::create_dir_all(&dst_dir).await.expect("create destination");
        fs::write(src_dir.join("f.txt"), "new").await.expect("write");
        fs::write(dst_dir.join("f.txt"), "old").await.expect("write");
        fs::write(dst_dir.join("f.1.txt"), "older").await.expect("write");
        fs::write(dst_dir.join("f.2.txt"), "new").await.expect("write");

        move_elements_across_dir(&src_dir, &dst_dir, with_default(ReplaceAction::Rename))
            .await
            .expect("merge");

        assert_eq!(fs::read_to_string(dst_dir.join("f.txt")).await.expect("read"), "old");
        assert_eq!(fs::read_to_string(dst_dir.join("f.1.txt")).await.expect("read"), "older");
        assert_eq!(fs::read_to_string(dst_dir.join("f.2.txt")).await.expect("read"), "new");
        assert!(!dst_dir.join("f.3.txt").exists());
        assert!(!src_dir.exists());
    });
}

#[test]
fn check_replace_collapses_equal_files() {
    smol::block_on(async {
        let temp_dir = tempdir().expect("Failed to create temp directory");
        let src_dir = temp_dir.path().join("A");
        let dst_dir = temp_dir.path().join("B");
        fs::create_dir_all(&src_dir).await.expect("create source");
        fs::create_dir_all(&dst_dir).await.expect("create destination");
        fs::write(src_dir.join("f.txt"), "same").await.expect("write");
        fs::write(dst_dir.join("f.txt"), "same").await.expect("write");

        move_elements_across_dir(&src_dir, &dst_dir, with_default(ReplaceAction::CheckReplace))
            .await
            .expect("merge");

        assert_eq!(fs::read_to_string(dst_dir.join("f.txt")).await.expect("read"), "same");
        assert!(!dst_dir.join("f.1.txt").exists());
        let mut names = Vec::new();
        let mut entries = fs::read_dir(&dst_dir).await.expect("list");
        while let Some(entry) = entries.next().await {
            names.push(entry.expect("entry").file_name().to_string_lossy().into_owned());
        }
        assert_eq!(names, vec!["f.txt".to_string()]);
    });
}

#[test]
fn check_replace_keeps_both_of_two_different_files() {
    smol::block_on(async {
        let temp_dir = tempdir().expect("Failed to create temp directory");
        let src_dir = temp_dir.path().join("A");
        let dst_dir = temp_dir.path().join("B");
        fs::create_dir_all(&src_dir).await.expect("create source");
        fs::create_dir_all(&dst_dir).await.expect("create destination");
        fs::write(src_dir.join("f.txt"), "mine").await.expect("write");
        fs::write(dst_dir.join("f.txt"), "theirs").await.expect("write");

        move_elements_across_dir(&src_dir, &dst_dir, with_default(ReplaceAction::CheckReplace))
            .await
            .expect("merge");

        assert_eq!(fs::read_to_string(dst_dir.join("f.txt")).await.expect("read"), "theirs");
        assert_eq!(fs::read_to_string(dst_dir.join("f.1.txt")).await.expect("read"), "mine");
    });
}

#[test]
fn extension_override_beats_the_default() {
    smol::block_on(async {
        let temp_dir = tempdir().expect("Failed to create temp directory");
        let src_dir = temp_dir.path().join("A");
        let dst_dir = temp_dir.path().join("B");
        fs::create_dir_all(&src_dir).await.expect("create source");
        fs::create_dir_all(&dst_dir).await.expect("create destination");
        fs::write(src_dir.join("chart.BMS"), "new chart").await.expect("write");
        fs::write(src_dir.join("note.txt"), "new note").await.expect("write");
        fs::write(dst_dir.join("chart.BMS"), "old chart").await.expect("write");
        fs::write(dst_dir.join("note.txt"), "old note").await.expect("write");

        let mut policy = ReplaceOptions::default();
        policy.insert("bms", ReplaceAction::Rename);
        policy.default = ReplaceAction::Replace;

        move_elements_across_dir(&src_dir, &dst_dir, policy).await.expect("merge");

        assert_eq!(fs::read_to_string(dst_dir.join("chart.BMS")).await.expect("read"), "old chart");
        assert_eq!(fs::read_to_string(dst_dir.join("chart.1.BMS")).await.expect("read"), "new chart");
        assert_eq!(fs::read_to_string(dst_dir.join("note.txt")).await.expect("read"), "new note");
    });
}

#[test]
fn destination_that_is_a_file_is_refused() {
    smol::block_on(async {
        let temp_dir = tempdir().expect("Failed to create temp directory");
        let src_dir = temp_dir.path().join("A");
        let dst = temp_dir.path().join("B");
        fs::create_dir_all(&src_dir).await.expect("create source");
        fs::write(src_dir.join("f.txt"), "x").await.expect("write");
        fs::write(&dst, "I am a file").await.expect("write");

        let result = move_elements_across_dir(&src_dir, &dst, ReplaceOptions::default()).await;

        assert_eq!(result, Err(MergeError::DestNotDirectory));
        assert_eq!(fs::read_to_string(src_dir.join("f.txt")).await.expect("read"), "x");
        assert_eq!(fs::read_to_string(&dst).await.expect("read"), "I am a file");
    });
}

#[test]
fn source_that_is_a_file_is_left_alone() {
    smol::block_on(async {
        let temp_dir = tempdir().expect("Failed to create temp directory");
        let src = temp_dir.path().join("A");
        let dst_dir = temp_dir.path().join("B");
        fs::write(&src, "x").await.expect("write");

        let result = move_elements_across_dir(&src, &dst_dir, ReplaceOptions::default()).await;

        assert_eq!(result, Ok(()));
        assert_eq!(fs::read_to_string(&src).await.expect("read"), "x");
        assert!(!dst_dir.exists());
    });
}

#[test]
fn directory_facing_a_file_is_a_type_conflict() {
    smol::block_on(async {
        let temp_dir = tempdir().expect("Failed to create temp directory");
        let src_dir = temp_dir.path().join("A");
        let dst_dir = temp_dir.path().join("B");
        fs::create_dir_all(src_dir.join("thing")).await.expect("create source");
        fs::write(src_dir.join("thing").join("inner.txt"), "inner").await.expect("write");
        fs::write(src_dir.join("other.txt"), "other").await.expect("write");
        fs::create_dir_all(&dst_dir).await.expect("create destination");
        fs::write(dst_dir.join("thing"), "a file").await.expect("write");

        let result = move_elements_across_dir(&src_dir, &dst_dir, ReplaceOptions::default()).await;

        assert_eq!(result, Err(MergeError::TypeConflict));
        assert_eq!(fs::read_to_string(dst_dir.join("thing")).await.expect("read"), "a file");
        assert_eq!(
            fs::read_to_string(src_dir.join("thing").join("inner.txt")).await.expect("read"),
            "inner"
        );
        assert_eq!(fs::read_to_string(dst_dir.join("other.txt")).await.expect("read"), "other");
    });
}

#[test]
fn skip_default_merges_nested_directories_and_keeps_what_is_taken() {
    smol::block_on(async {
        let temp_dir = tempdir().expect("Failed to create temp directory");
        let src_dir = temp_dir.path().join("A");
        let dst_dir = temp_dir.path().join("B");
        fs::create_dir_all(src_dir.join("sub")).await.expect("create source");
        fs::create_dir_all(dst_dir.join("sub")).await.expect("create destination");
        fs::write(src_dir.join("sub").join("kept.txt"), "mine").await.expect("write");
        fs::write(src_dir.join("sub").join("moved.txt"), "moved").await.expect("write");
        fs::write(dst_dir.join("sub").join("kept.txt"), "theirs").await.expect("write");

        move_elements_across_dir(&src_dir, &dst_dir, with_default(ReplaceAction::Skip))
            .await
            .expect("merge");

        assert_eq!(
            fs::read_to_string(dst_dir.join("sub").join("kept.txt")).await.expect("read"),
            "theirs"
        );
        assert_eq!(
            fs::read_to_string(dst_dir.join("sub").join("moved.txt")).await.expect("read"),
            "moved"
        );
        assert_eq!(
            fs::read_to_string(src_dir.join("sub").join("kept.txt")).await.expect("read"),
            "mine"
        );
    });
}

#[test]
fn entry_settled_by_hand_reports_its_name() {
    smol::block_on(async {
        let temp_dir = tempdir().expect("Failed to create temp directory");
        let src_dir = temp_dir.path().join("A");
        let dst_dir = temp_dir.path().join("B");
        fs::create_dir_all(&src_dir).await.expect("create source");
        fs::create_dir_all(&dst_dir).await.expect("create destination");
        fs::write(src_dir.join("f.txt"), "x").await.expect("write");

        let (entry, _first) = EntryMove::start("f.txt".to_string(), ReplaceAction::Replace);
        let report = settle(&src_dir, &dst_dir, entry).await;

        assert_eq!(report.name, "f.txt");
        assert_eq!(report.outcome, EntryOutcome::Moved);
        assert_eq!(fs::read_to_string(dst_dir.join("f.txt")).await.expect("read"), "x");
    });
}

#[test]
fn a_deferred_directory_is_gone_once_its_parent_was_removed() {
    smol::block_on(async {
        let temp_dir = tempdir().expect("Failed to create temp directory");
        let src_dir = temp_dir.path().join("A");
        let dst_dir = temp_dir.path().join("B");
        fs::create_dir_all(src_dir.join("sub")).await.expect("create source");
        fs::create_dir_all(dst_dir.join("sub")).await.expect("create destination");
        fs::write(src_dir.join("top.txt"), "top").await.expect("write");
        fs::write(src_dir.join("sub").join("inner.txt"), "inner").await.expect("write");
        fs::write(dst_dir.join("sub").join("old.txt"), "old").await.expect("write");

        let result = move_elements_across_dir(&src_dir, &dst_dir, ReplaceOptions::default()).await;

        assert_eq!(result, Ok(()));
        assert_eq!(fs::read_to_string(dst_dir.join("top.txt")).await.expect("read"), "top");
        assert_eq!(
            fs::read_to_string(dst_dir.join("sub").join("old.txt")).await.expect("read"),
            "old"
        );
        assert!(!src_dir.exists());
        assert!(!dst_dir.join("sub").join("inner.txt").exists());
    });
}

#[test]
fn under_a_skip_default_deferred_directories_are_merged() {
    smol::block_on(async {
        let temp_dir = tempdir().expect("Failed to create temp directory");
        let src_dir = temp_dir.path().join("A");
        let dst_dir = temp_dir.path().join("B");
        fs::create_dir_all(src_dir.join("sub").join("deep")).await.expect("create source");
        fs::create_dir_all(dst_dir.join("sub").join("deep")).await.expect("create destination");
        fs::write(src_dir.join("sub").join("deep").join("inner.txt"), "inner")
            .await
            .expect("write");
        fs::write(dst_dir.join("sub").join("old.txt"), "old").await.expect("write");

        let result =
            move_elements_across_dir(&src_dir, &dst_dir, with_default(ReplaceAction::Skip)).await;

        assert_eq!(result, Ok(()));
        assert_eq!(
            fs::read_to_string(dst_dir.join("sub").join("deep").join("inner.txt"))
                .await
                .expect("read"),
            "inner"
        );
        assert_eq!(
            fs::read_to_string(dst_dir.join("sub").join("old.txt")).await.expect("read"),
            "old"
        );
        assert!(!src_dir.join("sub").join("deep").exists());
    });
}

#[test]
fn a_second_merge_under_a_skip_default_moves_nothing() {
    smol::block_on(async {
        let temp_dir = tempdir().expect("Failed to create temp directory");
        let src_dir = temp_dir.path().join("A");
        let dst_dir = temp_dir.path().join("B");
        fs::create_dir_all(src_dir.join("sub")).await.expect("create source");
        fs::create_dir_all(src_dir.join("bare").join("deep")).await.expect("create source");
        fs::create_dir_all(dst_dir.join("sub")).await.expect("create destination");
        fs::create_dir_all(dst_dir.join("bare").join("deep")).await.expect("create destination");
        fs::write(src_dir.join("kept.txt"), "mine").await.expect("write");
        fs::write(src_dir.join("chart.bms"), "new chart").await.expect("write");
        fs::write(src_dir.join("sub").join("kept.txt"), "mine too").await.expect("write");
        fs::write(src_dir.join("sub").join("moved.txt"), "moved").await.expect("write");
        fs::write(src_dir.join("bare").join("deep").join("only.txt"), "only").await.expect("write");
        fs::write(dst_dir.join("kept.txt"), "theirs").await.expect("write");
        fs::write(dst_dir.join("chart.bms"), "old chart").await.expect("write");
        fs::write(dst_dir.join("sub").join("kept.txt"), "theirs too").await.expect("write");

        let mut policy = with_default(ReplaceAction::Skip);
        policy.insert("bms", ReplaceAction::Rename);
        let again = ReplaceOptions { ext: policy.ext.clone(), default: policy.default };

        move_elements_across_dir(&src_dir, &dst_dir, policy).await.expect("first merge");

        let left_in_source = [("kept.txt", "mine"), ("sub/kept.txt", "mine too")];
        let in_destination = [
            ("kept.txt", "theirs"),
            ("chart.bms", "old chart"),
            ("chart.1.bms", "new chart"),
            ("sub/kept.txt", "theirs too"),
            ("sub/moved.txt", "moved"),
            ("bare/deep/only.txt", "only"),
        ];
        verify_structure(&src_dir, &left_in_source).await.expect("source after first merge");
        verify_structure(&dst_dir, &in_destination).await.expect("destination after first merge");
        assert!(!src_dir.join("chart.bms").exists());
        assert!(!src_dir.join("bare").join("deep").exists());
        assert!(src_dir.join("bare").exists());

        let result = move_elements_across_dir(&src_dir, &dst_dir, again).await;

        assert_eq!(result, Ok(()));
        verify_structure(&src_dir, &left_in_source).await.expect("source after second merge");
        verify_structure(&dst_dir, &in_destination).await.expect("destination after second merge");
        assert!(!dst_dir.join("chart.2.bms").exists());
        assert!(!dst_dir.join("kept.1.txt").exists());
        assert!(!src_dir.join("bare").exists());
    });
}
