use be_music_cabinet::policy::{
    replace_options_from_preset, replace_options_update_pack, MoveOptions, ReplaceAction,
    ReplaceOptions, ReplacePreset,
};

#[test]
fn default_action_is_replace() {
    assert_eq!(ReplaceAction::default(), ReplaceAction::Replace);
    let policy = ReplaceOptions::default();
    assert!(policy.ext.is_empty());
    assert_eq!(policy.default, ReplaceAction::Replace);
    assert_eq!(policy.for_name("anything.xyz"), ReplaceAction::Replace);
}

#[test]
fn lookup_uses_the_lower_cased_extension() {
    let mut policy = ReplaceOptions::new(ReplaceAction::Replace);
    policy.insert("bms", ReplaceAction::Rename);
    assert_eq!(policy.for_name("chart.bms"), ReplaceAction::Rename);
    assert_eq!(policy.for_name("chart.BMS"), ReplaceAction::Rename);
    assert_eq!(policy.for_name("chart.Bms"), ReplaceAction::Rename);
    assert_eq!(policy.for_name("chart.bme"), ReplaceAction::Replace);
    assert_eq!(policy.for_name("bms"), ReplaceAction::Replace);
    assert_eq!(policy.for_name(".bms"), ReplaceAction::Replace);
    assert_eq!(policy.for_name("a.b.bms"), ReplaceAction::Rename);
}

#[test]
fn a_name_without_extension_is_looked_up_under_the_empty_key() {
    let mut policy = ReplaceOptions::new(ReplaceAction::Replace);
    assert_eq!(policy.for_name("README"), ReplaceAction::Replace);
    policy.insert("", ReplaceAction::Skip);
    assert_eq!(policy.for_name("README"), ReplaceAction::Skip);
    assert_eq!(policy.for_name(".hidden"), ReplaceAction::Skip);
    assert_eq!(policy.for_name("trailing."), ReplaceAction::Skip);
    assert_eq!(policy.for_name("a.txt"), ReplaceAction::Replace);
}

#[test]
fn insert_replaces_and_lower_cases() {
    let mut policy = ReplaceOptions::new(ReplaceAction::Skip);
    policy.insert("TXT", ReplaceAction::Rename);
    policy.insert("txt", ReplaceAction::CheckReplace);
    policy.insert("ogg", ReplaceAction::Replace);
    assert_eq!(policy.ext.len(), 2);
    assert_eq!(policy.ext[0], ("txt".to_string(), ReplaceAction::CheckReplace));
    assert_eq!(policy.get("txt"), Some(ReplaceAction::CheckReplace));
    assert_eq!(policy.get("TXT"), None);
    assert_eq!(policy.get("ogg"), Some(ReplaceAction::Replace));
    assert_eq!(policy.get("wav"), None);
    assert_eq!(policy.default, ReplaceAction::Skip);
}

#[test]
fn of_two_entries_with_one_key_the_first_counts() {
    let policy = ReplaceOptions {
        ext: vec![
            ("txt".to_string(), ReplaceAction::Skip),
            ("txt".to_string(), ReplaceAction::Rename),
        ],
        default: ReplaceAction::Replace,
    };
    assert_eq!(policy.for_name("a.txt"), ReplaceAction::Skip);
    assert_eq!(policy.get("txt"), Some(ReplaceAction::Skip));
}

#[test]
fn for_path_looks_at_the_last_component() {
    let mut policy = ReplaceOptions::new(ReplaceAction::Replace);
    policy.insert("txt", ReplaceAction::Skip);
    assert_eq!(policy.for_path("/data/pack.d/notes.txt"), ReplaceAction::Skip);
    assert_eq!(policy.for_path("/data/pack.txt/notes"), ReplaceAction::Replace);
    assert_eq!(policy.for_path("notes.TXT"), ReplaceAction::Skip);
    assert_eq!(policy.for_path("/data/pack.txt/"), ReplaceAction::Replace);
    assert_eq!(policy.for_path(""), ReplaceAction::Replace);
}

#[test]
fn update_pack_checks_charts_and_text() {
    let policy = replace_options_update_pack();
    assert_eq!(policy.default, ReplaceAction::Replace);
    assert_eq!(policy.ext.len(), 6);
    for ext in ["bms", "bme", "bml", "pms", "bmson", "txt"] {
        assert_eq!(policy.get(ext), Some(ReplaceAction::CheckReplace));
    }
    assert_eq!(policy.for_name("song.PMS"), ReplaceAction::CheckReplace);
    assert_eq!(policy.for_name("readme.txt"), ReplaceAction::CheckReplace);
    assert_eq!(policy.for_name("bgm.ogg"), ReplaceAction::Replace);
    assert_eq!(policy.for_name("song"), ReplaceAction::Replace);
}

#[test]
fn presets_give_their_policies() {
    let plain = replace_options_from_preset(ReplacePreset::Default);
    assert!(plain.ext.is_empty());
    assert_eq!(plain.default, ReplaceAction::Replace);
    let pack = replace_options_from_preset(ReplacePreset::UpdatePack);
    assert_eq!(pack.ext, replace_options_update_pack().ext);
    assert_eq!(pack.default, ReplaceAction::Replace);
}

#[test]
fn preset_names_are_read() {
    assert_eq!(ReplacePreset::from_str("default"), Ok(ReplacePreset::Default));
    assert_eq!(ReplacePreset::from_str("update_pack"), Ok(ReplacePreset::UpdatePack));
    assert_eq!(ReplacePreset::from_str("update-pack"), Ok(ReplacePreset::UpdatePack));
    assert_eq!(
        ReplacePreset::from_str("Default"),
        Err("Unknown preset: Default. Valid values: default, update_pack".to_string())
    );
    assert_eq!(ReplacePreset::Default.name(), "default");
    assert_eq!(ReplacePreset::UpdatePack.name(), "update_pack");
}

#[test]
fn move_options_default_to_silence() {
    assert!(!MoveOptions::default().print_info);
}
