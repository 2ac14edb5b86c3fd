use be_music_cabinet::work::{
    chart_kind, get_set_name_type, get_valid_fs_name, undo_name, BmsFolderSetNameType, ChartKind,
    DEFAULT_ARTIST, DEFAULT_TITLE,
};

#[test]
fn ways_are_read_by_name() {
    assert_eq!(
        BmsFolderSetNameType::from_str("replace"),
        Ok(BmsFolderSetNameType::ReplaceTitleArtist)
    );
    assert_eq!(
        BmsFolderSetNameType::from_str("replace_title_artist"),
        Ok(BmsFolderSetNameType::ReplaceTitleArtist)
    );
    assert_eq!(
        BmsFolderSetNameType::from_str("append"),
        Ok(BmsFolderSetNameType::AppendTitleArtist)
    );
    assert_eq!(
        BmsFolderSetNameType::from_str("append_title_artist"),
        Ok(BmsFolderSetNameType::AppendTitleArtist)
    );
    assert_eq!(
        BmsFolderSetNameType::from_str("append_artist"),
        Ok(BmsFolderSetNameType::AppendArtist)
    );
    assert_eq!(
        BmsFolderSetNameType::from_str("prepend"),
        Err("Unknown set type: prepend. Valid values are: replace, append, append_artist"
            .to_string())
    );
}

#[test]
fn an_unknown_way_falls_back_to_replacing() {
    assert_eq!(get_set_name_type("replace"), BmsFolderSetNameType::ReplaceTitleArtist);
    assert_eq!(get_set_name_type("append"), BmsFolderSetNameType::AppendTitleArtist);
    assert_eq!(
        get_set_name_type("append_title_artist"),
        BmsFolderSetNameType::AppendTitleArtist
    );
    assert_eq!(get_set_name_type("append_artist"), BmsFolderSetNameType::AppendArtist);
    assert_eq!(get_set_name_type("nonsense"), BmsFolderSetNameType::ReplaceTitleArtist);
    assert_eq!(get_set_name_type(""), BmsFolderSetNameType::ReplaceTitleArtist);
}

#[test]
fn ways_have_names_and_an_order() {
    assert_eq!(
        BmsFolderSetNameType::value_variants(),
        vec![
            BmsFolderSetNameType::ReplaceTitleArtist,
            BmsFolderSetNameType::AppendTitleArtist,
            BmsFolderSetNameType::AppendArtist,
        ]
    );
    let names: Vec<&str> = BmsFolderSetNameType::value_variants()
        .iter()
        .map(|t| t.name())
        .collect();
    assert_eq!(names, vec!["replace_title_artist", "append_title_artist", "append_artist"]);
}

#[test]
fn target_names() {
    assert_eq!(
        BmsFolderSetNameType::ReplaceTitleArtist.target_name("12", "Song", "Someone"),
        "Song [Someone]"
    );
    assert_eq!(
        BmsFolderSetNameType::AppendTitleArtist.target_name("12", "Song", "Someone"),
        "12 Song [Someone]"
    );
    assert_eq!(
        BmsFolderSetNameType::AppendArtist.target_name("12", "Song", "Someone"),
        "12 [Someone]"
    );
    assert_eq!(
        BmsFolderSetNameType::ReplaceTitleArtist.target_name("12", DEFAULT_TITLE, DEFAULT_ARTIST),
        "!!! UnknownTitle !!! [!!! UnknownArtist !!!]"
    );
}

#[test]
fn undoing_cuts_at_the_first_space() {
    assert_eq!(undo_name("12 Song [Someone]"), "12");
    assert_eq!(undo_name("12"), "12");
    assert_eq!(undo_name(" 12"), "");
    assert_eq!(undo_name(""), "");
    assert_eq!(undo_name("a\u{3000}b c"), "a\u{3000}b");
}

#[test]
fn names_are_made_valid() {
    assert_eq!(get_valid_fs_name("Song: A/B [x?]"), "Song_ A_B [x_]");
    assert_eq!(get_valid_fs_name(r#"a\b*c"d<e>f|g"#), "a_b_c_d_e_f_g");
    assert_eq!(get_valid_fs_name("plain 名前"), "plain 名前");
    assert_eq!(get_valid_fs_name(""), "");
}

#[test]
fn charts_are_told_by_their_extension() {
    for name in ["a.bms", "a.bme", "a.bml", "a.pms", "x.y.bms"] {
        assert_eq!(chart_kind(name), Some(ChartKind::Bms), "{name}");
    }
    assert_eq!(chart_kind("a.bmson"), Some(ChartKind::Bmson));
    for name in ["a.BMS", "a.txt", "bms", ".bms", "a.bms.bak", "a.", ""] {
        assert_eq!(chart_kind(name), None, "{name}");
    }
}
