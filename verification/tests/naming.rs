use be_music_cabinet::naming::{to_kebab_case, to_long_flag};

#[test]
fn test_utility_functions() {
    assert_eq!(to_kebab_case("ReplaceTitleArtist"), "replace-title-artist");
    assert_eq!(to_kebab_case("set_name_by_bms"), "set-name-by-bms");

    assert_eq!(to_long_flag("set_name"), "set-name");
    assert_eq!(to_long_flag("dry_run"), "dry-run");
}
