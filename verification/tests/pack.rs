use be_music_cabinet::pack::{
    begins_with, can_be_numbered, find_beginning_with, is_number_text, is_numbered,
    name_for_numbered_dir, work_number_of,
};

fn list(items: &[&str]) -> Vec<String> {
    items.iter().map(|i| i.to_string()).collect()
}

#[test]
fn number_texts_hold_digits_only() {
    assert!(is_number_text("0123456789"));
    assert!(is_number_text(""));
    assert!(!is_number_text("12a"));
    assert!(!is_number_text("１２"));
    assert!(!is_number_text("1 2"));
    assert!(!is_number_text("-1"));
}

#[test]
fn the_work_number_is_the_first_word_up_to_its_dot() {
    assert_eq!(work_number_of("12"), "12");
    assert_eq!(work_number_of("12.5 Song [Someone]"), "12");
    assert_eq!(work_number_of("  7 Song"), "7");
    assert_eq!(work_number_of("Song 7"), "Song");
    assert_eq!(work_number_of(".5 x"), "");
    assert_eq!(work_number_of("   "), "");
    assert_eq!(work_number_of(""), "");
    assert_eq!(work_number_of("3\u{3000}Song"), "3");
    for name in ["12", "12.5 Song", "  7 Song", "Song 7", ".5 x", "   ", "", "a.b.c d"] {
        let expected = name
            .split_whitespace()
            .next()
            .and_then(|s| s.split('.').next())
            .unwrap_or_default();
        assert_eq!(work_number_of(name), expected);
    }
}

#[test]
fn beginnings() {
    assert!(begins_with("12. Song", "12"));
    assert!(begins_with("12", "12"));
    assert!(begins_with("12", ""));
    assert!(!begins_with("1", "12"));
    assert!(!begins_with("21", "12"));
    assert_eq!(find_beginning_with(&list(&["1.1", "12.0", "12.5"]), "12"), Some(1));
    assert_eq!(find_beginning_with(&list(&["1.1", "12.0"]), "1"), Some(0));
    assert_eq!(find_beginning_with(&list(&["1.1", "12.0"]), "3"), None);
    assert_eq!(find_beginning_with(&list(&[]), ""), None);
}

#[test]
fn numbered_directories_take_the_first_name_with_their_number() {
    let names = list(&["1. First [A]", "12. Twelfth [B]", "2. Second [C]"]);
    assert_eq!(name_for_numbered_dir(&names, "12"), Some(1));
    assert_eq!(name_for_numbered_dir(&names, "2"), Some(2));
    assert_eq!(name_for_numbered_dir(&names, "1"), Some(0));
    assert_eq!(name_for_numbered_dir(&names, "2.old stuff"), Some(2));
    assert_eq!(name_for_numbered_dir(&names, "3"), None);
    assert_eq!(name_for_numbered_dir(&names, "x2"), None);
    assert_eq!(name_for_numbered_dir(&names, ""), Some(0));
    assert_eq!(name_for_numbered_dir(&list(&[]), "1"), None);
}

#[test]
fn files_that_can_be_numbered() {
    for name in ["a.zip", "a.7z", "a.RAR", "movie.Mp4", "x.bms", "x.bme", "x.bml", "x.pms", "zip"] {
        assert!(can_be_numbered(name), "{name}");
    }
    for name in ["a.txt", "a.zip.part", "a.bmson", "a", "a.", ""] {
        assert!(!can_be_numbered(name), "{name}");
    }
}

#[test]
fn files_that_carry_a_number() {
    assert!(is_numbered("12 pack.zip"));
    assert!(is_numbered("  12\tpack.zip"));
    assert!(is_numbered("12"));
    assert!(!is_numbered("12.zip"));
    assert!(!is_numbered("pack 12.zip"));
    assert!(!is_numbered(""));
    assert!(!is_numbered("   "));
}
