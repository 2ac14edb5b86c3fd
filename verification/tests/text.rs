use be_music_cabinet::text::{
    chars_of, decimal_of, ends_with, find_last, same_chars, same_text, slice_of, split_name,
    string_of, to_lower, to_lower_char, trimmed,
};

fn chars(s: &str) -> Vec<char> {
    s.chars().collect()
}

#[test]
fn chars_and_strings_round_trip() {
    assert_eq!(chars_of("héllo"), vec!['h', 'é', 'l', 'l', 'o']);
    assert_eq!(string_of(&vec!['a', 'ß', '3']), "aß3");
    assert_eq!(string_of(&chars_of("")), "");
}

#[test]
fn same_text_compares_characters() {
    assert!(same_text("abc", "abc"));
    assert!(!same_text("abc", "abd"));
    assert!(!same_text("abc", "ab"));
    assert!(same_chars(&chars(""), &chars("")));
}

#[test]
fn lower_casing_is_ascii_only() {
    assert_eq!(to_lower_char('A'), 'a');
    assert_eq!(to_lower_char('Z'), 'z');
    assert_eq!(to_lower_char('a'), 'a');
    assert_eq!(to_lower_char('['), '[');
    assert_eq!(to_lower_char('@'), '@');
    assert_eq!(to_lower_char('É'), 'É');
    assert_eq!(string_of(&to_lower(&chars("BmS.Ogg É"))), "bms.ogg É");
}

#[test]
fn find_last_finds_the_last() {
    assert_eq!(find_last(&chars("a.b.c"), '.'), Some(3));
    assert_eq!(find_last(&chars(".abc"), '.'), Some(0));
    assert_eq!(find_last(&chars("abc"), '.'), None);
    assert_eq!(find_last(&chars(""), '.'), None);
}

#[test]
fn slices_are_half_open() {
    assert_eq!(string_of(&slice_of(&chars("abcdef"), 1, 4)), "bcd");
    assert_eq!(string_of(&slice_of(&chars("abcdef"), 2, 2)), "");
    assert_eq!(string_of(&slice_of(&chars("abcdef"), 0, 6)), "abcdef");
}

fn split(name: &str) -> (String, Option<String>) {
    let (stem, ext) = split_name(&chars(name));
    (string_of(&stem), ext.map(|e| string_of(&e)))
}

#[test]
fn names_split_at_the_last_dot() {
    assert_eq!(split("file1.txt"), ("file1".to_string(), Some("txt".to_string())));
    assert_eq!(split("a.tar.gz"), ("a.tar".to_string(), Some("gz".to_string())));
    assert_eq!(split("README"), ("README".to_string(), None));
    assert_eq!(split(".gitignore"), (".gitignore".to_string(), None));
    assert_eq!(split("name."), ("name".to_string(), Some("".to_string())));
    assert_eq!(split(".."), ("..".to_string(), None));
    assert_eq!(split(".a.b"), (".a".to_string(), Some("b".to_string())));
    assert_eq!(split(""), ("".to_string(), None));
}

#[test]
fn decimal_has_no_leading_zeros() {
    assert_eq!(string_of(&decimal_of(0)), "0");
    assert_eq!(string_of(&decimal_of(7)), "7");
    assert_eq!(string_of(&decimal_of(10)), "10");
    assert_eq!(string_of(&decimal_of(146)), "146");
    assert_eq!(string_of(&decimal_of(u64::MAX)), "18446744073709551615");
}

#[test]
fn trimming_takes_white_space_from_both_ends() {
    assert_eq!(string_of(&trimmed(&chars("  20 \n"))), "20");
    assert_eq!(string_of(&trimmed(&chars("\u{3000}BOFTT\u{a0}"))), "BOFTT");
    assert_eq!(string_of(&trimmed(&chars("a b"))), "a b");
    assert_eq!(string_of(&trimmed(&chars(" \t "))), "");
    assert_eq!(string_of(&trimmed(&chars(""))), "");
    assert_eq!(string_of(&trimmed(&chars("\u{200b}x"))), "\u{200b}x");
    for c in ['\u{9}', '\u{d}', ' ', '\u{85}', '\u{1680}', '\u{2000}', '\u{200a}', '\u{2028}',
        '\u{2029}', '\u{202f}', '\u{205f}', '\u{3000}', 'x', '\u{8}', '\u{e}', '\u{180e}',
        '\u{200b}', '\u{feff}']
    {
        let text: String = vec![c, 'x', c].into_iter().collect();
        assert_eq!(string_of(&trimmed(&chars(&text))), text.trim());
    }
}

#[test]
fn ends_with_looks_at_the_tail() {
    assert!(ends_with(&chars("song obj."), &chars("obj.")));
    assert!(ends_with(&chars("song"), &chars("")));
    assert!(ends_with(&chars("song"), &chars("song")));
    assert!(!ends_with(&chars("song"), &chars("a song")));
    assert!(!ends_with(&chars("song"), &chars("sonG")));
}
