use be_music_cabinet::title::{
    best_prefix, comes_before, extract_work_name_post_process, max_count, prefix_counts,
};

fn list(items: &[&str]) -> Vec<String> {
    items.iter().map(|i| i.to_string()).collect()
}

fn chars(s: &str) -> Vec<char> {
    s.chars().collect()
}

fn tidy(s: &str, brackets: bool, signs: &[&str]) -> String {
    extract_work_name_post_process(s, brackets, &list(signs))
}

/// The whole extraction, with the share of two thirds computed by the caller.
fn extract_work_name(titles: &[&str], remove_unclosed_pair: bool, signs: &[&str]) -> String {
    if titles.is_empty() {
        return "[!!! EMPTY !!!]".to_string();
    }
    let counts = prefix_counts(&list(titles));
    let max = max_count(&counts);
    let candidates: Vec<(String, usize)> = counts
        .into_iter()
        .filter(|(_, count)| *count as f32 >= max as f32 * 0.67)
        .collect();
    let best = best_prefix(&candidates);
    extract_work_name_post_process(&best, remove_unclosed_pair, &list(signs))
}

#[test]
fn beginnings_are_counted_once_per_title() {
    let mut counts = prefix_counts(&list(&["ab", "ac", "ab"]));
    counts.sort();
    assert_eq!(
        counts,
        vec![("a".to_string(), 3), ("ab".to_string(), 2), ("ac".to_string(), 1)]
    );
    assert_eq!(prefix_counts(&list(&[])), vec![]);
    assert_eq!(prefix_counts(&list(&["", ""])), vec![]);
    assert_eq!(prefix_counts(&list(&["aa"])), vec![("a".to_string(), 1), ("aa".to_string(), 1)]);
    let mut wide = prefix_counts(&list(&["日本", "日"]));
    wide.sort();
    assert_eq!(wide, vec![("日".to_string(), 2), ("日本".to_string(), 1)]);
}

#[test]
fn the_highest_count() {
    assert_eq!(max_count(&vec![]), 0);
    assert_eq!(
        max_count(&vec![("a".to_string(), 2), ("b".to_string(), 5), ("c".to_string(), 3)]),
        5
    );
}

#[test]
fn texts_are_ordered_like_strings() {
    for (a, b) in [
        ("", ""),
        ("", "a"),
        ("a", ""),
        ("a", "b"),
        ("b", "a"),
        ("ab", "abc"),
        ("abc", "ab"),
        ("abd", "abc"),
        ("Z", "a"),
        ("é", "z"),
        ("日本", "日"),
        ("a\u{10000}", "a\u{ffff}"),
    ] {
        assert_eq!(comes_before(&chars(a), &chars(b)), a < b, "{a:?} and {b:?}");
    }
}

#[test]
fn the_best_candidate_is_longest_then_most_counted_then_first() {
    assert_eq!(best_prefix(&vec![]), "");
    assert_eq!(
        best_prefix(&vec![("ab".to_string(), 1), ("abc".to_string(), 1), ("a".to_string(), 9)]),
        "abc"
    );
    assert_eq!(
        best_prefix(&vec![("abc".to_string(), 1), ("abd".to_string(), 2), ("abe".to_string(), 2)]),
        "abd"
    );
    assert_eq!(
        best_prefix(&vec![("abd".to_string(), 2), ("abc".to_string(), 2)]),
        "abc"
    );
    assert_eq!(
        best_prefix(&vec![("abcd".to_string(), 5), ("日本".to_string(), 1)]),
        "日本"
    );
}

#[test]
fn unclosed_brackets_are_cut_off() {
    assert_eq!(tidy("Song [", true, &[]), "Song");
    assert_eq!(tidy("  Song (Full) [Ha", true, &[]), "Song (Full)");
    assert_eq!(tidy("Song (a [b", true, &[]), "Song");
    assert_eq!(tidy("Song (a) b]", true, &[]), "Song (a) b]");
    assert_eq!(tidy("Song (a] b", true, &[]), "Song");
    assert_eq!(tidy("Song 【x】 （y", true, &[]), "Song 【x】");
    assert_eq!(tidy("Song [", false, &[]), "Song [");
    assert_eq!(tidy("[", true, &[]), "");
    assert_eq!(tidy("", true, &[]), "");
    assert_eq!(tidy("Song ｛a｝［b］{c}", true, &[]), "Song ｛a｝［b］{c}");
}

#[test]
fn trailing_signs_are_cut_off_one_per_round() {
    let signs = ["/", ":", "：", "-", "obj", "obj.", "Obj", "Obj.", "OBJ", "OBJ."];
    assert_eq!(tidy("Someone /", true, &signs), "Someone");
    assert_eq!(tidy("Someone / obj.", true, &signs), "Someone");
    assert_eq!(tidy("Someone / obj.", true, &["/", "obj"]), "Someone / obj.");
    assert_eq!(tidy("Someone / obj", true, &signs), "Someone");
    assert_eq!(tidy("Someone obj: -", true, &signs), "Someone");
    assert_eq!(tidy("Someone (obj: ", true, &signs), "Someone");
    assert_eq!(tidy("-", true, &signs), "");
    assert_eq!(tidy("Someone", true, &signs), "Someone");
    assert_eq!(tidy("Someone：", false, &signs), "Someone");
}

#[test]
fn an_empty_sign_is_passed_over() {
    assert_eq!(tidy("Someone -", true, &["", "-"]), "Someone");
    assert_eq!(tidy("Someone", true, &[""]), "Someone");
}

#[test]
fn the_name_of_a_work_is_the_shared_beginning() {
    assert_eq!(extract_work_name(&[], true, &[]), "[!!! EMPTY !!!]");
    assert_eq!(
        extract_work_name(&["Song [Easy]", "Song [Hard]", "Song [Normal]"], true, &[]),
        "Song"
    );
    assert_eq!(
        extract_work_name(&["Song [Easy]", "Song [Hard]", "Other"], true, &[]),
        "Song"
    );
    assert_eq!(extract_work_name(&["Alone"], true, &[]), "Alone");
    assert_eq!(
        extract_work_name(&["Someone / obj. A", "Someone / obj. B"], true, &["/", "obj."]),
        "Someone"
    );
}
