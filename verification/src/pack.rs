//! Reading the numbers and extensions in the names of packs and work
//! directories.

use crate::path::names_of;
use crate::text::{
    chars_of, find_last, is_ascii_digit, is_white_space, is_white, last_index_of, lower, same_chars,
    slice_of, string_of, to_lower,
};
use crate::work::{first_index_of, lemma_first_index_of_unique};
use vstd::prelude::*;

verus! {

/// Every character of `s` is an ASCII digit. The empty text has this property.
pub open spec fn all_digits(s: Seq<char>) -> bool {
    forall|i: int| 0 <= i < s.len() ==> is_ascii_digit(#[trigger] s[i])
}

/// The number of characters of white space at the start of `s`.
pub open spec fn leading_white(s: Seq<char>) -> int
    decreases s.len(),
{
    if s.len() > 0 && is_white_space(s[0]) {
        1 + leading_white(s.drop_first())
    } else {
        0
    }
}

/// The length of the first word of `s`, which starts at the start of `s`:
/// the number of characters before the first white space.
pub open spec fn word_len(s: Seq<char>) -> int
    decreases s.len(),
{
    if s.len() > 0 && !is_white_space(s[0]) {
        1 + word_len(s.drop_first())
    } else {
        0
    }
}

/// The first word of `s`: what stands between the white space at its start
/// and the next white space. The empty text where `s` holds no word.
pub open spec fn first_word(s: Seq<char>) -> Seq<char> {
    let rest = s.skip(leading_white(s));
    rest.take(word_len(rest))
}

/// The number in the name of a work directory: its first word up to the first dot.
pub open spec fn work_number(dir_name: Seq<char>) -> Seq<char> {
    let word = first_word(dir_name);
    word.take(first_index_of(word, '.'))
}

/// The position of the first of `names` that begins with `start`, or the
/// number of names where none does.
pub open spec fn first_beginning_with(names: Seq<Seq<char>>, start: Seq<char>) -> int
    decreases names.len(),
{
    if names.len() == 0 {
        0
    } else if start.is_prefix_of(names[0]) {
        0
    } else {
        1 + first_beginning_with(names.drop_first(), start)
    }
}

/// The extension by which a pack file is told: the text after the last dot
/// of its name, lower-cased; the whole name, lower-cased, where it has no dot.
pub open spec fn pack_extension(name: Seq<char>) -> Seq<char> {
    lower(name.skip(last_index_of(name, '.') + 1))
}

/// The extensions of the files that can be given a number: archives, videos and charts.
pub open spec fn is_numberable(ext: Seq<char>) -> bool {
    ext == "zip"@ || ext == "7z"@ || ext == "rar"@ || ext == "mp4"@ || ext == "bms"@ || ext
        == "bme"@ || ext == "bml"@ || ext == "pms"@
}

proof fn lemma_leading_white(s: Seq<char>)
    ensures
        0 <= leading_white(s) <= s.len(),
        forall|j: int| 0 <= j < leading_white(s) ==> is_white_space(s[j]),
        leading_white(s) < s.len() ==> !is_white_space(s[leading_white(s)]),
    decreases s.len(),
{
    if s.len() > 0 && is_white_space(s[0]) {
        lemma_leading_white(s.drop_first());
        let r = leading_white(s.drop_first());
        assert forall|j: int| 0 <= j < 1 + r implies is_white_space(s[j]) by {
            if j > 0 {
                assert(s.drop_first()[j - 1] == s[j]);
            }
        }
        if r < s.drop_first().len() {
            assert(s.drop_first()[r] == s[r + 1]);
        }
    }
}

proof fn lemma_word_len(s: Seq<char>)
    ensures
        0 <= word_len(s) <= s.len(),
        forall|j: int| 0 <= j < word_len(s) ==> !is_white_space(s[j]),
        word_len(s) < s.len() ==> is_white_space(s[word_len(s)]),
    decreases s.len(),
{
    if s.len() > 0 && !is_white_space(s[0]) {
        lemma_word_len(s.drop_first());
        let r = word_len(s.drop_first());
        assert forall|j: int| 0 <= j < 1 + r implies !is_white_space(s[j]) by {
            if j > 0 {
                assert(s.drop_first()[j - 1] == s[j]);
            }
        }
        if r < s.drop_first().len() {
            assert(s.drop_first()[r] == s[r + 1]);
        }
    }
}

proof fn lemma_first_beginning_with(names: Seq<Seq<char>>, start: Seq<char>)
    ensures
        0 <= first_beginning_with(names, start) <= names.len(),
        forall|j: int| 0 <= j < first_beginning_with(names, start) ==> !start.is_prefix_of(names[j]),
        first_beginning_with(names, start) < names.len() ==> start.is_prefix_of(
            names[first_beginning_with(names, start)],
        ),
    decreases names.len(),
{
    if names.len() > 0 && !start.is_prefix_of(names[0]) {
        lemma_first_beginning_with(names.drop_first(), start);
        let r = first_beginning_with(names.drop_first(), start);
        assert forall|j: int| 0 <= j < 1 + r implies !start.is_prefix_of(names[j]) by {
            if j > 0 {
                assert(names.drop_first()[j - 1] == names[j]);
            }
        }
        if r < names.drop_first().len() {
            assert(names.drop_first()[r] == names[r + 1]);
        }
    }
}

/// Whether every character of `s` is an ASCII digit.
pub fn is_number_text(s: &str) -> (r: bool)
    ensures
        r == all_digits(s@),
{
    let chars = chars_of(s);
    let mut i: usize = 0;
    while i < chars.len()
        invariant
            i <= chars.len(),
            chars@ == s@,
            forall|j: int| 0 <= j < i ==> is_ascii_digit(#[trigger] s@[j]),
        decreases chars.len() - i,
    {
        let c = chars[i];
        if !(c >= '0' && c <= '9') {
            return false;
        }
        i += 1;
    }
    true
}

/// The first word of `chars`.
fn first_word_of(chars: &Vec<char>) -> (r: Vec<char>)
    ensures
        r@ == first_word(chars@),
{
    let mut from: usize = 0;
    while from < chars.len() && is_white(chars[from])
        invariant
            from <= chars.len(),
            forall|j: int| 0 <= j < from ==> is_white_space(chars@[j]),
        decreases chars.len() - from,
    {
        from += 1;
    }
    proof {
        lemma_leading_white(chars@);
        assert(leading_white(chars@) == from as int);
    }
    let rest = slice_of(chars, from, chars.len());
    proof {
        assert(rest@ =~= chars@.skip(from as int));
    }
    let mut to: usize = 0;
    while to < rest.len() && !is_white(rest[to])
        invariant
            to <= rest.len(),
            forall|j: int| 0 <= j < to ==> !is_white_space(rest@[j]),
        decreases rest.len() - to,
    {
        to += 1;
    }
    proof {
        lemma_word_len(rest@);
        assert(word_len(rest@) == to as int);
        assert(rest@.subrange(0, to as int) =~= rest@.take(to as int));
    }
    slice_of(&rest, 0, to)
}

/// The number in the name of a work directory.
pub fn work_number_of(dir_name: &str) -> (r: String)
    ensures
        r@ == work_number(dir_name@),
{
    let word = first_word_of(&chars_of(dir_name));
    let mut dot: usize = 0;
    while dot < word.len() && word[dot] != '.'
        invariant
            dot <= word.len(),
            forall|j: int| 0 <= j < dot ==> word@[j] != '.',
        decreases word.len() - dot,
    {
        dot += 1;
    }
    proof {
        lemma_first_index_of_unique(word@, '.', dot as int);
        assert(word@.subrange(0, dot as int) =~= word@.take(dot as int));
    }
    string_of(&slice_of(&word, 0, dot))
}

/// Whether `text` begins with `start`.
pub fn begins_with(text: &str, start: &str) -> (r: bool)
    ensures
        r == start@.is_prefix_of(text@),
{
    let t = chars_of(text);
    let s = chars_of(start);
    if s.len() > t.len() {
        return false;
    }
    let head = slice_of(&t, 0, s.len());
    proof {
        assert(head@ =~= text@.subrange(0, s.len() as int));
    }
    same_chars(&head, &s)
}

/// The position of the first of `names` that begins with `start`.
pub fn find_beginning_with(names: &Vec<String>, start: &str) -> (r: Option<usize>)
    ensures
        match r {
            Some(i) => i < names@.len() && first_beginning_with(names_of(names@), start@) == i,
            None => first_beginning_with(names_of(names@), start@) == names@.len(),
        },
{
    let mut i: usize = 0;
    proof {
        lemma_first_beginning_with(names_of(names@), start@);
    }
    while i < names.len()
        invariant
            i <= names.len(),
            forall|j: int| 0 <= j < i ==> !start@.is_prefix_of(names_of(names@)[j]),
            i <= first_beginning_with(names_of(names@), start@) <= names@.len(),
        decreases names.len() - i,
    {
        proof {
            lemma_first_beginning_with(names_of(names@), start@);
            assert(names_of(names@)[i as int] == names@[i as int]@);
        }
        if begins_with(names[i].as_str(), start) {
            return Some(i);
        }
        i += 1;
    }
    None
}

/// The name among `source_names` that a numbered work directory takes over:
/// the first that begins with the directory's number. None for a directory
/// whose number is not made of digits alone.
pub fn name_for_numbered_dir(source_names: &Vec<String>, dir_name: &str) -> (r: Option<usize>)
    ensures
        match r {
            Some(i) => all_digits(work_number(dir_name@)) && i < source_names@.len()
                && first_beginning_with(names_of(source_names@), work_number(dir_name@)) == i,
            None => !all_digits(work_number(dir_name@)) || first_beginning_with(
                names_of(source_names@),
                work_number(dir_name@),
            ) == source_names@.len(),
        },
{
    let number = work_number_of(dir_name);
    if !is_number_text(number.as_str()) {
        return None;
    }
    find_beginning_with(source_names, number.as_str())
}

/// Whether the file `name` can be given a number: whether it is an archive,
/// a video or a chart by its extension.
pub fn can_be_numbered(name: &str) -> (r: bool)
    ensures
        r == is_numberable(pack_extension(name@)),
{
    let chars = chars_of(name);
    let start: usize = match find_last(&chars, '.') {
        Some(i) => i + 1,
        None => 0,
    };
    let tail = slice_of(&chars, start, chars.len());
    proof {
        assert(tail@ =~= name@.skip(last_index_of(name@, '.') + 1));
    }
    let ext = to_lower(&tail);
    same_chars(&ext, &chars_of("zip")) || same_chars(&ext, &chars_of("7z")) || same_chars(
        &ext,
        &chars_of("rar"),
    ) || same_chars(&ext, &chars_of("mp4")) || same_chars(&ext, &chars_of("bms")) || same_chars(
        &ext,
        &chars_of("bme"),
    ) || same_chars(&ext, &chars_of("bml")) || same_chars(&ext, &chars_of("pms"))
}

/// Whether the file `name` carries a number already: whether its first word
/// is made of digits alone.
pub fn is_numbered(name: &str) -> (r: bool)
    ensures
        r == (first_word(name@).len() > 0 && all_digits(first_word(name@))),
{
    let word = first_word_of(&chars_of(name));
    word.len() > 0 && is_number_text(string_of(&word).as_str())
}

} // verus!
