//! Finding the name of a work in the titles of its charts.
//!
//! The charts of one work carry titles that begin alike and end in the name
//! of a difficulty or the like. The name of the work is looked for among the
//! beginnings that the titles share: every beginning is counted, the best of
//! those counted often enough is taken, and what is left of brackets that
//! never close and of trailing signs is cut off.

use crate::assoc::{
    distinct_keys, first_match, lemma_first_match_at, lemma_first_match_none,
    lemma_first_match_push, lemma_first_match_update,
};
use crate::path::names_of;
use crate::text::{
    chars_of, ends_with, is_white_space, same_chars, slice_of, string_of, trim, trim_end, trimmed,
    trimmed_end_len,
};
use vstd::prelude::*;
use vstd::utf8::encode_utf8;

verus! {

/// How many of `titles` begin with `p`.
pub open spec fn occurrences(titles: Seq<Seq<char>>, p: Seq<char>) -> nat
    decreases titles.len(),
{
    if titles.len() == 0 {
        0
    } else {
        occurrences(titles.drop_last(), p) + if p.is_prefix_of(titles.last()) {
            1nat
        } else {
            0nat
        }
    }
}

/// No beginning occurs more often than there are titles.
pub proof fn lemma_occurrences_bounded(titles: Seq<Seq<char>>, p: Seq<char>)
    ensures
        occurrences(titles, p) <= titles.len(),
    decreases titles.len(),
{
    if titles.len() > 0 {
        lemma_occurrences_bounded(titles.drop_last(), p);
    }
}

/// The counted beginnings as plain values.
pub open spec fn counts_of(counts: Seq<(String, usize)>) -> Seq<(Seq<char>, usize)> {
    Seq::new(counts.len(), |i: int| (counts[i].0@, counts[i].1))
}

/// How often `p` was counted once the titles `done` and the beginnings of
/// `t` of up to `upto` characters are gone through.
pub open spec fn counted(done: Seq<Seq<char>>, t: Seq<char>, upto: int, p: Seq<char>) -> nat {
    occurrences(done, p) + if p.is_prefix_of(t) && p.len() <= upto {
        1nat
    } else {
        0nat
    }
}

/// What the table holds for `p` when `p` was counted `n` times: nothing for
/// the empty text or a text never counted.
pub open spec fn entry_for(p: Seq<char>, n: nat) -> Option<usize> {
    if p.len() > 0 && n > 0 {
        Some(n as usize)
    } else {
        None
    }
}

/// The position of the entry of `counts` for the text `key`.
fn position_of(counts: &Vec<(String, usize)>, key: &Vec<char>) -> (r: Option<usize>)
    ensures
        match r {
            Some(i) => i < counts@.len() && counts_of(counts@)[i as int].0 == key@ && forall|
                j: int,
            | 0 <= j < i ==> counts_of(counts@)[j].0 != key@,
            None => forall|j: int| 0 <= j < counts@.len() ==> counts_of(counts@)[j].0 != key@,
        },
{
    let mut pos: usize = 0;
    while pos < counts.len()
        invariant
            pos <= counts.len(),
            forall|j: int| 0 <= j < pos ==> counts_of(counts@)[j].0 != key@,
        decreases counts.len() - pos,
    {
        let k = chars_of(counts[pos].0.as_str());
        proof {
            assert(counts_of(counts@)[pos as int].0 == counts@[pos as int].0@);
        }
        if same_chars(&k, key) {
            return Some(pos);
        }
        pos += 1;
    }
    None
}

/// Counts every non-empty beginning of every title: the result holds each
/// such beginning once, with the number of titles that begin with it.
pub fn prefix_counts(titles: &Vec<String>) -> (r: Vec<(String, usize)>)
    ensures
        distinct_keys(counts_of(r@)),
        forall|p: Seq<char>|
            first_match(counts_of(r@), p) == entry_for(p, occurrences(names_of(titles@), p)),
{
    let ghost all = names_of(titles@);
    let mut r: Vec<(String, usize)> = Vec::new();
    let mut ti: usize = 0;
    proof {
        assert(all.take(0) =~= Seq::<Seq<char>>::empty());
        assert forall|p: Seq<char>| first_match(counts_of(r@), p) == entry_for(
            p,
            occurrences(all.take(0), p),
        ) by {
            lemma_first_match_none(counts_of(r@), p);
        }
    }
    while ti < titles.len()
        invariant
            ti <= titles.len(),
            all == names_of(titles@),
            distinct_keys(counts_of(r@)),
            forall|p: Seq<char>|
                first_match(counts_of(r@), p) == entry_for(p, occurrences(all.take(ti as int), p)),
        decreases titles.len() - ti,
    {
        let chars = chars_of(titles[ti].as_str());
        let ghost done = all.take(ti as int);
        let ghost t = all[ti as int];
        let mut i: usize = 0;
        proof {
            assert(chars@ == t);
            assert forall|p: Seq<char>| first_match(counts_of(r@), p) == entry_for(
                p,
                counted(done, t, 0, p),
            ) by {
                lemma_occurrences_bounded(done, p);
            }
        }
        while i < chars.len()
            invariant
                i <= chars.len(),
                chars@ == t,
                ti < titles.len(),
                done == all.take(ti as int),
                all.len() == titles.len(),
                distinct_keys(counts_of(r@)),
                forall|p: Seq<char>|
                    first_match(counts_of(r@), p) == entry_for(p, counted(done, t, i as int, p)),
            decreases chars.len() - i,
        {
            let prefix = slice_of(&chars, 0, i + 1);
            let ghost before = counts_of(r@);
            let ghost key = prefix@;
            proof {
                assert(key =~= t.take(i as int + 1));
                assert(key.is_prefix_of(t));
                lemma_occurrences_bounded(done, key);
            }
            let at = position_of(&r, &prefix);
            if let Some(pos) = at {
                proof {
                    lemma_first_match_at(before, key, pos as int);
                    assert(first_match(before, key) == entry_for(key, counted(done, t, i as int, key)));
                    assert(counted(done, t, i as int, key) == occurrences(done, key));
                }
                let n = r[pos].1;
                let stored = string_of(&prefix);
                r.set(pos, (stored, n + 1));
                proof {
                    assert(counts_of(r@) =~= before.update(pos as int, (key, (n + 1) as usize)));
                    assert forall|p: Seq<char>| first_match(counts_of(r@), p) == entry_for(
                        p,
                        counted(done, t, i as int + 1, p),
                    ) by {
                        lemma_first_match_update(before, pos as int, key, (n + 1) as usize, p);
                        lemma_counted_step(done, t, i as int, p);
                    }
                }
            } else {
                proof {
                    lemma_first_match_none(before, key);
                    assert(first_match(before, key) == entry_for(key, counted(done, t, i as int, key)));
                    assert(occurrences(done, key) == 0);
                }
                let stored = string_of(&prefix);
                r.push((stored, 1));
                proof {
                    assert(counts_of(r@) =~= before.push((key, 1usize)));
                    assert forall|p: Seq<char>| first_match(counts_of(r@), p) == entry_for(
                        p,
                        counted(done, t, i as int + 1, p),
                    ) by {
                        lemma_first_match_push(before, key, 1usize, p);
                        lemma_counted_step(done, t, i as int, p);
                    }
                    assert forall|a: int, b: int|
                        0 <= a < b < counts_of(r@).len() implies counts_of(r@)[a].0 != counts_of(
                        r@,
                    )[b].0 by {
                        assert(counts_of(r@)[a] == before[a]);
                        if b < before.len() {
                            assert(counts_of(r@)[b] == before[b]);
                        }
                    }
                }
            }
            i += 1;
        }
        proof {
            assert(all.take(ti as int + 1).drop_last() =~= done);
            assert(all.take(ti as int + 1).last() == t);
            assert forall|p: Seq<char>| first_match(counts_of(r@), p) == entry_for(
                p,
                occurrences(all.take(ti as int + 1), p),
            ) by {
                if p.is_prefix_of(t) {
                    assert(p.len() <= t.len());
                }
                assert(entry_for(p, counted(done, t, t.len() as int, p)) == entry_for(
                    p,
                    occurrences(all.take(ti as int + 1), p),
                ));
            }
        }
        ti += 1;
    }
    proof {
        assert(all.take(titles.len() as int) =~= all);
    }
    r
}

/// Going one character further counts the beginning of that length once more.
proof fn lemma_counted_step(done: Seq<Seq<char>>, t: Seq<char>, i: int, p: Seq<char>)
    requires
        0 <= i < t.len(),
    ensures
        counted(done, t, i + 1, p) == counted(done, t, i, p) + if p == t.take(i + 1) {
            1nat
        } else {
            0nat
        },
{
    if p.is_prefix_of(t) && p.len() == i + 1 {
        assert(p =~= t.take(i + 1));
    }
    if p == t.take(i + 1) {
        assert(p.is_prefix_of(t));
    }
}

/// The highest of the counts, 0 where nothing was counted.
pub open spec fn highest(counts: Seq<(Seq<char>, usize)>) -> nat
    decreases counts.len(),
{
    if counts.len() == 0 {
        0
    } else if counts.last().1 > highest(counts.drop_last()) {
        counts.last().1 as nat
    } else {
        highest(counts.drop_last())
    }
}

/// The highest of the counts, 0 where nothing was counted.
pub fn max_count(counts: &Vec<(String, usize)>) -> (r: usize)
    ensures
        r == highest(counts_of(counts@)),
{
    let ghost all = counts_of(counts@);
    let mut best: usize = 0;
    let mut i: usize = 0;
    proof {
        assert(all.take(0) =~= Seq::empty());
    }
    while i < counts.len()
        invariant
            i <= counts.len(),
            all == counts_of(counts@),
            best == highest(all.take(i as int)),
        decreases counts.len() - i,
    {
        proof {
            assert(all.take(i as int + 1).drop_last() =~= all.take(i as int));
            assert(all.take(i as int + 1).last() == all[i as int]);
        }
        if counts[i].1 > best {
            best = counts[i].1;
        }
        i += 1;
    }
    proof {
        assert(all.take(counts.len() as int) =~= all);
    }
    best
}

/// `a` comes before `b` in the order of texts: at the first position where
/// they differ `a` has the lower character, or `a` ends there and `b` goes on.
pub open spec fn text_before(a: Seq<char>, b: Seq<char>) -> bool
    decreases a.len(),
{
    if b.len() == 0 {
        false
    } else if a.len() == 0 {
        true
    } else if a[0] != b[0] {
        (a[0] as u32) < (b[0] as u32)
    } else {
        text_before(a.drop_first(), b.drop_first())
    }
}

/// `a` is a better candidate than `b`: it is longer in bytes, or as long and
/// counted more often, or as long and counted as often and earlier in the
/// order of texts.
pub open spec fn better(a: (Seq<char>, usize), b: (Seq<char>, usize)) -> bool {
    let la = encode_utf8(a.0).len();
    let lb = encode_utf8(b.0).len();
    la > lb || (la == lb && (a.1 > b.1 || (a.1 == b.1 && text_before(a.0, b.0))))
}

/// Whether `a` comes before `b` in the order of texts.
pub fn comes_before(a: &Vec<char>, b: &Vec<char>) -> (r: bool)
    ensures
        r == text_before(a@, b@),
{
    let mut i: usize = 0;
    proof {
        assert(a@.skip(0) =~= a@);
        assert(b@.skip(0) =~= b@);
    }
    while i < a.len() && i < b.len()
        invariant
            i <= a.len(),
            i <= b.len(),
            text_before(a@, b@) == text_before(a@.skip(i as int), b@.skip(i as int)),
        decreases a.len() - i,
    {
        proof {
            assert(a@.skip(i as int)[0] == a@[i as int]);
            assert(b@.skip(i as int)[0] == b@[i as int]);
            assert(a@.skip(i as int).drop_first() =~= a@.skip(i as int + 1));
            assert(b@.skip(i as int).drop_first() =~= b@.skip(i as int + 1));
        }
        if a[i] != b[i] {
            return (a[i] as u32) < (b[i] as u32);
        }
        i += 1;
    }
    i < b.len()
}

/// The best of the candidates: one that no candidate is better than. The
/// empty text where there is no candidate.
pub fn best_prefix(candidates: &Vec<(String, usize)>) -> (r: String)
    ensures
        candidates@.len() == 0 ==> r@ == Seq::<char>::empty(),
        candidates@.len() > 0 ==> exists|k: int|
            0 <= k < candidates@.len() && r@ == (#[trigger] counts_of(candidates@)[k]).0 && forall|
                j: int,
            |
                0 <= j < candidates@.len() ==> !better(
                    #[trigger] counts_of(candidates@)[j],
                    counts_of(candidates@)[k],
                ),
{
    if candidates.len() == 0 {
        return String::new();
    }
    let ghost all = counts_of(candidates@);
    let mut best: usize = 0;
    let mut i: usize = 1;
    proof {
        lemma_better_irreflexive(all[0]);
    }
    while i < candidates.len()
        invariant
            1 <= i <= candidates.len(),
            best < i,
            all == counts_of(candidates@),
            forall|j: int| 0 <= j < i ==> !better(#[trigger] all[j], all[best as int]),
        decreases candidates.len() - i,
    {
        let a = &candidates[i];
        let b = &candidates[best];
        let la = a.0.as_str().as_bytes().len();
        let lb = b.0.as_str().as_bytes().len();
        let wins = if la != lb {
            la > lb
        } else if a.1 != b.1 {
            a.1 > b.1
        } else {
            comes_before(&chars_of(a.0.as_str()), &chars_of(b.0.as_str()))
        };
        proof {
            assert(all[i as int] == (a.0@, a.1));
            assert(all[best as int] == (b.0@, b.1));
            assert(wins == better(all[i as int], all[best as int]));
            if wins {
                lemma_better_irreflexive(all[i as int]);
                assert forall|j: int| 0 <= j < i + 1 implies !better(
                    #[trigger] all[j],
                    all[i as int],
                ) by {
                    if j < i && better(all[j], all[i as int]) {
                        lemma_better_transitive(all[j], all[i as int], all[best as int]);
                    }
                }
            }
        }
        if wins {
            best = i;
        }
        i += 1;
    }
    proof {
        assert(candidates@[best as int].0@ == all[best as int].0);
    }
    candidates[best].0.clone()
}

/// No text comes before itself.
pub proof fn lemma_text_before_irreflexive(a: Seq<char>)
    ensures
        !text_before(a, a),
    decreases a.len(),
{
    if a.len() > 0 {
        lemma_text_before_irreflexive(a.drop_first());
    }
}

/// The order of texts is transitive.
pub proof fn lemma_text_before_transitive(a: Seq<char>, b: Seq<char>, c: Seq<char>)
    requires
        text_before(a, b),
        text_before(b, c),
    ensures
        text_before(a, c),
    decreases a.len(),
{
    if a.len() > 0 && b.len() > 0 && c.len() > 0 {
        if a[0] == b[0] && b[0] == c[0] {
            lemma_text_before_transitive(a.drop_first(), b.drop_first(), c.drop_first());
        }
    }
}

/// No candidate is better than itself.
pub proof fn lemma_better_irreflexive(a: (Seq<char>, usize))
    ensures
        !better(a, a),
{
    lemma_text_before_irreflexive(a.0);
}

/// Being better is transitive.
pub proof fn lemma_better_transitive(
    a: (Seq<char>, usize),
    b: (Seq<char>, usize),
    c: (Seq<char>, usize),
)
    requires
        better(a, b),
        better(b, c),
    ensures
        better(a, c),
{
    let la = encode_utf8(a.0).len();
    let lb = encode_utf8(b.0).len();
    let lc = encode_utf8(c.0).len();
    if la == lb && lb == lc && a.1 == b.1 && b.1 == c.1 {
        lemma_text_before_transitive(a.0, b.0, c.0);
    }
}

/// A bracket that opens.
pub open spec fn is_open_bracket(c: char) -> bool {
    c == '(' || c == '[' || c == '{' || c == '（' || c == '［' || c == '｛' || c == '【'
}

/// The bracket that closes what `c` opens.
pub open spec fn closing_of(c: char) -> char {
    if c == '(' {
        ')'
    } else if c == '[' {
        ']'
    } else if c == '{' {
        '}'
    } else if c == '（' {
        '）'
    } else if c == '［' {
        '］'
    } else if c == '｛' {
        '｝'
    } else {
        '】'
    }
}

/// The positions of the brackets of `s` that are open at its end, the
/// innermost last. A closing bracket closes the innermost open bracket if it
/// is of its kind, and is passed over otherwise.
pub open spec fn open_brackets(s: Seq<char>) -> Seq<int>
    decreases s.len(),
{
    if s.len() == 0 {
        Seq::empty()
    } else {
        let before = open_brackets(s.drop_last());
        let c = s.last();
        if is_open_bracket(c) {
            before.push(s.len() - 1)
        } else if before.len() > 0 && c == closing_of(s[before.last()]) {
            before.drop_last()
        } else {
            before
        }
    }
}

/// Every bracket open at the end of `s` stands in `s` and opens.
pub proof fn lemma_open_brackets(s: Seq<char>)
    ensures
        forall|k: int|
            0 <= k < open_brackets(s).len() ==> 0 <= #[trigger] open_brackets(s)[k] < s.len()
                && is_open_bracket(s[open_brackets(s)[k]]),
    decreases s.len(),
{
    if s.len() > 0 {
        lemma_open_brackets(s.drop_last());
        let before = open_brackets(s.drop_last());
        assert forall|k: int| 0 <= k < open_brackets(s).len() implies 0 <= #[trigger] open_brackets(
            s,
        )[k] < s.len() && is_open_bracket(s[open_brackets(s)[k]]) by {
            if k < before.len() {
                assert(open_brackets(s)[k] == before[k]);
                assert(s.drop_last()[before[k]] == s[before[k]]);
            }
        }
    }
}

/// `s` cut before its innermost bracket that never closes, and without the
/// white space this leaves at the end; `s` itself where every bracket closes.
pub open spec fn without_unclosed(s: Seq<char>) -> Seq<char> {
    if open_brackets(s).len() > 0 {
        trim_end(s.take(open_brackets(s).last()))
    } else {
        s
    }
}

/// `s` ends with the non-empty text `sign`.
pub open spec fn ends_with_sign(s: Seq<char>, sign: Seq<char>) -> bool {
    0 < sign.len() <= s.len() && s.skip(s.len() - sign.len()) == sign
}

/// The position of the first of `signs` that `s` ends with, or the number of
/// signs where it ends with none.
pub open spec fn first_sign(s: Seq<char>, signs: Seq<Seq<char>>) -> int
    decreases signs.len(),
{
    if signs.len() == 0 {
        0
    } else if ends_with_sign(s, signs[0]) {
        0
    } else {
        1 + first_sign(s, signs.drop_first())
    }
}

/// `s` without the first of `signs` that it ends with, and without the white
/// space this leaves at the end; `s` itself where it ends with none.
pub open spec fn without_sign(s: Seq<char>, signs: Seq<Seq<char>>) -> Seq<char> {
    let k = first_sign(s, signs);
    if 0 <= k < signs.len() {
        trim_end(s.take(s.len() - signs[k].len()))
    } else {
        s
    }
}

/// One round of tidying: the unclosed bracket goes, where asked for, and
/// then one trailing sign.
pub open spec fn tidy_once(s: Seq<char>, remove_unclosed_pair: bool, signs: Seq<Seq<char>>) -> Seq<
    char,
> {
    let a = if remove_unclosed_pair {
        without_unclosed(s)
    } else {
        s
    };
    without_sign(a, signs)
}

/// Rounds of tidying until a round changes nothing.
pub open spec fn tidy(s: Seq<char>, remove_unclosed_pair: bool, signs: Seq<Seq<char>>) -> Seq<char>
    decreases s.len(),
{
    let next = tidy_once(s, remove_unclosed_pair, signs);
    if next.len() < s.len() {
        tidy(next, remove_unclosed_pair, signs)
    } else {
        s
    }
}

/// The name of a work made from a shared beginning of its titles: the
/// beginning without white space around it, tidied.
pub open spec fn work_name_of(
    s: Seq<char>,
    remove_unclosed_pair: bool,
    signs: Seq<Seq<char>>,
) -> Seq<char> {
    tidy(trim(s), remove_unclosed_pair, signs)
}

/// Taking white space off the end never makes a text longer.
pub proof fn lemma_trim_end_shorter(s: Seq<char>)
    ensures
        trim_end(s).len() <= s.len(),
    decreases s.len(),
{
    if s.len() > 0 && is_white_space(s.last()) {
        lemma_trim_end_shorter(s.drop_last());
    }
}

/// A round of tidying either shortens the text or leaves it as it is.
pub proof fn lemma_tidy_once(s: Seq<char>, remove_unclosed_pair: bool, signs: Seq<Seq<char>>)
    ensures
        tidy_once(s, remove_unclosed_pair, signs).len() < s.len() || tidy_once(
            s,
            remove_unclosed_pair,
            signs,
        ) == s,
{
    lemma_open_brackets(s);
    let a = if remove_unclosed_pair {
        without_unclosed(s)
    } else {
        s
    };
    if remove_unclosed_pair && open_brackets(s).len() > 0 {
        lemma_trim_end_shorter(s.take(open_brackets(s).last()));
    }
    lemma_first_sign(a, signs);
    let k = first_sign(a, signs);
    if 0 <= k < signs.len() {
        lemma_trim_end_shorter(a.take(a.len() - signs[k].len()));
    }
}

/// What `first_sign` finds: the first sign the text ends with.
pub proof fn lemma_first_sign(s: Seq<char>, signs: Seq<Seq<char>>)
    ensures
        0 <= first_sign(s, signs) <= signs.len(),
        first_sign(s, signs) < signs.len() ==> ends_with_sign(s, signs[first_sign(s, signs)]),
        forall|j: int| 0 <= j < first_sign(s, signs) ==> !ends_with_sign(s, signs[j]),
    decreases signs.len(),
{
    if signs.len() > 0 && !ends_with_sign(s, signs[0]) {
        lemma_first_sign(s, signs.drop_first());
        let r = first_sign(s, signs.drop_first());
        assert forall|j: int| 0 <= j < 1 + r implies !ends_with_sign(s, signs[j]) by {
            if j > 0 {
                assert(signs.drop_first()[j - 1] == signs[j]);
            }
        }
        if r < signs.drop_first().len() {
            assert(signs.drop_first()[r] == signs[r + 1]);
        }
    }
}

/// The first position at which `signs` holds a sign the text ends with is what `first_sign` finds.
proof fn lemma_first_sign_unique(s: Seq<char>, signs: Seq<Seq<char>>, k: int)
    requires
        0 <= k <= signs.len(),
        k < signs.len() ==> ends_with_sign(s, signs[k]),
        forall|j: int| 0 <= j < k ==> !ends_with_sign(s, signs[j]),
    ensures
        first_sign(s, signs) == k,
{
    lemma_first_sign(s, signs);
}

/// Whether `c` is a bracket that opens.
fn opens(c: char) -> (r: bool)
    ensures
        r == is_open_bracket(c),
{
    c == '(' || c == '[' || c == '{' || c == '（' || c == '［' || c == '｛' || c == '【'
}

/// The bracket that closes what `c` opens.
fn closing(c: char) -> (r: char)
    ensures
        r == closing_of(c),
{
    if c == '(' {
        ')'
    } else if c == '[' {
        ']'
    } else if c == '{' {
        '}'
    } else if c == '（' {
        '）'
    } else if c == '［' {
        '］'
    } else if c == '｛' {
        '｝'
    } else {
        '】'
    }
}

/// The position of the innermost bracket of `v` that never closes.
fn innermost_unclosed(v: &Vec<char>) -> (r: Option<usize>)
    ensures
        match r {
            Some(p) => open_brackets(v@).len() > 0 && open_brackets(v@).last() == p && p < v.len(),
            None => open_brackets(v@).len() == 0,
        },
{
    let mut stack: Vec<usize> = Vec::new();
    let mut i: usize = 0;
    proof {
        assert(v@.take(0) =~= Seq::<char>::empty());
    }
    while i < v.len()
        invariant
            i <= v.len(),
            stack@.len() == open_brackets(v@.take(i as int)).len(),
            forall|k: int|
                0 <= k < stack@.len() ==> stack@[k] as int == open_brackets(v@.take(i as int))[k],
        decreases v.len() - i,
    {
        let ghost before = open_brackets(v@.take(i as int));
        proof {
            assert(v@.take(i as int + 1).drop_last() =~= v@.take(i as int));
            assert(v@.take(i as int + 1).last() == v@[i as int]);
            lemma_open_brackets(v@.take(i as int));
            if before.len() > 0 {
                assert(v@.take(i as int + 1)[before.last()] == v@[before.last()]);
            }
        }
        let c = v[i];
        if opens(c) {
            stack.push(i);
        } else if stack.len() > 0 {
            let top = stack[stack.len() - 1];
            if c == closing(v[top]) {
                stack.pop();
            }
        }
        i += 1;
    }
    proof {
        assert(v@.take(v.len() as int) =~= v@);
        lemma_open_brackets(v@);
    }
    if stack.len() > 0 {
        Some(stack[stack.len() - 1])
    } else {
        None
    }
}

/// The first `len` characters of `v` without the white space at their end.
fn cut(v: &Vec<char>, len: usize) -> (r: Vec<char>)
    requires
        len <= v.len(),
    ensures
        r@ == trim_end(v@.take(len as int)),
{
    let keep = trimmed_end_len(v, len);
    proof {
        assert(v@.subrange(0, keep as int) =~= v@.take(keep as int));
    }
    slice_of(v, 0, keep)
}

/// The length of the first of `signs` that `v` ends with.
fn trailing_sign(v: &Vec<char>, signs: &Vec<String>) -> (r: Option<usize>)
    ensures
        match r {
            Some(n) => {
                let k = first_sign(v@, names_of(signs@));
                k < signs@.len() && n == names_of(signs@)[k].len() && 0 < n <= v@.len()
            },
            None => first_sign(v@, names_of(signs@)) == signs@.len(),
        },
{
    let ghost all = names_of(signs@);
    let mut k: usize = 0;
    while k < signs.len()
        invariant
            k <= signs.len(),
            all == names_of(signs@),
            forall|j: int| 0 <= j < k ==> !ends_with_sign(v@, all[j]),
        decreases signs.len() - k,
    {
        let sign = chars_of(signs[k].as_str());
        proof {
            assert(sign@ == all[k as int]);
        }
        if sign.len() > 0 && ends_with(v, &sign) {
            proof {
                lemma_first_sign_unique(v@, all, k as int);
            }
            return Some(sign.len());
        }
        k += 1;
    }
    proof {
        lemma_first_sign_unique(v@, all, all.len() as int);
    }
    None
}

/// Tidies the shared beginning of the titles of a work into the work's name:
/// white space around it goes; then, round by round, the innermost bracket
/// that never closes goes with all that follows it (where
/// `remove_unclosed_pair` asks for it), and the first of the signs of
/// `remove_tailing_sign_list` that the text ends with. An empty sign is
/// passed over.
pub fn extract_work_name_post_process(
    s: &str,
    remove_unclosed_pair: bool,
    remove_tailing_sign_list: &Vec<String>,
) -> (r: String)
    ensures
        r@ == work_name_of(s@, remove_unclosed_pair, names_of(remove_tailing_sign_list@)),
{
    let ghost signs = names_of(remove_tailing_sign_list@);
    let mut result = trimmed(&chars_of(s));
    let mut changed = true;
    while changed
        invariant
            signs == names_of(remove_tailing_sign_list@),
            work_name_of(s@, remove_unclosed_pair, signs) == if changed {
                tidy(result@, remove_unclosed_pair, signs)
            } else {
                result@
            },
        decreases
                if changed {
                    result@.len() + 1
                } else {
                    0
                },
    {
        let ghost start = result@;
        proof {
            lemma_tidy_once(start, remove_unclosed_pair, signs);
        }
        changed = false;
        if remove_unclosed_pair {
            match innermost_unclosed(&result) {
                Some(p) => {
                    proof {
                        lemma_trim_end_shorter(result@.take(p as int));
                    }
                    result = cut(&result, p);
                    changed = true;
                },
                None => {},
            }
        }
        let ghost middle = result@;
        proof {
            lemma_first_sign(middle, signs);
        }
        match trailing_sign(&result, remove_tailing_sign_list) {
            Some(sign_len) => {
                proof {
                    lemma_trim_end_shorter(middle.take(middle.len() - sign_len));
                }
                result = cut(&result, result.len() - sign_len);
                proof {
                    assert(result@ == without_sign(middle, signs));
                }
                changed = true;
            },
            None => {
                proof {
                    assert(result@ == without_sign(middle, signs));
                }
            },
        }
        proof {
            assert(result@ == tidy_once(start, remove_unclosed_pair, signs));
            assert(changed == (result@.len() < start.len()));
        }
    }
    string_of(&result)
}

} // verus!
