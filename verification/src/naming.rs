//! Command-line spellings of identifiers.

use crate::text::{chars_of, is_ascii_lower, is_ascii_upper, lower_char, string_of, to_lower_char};
use vstd::prelude::*;

verus! {

/// What the character at `i` of an identifier becomes in kebab case: an
/// underscore becomes a hyphen; an upper-case ASCII letter becomes its
/// lower-case form, after a hyphen where a lower-case ASCII letter stands
/// before it; every other character stays.
pub open spec fn kebab_piece(s: Seq<char>, i: int) -> Seq<char> {
    if s[i] == '_' {
        seq!['-']
    } else if is_ascii_upper(s[i]) {
        if i > 0 && is_ascii_lower(s[i - 1]) {
            seq!['-', lower_char(s[i])]
        } else {
            seq![lower_char(s[i])]
        }
    } else {
        seq![s[i]]
    }
}

/// An identifier in kebab case: the pieces of its characters, in order.
pub open spec fn kebab(s: Seq<char>) -> Seq<char>
    decreases s.len(),
{
    if s.len() == 0 {
        Seq::empty()
    } else {
        kebab(s.drop_last()) + kebab_piece(s, s.len() - 1)
    }
}

/// An identifier with every underscore replaced by a hyphen.
pub open spec fn long_flag(s: Seq<char>) -> Seq<char> {
    Seq::new(s.len(), |i: int| if s[i] == '_' { '-' } else { s[i] })
}

/// Turns `CamelCase` and `snake_case` identifiers into `kebab-case`.
pub fn to_kebab_case(name: &str) -> (r: String)
    ensures
        r@ == kebab(name@),
{
    let chars = chars_of(name);
    let mut out: Vec<char> = Vec::new();
    let mut prev_lower = false;
    let mut i: usize = 0;
    while i < chars.len()
        invariant
            i <= chars.len(),
            out@ == kebab(chars@.take(i as int)),
            prev_lower == (i > 0 && is_ascii_lower(chars@[i as int - 1])),
        decreases chars.len() - i,
    {
        let ch = chars[i];
        let ghost before = out@;
        proof {
            assert(chars@.take(i as int + 1).drop_last() =~= chars@.take(i as int));
            assert(kebab_piece(chars@.take(i as int + 1), i as int) == kebab_piece(
                chars@,
                i as int,
            ));
        }
        if ch == '_' {
            out.push('-');
            prev_lower = false;
            proof {
                assert(out@ =~= before + seq!['-']);
            }
        } else if ch >= 'A' && ch <= 'Z' {
            if prev_lower {
                out.push('-');
            }
            out.push(to_lower_char(ch));
            proof {
                if prev_lower {
                    assert(out@ =~= before + seq!['-', lower_char(ch)]);
                } else {
                    assert(out@ =~= before + seq![lower_char(ch)]);
                }
            }
            prev_lower = false;
        } else {
            out.push(ch);
            prev_lower = ch >= 'a' && ch <= 'z';
            proof {
                assert(out@ =~= before + seq![ch]);
            }
        }
        i += 1;
    }
    proof {
        assert(chars@.take(chars.len() as int) =~= chars@);
    }
    string_of(&out)
}

/// Turns a field name into the spelling of its long command-line flag.
pub fn to_long_flag(name: &str) -> (r: String)
    ensures
        r@ == long_flag(name@),
{
    let chars = chars_of(name);
    let mut out: Vec<char> = Vec::new();
    let mut i: usize = 0;
    while i < chars.len()
        invariant
            i <= chars.len(),
            out@ == long_flag(chars@.take(i as int)),
        decreases chars.len() - i,
    {
        let ch = chars[i];
        let ghost before = out@;
        if ch == '_' {
            out.push('-');
        } else {
            out.push(ch);
        }
        proof {
            assert(out@ =~= long_flag(chars@.take(i as int + 1)));
        }
        i += 1;
    }
    proof {
        assert(chars@.take(chars.len() as int) =~= chars@);
    }
    string_of(&out)
}

} // verus!
