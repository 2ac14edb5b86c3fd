//! Naming work directories after their charts.

use crate::text::{chars_of, extension_of, same_chars, same_text, slice_of, split_name, string_of};
use vstd::prelude::*;
use vstd::string::StringExecFns;

verus! {

/// The title of a work whose charts name none.
pub const DEFAULT_TITLE: &'static str = "!!! UnknownTitle !!!";

/// The artist of a work whose charts name none.
pub const DEFAULT_ARTIST: &'static str = "!!! UnknownArtist !!!";

/// How a work directory's name is made from title and artist.
#[derive(Debug, Clone, Copy, PartialEq, Eq, Hash, Structural)]
pub enum BmsFolderSetNameType {
    /// The name becomes "Title [Artist]".
    ReplaceTitleArtist,
    /// "Title [Artist]" is added after the name.
    AppendTitleArtist,
    /// " [Artist]" is added after the name.
    AppendArtist,
}

/// The position of the first occurrence of `c` in `s`, or the length of `s` if there is none.
pub open spec fn first_index_of(s: Seq<char>, c: char) -> int
    decreases s.len(),
{
    if s.len() == 0 {
        0
    } else if s[0] == c {
        0
    } else {
        1 + first_index_of(s.drop_first(), c)
    }
}

/// What `first_index_of` finds: the first position that holds `c`, or the length.
pub proof fn lemma_first_index_of(s: Seq<char>, c: char)
    ensures
        0 <= first_index_of(s, c) <= s.len(),
        first_index_of(s, c) < s.len() ==> s[first_index_of(s, c)] == c,
        forall|j: int| 0 <= j < first_index_of(s, c) ==> s[j] != c,
    decreases s.len(),
{
    if s.len() > 0 && s[0] != c {
        lemma_first_index_of(s.drop_first(), c);
        let r = first_index_of(s.drop_first(), c);
        assert forall|j: int| 0 <= j < 1 + r implies s[j] != c by {
            if j > 0 {
                assert(s.drop_first()[j - 1] == s[j]);
            }
        }
        if r < s.drop_first().len() {
            assert(s.drop_first()[r] == s[r + 1]);
        }
    }
}

/// The first position that holds `c` with no `c` before it is what `first_index_of` finds.
pub proof fn lemma_first_index_of_unique(s: Seq<char>, c: char, i: int)
    requires
        0 <= i <= s.len(),
        i < s.len() ==> s[i] == c,
        forall|j: int| 0 <= j < i ==> s[j] != c,
    ensures
        first_index_of(s, c) == i,
{
    lemma_first_index_of(s, c);
}

/// The name a directory had before a title or artist was added to it: the
/// text before its first space.
pub open spec fn name_before_space(name: Seq<char>) -> Seq<char> {
    name.take(first_index_of(name, ' '))
}

impl BmsFolderSetNameType {
    /// The way named by `s`.
    pub open spec fn parse(s: Seq<char>) -> Option<BmsFolderSetNameType> {
        if s == "replace"@ || s == "replace_title_artist"@ {
            Some(BmsFolderSetNameType::ReplaceTitleArtist)
        } else if s == "append"@ || s == "append_title_artist"@ {
            Some(BmsFolderSetNameType::AppendTitleArtist)
        } else if s == "append_artist"@ {
            Some(BmsFolderSetNameType::AppendArtist)
        } else {
            None
        }
    }

    /// The message for a text that names no way.
    pub open spec fn unknown_message(s: Seq<char>) -> Seq<char> {
        "Unknown set type: "@ + s + ". Valid values are: replace, append, append_artist"@
    }

    /// The name the directory `dir_name` gets for a work with this title and artist.
    pub open spec fn target_name_of(
        self,
        dir_name: Seq<char>,
        title: Seq<char>,
        artist: Seq<char>,
    ) -> Seq<char> {
        match self {
            BmsFolderSetNameType::ReplaceTitleArtist => title + " ["@ + artist + "]"@,
            BmsFolderSetNameType::AppendTitleArtist => dir_name + " "@ + title + " ["@ + artist
                + "]"@,
            BmsFolderSetNameType::AppendArtist => dir_name + " ["@ + artist + "]"@,
        }
    }

    /// Reads the name of a way.
    pub fn from_str(s: &str) -> (r: Result<BmsFolderSetNameType, String>)
        ensures
            match r {
                Ok(t) => BmsFolderSetNameType::parse(s@) == Some(t),
                Err(msg) => BmsFolderSetNameType::parse(s@) is None && msg@
                    == BmsFolderSetNameType::unknown_message(s@),
            },
    {
        if same_text(s, "replace") || same_text(s, "replace_title_artist") {
            Ok(BmsFolderSetNameType::ReplaceTitleArtist)
        } else if same_text(s, "append") || same_text(s, "append_title_artist") {
            Ok(BmsFolderSetNameType::AppendTitleArtist)
        } else if same_text(s, "append_artist") {
            Ok(BmsFolderSetNameType::AppendArtist)
        } else {
            let mut msg = String::from_str("Unknown set type: ");
            msg.append(s);
            msg.append(". Valid values are: replace, append, append_artist");
            Err(msg)
        }
    }

    /// The name under which the way is offered on the command line.
    pub fn name(&self) -> (r: &'static str)
        ensures
            r@ == match self {
                BmsFolderSetNameType::ReplaceTitleArtist => "replace_title_artist"@,
                BmsFolderSetNameType::AppendTitleArtist => "append_title_artist"@,
                BmsFolderSetNameType::AppendArtist => "append_artist"@,
            },
    {
        match self {
            BmsFolderSetNameType::ReplaceTitleArtist => "replace_title_artist",
            BmsFolderSetNameType::AppendTitleArtist => "append_title_artist",
            BmsFolderSetNameType::AppendArtist => "append_artist",
        }
    }

    /// Every way, in the order in which they are offered.
    pub fn value_variants() -> (r: Vec<BmsFolderSetNameType>)
        ensures
            r@ == seq![
                BmsFolderSetNameType::ReplaceTitleArtist,
                BmsFolderSetNameType::AppendTitleArtist,
                BmsFolderSetNameType::AppendArtist,
            ],
    {
        let mut r: Vec<BmsFolderSetNameType> = Vec::new();
        r.push(BmsFolderSetNameType::ReplaceTitleArtist);
        r.push(BmsFolderSetNameType::AppendTitleArtist);
        r.push(BmsFolderSetNameType::AppendArtist);
        proof {
            assert(r@ =~= seq![
                BmsFolderSetNameType::ReplaceTitleArtist,
                BmsFolderSetNameType::AppendTitleArtist,
                BmsFolderSetNameType::AppendArtist,
            ]);
        }
        r
    }

    /// The name the directory `dir_name` gets for a work with this title and artist.
    pub fn target_name(&self, dir_name: &str, title: &str, artist: &str) -> (r: String)
        ensures
            r@ == self.target_name_of(dir_name@, title@, artist@),
    {
        let mut r = String::new();
        proof {
            assert(Seq::<char>::empty() + title@ =~= title@);
            assert(Seq::<char>::empty() + dir_name@ =~= dir_name@);
        }
        match self {
            BmsFolderSetNameType::ReplaceTitleArtist => {
                r.append(title);
            },
            BmsFolderSetNameType::AppendTitleArtist => {
                r.append(dir_name);
                r.append(" ");
                r.append(title);
            },
            BmsFolderSetNameType::AppendArtist => {
                r.append(dir_name);
            },
        }
        r.append(" [");
        r.append(artist);
        r.append("]");
        r
    }
}

/// The way named by `set_type`; `ReplaceTitleArtist` for a text that names none.
pub fn get_set_name_type(set_type: &str) -> (r: BmsFolderSetNameType)
    ensures
        r == match BmsFolderSetNameType::parse(set_type@) {
            Some(t) => t,
            None => BmsFolderSetNameType::ReplaceTitleArtist,
        },
{
    match BmsFolderSetNameType::from_str(set_type) {
        Ok(t) => t,
        Err(_) => BmsFolderSetNameType::ReplaceTitleArtist,
    }
}

/// The name a directory had before a title or artist was added to it.
pub fn undo_name(dir_name: &str) -> (r: String)
    ensures
        r@ == name_before_space(dir_name@),
{
    let chars = chars_of(dir_name);
    let mut i: usize = 0;
    while i < chars.len() && chars[i] != ' '
        invariant
            i <= chars.len(),
            forall|j: int| 0 <= j < i ==> chars@[j] != ' ',
        decreases chars.len() - i,
    {
        i += 1;
    }
    proof {
        lemma_first_index_of_unique(chars@, ' ', i as int);
        assert(chars@.subrange(0, i as int) =~= chars@.take(i as int));
    }
    string_of(&slice_of(&chars, 0, i))
}

/// A character that file systems refuse in a name.
pub open spec fn is_refused_in_names(c: char) -> bool {
    c == '\\' || c == '/' || c == ':' || c == '*' || c == '?' || c == '"' || c == '<' || c == '>'
        || c == '|'
}

/// `name` with every character that file systems refuse replaced by an underscore.
pub open spec fn valid_name(name: Seq<char>) -> Seq<char> {
    Seq::new(name.len(), |i: int| if is_refused_in_names(name[i]) { '_' } else { name[i] })
}

/// Makes a name that file systems take: every character they refuse in a
/// name becomes an underscore.
pub fn get_valid_fs_name(name: &str) -> (r: String)
    ensures
        r@ == valid_name(name@),
{
    let chars = chars_of(name);
    let mut out: Vec<char> = Vec::new();
    let mut i: usize = 0;
    while i < chars.len()
        invariant
            i <= chars.len(),
            out@ == valid_name(chars@.take(i as int)),
        decreases chars.len() - i,
    {
        let c = chars[i];
        let refused = c == '\\' || c == '/' || c == ':' || c == '*' || c == '?' || c == '"' || c
            == '<' || c == '>' || c == '|';
        if refused {
            out.push('_');
        } else {
            out.push(c);
        }
        proof {
            assert(out@ =~= valid_name(chars@.take(i as int + 1)));
        }
        i += 1;
    }
    proof {
        assert(chars@.take(chars.len() as int) =~= chars@);
    }
    string_of(&out)
}

/// The kinds of chart files.
#[derive(Debug, Clone, Copy, PartialEq, Eq, Structural)]
pub enum ChartKind {
    /// A chart in the text format: `bms`, `bme`, `bml` or `pms`.
    Bms,
    /// A chart in the JSON format: `bmson`.
    Bmson,
}

/// The kind of chart a file of this name holds, by its extension as it is
/// written; none for any other file.
pub open spec fn chart_kind_of(name: Seq<char>) -> Option<ChartKind> {
    match extension_of(name) {
        Some(e) => if e == "bms"@ || e == "bme"@ || e == "bml"@ || e == "pms"@ {
            Some(ChartKind::Bms)
        } else if e == "bmson"@ {
            Some(ChartKind::Bmson)
        } else {
            None
        },
        None => None,
    }
}

/// The kind of chart a file of this name holds.
pub fn chart_kind(name: &str) -> (r: Option<ChartKind>)
    ensures
        r == chart_kind_of(name@),
{
    let (_stem, ext) = split_name(&chars_of(name));
    match ext {
        Some(e) => {
            if same_chars(&e, &chars_of("bms")) || same_chars(&e, &chars_of("bme")) || same_chars(
                &e,
                &chars_of("bml"),
            ) || same_chars(&e, &chars_of("pms")) {
                Some(ChartKind::Bms)
            } else if same_chars(&e, &chars_of("bmson")) {
                Some(ChartKind::Bmson)
            } else {
                None
            }
        },
        None => None,
    }
}

} // verus!
