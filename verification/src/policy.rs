//! The replace policy: which action settles a name collision for a file.
//!
//! A policy maps lower-cased file extensions to actions and names a default
//! for every other file. Resolving a file is a pure, total function of the
//! policy and the file's name.

use crate::assoc::{
    as_map, first_match, lemma_first_match_at, lemma_first_match_none, lemma_first_match_push,
    lemma_first_match_update,
};
use crate::text::{
    chars_of, extension_of, find_last, last_index_of, lower, same_chars,
    same_text, slice_of, split_name, string_of, to_lower,
};
use vstd::prelude::*;
use vstd::string::StringExecFns;

verus! {

/// What to do with a source file whose destination name may be taken.
#[derive(Debug, Clone, Copy, PartialEq, Eq, Structural)]
pub enum ReplaceAction {
    /// Leave the source in place when the destination exists.
    Skip,
    /// Move the source onto the destination, overwriting it.
    Replace,
    /// Always look for a free numbered name next to the destination.
    Rename,
    /// Overwrite when the contents are equal, look for a free name otherwise.
    CheckReplace,
}

impl Default for ReplaceAction {
    fn default() -> (r: Self)
        ensures
            r == ReplaceAction::Replace,
    {
        ReplaceAction::Replace
    }
}

/// A replace policy: per-extension actions and a default.
///
/// `ext` is read as a map: of two entries with the same key the first counts.
/// Keys are matched against lower-cased extensions, so only lower-case keys
/// can ever apply; `insert` stores keys lower-cased and keeps them unique.
#[derive(Debug, Clone)]
pub struct ReplaceOptions {
    /// Actions by extension (without the dot).
    pub ext: Vec<(String, ReplaceAction)>,
    /// The action for every extension without an entry.
    pub default: ReplaceAction,
}

/// The mathematical content of a `ReplaceOptions`.
pub struct PolicyView {
    pub ext: Map<Seq<char>, ReplaceAction>,
    pub default: ReplaceAction,
}

/// The key under which a file name is looked up: its extension, lower-cased;
/// the empty text for a name without extension.
pub open spec fn policy_key(name: Seq<char>) -> Seq<char> {
    match extension_of(name) {
        Some(e) => lower(e),
        None => Seq::empty(),
    }
}

/// The last component of a `/`-separated path.
pub open spec fn file_name_of(path: Seq<char>) -> Seq<char> {
    path.skip(last_index_of(path, '/') + 1)
}

/// The action a policy gives to a file name.
pub open spec fn resolve(policy: PolicyView, name: Seq<char>) -> ReplaceAction {
    if policy.ext.contains_key(policy_key(name)) {
        policy.ext[policy_key(name)]
    } else {
        policy.default
    }
}

/// The policy of the update-pack preset: chart and text files are compared
/// before they are replaced, everything else is replaced.
pub open spec fn update_pack_policy() -> PolicyView {
    PolicyView {
        ext: Map::empty().insert("bms"@, ReplaceAction::CheckReplace).insert(
            "bme"@,
            ReplaceAction::CheckReplace,
        ).insert("bml"@, ReplaceAction::CheckReplace).insert(
            "pms"@,
            ReplaceAction::CheckReplace,
        ).insert("bmson"@, ReplaceAction::CheckReplace).insert(
            "txt"@,
            ReplaceAction::CheckReplace,
        ),
        default: ReplaceAction::Replace,
    }
}

/// The policy with no entries and the default action `Replace`.
pub open spec fn default_policy() -> PolicyView {
    PolicyView { ext: Map::empty(), default: ReplaceAction::Replace }
}

impl View for ReplaceOptions {
    type V = PolicyView;

    open spec fn view(&self) -> PolicyView {
        PolicyView {
            ext: as_map(self.entries()),
            default: self.default,
        }
    }
}

impl Default for ReplaceOptions {
    fn default() -> (r: Self)
        ensures
            r@ == default_policy(),
            r.wf(),
    {
        ReplaceOptions::new(ReplaceAction::Replace)
    }
}

impl ReplaceOptions {
    /// The entries as plain values, in order.
    pub open spec fn entries(&self) -> Seq<(Seq<char>, ReplaceAction)> {
        Seq::new(self.ext@.len(), |i: int| (self.ext@[i].0@, self.ext@[i].1))
    }

    /// Keys are unique and lower-case.
    pub open spec fn wf(&self) -> bool {
        &&& forall|i: int, j: int|
            0 <= i < j < self.ext@.len() ==> self.ext@[i].0@ != self.ext@[j].0@
        &&& forall|i: int| 0 <= i < self.ext@.len() ==> lower(self.ext@[i].0@) == self.ext@[i].0@
    }

    /// A policy without entries.
    pub fn new(default: ReplaceAction) -> (r: Self)
        ensures
            r@.ext == Map::<Seq<char>, ReplaceAction>::empty(),
            r@.default == default,
            r.wf(),
    {
        let r = ReplaceOptions { ext: Vec::new(), default };
        proof {
            assert(r.entries() =~= Seq::empty());
            assert(r@.ext =~= Map::<Seq<char>, ReplaceAction>::empty());
        }
        r
    }

    /// The position of the first entry whose key is `key`.
    fn position(&self, key: &Vec<char>) -> (r: Option<usize>)
        ensures
            match r {
                Some(i) => i < self.ext@.len() && self.ext@[i as int].0@ == key@ && first_match(
                    self.entries(),
                    key@,
                ) == Some(self.ext@[i as int].1) && forall|j: int|
                    0 <= j < i ==> self.ext@[j].0@ != key@,
                None => first_match(self.entries(), key@) is None && forall|j: int|
                    0 <= j < self.ext@.len() ==> self.ext@[j].0@ != key@,
            },
    {
        let mut i: usize = 0;
        while i < self.ext.len()
            invariant
                i <= self.ext.len(),
                forall|j: int| 0 <= j < i ==> self.ext@[j].0@ != key@,
            decreases self.ext.len() - i,
        {
            let k = chars_of(self.ext[i].0.as_str());
            if same_chars(&k, key) {
                proof {
                    assert forall|j: int| 0 <= j < i implies self.entries()[j].0 != key@ by {
                        assert(self.entries()[j].0 == self.ext@[j].0@);
                    }
                    lemma_first_match_at(self.entries(), key@, i as int);
                }
                return Some(i);
            }
            i += 1;
        }
        proof {
            assert forall|j: int| 0 <= j < self.entries().len() implies self.entries()[j].0
                != key@ by {
                assert(self.entries()[j].0 == self.ext@[j].0@);
            }
            lemma_first_match_none(self.entries(), key@);
        }
        None
    }

    /// The action stored under exactly `ext`, if any.
    pub fn get(&self, ext: &str) -> (r: Option<ReplaceAction>)
        ensures
            r == if self@.ext.contains_key(ext@) {
                Some(self@.ext[ext@])
            } else {
                None
            },
    {
        let key = chars_of(ext);
        match self.position(&key) {
            Some(i) => Some(self.ext[i].1),
            None => None,
        }
    }

    /// Stores `action` under `ext`, lower-cased, replacing what was stored there.
    pub fn insert(&mut self, ext: &str, action: ReplaceAction)
        ensures
            final(self)@.ext == old(self)@.ext.insert(lower(ext@), action),
            final(self)@.default == old(self)@.default,
            old(self).wf() ==> final(self).wf(),
    {
        let raw = chars_of(ext);
        let key = to_lower(&raw);
        let stored = string_of(&key);
        let ghost before = self.entries();
        match self.position(&key) {
            Some(i) => {
                self.ext.set(i, (stored, action));
                proof {
                    assert(self.entries() =~= before.update(i as int, (key@, action)));
                    assert forall|q: Seq<char>|
                        first_match(self.entries(), q) == if q == key@ {
                            Some(action)
                        } else {
                            first_match(before, q)
                        } by {
                        lemma_first_match_update(before, i as int, key@, action, q);
                    }
                }
            },
            None => {
                self.ext.push((stored, action));
                proof {
                    assert(self.entries() =~= before.push((key@, action)));
                    assert forall|q: Seq<char>|
                        first_match(self.entries(), q) == if q == key@ {
                            Some(action)
                        } else {
                            first_match(before, q)
                        } by {
                        lemma_first_match_push(before, key@, action, q);
                    }
                }
            },
        }
        proof {
            assert(lower(key@) =~= key@);
            assert(self@.ext =~= old(self)@.ext.insert(key@, action));
        }
    }

    /// The action for a file name.
    pub fn for_name(&self, name: &str) -> (r: ReplaceAction)
        ensures
            r == resolve(self@, name@),
    {
        let chars = chars_of(name);
        self.for_chars(&chars)
    }

    fn for_chars(&self, name: &Vec<char>) -> (r: ReplaceAction)
        ensures
            r == resolve(self@, name@),
    {
        let (_stem, ext) = split_name(name);
        let key = match ext {
            Some(e) => to_lower(&e),
            None => Vec::new(),
        };
        proof {
            assert(key@ =~= policy_key(name@));
        }
        match self.position(&key) {
            Some(i) => self.ext[i].1,
            None => self.default,
        }
    }

    /// The action for the file at `path`: that of the path's last component.
    pub fn for_path(&self, path: &str) -> (r: ReplaceAction)
        ensures
            r == resolve(self@, file_name_of(path@)),
    {
        let chars = chars_of(path);
        let start: usize = match find_last(&chars, '/') {
            Some(i) => i + 1,
            None => 0,
        };
        let name = slice_of(&chars, start, chars.len());
        proof {
            assert(name@ =~= file_name_of(path@));
        }
        self.for_chars(&name)
    }
}

/// The named presets of the replace policy.
#[derive(Debug, Clone, Copy, PartialEq, Eq, Hash, Structural)]
pub enum ReplacePreset {
    /// The policy of `ReplaceOptions::default()`.
    Default,
    /// The policy of `replace_options_update_pack()`.
    UpdatePack,
}

impl ReplacePreset {
    /// The preset named `s`: `default`, `update_pack` or `update-pack`.
    pub open spec fn parse(s: Seq<char>) -> Option<ReplacePreset> {
        if s == "default"@ {
            Some(ReplacePreset::Default)
        } else if s == "update_pack"@ || s == "update-pack"@ {
            Some(ReplacePreset::UpdatePack)
        } else {
            None
        }
    }

    /// The message for a name that is no preset.
    pub open spec fn unknown_message(s: Seq<char>) -> Seq<char> {
        "Unknown preset: "@ + s + ". Valid values: default, update_pack"@
    }

    /// Reads a preset's name.
    pub fn from_str(s: &str) -> (r: Result<ReplacePreset, String>)
        ensures
            match r {
                Ok(p) => ReplacePreset::parse(s@) == Some(p),
                Err(msg) => ReplacePreset::parse(s@) is None && msg@
                    == ReplacePreset::unknown_message(s@),
            },
    {
        if same_text(s, "default") {
            Ok(ReplacePreset::Default)
        } else if same_text(s, "update_pack") || same_text(s, "update-pack") {
            Ok(ReplacePreset::UpdatePack)
        } else {
            let mut msg = String::from_str("Unknown preset: ");
            msg.append(s);
            msg.append(". Valid values: default, update_pack");
            Err(msg)
        }
    }

    /// The name under which the preset is offered on the command line.
    pub fn name(&self) -> (r: &'static str)
        ensures
            r@ == match self {
                ReplacePreset::Default => "default"@,
                ReplacePreset::UpdatePack => "update_pack"@,
            },
    {
        match self {
            ReplacePreset::Default => "default",
            ReplacePreset::UpdatePack => "update_pack",
        }
    }
}

/// The policy of a preset.
pub fn replace_options_from_preset(preset: ReplacePreset) -> (r: ReplaceOptions)
    ensures
        r.wf(),
        r@ == match preset {
            ReplacePreset::Default => default_policy(),
            ReplacePreset::UpdatePack => update_pack_policy(),
        },
{
    match preset {
        ReplacePreset::Default => ReplaceOptions::new(ReplaceAction::Replace),
        ReplacePreset::UpdatePack => replace_options_update_pack(),
    }
}

/// The update-pack policy: chart files (`bms`, `bme`, `bml`, `pms`, `bmson`)
/// and `txt` files are compared before they are replaced; the default is `Replace`.
pub fn replace_options_update_pack() -> (r: ReplaceOptions)
    ensures
        r.wf(),
        r@ == update_pack_policy(),
{
    let mut r = ReplaceOptions::new(ReplaceAction::Replace);
    proof {
        reveal_strlit("bms");
        reveal_strlit("bme");
        reveal_strlit("bml");
        reveal_strlit("pms");
        reveal_strlit("bmson");
        reveal_strlit("txt");
        assert(lower("bms"@) =~= "bms"@);
        assert(lower("bme"@) =~= "bme"@);
        assert(lower("bml"@) =~= "bml"@);
        assert(lower("pms"@) =~= "pms"@);
        assert(lower("bmson"@) =~= "bmson"@);
        assert(lower("txt"@) =~= "txt"@);
    }
    r.insert("bms", ReplaceAction::CheckReplace);
    r.insert("bme", ReplaceAction::CheckReplace);
    r.insert("bml", ReplaceAction::CheckReplace);
    r.insert("pms", ReplaceAction::CheckReplace);
    r.insert("bmson", ReplaceAction::CheckReplace);
    r.insert("txt", ReplaceAction::CheckReplace);
    r
}

/// Options of a move that do not change what is moved.
#[derive(Debug, Default, Clone, Copy)]
pub struct MoveOptions {
    /// Whether each move is reported as it happens.
    pub print_info: bool,
}

} // verus!
