//! Names and descriptions in two languages.

use vstd::prelude::*;

verus! {

/// A name and a description in one language.
#[derive(Clone, Copy, Debug)]
pub struct LangText {
    pub name: &'static str,
    pub desc: &'static str,
}

/// The languages in which things are named.
#[derive(Clone, Copy, Debug, PartialEq, Eq, Structural)]
pub enum Language {
    Chinese,
    English,
}

/// The content of a `LangText`.
pub struct LangTextView {
    pub name: Seq<char>,
    pub desc: Seq<char>,
}

impl View for LangText {
    type V = LangTextView;

    open spec fn view(&self) -> LangTextView {
        LangTextView { name: self.name@, desc: self.desc@ }
    }
}

/// Something with a name and a description in each language.
pub trait Localized {
    /// The Chinese name and description.
    spec fn zh_text(&self) -> LangTextView;

    /// The English name and description.
    spec fn en_text(&self) -> LangTextView;

    /// The Chinese name and description.
    fn zh(&self) -> (r: LangText)
        ensures
            r@ == self.zh_text(),
    ;

    /// The English name and description.
    fn en(&self) -> (r: LangText)
        ensures
            r@ == self.en_text(),
    ;

    /// The name and description in the language `lang`.
    fn label_for(&self, lang: Language) -> (r: LangText)
        ensures
            r@ == match lang {
                Language::Chinese => self.zh_text(),
                Language::English => self.en_text(),
            },
    {
        match lang {
            Language::Chinese => self.zh(),
            Language::English => self.en(),
        }
    }
}

} // verus!
