//! Languages, editions, and the grouping keys of the pipeline.
//!
//! An edition is one language-specific snapshot of the source dataset and is
//! identified by its own language.  A `Langs` triple names one pipeline run:
//! the edition the records come from, the source language and the target
//! language of the dictionary being built.

use vstd::prelude::*;

verus! {

/// Mathematical model of a language: its short code and its long English name.
pub struct LangV {
    pub code: Seq<char>,
    pub long: Seq<char>,
}

/// A language, as a short code (such as "en") together with its long English
/// name (such as "English").  Editions are identified by the language they
/// were extracted for, so a `Lang` also names an edition.
#[derive(Debug, PartialEq, Eq, Hash)]
pub struct Lang {
    pub code: String,
    pub long: String,
}

impl DeepView for Lang {
    type V = LangV;

    open spec fn deep_view(&self) -> LangV {
        LangV { code: self.code@, long: self.long@ }
    }
}

impl Clone for Lang {
    fn clone(&self) -> (l: Lang)
        ensures
            l.deep_view() == self.deep_view(),
    {
        Lang { code: self.code.clone(), long: self.long.clone() }
    }
}

impl LangV {
    /// The designated placeholder language: it stands for an edition paired
    /// with itself and has no real dataset of its own.
    pub open spec fn is_self_marker(self) -> bool {
        self.code == "simple"@
    }
}

impl Lang {
    pub fn new(code: String, long: String) -> (l: Lang)
        ensures
            l.deep_view() == (LangV { code: code@, long: long@ }),
    {
        Lang { code, long }
    }

    /// Whether this language is the designated placeholder ("self") marker.
    pub fn is_self_marker(&self) -> (b: bool)
        ensures
            b == self.deep_view().is_self_marker(),
    {
        let marker: String = String::from_str("simple");
        self.code == marker
    }

    /// Whether two languages carry the same short code.
    pub fn same_code(&self, other: &Lang) -> (b: bool)
        ensures
            b == (self.deep_view().code == other.deep_view().code),
    {
        self.code == other.code
    }
}

/// Mathematical model of a `Langs` triple.
pub struct LangsV {
    pub edition: LangV,
    pub source: LangV,
    pub target: LangV,
}

/// One (edition, source, target) combination driven through the pipeline.
#[derive(Debug, PartialEq, Eq, Hash)]
pub struct Langs {
    pub edition: Lang,
    pub source: Lang,
    pub target: Lang,
}

impl DeepView for Langs {
    type V = LangsV;

    open spec fn deep_view(&self) -> LangsV {
        LangsV {
            edition: self.edition.deep_view(),
            source: self.source.deep_view(),
            target: self.target.deep_view(),
        }
    }
}

impl Clone for Langs {
    fn clone(&self) -> (l: Langs)
        ensures
            l.deep_view() == self.deep_view(),
    {
        Langs {
            edition: self.edition.clone(),
            source: self.source.clone(),
            target: self.target.clone(),
        }
    }
}

impl Langs {
    pub fn new(edition: Lang, source: Lang, target: Lang) -> (l: Langs)
        ensures
            l.deep_view() == (LangsV {
                edition: edition.deep_view(),
                source: source.deep_view(),
                target: target.deep_view(),
            }),
    {
        Langs { edition, source, target }
    }
}

/// Mathematical model of an `EditionSpec`.
pub enum EditionSpecV {
    All,
    One(LangV),
}

/// The edition scope of an aggregation key: either exactly one edition, or
/// all editions collapsed into one shared bucket.
#[derive(Debug, PartialEq, Eq, Hash)]
pub enum EditionSpec {
    All,
    One(Lang),
}

impl DeepView for EditionSpec {
    type V = EditionSpecV;

    open spec fn deep_view(&self) -> EditionSpecV {
        match self {
            EditionSpec::All => EditionSpecV::All,
            EditionSpec::One(l) => EditionSpecV::One(l.deep_view()),
        }
    }
}

/// Mathematical model of a `LangsKey`.
pub struct LangsKeyV {
    pub edition: EditionSpecV,
    pub source: LangV,
    pub target: LangV,
}

/// The aggregation key under which transformed records are bucketed: an
/// edition scope together with the (source, target) pair.
#[derive(Debug, PartialEq, Eq, Hash)]
pub struct LangsKey {
    pub edition: EditionSpec,
    pub source: Lang,
    pub target: Lang,
}

impl DeepView for LangsKey {
    type V = LangsKeyV;

    open spec fn deep_view(&self) -> LangsKeyV {
        LangsKeyV {
            edition: self.edition.deep_view(),
            source: self.source.deep_view(),
            target: self.target.deep_view(),
        }
    }
}

impl Clone for EditionSpec {
    fn clone(&self) -> (e: EditionSpec)
        ensures
            e.deep_view() == self.deep_view(),
    {
        match self {
            EditionSpec::All => EditionSpec::All,
            EditionSpec::One(l) => EditionSpec::One(l.clone()),
        }
    }
}

impl Clone for LangsKey {
    fn clone(&self) -> (k: LangsKey)
        ensures
            k.deep_view() == self.deep_view(),
    {
        LangsKey {
            edition: self.edition.clone(),
            source: self.source.clone(),
            target: self.target.clone(),
        }
    }
}

impl LangsKey {
    /// Whether two keys name the same bucket.
    pub fn key_eq(&self, other: &LangsKey) -> (b: bool)
        ensures
            b == (self.deep_view() == other.deep_view()),
    {
        let edition_eq = match (&self.edition, &other.edition) {
            (EditionSpec::All, EditionSpec::All) => true,
            (EditionSpec::One(a), EditionSpec::One(b)) => {
                a.code == b.code && a.long == b.long
            },
            _ => false,
        };
        edition_eq && self.source.code == other.source.code
            && self.source.long == other.source.long
            && self.target.code == other.target.code
            && self.target.long == other.target.long
    }
}

} // verus!
