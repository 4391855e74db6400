//! The input record model: one lexical record ("word entry") per line of the
//! raw dataset, with its translation cross-references and phonetic fields.

use vstd::prelude::*;

verus! {

/// Mathematical model of a translation cross-reference.
pub struct TranslationV {
    pub lang_code: Seq<char>,
    pub sense: Seq<char>,
    pub word: Seq<char>,
}

impl TranslationV {
    /// A cross-reference is non-trivial when it actually names a translated
    /// word and the language it belongs to.
    pub open spec fn is_non_trivial(self) -> bool {
        self.word.len() > 0 && self.lang_code.len() > 0
    }
}

/// One translation cross-reference of a record: the language the translation
/// is written in, an optional sense label, and the translated word.
#[derive(Debug, PartialEq, Eq)]
pub struct Translation {
    pub lang_code: String,
    pub sense: String,
    pub word: String,
}

impl DeepView for Translation {
    type V = TranslationV;

    open spec fn deep_view(&self) -> TranslationV {
        TranslationV { lang_code: self.lang_code@, sense: self.sense@, word: self.word@ }
    }
}

impl Clone for Translation {
    fn clone(&self) -> (t: Translation)
        ensures
            t.deep_view() == self.deep_view(),
    {
        Translation {
            lang_code: self.lang_code.clone(),
            sense: self.sense.clone(),
            word: self.word.clone(),
        }
    }
}

/// Mathematical model of a word entry.
pub struct WordEntryV {
    pub word: Seq<char>,
    pub pos: Seq<char>,
    pub lang_code: Seq<char>,
    pub senses: Seq<Seq<char>>,
    pub translations: Seq<TranslationV>,
    pub ipas: Seq<Seq<char>>,
    pub reading: Option<Seq<char>>,
}

impl WordEntryV {
    /// The translation cross-references that actually carry a word.
    pub open spec fn non_trivial_translations(self) -> Seq<TranslationV> {
        self.translations.filter(|t: TranslationV| t.is_non_trivial())
    }
}

/// One lexical record: a head word, its part-of-speech tag, the language it
/// belongs to, free-text sense strings, translation cross-references, and
/// auxiliary phonetic fields (IPA transcriptions and an optional resolved
/// reading).
#[derive(Debug, PartialEq, Eq)]
pub struct WordEntry {
    pub word: String,
    pub pos: String,
    pub lang_code: String,
    pub senses: Vec<String>,
    pub translations: Vec<Translation>,
    pub ipas: Vec<String>,
    pub reading: Option<String>,
}

impl DeepView for WordEntry {
    type V = WordEntryV;

    open spec fn deep_view(&self) -> WordEntryV {
        WordEntryV {
            word: self.word@,
            pos: self.pos@,
            lang_code: self.lang_code@,
            senses: self.senses.deep_view(),
            translations: self.translations.deep_view(),
            ipas: self.ipas.deep_view(),
            reading: self.reading.deep_view(),
        }
    }
}

impl Clone for WordEntry {
    fn clone(&self) -> (e: WordEntry)
        ensures
            e.deep_view() == self.deep_view(),
    {
        let mut translations: Vec<Translation> = Vec::new();
        let n = self.translations.len();
        let mut i: usize = 0;
        while i < n
            invariant
                i <= n,
                n == self.translations.len(),
                translations.deep_view() == self.translations.deep_view().take(i as int),
            decreases n - i,
        {
            let ghost pre = translations.deep_view();
            translations.push(self.translations[i].clone());
            proof {
                assert(translations.deep_view() =~= pre.push(
                    self.translations.deep_view()[i as int],
                ));
                assert(translations.deep_view() =~= self.translations.deep_view().take(i + 1int));
            }
            i = i + 1;
        }
        proof {
            assert(self.translations.deep_view().take(n as int)
                =~= self.translations.deep_view());
        }
        let e = WordEntry {
            word: self.word.clone(),
            pos: self.pos.clone(),
            lang_code: self.lang_code.clone(),
            senses: crate::strutil::clone_string_vec(&self.senses),
            translations,
            ipas: crate::strutil::clone_string_vec(&self.ipas),
            reading: match &self.reading {
                Some(r) => Some(r.clone()),
                None => None,
            },
        };
        proof {
            assert(e.deep_view() == self.deep_view());
        }
        e
    }
}

impl WordEntry {
    /// The record's translation cross-references that carry both a word and a
    /// language code, in their original order.
    pub fn non_trivial_translations(&self) -> (out: Vec<Translation>)
        ensures
            out.deep_view() == self.deep_view().non_trivial_translations(),
    {
        let mut out: Vec<Translation> = Vec::new();
        let n = self.translations.len();
        let mut i: usize = 0;
        proof {
            assert(self.translations.deep_view().take(0int) =~= Seq::<TranslationV>::empty());
            assert(out.deep_view() =~= self.translations.deep_view().take(0int).filter(
                |t: TranslationV| t.is_non_trivial(),
            ));
        }
        while i < n
            invariant
                n == self.translations.len(),
                i <= n,
                self.translations.deep_view().len() == n,
                out.deep_view() == self.translations.deep_view().take(i as int).filter(
                    |t: TranslationV| t.is_non_trivial(),
                ),
            decreases n - i,
        {
            let t = &self.translations[i];
            proof {
                assert(self.translations.deep_view()[i as int] == t.deep_view());
                assert(self.translations.deep_view().take(i + 1int).drop_last()
                    =~= self.translations.deep_view().take(i as int));
                reveal(Seq::filter);
            }
            if !t.word.as_str().is_empty() && !t.lang_code.as_str().is_empty() {
                out.push(t.clone());
            }
            i = i + 1;
        }
        proof {
            assert(self.translations.deep_view().take(n as int)
                =~= self.translations.deep_view());
        }
        out
    }
}

/// The record's resolved reading, where one was supplied; the transform
/// stages fall back to the head word where there is none.  The edition and
/// source language take no part in the lookup in this model: the reading is
/// carried on the record itself.
pub fn get_reading(edition: &crate::lang::Lang, source: &crate::lang::Lang, entry: &WordEntry) -> (r:
    Option<String>)
    ensures
        r.deep_view() == entry.deep_view().reading,
{
    let _ = edition;
    let _ = source;
    match &entry.reading {
        Some(s) => Some(s.clone()),
        None => None,
    }
}

/// The record's phonetic transcriptions.
pub fn get_ipas(entry: &WordEntry) -> (r: Vec<String>)
    ensures
        r.deep_view() == entry.deep_view().ipas,
{
    let mut out: Vec<String> = Vec::new();
    let n = entry.ipas.len();
    let mut i: usize = 0;
    while i < n
        invariant
            n == entry.ipas.len(),
            i <= n,
            out.deep_view() == entry.ipas.deep_view().take(i as int),
        decreases n - i,
    {
        let ghost pre = out.deep_view();
        out.push(entry.ipas[i].clone());
        proof {
            assert(out.deep_view() =~= pre.push(entry.ipas.deep_view()[i as int]));
            assert(out.deep_view() =~= entry.ipas.deep_view().take(i + 1int));
        }
        i = i + 1;
    }
    proof {
        assert(entry.ipas.deep_view().take(n as int) =~= entry.ipas.deep_view());
    }
    out
}

} // verus!
