//! Run configuration: the globally supplied filter and reject rules that are
//! applied to every record before any kind-specific selection, and the flags
//! the pipeline itself consults.

use vstd::prelude::*;

use crate::models::{WordEntry, WordEntryV};

verus! {

/// A field of a word entry that a filter or reject rule can test.
#[derive(Debug, Clone, Copy, PartialEq, Eq, Structural)]
pub enum FieldKey {
    Word,
    Pos,
    LangCode,
}

impl DeepView for FieldKey {
    type V = FieldKey;

    open spec fn deep_view(&self) -> FieldKey {
        *self
    }
}

impl FieldKey {
    /// The value this key selects out of a record.
    pub open spec fn spec_field_value(self, e: WordEntryV) -> Seq<char> {
        match self {
            FieldKey::Word => e.word,
            FieldKey::Pos => e.pos,
            FieldKey::LangCode => e.lang_code,
        }
    }

    pub fn field_value<'a>(&self, e: &'a WordEntry) -> (v: &'a String)
        ensures
            v@ == self.spec_field_value(e.deep_view()),
    {
        match self {
            FieldKey::Word => &e.word,
            FieldKey::Pos => &e.pos,
            FieldKey::LangCode => &e.lang_code,
        }
    }
}

/// Mathematical model of the run configuration.
pub struct OptionsV {
    pub filter: Seq<(FieldKey, Seq<char>)>,
    pub reject: Seq<(FieldKey, Seq<char>)>,
    pub redownload: bool,
    pub skip_yomitan: bool,
}

/// The externally supplied run configuration: field-value equality rules a
/// record must match (`filter`) or must not match (`reject`), and flags.
#[derive(Debug)]
pub struct Options {
    /// A record is kept only if every (field, value) rule here matches it.
    pub filter: Vec<(FieldKey, String)>,
    /// A record is dropped if any (field, value) rule here matches it.
    pub reject: Vec<(FieldKey, String)>,
    /// Pick a fresh download over an existing dataset file.
    pub redownload: bool,
    /// Accumulate and post-process only; emit no output entry sets.
    pub skip_yomitan: bool,
}

impl DeepView for Options {
    type V = OptionsV;

    open spec fn deep_view(&self) -> OptionsV {
        OptionsV {
            filter: self.filter.deep_view(),
            reject: self.reject.deep_view(),
            redownload: self.redownload,
            skip_yomitan: self.skip_yomitan,
        }
    }
}

impl Options {
    /// A configuration with no rules and all flags off.
    pub fn new() -> (o: Options)
        ensures
            o.deep_view() == (OptionsV {
                filter: Seq::<(FieldKey, Seq<char>)>::empty(),
                reject: Seq::<(FieldKey, Seq<char>)>::empty(),
                redownload: false,
                skip_yomitan: false,
            }),
    {
        let o = Options { filter: Vec::new(), reject: Vec::new(), redownload: false, skip_yomitan: false };
        proof {
            assert(o.filter.deep_view() =~= Seq::<(FieldKey, Seq<char>)>::empty());
            assert(o.reject.deep_view() =~= Seq::<(FieldKey, Seq<char>)>::empty());
        }
        o
    }
}

/// Whether the global configuration rejects this record: some reject rule
/// matches it, or some filter rule fails to match it.
pub open spec fn spec_rejected(e: WordEntryV, o: OptionsV) -> bool {
    (exists|i: int|
        0 <= i < o.reject.len() && o.reject[i].0.spec_field_value(e) == o.reject[i].1) || !(forall|
        i: int,
    |
        0 <= i < o.filter.len() ==> o.filter[i].0.spec_field_value(e) == o.filter[i].1)
}

/// The global record filter shared by every dictionary kind: it runs before
/// any kind-specific selection.
pub fn rejected(entry: &WordEntry, opts: &Options) -> (r: bool)
    ensures
        r == spec_rejected(entry.deep_view(), opts.deep_view()),
{
    let mut i: usize = 0;
    let nr = opts.reject.len();
    while i < nr
        invariant
            i <= nr,
            nr == opts.reject.len(),
            forall|j: int|
                0 <= j < i ==> opts.reject.deep_view()[j].0.spec_field_value(entry.deep_view())
                    != opts.reject.deep_view()[j].1,
        decreases nr - i,
    {
        let (k, v) = &opts.reject[i];
        if *k.field_value(entry) == *v {
            proof {
                let ov = opts.deep_view();
                let ev = entry.deep_view();
                assert(ov.reject[i as int].0.spec_field_value(ev) == ov.reject[i as int].1);
                assert(exists|j: int|
                    0 <= j < ov.reject.len() && ov.reject[j].0.spec_field_value(ev)
                        == ov.reject[j].1);
            }
            return true;
        }
        i = i + 1;
    }
    let mut i: usize = 0;
    let nf = opts.filter.len();
    while i < nf
        invariant
            i <= nf,
            nf == opts.filter.len(),
            forall|j: int|
                0 <= j < opts.reject.deep_view().len()
                    ==> opts.reject.deep_view()[j].0.spec_field_value(entry.deep_view())
                    != opts.reject.deep_view()[j].1,
            forall|j: int|
                0 <= j < i ==> opts.filter.deep_view()[j].0.spec_field_value(entry.deep_view())
                    == opts.filter.deep_view()[j].1,
        decreases nf - i,
    {
        let (k, v) = &opts.filter[i];
        if !(*k.field_value(entry) == *v) {
            proof {
                let ov = opts.deep_view();
                let ev = entry.deep_view();
                assert(!(forall|j: int|
                    0 <= j < ov.filter.len() ==> ov.filter[j].0.spec_field_value(ev)
                        == ov.filter[j].1)) by {
                    assert(ov.filter[i as int].0.spec_field_value(ev) != ov.filter[i as int].1);
                };
            }
            return true;
        }
        i = i + 1;
    }
    false
}

} // verus!
