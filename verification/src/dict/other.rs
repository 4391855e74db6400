//! The concrete dictionary kinds and their per-record transforms: the plain
//! glossary, the extended cross-translation glossary, and the phonetic
//! dictionary in its per-edition and edition-merged forms.

use vstd::prelude::*;

use crate::dict::pipeline::{spec_drain_buckets, spec_make_dict, Dictionary};
use crate::lang::LangsKeyV;
use crate::lang::{Lang, LangV, Langs, LangsV};
use crate::models::{WordEntry, WordEntryV, get_ipas, get_reading};
use crate::options::{Options, OptionsV};
use crate::strutil::{clone_string_vec, lex_le, str_le, vec_string_eq};
use crate::models::TranslationV;
use crate::yomitan::{
    DetailedDefinitionV, LabelledYomitanEntry, LabelledYomitanEntryV, PhoneticTranscription, PhoneticTranscriptionV, TermBankMeta,
    TermBankMetaV, TermBankV, TermPhoneticTranscription, TermPhoneticTranscriptionV, YomitanEntry,
    YomitanEntryV,
};

verus! {

/// The plain glossary kind: head words with their grouped translations.
#[derive(Debug, Clone, Copy)]
pub struct DGlossary;

/// The extended cross-translation glossary kind, merged across editions.
#[derive(Debug, Clone, Copy)]
pub struct DGlossaryExtended;

/// The phonetic dictionary kind, one output per edition.
#[derive(Debug, Clone, Copy)]
pub struct DIpa;

/// The phonetic dictionary kind with all editions merged into one output.
#[derive(Debug, Clone, Copy)]
pub struct DIpaMerged;

impl Clone for PhoneticTranscription {
    fn clone(&self) -> (r: PhoneticTranscription)
        ensures
            r.deep_view() == self.deep_view(),
    {
        PhoneticTranscription {
            reading: self.reading.clone(),
            transcriptions: clone_string_vec(&self.transcriptions),
        }
    }
}

/// The intermediate item of the phonetic kinds: a head word with its
/// transcription set.
pub type IIpa = (String, PhoneticTranscription);

/// Mathematical model of `IIpa`.
pub type IIpaV = (Seq<char>, PhoneticTranscriptionV);

/// The reading the output carries for a record: its resolved reading where
/// one exists, else the head word itself.
pub open spec fn spec_reading_or_word(e: WordEntryV) -> Seq<char> {
    match e.reading {
        Some(r) => r,
        None => e.word,
    }
}

/// What the phonetic transform appends for one record: nothing where the
/// record carries no transcription, else one item pairing the head word with
/// its reading and transcriptions.
pub open spec fn spec_ipa_items(e: WordEntryV) -> Seq<IIpaV> {
    if e.ipas.len() == 0 {
        Seq::<IIpaV>::empty()
    } else {
        seq![
            (e.word, PhoneticTranscriptionV { reading: spec_reading_or_word(e), transcriptions: e.ipas }),
        ]
    }
}

/// The phonetic transform: appends the record's transcription item, if any,
/// to the intermediate representation.
pub fn process_ipa(edition: &Lang, source: &Lang, word_entry: &WordEntry, irs: &mut Vec<IIpa>)
    ensures
        final(irs).deep_view() == old(irs).deep_view() + spec_ipa_items(word_entry.deep_view()),
{
    let ipas = get_ipas(word_entry);
    if ipas.len() == 0 {
        proof {
            assert(word_entry.deep_view().ipas.len() == 0);
            assert(irs.deep_view() =~= irs.deep_view() + spec_ipa_items(word_entry.deep_view()));
        }
        return ;
    }
    let reading = match get_reading(edition, source, word_entry) {
        Some(r) => r,
        None => word_entry.word.clone(),
    };
    let phonetic_transcription = PhoneticTranscription { reading, transcriptions: ipas };
    let ghost pre = irs.deep_view();
    irs.push((word_entry.word.clone(), phonetic_transcription));
    proof {
        assert(irs.deep_view() =~= pre + spec_ipa_items(word_entry.deep_view()));
    }
}

/// What the phonetic emission produces: one phonetic metadata record per
/// intermediate item, in order.
pub open spec fn spec_yomitan_ipa(items: Seq<IIpaV>) -> Seq<YomitanEntryV> {
    items.map_values(
        |it: IIpaV|
            YomitanEntryV::TermBankMeta(
                TermBankMetaV::TermPhoneticTranscription(
                    TermPhoneticTranscriptionV { word: it.0, mode: "ipa"@, transcription: it.1 },
                ),
            ),
    )
}

/// The phonetic emission: wraps each intermediate item as a phonetic
/// metadata record.
pub fn to_yomitan_ipa(irs: Vec<IIpa>) -> (out: Vec<YomitanEntry>)
    ensures
        out.deep_view() == spec_yomitan_ipa(irs.deep_view()),
{
    let mut out: Vec<YomitanEntry> = Vec::new();
    let n = irs.len();
    let mut i: usize = 0;
    while i < n
        invariant
            i <= n,
            n == irs.len(),
            out.deep_view() == spec_yomitan_ipa(irs.deep_view().take(i as int)),
        decreases n - i,
    {
        let (lemma, transcription) = &irs[i];
        let entry = YomitanEntry::TermBankMeta(
            TermBankMeta::TermPhoneticTranscription(
                TermPhoneticTranscription(
                    lemma.clone(),
                    String::from_str("ipa"),
                    transcription.clone(),
                ),
            ),
        );
        let ghost pre = out.deep_view();
        out.push(entry);
        proof {
            assert(out.deep_view() =~= pre.push(
                spec_yomitan_ipa(irs.deep_view())[i as int],
            ));
            assert(spec_yomitan_ipa(irs.deep_view().take(i + 1int)) =~= spec_yomitan_ipa(
                irs.deep_view().take(i as int),
            ).push(spec_yomitan_ipa(irs.deep_view())[i as int]));
        }
        i = i + 1;
    }
    proof {
        assert(irs.deep_view().take(n as int) =~= irs.deep_view());
    }
    out
}

/// The part-of-speech abbreviation table: the tags with a short form.
pub open spec fn spec_find_short_pos(pos: Seq<char>) -> Option<Seq<char>> {
    if pos == "noun"@ {
        Some("n"@)
    } else if pos == "verb"@ {
        Some("v"@)
    } else if pos == "adjective"@ {
        Some("adj"@)
    } else if pos == "adverb"@ {
        Some("adv"@)
    } else {
        None
    }
}

/// The abbreviation lookup for part-of-speech tags; tags without a short
/// form are used as they stand.
pub fn find_short_pos(pos: &String) -> (r: Option<String>)
    ensures
        r.deep_view() == spec_find_short_pos(pos@),
{
    if *pos == String::from_str("noun") {
        Some(String::from_str("n"))
    } else if *pos == String::from_str("verb") {
        Some(String::from_str("v"))
    } else if *pos == String::from_str("adjective") {
        Some(String::from_str("adj"))
    } else if *pos == String::from_str("adverb") {
        Some(String::from_str("adv"))
    } else {
        None
    }
}

/// The tag the output records carry: the short form of the record's
/// part-of-speech tag where the table has one, else the tag itself.
pub open spec fn spec_pos_of(pos: Seq<char>) -> Seq<char> {
    match spec_find_short_pos(pos) {
        Some(p) => p,
        None => pos,
    }
}

/// Resolves the part-of-speech tag of a record for the output.
pub fn pos_of(pos: &String) -> (r: String)
    ensures
        r@ == spec_pos_of(pos@),
{
    match find_short_pos(pos) {
        Some(p) => p,
        None => pos.clone(),
    }
}

/// One per-sense group of the plain glossary: the optional sense label and
/// the translated words collected under it.
pub type GlossGroup = (Option<String>, Vec<String>);

/// Mathematical model of `GlossGroup`.
pub type GlossGroupV = (Option<Seq<char>>, Seq<Seq<char>>);

/// The sense key of a translation: no label becomes `None`.
pub open spec fn spec_sense_key(t: TranslationV) -> Option<Seq<char>> {
    if t.sense.len() == 0 {
        None
    } else {
        Some(t.sense)
    }
}

/// Appends one word under its sense key: the first group with that key takes
/// it; a missing key opens a new group at the end.
pub open spec fn spec_assoc_push(m: Seq<GlossGroupV>, key: Option<Seq<char>>, w: Seq<char>) -> Seq<
    GlossGroupV,
>
    decreases m.len(),
{
    if m.len() == 0 {
        seq![(key, seq![w])]
    } else if m[0].0 == key {
        m.update(0, (key, m[0].1.push(w)))
    } else {
        seq![m[0]] + spec_assoc_push(m.drop_first(), key, w)
    }
}

proof fn lemma_assoc_push_found(m: Seq<GlossGroupV>, key: Option<Seq<char>>, w: Seq<char>, j: int)
    requires
        0 <= j < m.len(),
        m[j].0 == key,
        forall|i: int| 0 <= i < j ==> (#[trigger] m[i]).0 != key,
    ensures
        spec_assoc_push(m, key, w) == m.update(j, (key, m[j].1.push(w))),
    decreases m.len(),
{
    if j == 0 {
    } else {
        assert(m[0].0 != key);
        let df = m.drop_first();
        assert(forall|i: int| 0 <= i < j - 1 ==> (#[trigger] df[i]).0 != key) by {
            assert(forall|i: int| 0 <= i < j - 1 ==> df[i] == m[i + 1]);
        };
        lemma_assoc_push_found(df, key, w, j - 1);
        assert(seq![m[0]] + df.update(j - 1, (key, df[j - 1].1.push(w))) =~= m.update(
            j,
            (key, m[j].1.push(w)),
        ));
    }
}

proof fn lemma_assoc_push_absent(m: Seq<GlossGroupV>, key: Option<Seq<char>>, w: Seq<char>)
    requires
        forall|i: int| 0 <= i < m.len() ==> (#[trigger] m[i]).0 != key,
    ensures
        spec_assoc_push(m, key, w) == m.push((key, seq![w])),
    decreases m.len(),
{
    if m.len() == 0 {
        assert(spec_assoc_push(m, key, w) =~= m.push((key, seq![w])));
    } else {
        let df = m.drop_first();
        assert(forall|i: int| 0 <= i < df.len() ==> (#[trigger] df[i]).0 != key) by {
            assert(forall|i: int| 0 <= i < df.len() ==> df[i] == m[i + 1]);
        };
        lemma_assoc_push_absent(df, key, w);
        assert(seq![m[0]] + df.push((key, seq![w])) =~= m.push((key, seq![w])));
    }
}

/// The per-sense grouping of the translations that match the requested
/// target language, in the order the senses first occur.
pub open spec fn spec_group_by_sense(ts: Seq<TranslationV>) -> Seq<GlossGroupV>
    decreases ts.len(),
{
    if ts.len() == 0 {
        Seq::<GlossGroupV>::empty()
    } else {
        spec_assoc_push(
            spec_group_by_sense(ts.drop_last()),
            spec_sense_key(ts.last()),
            ts.last().word,
        )
    }
}

/// The predicate selecting translations written in the given language.
pub open spec fn spec_lang_matcher(target: Seq<char>) -> spec_fn(TranslationV) -> bool {
    |t: TranslationV| t.lang_code == target
}

/// The translations of a record that are non-trivial and written in the
/// requested target language.
pub open spec fn spec_glossary_matching(e: WordEntryV, target: Seq<char>) -> Seq<TranslationV> {
    e.non_trivial_translations().filter(spec_lang_matcher(target))
}

/// The definitions one group contributes: an unlabelled group becomes one
/// flat text definition per word; a labelled group becomes one structured
/// block holding the sense and all its words.
pub open spec fn spec_defs_of_group(g: GlossGroupV) -> Seq<DetailedDefinitionV> {
    match g.0 {
        None => g.1.map_values(|w: Seq<char>| DetailedDefinitionV::Text(w)),
        Some(sense) => seq![DetailedDefinitionV::Sense { sense: sense, translations: g.1 }],
    }
}

/// The definitions of all groups, in group order.
pub open spec fn spec_glossary_definitions(groups: Seq<GlossGroupV>) -> Seq<DetailedDefinitionV>
    decreases groups.len(),
{
    if groups.len() == 0 {
        Seq::<DetailedDefinitionV>::empty()
    } else {
        spec_glossary_definitions(groups.drop_last()) + spec_defs_of_group(groups.last())
    }
}

/// What the plain glossary transform appends for one record: nothing where
/// no translation matches the target, else one term record carrying the
/// grouped definitions.
pub open spec fn spec_glossary_items(e: WordEntryV, target: Seq<char>) -> Seq<YomitanEntryV> {
    let groups = spec_group_by_sense(spec_glossary_matching(e, target));
    if groups.len() == 0 {
        Seq::<YomitanEntryV>::empty()
    } else {
        seq![
            YomitanEntryV::TermBank(
                TermBankV {
                    word: e.word,
                    reading: spec_reading_or_word(e),
                    def_tags: spec_pos_of(e.pos),
                    rules: spec_pos_of(e.pos),
                    definitions: spec_glossary_definitions(groups),
                },
            ),
        ]
    }
}

proof fn lemma_filter_all_fail(ts: Seq<TranslationV>, pred: spec_fn(TranslationV) -> bool)
    requires
        forall|i: int| 0 <= i < ts.len() ==> !pred(#[trigger] ts[i]),
    ensures
        ts.filter(pred).len() == 0,
    decreases ts.len(),
{
    reveal(Seq::filter);
    if ts.len() > 0 {
        let dl = ts.drop_last();
        assert(forall|i: int| 0 <= i < dl.len() ==> dl[i] == ts[i]);
        lemma_filter_all_fail(dl, pred);
        assert(!pred(ts.last()));
    }
}

/// The words of a run of translations, in order.
pub open spec fn spec_words_of(ts: Seq<TranslationV>) -> Seq<Seq<char>>
    decreases ts.len(),
{
    if ts.len() == 0 {
        Seq::<Seq<char>>::empty()
    } else {
        spec_words_of(ts.drop_last()).push(ts.last().word)
    }
}

/// Law: a record whose translation cross-references all target languages
/// other than the requested one contributes nothing to the glossary.
pub proof fn lemma_glossary_no_match_no_items(e: WordEntryV, target: Seq<char>)
    requires
        forall|i: int|
            0 <= i < e.non_trivial_translations().len() ==> (#[trigger] e.non_trivial_translations()[i]).lang_code
                != target,
    ensures
        spec_glossary_items(e, target) == Seq::<YomitanEntryV>::empty(),
{
    let ts = e.non_trivial_translations();
    assert(forall|i: int| 0 <= i < ts.len() ==> !spec_lang_matcher(target)(#[trigger] ts[i]));
    lemma_filter_all_fail(ts, spec_lang_matcher(target));
    assert(spec_glossary_matching(e, target) =~= Seq::<TranslationV>::empty());
    assert(spec_group_by_sense(spec_glossary_matching(e, target)).len() == 0);
}

proof fn lemma_group_single_sense(ts: Seq<TranslationV>, sense: Seq<char>)
    requires
        sense.len() > 0,
        ts.len() > 0,
        forall|i: int| 0 <= i < ts.len() ==> (#[trigger] ts[i]).sense == sense,
    ensures
        spec_group_by_sense(ts) == seq![(Some(sense), spec_words_of(ts))],
    decreases ts.len(),
{
    if ts.len() == 1 {
        assert(spec_group_by_sense(ts.drop_last()).len() == 0);
        assert(spec_sense_key(ts.last()) == Some(sense));
        assert(spec_words_of(ts.drop_last()).len() == 0);
        assert(spec_words_of(ts) =~= seq![ts.last().word]);
        assert(spec_group_by_sense(ts) == spec_assoc_push(
            spec_group_by_sense(ts.drop_last()),
            Some(sense),
            ts.last().word,
        ));
        assert(spec_assoc_push(spec_group_by_sense(ts.drop_last()), Some(sense), ts.last().word)
            =~= seq![(Some(sense), seq![ts.last().word])]);
        assert((Some(sense), seq![ts.last().word]) == (Some(sense), spec_words_of(ts)));
        assert(spec_group_by_sense(ts) =~= seq![(Some(sense), spec_words_of(ts))]);
    } else {
        let dl = ts.drop_last();
        assert(forall|i: int| 0 <= i < dl.len() ==> dl[i] == ts[i]);
        lemma_group_single_sense(dl, sense);
        let pre = spec_group_by_sense(dl);
        assert(pre[0].0 == Some(sense));
        assert(spec_sense_key(ts.last()) == Some(sense));
        assert(spec_group_by_sense(ts) == spec_assoc_push(pre, Some(sense), ts.last().word));
        assert(spec_assoc_push(pre, Some(sense), ts.last().word) =~= seq![
            (Some(sense), spec_words_of(dl).push(ts.last().word)),
        ]);
    }
}

/// Law: where every matching translation of a record carries one and the
/// same non-empty sense label, the glossary transform emits exactly one term
/// record whose definitions are a single structured block: the sense label
/// with all the matching words under it, and no flat text definition.
pub proof fn lemma_glossary_single_sense(e: WordEntryV, target: Seq<char>, sense: Seq<char>)
    requires
        sense.len() > 0,
        spec_glossary_matching(e, target).len() > 0,
        forall|i: int|
            0 <= i < spec_glossary_matching(e, target).len() ==> (#[trigger] spec_glossary_matching(
                e,
                target,
            )[i]).sense == sense,
    ensures
        spec_glossary_items(e, target) == seq![
            YomitanEntryV::TermBank(
                TermBankV {
                    word: e.word,
                    reading: spec_reading_or_word(e),
                    def_tags: spec_pos_of(e.pos),
                    rules: spec_pos_of(e.pos),
                    definitions: seq![
                        DetailedDefinitionV::Sense {
                            sense: sense,
                            translations: spec_words_of(spec_glossary_matching(e, target)),
                        },
                    ],
                },
            ),
        ],
{
    let m = spec_glossary_matching(e, target);
    lemma_group_single_sense(m, sense);
    let groups = spec_group_by_sense(m);
    assert(groups.len() == 1);
    assert(groups.last() == groups[0]);
    assert(groups.drop_last().len() == 0);
    assert(spec_glossary_definitions(groups.drop_last()) == Seq::<DetailedDefinitionV>::empty());
    assert(spec_glossary_definitions(groups) == spec_glossary_definitions(groups.drop_last())
        + spec_defs_of_group(groups.last()));
    assert(spec_glossary_definitions(groups) =~= spec_defs_of_group(groups[0]));
    assert(spec_defs_of_group(groups[0]) =~= seq![
        DetailedDefinitionV::Sense { sense: sense, translations: spec_words_of(m) },
    ]);
    assert(spec_glossary_items(e, target) =~= seq![
        YomitanEntryV::TermBank(
            TermBankV {
                word: e.word,
                reading: spec_reading_or_word(e),
                def_tags: spec_pos_of(e.pos),
                rules: spec_pos_of(e.pos),
                definitions: seq![
                    DetailedDefinitionV::Sense {
                        sense: sense,
                        translations: spec_words_of(spec_glossary_matching(e, target)),
                    },
                ],
            },
        ),
    ]);
}

/// Whether two optional sense labels are the same key.
fn opt_key_eq(a: &Option<String>, b: &Option<String>) -> (r: bool)
    ensures
        r == (a.deep_view() == b.deep_view()),
{
    match (a, b) {
        (None, None) => true,
        (Some(x), Some(y)) => {
            let r = *x == *y;
            proof {
                if !r {
                    assert(a.deep_view() != b.deep_view());
                }
            }
            r
        },
        _ => {
            proof {
                assert(a.deep_view() != b.deep_view());
            }
            false
        },
    }
}

/// The first group carrying this sense key, if any.
fn find_group(groups: &Vec<GlossGroup>, key: &Option<String>) -> (r: Option<usize>)
    ensures
        match r {
            Some(j) => j < groups.len() && groups.deep_view()[j as int].0 == key.deep_view()
                && (forall|i: int|
                0 <= i < j ==> (#[trigger] groups.deep_view()[i]).0 != key.deep_view()),
            None => forall|i: int|
                0 <= i < groups.len() ==> (#[trigger] groups.deep_view()[i]).0 != key.deep_view(),
        },
{
    let n = groups.len();
    let mut i: usize = 0;
    while i < n
        invariant
            i <= n,
            n == groups.len(),
            forall|j: int| 0 <= j < i ==> (#[trigger] groups.deep_view()[j]).0 != key.deep_view(),
        decreases n - i,
    {
        if opt_key_eq(&groups[i].0, key) {
            return Some(i);
        }
        i = i + 1;
    }
    None
}

/// The plain glossary transform: collects the record's translations into the
/// requested target language, groups them by sense label, and appends one
/// term record whose definitions carry the groups in first-occurrence order.
/// A record with no matching translation contributes nothing.
pub fn process_glossary(source: &Lang, target: &Lang, word_entry: &WordEntry, irs: &mut Vec<
    YomitanEntry,
>)
    ensures
        final(irs).deep_view() == old(irs).deep_view() + spec_glossary_items(
            word_entry.deep_view(),
            target.deep_view().code,
        ),
{
    let ghost ev = word_entry.deep_view();
    let ghost tcode = target.deep_view().code;
    let nts = word_entry.non_trivial_translations();
    let mut groups: Vec<GlossGroup> = Vec::new();
    let n = nts.len();
    let mut i: usize = 0;
    proof {
        assert(nts.deep_view().take(0int) =~= Seq::<TranslationV>::empty());
        reveal(Seq::filter);
    }
    while i < n
        invariant
            i <= n,
            n == nts.len(),
            nts.deep_view() == ev.non_trivial_translations(),
            tcode == target.deep_view().code,
            groups.deep_view() == spec_group_by_sense(
                nts.deep_view().take(i as int).filter(spec_lang_matcher(tcode)),
            ),
        decreases n - i,
    {
        let t = &nts[i];
        let ghost tv = nts.deep_view()[i as int];
        proof {
            reveal(Seq::filter);
            assert(nts.deep_view().take(i + 1int).drop_last() =~= nts.deep_view().take(i as int));
            assert(nts.deep_view().take(i + 1int).last() == tv);
        }
        if t.lang_code == target.code {
            let key: Option<String> = if t.sense.as_str().is_empty() {
                None
            } else {
                Some(t.sense.clone())
            };
            let ghost keyv = spec_sense_key(tv);
            proof {
                assert(key.deep_view() == keyv);
                let fprev = nts.deep_view().take(i as int).filter(spec_lang_matcher(tcode));
                let fnext = nts.deep_view().take(i + 1int).filter(spec_lang_matcher(tcode));
                assert(fnext =~= fprev.push(tv));
                assert(fnext.drop_last() =~= fprev);
            }
            match find_group(&groups, &key) {
                Some(j) => {
                    let ghost gpre = groups.deep_view();
                    let ghost gvec = groups@;
                    let (k2, mut words) = groups.remove(j);
                    let ghost wpre = words.deep_view();
                    words.push(t.word.clone());
                    groups.insert(j, (k2, words));
                    proof {
                        lemma_assoc_push_found(gpre, keyv, tv.word, j as int);
                        assert(gpre[j as int].0 == keyv);
                        assert(words.deep_view() =~= wpre.push(tv.word));
                        assert(wpre == gvec[j as int].1.deep_view());
                        assert(groups@ =~= gvec.remove(j as int).insert(j as int, (k2, words)));
                        assert(groups@ =~= gvec.update(j as int, (k2, words)));
                        assert forall|m: int| 0 <= m < groups@.len() implies
                            groups.deep_view()[m] == gpre.update(
                                j as int,
                                (keyv, gpre[j as int].1.push(tv.word)),
                            )[m] by {
                            if m == j {
                                assert(groups@[m] == (k2, words));
                                assert(k2.deep_view() == gpre[j as int].0);
                            } else {
                                assert(groups@[m] == gvec[m]);
                            }
                        };
                        assert(groups.deep_view() =~= gpre.update(
                            j as int,
                            (keyv, gpre[j as int].1.push(tv.word)),
                        ));
                    }
                },
                None => {
                    let ghost gpre = groups.deep_view();
                    let mut words: Vec<String> = Vec::new();
                    words.push(t.word.clone());
                    groups.push((key, words));
                    proof {
                        lemma_assoc_push_absent(gpre, keyv, tv.word);
                        assert(words.deep_view() =~= seq![tv.word]);
                        assert(groups.deep_view() =~= gpre.push((keyv, seq![tv.word])));
                    }
                },
            }
        } else {
            proof {
                let fprev = nts.deep_view().take(i as int).filter(spec_lang_matcher(tcode));
                let fnext = nts.deep_view().take(i + 1int).filter(spec_lang_matcher(tcode));
                assert(fnext =~= fprev);
            }
        }
        i = i + 1;
    }
    proof {
        assert(nts.deep_view().take(n as int) =~= nts.deep_view());
    }
    if groups.len() == 0 {
        proof {
            assert(irs.deep_view() =~= irs.deep_view() + spec_glossary_items(ev, tcode));
        }
        return ;
    }
    let mut definitions: Vec<crate::yomitan::DetailedDefinition> = Vec::new();
    let gn = groups.len();
    let mut g: usize = 0;
    proof {
        assert(groups.deep_view().take(0int) =~= Seq::<GlossGroupV>::empty());
    }
    while g < gn
        invariant
            g <= gn,
            gn == groups.len(),
            definitions.deep_view() == spec_glossary_definitions(
                groups.deep_view().take(g as int),
            ),
        decreases gn - g,
    {
        let ghost gv = groups.deep_view()[g as int];
        proof {
            assert(groups.deep_view().take(g + 1int).drop_last() =~= groups.deep_view().take(
                g as int,
            ));
            assert(groups.deep_view().take(g + 1int).last() == gv);
        }
        let (key, words) = &groups[g];
        match key {
            None => {
                let wn = words.len();
                let mut k: usize = 0;
                while k < wn
                    invariant
                        k <= wn,
                        wn == words.len(),
                        gv == groups.deep_view()[g as int],
                        g < groups.len(),
                        words.deep_view() == gv.1,
                        gv.0 is None,
                        definitions.deep_view() == spec_glossary_definitions(
                            groups.deep_view().take(g as int),
                        ) + gv.1.take(k as int).map_values(
                            |w: Seq<char>| DetailedDefinitionV::Text(w),
                        ),
                    decreases wn - k,
                {
                    let ghost dpre = definitions.deep_view();
                    definitions.push(crate::yomitan::DetailedDefinition::Text(words[k].clone()));
                    proof {
                        assert(definitions.deep_view() =~= dpre.push(
                            DetailedDefinitionV::Text(gv.1[k as int]),
                        ));
                        assert(definitions.deep_view() =~= spec_glossary_definitions(
                            groups.deep_view().take(g as int),
                        ) + gv.1.take(k + 1int).map_values(
                            |w: Seq<char>| DetailedDefinitionV::Text(w),
                        ));
                    }
                    k = k + 1;
                }
                proof {
                    assert(gv.1.take(wn as int) =~= gv.1);
                    assert(definitions.deep_view() =~= spec_glossary_definitions(
                        groups.deep_view().take(g as int),
                    ) + spec_defs_of_group(gv));
                }
            },
            Some(sense) => {
                let ghost dpre = definitions.deep_view();
                definitions.push(
                    crate::yomitan::DetailedDefinition::Sense {
                        sense: sense.clone(),
                        translations: clone_string_vec(words),
                    },
                );
                proof {
                    assert(definitions.deep_view() =~= dpre + spec_defs_of_group(gv));
                }
            },
        }
        proof {
            assert(definitions.deep_view() =~= spec_glossary_definitions(
                groups.deep_view().take(g + 1int),
            ));
        }
        g = g + 1;
    }
    proof {
        assert(groups.deep_view().take(gn as int) =~= groups.deep_view());
    }
    let reading = match get_reading(source, target, word_entry) {
        Some(r) => r,
        None => word_entry.word.clone(),
    };
    let found_pos = pos_of(&word_entry.pos);
    let ir = YomitanEntry::TermBank(
        crate::yomitan::TermBank(
            word_entry.word.clone(),
            reading,
            found_pos.clone(),
            found_pos,
            definitions,
        ),
    );
    let ghost pre = irs.deep_view();
    irs.push(ir);
    proof {
        assert(irs.deep_view() =~= pre + spec_glossary_items(ev, tcode));
    }
}

/// A copy of one phonetic intermediate item.
fn clone_ipa(a: &IIpa) -> (r: IIpa)
    ensures
        r.deep_view() == a.deep_view(),
{
    (a.0.clone(), a.1.clone())
}

/// Whether two phonetic intermediate items are equal: same lemma, same
/// reading, same transcriptions.
fn ipa_eq(a: &IIpa, b: &IIpa) -> (r: bool)
    ensures
        r == (a.deep_view() == b.deep_view()),
{
    let r = a.0 == b.0 && a.1.reading == b.1.reading && vec_string_eq(
        &a.1.transcriptions,
        &b.1.transcriptions,
    );
    proof {
        if r {
            assert(a.1.deep_view() == b.1.deep_view());
        } else {
            assert(a.deep_view() != b.deep_view());
        }
    }
    r
}

/// Whether the vector holds an item equal to `x`.
fn vec_contains_ipa(v: &Vec<IIpa>, x: &IIpa) -> (r: bool)
    ensures
        r == v.deep_view().contains(x.deep_view()),
{
    let n = v.len();
    let mut i: usize = 0;
    while i < n
        invariant
            i <= n,
            n == v.len(),
            forall|j: int| 0 <= j < i ==> v.deep_view()[j] != x.deep_view(),
        decreases n - i,
    {
        if ipa_eq(&v[i], x) {
            proof {
                assert(v.deep_view()[i as int] == x.deep_view());
            }
            return true;
        }
        i = i + 1;
    }
    proof {
        assert(!v.deep_view().contains(x.deep_view()));
    }
    false
}

/// The deduplication of the merged phonetic kind: of equal items only the
/// first (in accumulation order) is kept.
pub open spec fn spec_dedup_ipa(s: Seq<IIpaV>) -> Seq<IIpaV>
    decreases s.len(),
{
    if s.len() == 0 {
        Seq::<IIpaV>::empty()
    } else {
        let pre = spec_dedup_ipa(s.drop_last());
        if pre.contains(s.last()) {
            pre
        } else {
            pre.push(s.last())
        }
    }
}

/// Inserting one item into an already-sorted run: the item lands after every
/// element whose lemma comes no later, which keeps the sort stable.
pub open spec fn spec_insert_ipa(s: Seq<IIpaV>, x: IIpaV) -> Seq<IIpaV>
    decreases s.len(),
{
    if s.len() == 0 {
        seq![x]
    } else if lex_le(s.last().0, x.0) {
        s.push(x)
    } else {
        spec_insert_ipa(s.drop_last(), x).push(s.last())
    }
}

/// The stable ascending sort by lemma used for deterministic output order.
pub open spec fn spec_sort_ipa(s: Seq<IIpaV>) -> Seq<IIpaV>
    decreases s.len(),
{
    if s.len() == 0 {
        Seq::<IIpaV>::empty()
    } else {
        spec_insert_ipa(spec_sort_ipa(s.drop_last()), s.last())
    }
}

/// What the merged phonetic post-processing leaves in the bucket: the items
/// deduplicated by full equality, then stably sorted ascending by lemma.
pub open spec fn spec_postprocess_ipa_merged(s: Seq<IIpaV>) -> Seq<IIpaV> {
    spec_sort_ipa(spec_dedup_ipa(s))
}

/// Where the scan of the insertion position stops, the recursive insertion
/// places the item exactly there.
proof fn lemma_insert_position(s: Seq<IIpaV>, x: IIpaV, p: int)
    requires
        0 <= p <= s.len(),
        p > 0 ==> lex_le(s[p - 1].0, x.0),
        forall|j: int| p <= j < s.len() ==> !lex_le(#[trigger] s[j].0, x.0),
    ensures
        spec_insert_ipa(s, x) == s.insert(p, x),
    decreases s.len(),
{
    if p == s.len() {
        if s.len() == 0 {
            assert(spec_insert_ipa(s, x) =~= s.insert(p, x));
        } else {
            assert(lex_le(s.last().0, x.0));
            assert(s.insert(p, x) =~= s.push(x));
        }
    } else {
        assert(!lex_le(s[s.len() - 1].0, x.0));
        let dl = s.drop_last();
        assert(p <= dl.len());
        assert(p > 0 ==> dl[p - 1] == s[p - 1]);
        assert(forall|j: int| p <= j < dl.len() ==> #[trigger] dl[j] == s[j]);
        lemma_insert_position(dl, x, p);
        assert(spec_insert_ipa(s, x) == dl.insert(p, x).push(s.last()));
        assert(dl.insert(p, x).push(s.last()) =~= s.insert(p, x));
    }
}

/// Ascending by lemma: no item comes before one with a smaller lemma.
pub open spec fn spec_sorted_by_lemma(s: Seq<IIpaV>) -> bool {
    forall|i: int, j: int|
        0 <= i <= j < s.len() ==> lex_le(#[trigger] s[i].0, #[trigger] s[j].0)
}

/// No two items of the sequence are equal.
pub open spec fn spec_distinct_ipa(s: Seq<IIpaV>) -> bool {
    forall|i: int, j: int| 0 <= i < j < s.len() ==> #[trigger] s[i] != #[trigger] s[j]
}

proof fn lemma_insert_ipa_contains(s: Seq<IIpaV>, x: IIpaV, y: IIpaV)
    ensures
        spec_insert_ipa(s, x).contains(y) <==> (s.contains(y) || y == x),
    decreases s.len(),
{
    if s.len() == 0 {
        assert(spec_insert_ipa(s, x)[0] == x);
    } else if lex_le(s.last().0, x.0) {
        assert(spec_insert_ipa(s, x) == s.push(x));
        if s.contains(y) || y == x {
            if y == x {
                assert(s.push(x)[s.len() as int] == x);
            } else {
                let k = choose|k: int| 0 <= k < s.len() && s[k] == y;
                assert(s.push(x)[k] == y);
            }
        }
    } else {
        let dl = s.drop_last();
        lemma_insert_ipa_contains(dl, x, y);
        let r = spec_insert_ipa(dl, x);
        assert(spec_insert_ipa(s, x) == r.push(s.last()));
        if r.push(s.last()).contains(y) {
            let k = choose|k: int| 0 <= k < r.len() + 1 && r.push(s.last())[k] == y;
            if k < r.len() {
                assert(r[k] == y);
            } else {
                assert(y == s.last());
                assert(s[s.len() - 1] == y);
            }
            assert(s.contains(y) || y == x) by {
                if y != x && !s.contains(y) && dl.contains(y) {
                    let m = choose|m: int| 0 <= m < dl.len() && dl[m] == y;
                    assert(s[m] == y);
                }
                if y == s.last() {
                    assert(s[s.len() - 1] == y);
                }
            };
        }
        if s.contains(y) || y == x {
            if y == x || dl.contains(y) {
                assert(r.contains(y));
                let k = choose|k: int| 0 <= k < r.len() && r[k] == y;
                assert(r.push(s.last())[k] == y);
            } else {
                let k = choose|k: int| 0 <= k < s.len() && s[k] == y;
                if k < s.len() - 1 {
                    assert(dl[k] == y);
                } else {
                    assert(y == s.last());
                    assert(r.push(s.last()).last() == y);
                }
            }
        }
    }
}

proof fn lemma_insert_ipa_sorted(s: Seq<IIpaV>, x: IIpaV)
    requires
        spec_sorted_by_lemma(s),
    ensures
        spec_sorted_by_lemma(spec_insert_ipa(s, x)),
    decreases s.len(),
{
    if s.len() == 0 {
        crate::strutil::lemma_lex_le_total(x.0, x.0);
        assert(spec_insert_ipa(s, x)[0] == x);
    } else if lex_le(s.last().0, x.0) {
        let r = s.push(x);
        assert forall|i: int, j: int| 0 <= i <= j < r.len() implies lex_le(r[i].0, r[j].0) by {
            if j == r.len() - 1 {
                if i == j {
                    crate::strutil::lemma_lex_le_total(r[i].0, r[i].0);
                } else {
                    assert(lex_le(s[i].0, s.last().0));
                    crate::strutil::lemma_lex_le_transitive(s[i].0, s.last().0, x.0);
                }
            }
        };
    } else {
        crate::strutil::lemma_lex_le_total(s.last().0, x.0);
        assert(lex_le(x.0, s.last().0));
        let dl = s.drop_last();
        lemma_insert_ipa_sorted(dl, x);
        let r0 = spec_insert_ipa(dl, x);
        let r = r0.push(s.last());
        assert forall|i: int, j: int| 0 <= i <= j < r.len() implies lex_le(r[i].0, r[j].0) by {
            if j == r.len() - 1 {
                if i == j {
                    crate::strutil::lemma_lex_le_total(r[i].0, r[i].0);
                } else {
                    lemma_insert_ipa_contains(dl, x, r0[i]);
                    if r0[i] == x {
                        assert(lex_le(x.0, s.last().0));
                    } else {
                        assert(dl.contains(r0[i]));
                        let m = choose|m: int| 0 <= m < dl.len() && dl[m] == r0[i];
                        assert(lex_le(s[m].0, s.last().0));
                    }
                }
            }
        };
    }
}

proof fn lemma_insert_ipa_distinct(s: Seq<IIpaV>, x: IIpaV)
    requires
        spec_distinct_ipa(s),
        !s.contains(x),
    ensures
        spec_distinct_ipa(spec_insert_ipa(s, x)),
    decreases s.len(),
{
    if s.len() == 0 {
    } else if lex_le(s.last().0, x.0) {
        let r = s.push(x);
        assert forall|i: int, j: int| 0 <= i < j < r.len() implies r[i] != r[j] by {
            if j == r.len() - 1 {
                if r[i] == x {
                    assert(s[i] == x);
                }
            }
        };
    } else {
        let dl = s.drop_last();
        assert(spec_distinct_ipa(dl));
        assert(!dl.contains(x)) by {
            if dl.contains(x) {
                let m = choose|m: int| 0 <= m < dl.len() && dl[m] == x;
                assert(s[m] == x);
            }
        };
        lemma_insert_ipa_distinct(dl, x);
        let r0 = spec_insert_ipa(dl, x);
        let r = r0.push(s.last());
        assert forall|i: int, j: int| 0 <= i < j < r.len() implies r[i] != r[j] by {
            if j == r.len() - 1 {
                lemma_insert_ipa_contains(dl, x, r0[i]);
                if r0[i] == s.last() {
                    if r0[i] == x {
                        assert(s.contains(x));
                    } else {
                        let m = choose|m: int| 0 <= m < dl.len() && dl[m] == r0[i];
                        assert(s[m] == s[s.len() - 1]);
                    }
                }
            }
        };
    }
}

proof fn lemma_sort_ipa_props(s: Seq<IIpaV>)
    ensures
        spec_sorted_by_lemma(spec_sort_ipa(s)),
        forall|y: IIpaV| spec_sort_ipa(s).contains(y) <==> s.contains(y),
        spec_distinct_ipa(s) ==> spec_distinct_ipa(spec_sort_ipa(s)),
    decreases s.len(),
{
    if s.len() == 0 {
    } else {
        let dl = s.drop_last();
        lemma_sort_ipa_props(dl);
        let r0 = spec_sort_ipa(dl);
        lemma_insert_ipa_sorted(r0, s.last());
        assert forall|y: IIpaV| spec_sort_ipa(s).contains(y) <==> s.contains(y) by {
            lemma_insert_ipa_contains(r0, s.last(), y);
            if dl.contains(y) {
                let m = choose|m: int| 0 <= m < dl.len() && dl[m] == y;
                assert(s[m] == y);
            }
            if s.contains(y) && y != s.last() {
                let m = choose|m: int| 0 <= m < s.len() && s[m] == y;
                assert(dl[m] == y);
            }
            if y == s.last() {
                assert(s[s.len() - 1] == y);
            }
        };
        if spec_distinct_ipa(s) {
            assert(spec_distinct_ipa(dl));
            assert(!r0.contains(s.last())) by {
                if r0.contains(s.last()) {
                    assert(dl.contains(s.last()));
                    let m = choose|m: int| 0 <= m < dl.len() && dl[m] == s.last();
                    assert(s[m] == s[s.len() - 1]);
                }
            };
            lemma_insert_ipa_distinct(r0, s.last());
        }
    }
}

proof fn lemma_dedup_ipa_props(s: Seq<IIpaV>)
    ensures
        spec_distinct_ipa(spec_dedup_ipa(s)),
        forall|y: IIpaV| spec_dedup_ipa(s).contains(y) <==> s.contains(y),
    decreases s.len(),
{
    if s.len() == 0 {
    } else {
        let dl = s.drop_last();
        lemma_dedup_ipa_props(dl);
        let pre = spec_dedup_ipa(dl);
        assert forall|y: IIpaV| spec_dedup_ipa(s).contains(y) <==> s.contains(y) by {
            if dl.contains(y) {
                let m = choose|m: int| 0 <= m < dl.len() && dl[m] == y;
                assert(s[m] == y);
            }
            if s.contains(y) && y != s.last() {
                let m = choose|m: int| 0 <= m < s.len() && s[m] == y;
                assert(dl[m] == y);
            }
            if y == s.last() {
                assert(s[s.len() - 1] == y);
                if !pre.contains(s.last()) {
                    assert(pre.push(s.last()).last() == y);
                }
            }
            if pre.contains(y) {
                if !pre.contains(s.last()) {
                    let m = choose|m: int| 0 <= m < pre.len() && pre[m] == y;
                    assert(pre.push(s.last())[m] == y);
                }
            }
            if !pre.contains(s.last()) && pre.push(s.last()).contains(y) {
                let m = choose|m: int| 0 <= m < pre.len() + 1 && pre.push(s.last())[m] == y;
                if m < pre.len() {
                    assert(pre[m] == y);
                }
            }
        };
        if !pre.contains(s.last()) {
            let r = pre.push(s.last());
            assert forall|i: int, j: int| 0 <= i < j < r.len() implies r[i] != r[j] by {
                if j == r.len() - 1 {
                    if r[i] == s.last() {
                        assert(pre[i] == s.last());
                    }
                }
            };
        }
    }
}

/// Law: the merged phonetic post-processing leaves no two equal items.  With
/// the same record accumulated from several editions, only one item of that
/// record survives.
pub proof fn lemma_ipa_merged_no_duplicates(s: Seq<IIpaV>)
    ensures
        spec_distinct_ipa(spec_postprocess_ipa_merged(s)),
{
    lemma_dedup_ipa_props(s);
    lemma_sort_ipa_props(spec_dedup_ipa(s));
}

/// Law: the merged phonetic post-processing sorts its output ascending by
/// lemma.
pub proof fn lemma_ipa_merged_sorted(s: Seq<IIpaV>)
    ensures
        spec_sorted_by_lemma(spec_postprocess_ipa_merged(s)),
{
    lemma_dedup_ipa_props(s);
    lemma_sort_ipa_props(spec_dedup_ipa(s));
}

/// Law: the merged phonetic post-processing keeps exactly the items that
/// were accumulated, regardless of which edition contributed them.
pub proof fn lemma_ipa_merged_contains(s: Seq<IIpaV>)
    ensures
        forall|y: IIpaV| spec_postprocess_ipa_merged(s).contains(y) <==> s.contains(y),
{
    lemma_dedup_ipa_props(s);
    lemma_sort_ipa_props(spec_dedup_ipa(s));
}

/// Law: the phonetic emission keeps distinct items distinct, so a
/// deduplicated bucket emits no two equal entries either.
pub proof fn lemma_ipa_emission_distinct(items: Seq<IIpaV>)
    requires
        spec_distinct_ipa(items),
    ensures
        forall|i: int, j: int|
            0 <= i < j < spec_yomitan_ipa(items).len() ==> #[trigger] spec_yomitan_ipa(items)[i]
                != #[trigger] spec_yomitan_ipa(items)[j],
{
    assert forall|i: int, j: int|
        0 <= i < j < spec_yomitan_ipa(items).len() implies #[trigger] spec_yomitan_ipa(items)[i]
        != #[trigger] spec_yomitan_ipa(items)[j] by {
        assert(items[i] != items[j]);
    };
}

/// The merged phonetic post-processing: deduplicate by full equality, then
/// sort ascending by lemma; ties keep their accumulation order.
pub fn postprocess_ipa_merged(irs: &mut Vec<IIpa>)
    ensures
        final(irs).deep_view() == spec_postprocess_ipa_merged(old(irs).deep_view()),
{
    let mut deduped: Vec<IIpa> = Vec::new();
    let n = irs.len();
    let mut i: usize = 0;
    proof {
        assert(irs.deep_view().take(0int) =~= Seq::<IIpaV>::empty());
    }
    while i < n
        invariant
            i <= n,
            n == irs.len(),
            deduped.deep_view() == spec_dedup_ipa(irs.deep_view().take(i as int)),
        decreases n - i,
    {
        proof {
            assert(irs.deep_view().take(i + 1int).drop_last() =~= irs.deep_view().take(i as int));
            assert(irs.deep_view().take(i + 1int).last() == irs.deep_view()[i as int]);
        }
        if !vec_contains_ipa(&deduped, &irs[i]) {
            let ghost pre = deduped.deep_view();
            deduped.push(clone_ipa(&irs[i]));
            proof {
                assert(deduped.deep_view() =~= pre.push(irs.deep_view()[i as int]));
            }
        }
        i = i + 1;
    }
    proof {
        assert(irs.deep_view().take(n as int) =~= irs.deep_view());
    }
    let mut sorted: Vec<IIpa> = Vec::new();
    let dn = deduped.len();
    let mut i: usize = 0;
    proof {
        assert(deduped.deep_view().take(0int) =~= Seq::<IIpaV>::empty());
    }
    while i < dn
        invariant
            i <= dn,
            dn == deduped.len(),
            sorted.deep_view() == spec_sort_ipa(deduped.deep_view().take(i as int)),
        decreases dn - i,
    {
        let x = clone_ipa(&deduped[i]);
        let mut p: usize = sorted.len();
        while p > 0 && !str_le(&sorted[p - 1].0, &x.0)
            invariant
                p <= sorted.len(),
                forall|j: int|
                    p <= j < sorted.deep_view().len() ==> !lex_le(
                        #[trigger] sorted.deep_view()[j].0,
                        x.deep_view().0,
                    ),
            decreases p,
        {
            p = p - 1;
        }
        let ghost pre = sorted.deep_view();
        proof {
            lemma_insert_position(pre, x.deep_view(), p as int);
        }
        sorted.insert(p, x);
        proof {
            assert(sorted.deep_view() =~= spec_insert_ipa(pre, deduped.deep_view()[i as int]));
            assert(deduped.deep_view().take(i + 1int).drop_last() =~= deduped.deep_view().take(
                i as int,
            ));
            assert(deduped.deep_view().take(i + 1int).last() == deduped.deep_view()[i as int]);
        }
        i = i + 1;
    }
    proof {
        assert(deduped.deep_view().take(dn as int) =~= deduped.deep_view());
    }
    *irs = sorted;
}

/// The intermediate item of the extended glossary: a lemma, its resolved
/// part-of-speech tag, the edition the record came from, and its definition
/// words.
pub type IGlossaryExtended = (String, String, Lang, Vec<String>);

/// Mathematical model of `IGlossaryExtended`.
pub type IGlossaryExtendedV = (Seq<char>, Seq<char>, LangV, Seq<Seq<char>>);

/// One per-sense group of the extended glossary: the sense label with the
/// words matching the target language and those matching the source
/// language.
pub type ExtGroup = (String, (Vec<String>, Vec<String>));

/// Mathematical model of `ExtGroup`.
pub type ExtGroupV = (Seq<char>, (Seq<Seq<char>>, Seq<Seq<char>>));

/// Appends one word to a sense group's target-side (`to_target`) or
/// source-side list; a missing sense opens a new group at the end.
pub open spec fn spec_assoc_push_ext(
    m: Seq<ExtGroupV>,
    key: Seq<char>,
    w: Seq<char>,
    to_target: bool,
) -> Seq<ExtGroupV>
    decreases m.len(),
{
    if m.len() == 0 {
        if to_target {
            seq![(key, (seq![w], Seq::<Seq<char>>::empty()))]
        } else {
            seq![(key, (Seq::<Seq<char>>::empty(), seq![w]))]
        }
    } else if m[0].0 == key {
        if to_target {
            m.update(0, (key, (m[0].1.0.push(w), m[0].1.1)))
        } else {
            m.update(0, (key, (m[0].1.0, m[0].1.1.push(w))))
        }
    } else {
        seq![m[0]] + spec_assoc_push_ext(m.drop_first(), key, w, to_target)
    }
}

proof fn lemma_assoc_push_ext_found(
    m: Seq<ExtGroupV>,
    key: Seq<char>,
    w: Seq<char>,
    to_target: bool,
    j: int,
)
    requires
        0 <= j < m.len(),
        m[j].0 == key,
        forall|i: int| 0 <= i < j ==> (#[trigger] m[i]).0 != key,
    ensures
        spec_assoc_push_ext(m, key, w, to_target) == m.update(
            j,
            (
                key,
                if to_target {
                    (m[j].1.0.push(w), m[j].1.1)
                } else {
                    (m[j].1.0, m[j].1.1.push(w))
                },
            ),
        ),
    decreases m.len(),
{
    let x = (
        key,
        if to_target {
            (m[j].1.0.push(w), m[j].1.1)
        } else {
            (m[j].1.0, m[j].1.1.push(w))
        },
    );
    if j == 0 {
    } else {
        assert(m[0].0 != key);
        let df = m.drop_first();
        assert(forall|i: int| 0 <= i < j - 1 ==> (#[trigger] df[i]).0 != key) by {
            assert(forall|i: int| 0 <= i < j - 1 ==> df[i] == m[i + 1]);
        };
        assert(df[j - 1] == m[j]);
        lemma_assoc_push_ext_found(df, key, w, to_target, j - 1);
        assert(seq![m[0]] + df.update(j - 1, x) =~= m.update(j, x));
    }
}

proof fn lemma_assoc_push_ext_absent(m: Seq<ExtGroupV>, key: Seq<char>, w: Seq<char>, to_target: bool)
    requires
        forall|i: int| 0 <= i < m.len() ==> (#[trigger] m[i]).0 != key,
    ensures
        spec_assoc_push_ext(m, key, w, to_target) == m.push(
            (
                key,
                if to_target {
                    (seq![w], Seq::<Seq<char>>::empty())
                } else {
                    (Seq::<Seq<char>>::empty(), seq![w])
                },
            ),
        ),
    decreases m.len(),
{
    let x = (
        key,
        if to_target {
            (seq![w], Seq::<Seq<char>>::empty())
        } else {
            (Seq::<Seq<char>>::empty(), seq![w])
        },
    );
    if m.len() == 0 {
        assert(spec_assoc_push_ext(m, key, w, to_target) =~= m.push(x));
    } else {
        let df = m.drop_first();
        assert(forall|i: int| 0 <= i < df.len() ==> (#[trigger] df[i]).0 != key) by {
            assert(forall|i: int| 0 <= i < df.len() ==> df[i] == m[i + 1]);
        };
        lemma_assoc_push_ext_absent(df, key, w, to_target);
        assert(seq![m[0]] + df.push(x) =~= m.push(x));
    }
}

/// What one translation contributes to the extended grouping: its word on
/// the target side where it matches the target language, and on the source
/// side where it matches the source language.
pub open spec fn spec_group_ext_step(
    m: Seq<ExtGroupV>,
    t: TranslationV,
    source: Seq<char>,
    target: Seq<char>,
) -> Seq<ExtGroupV> {
    let m1 = if t.lang_code == target {
        spec_assoc_push_ext(m, t.sense, t.word, true)
    } else {
        m
    };
    if t.lang_code == source {
        spec_assoc_push_ext(m1, t.sense, t.word, false)
    } else {
        m1
    }
}

/// The per-sense two-sided grouping of a record's translations.
pub open spec fn spec_group_ext(ts: Seq<TranslationV>, source: Seq<char>, target: Seq<char>) -> Seq<
    ExtGroupV,
>
    decreases ts.len(),
{
    if ts.len() == 0 {
        Seq::<ExtGroupV>::empty()
    } else {
        spec_group_ext_step(spec_group_ext(ts.drop_last(), source, target), ts.last(), source, target)
    }
}

/// The predicate keeping only senses matched on both sides.
pub open spec fn spec_ext_keeper() -> spec_fn(ExtGroupV) -> bool {
    |g: ExtGroupV| g.1.0.len() > 0 && g.1.1.len() > 0
}

/// One intermediate item per target-side word of a group, each carrying the
/// group's full source-side word list as its definitions.
pub open spec fn spec_ext_pairs(
    words: Seq<Seq<char>>,
    pos: Seq<char>,
    edition: LangV,
    defs: Seq<Seq<char>>,
) -> Seq<IGlossaryExtendedV>
    decreases words.len(),
{
    if words.len() == 0 {
        Seq::<IGlossaryExtendedV>::empty()
    } else {
        spec_ext_pairs(words.drop_last(), pos, edition, defs).push(
            (words.last(), pos, edition, defs),
        )
    }
}

/// The semi-cartesian product over all kept groups, in group order.
pub open spec fn spec_ext_items_from_groups(
    groups: Seq<ExtGroupV>,
    pos: Seq<char>,
    edition: LangV,
) -> Seq<IGlossaryExtendedV>
    decreases groups.len(),
{
    if groups.len() == 0 {
        Seq::<IGlossaryExtendedV>::empty()
    } else {
        spec_ext_items_from_groups(groups.drop_last(), pos, edition) + spec_ext_pairs(
            groups.last().1.0,
            pos,
            edition,
            groups.last().1.1,
        )
    }
}

/// What the extended glossary transform appends for one record: per sense
/// matched on both sides, one item for every target-side word, carrying the
/// full source-side list as definitions.
pub open spec fn spec_glossary_extended_items(
    e: WordEntryV,
    source: Seq<char>,
    target: Seq<char>,
    edition: LangV,
) -> Seq<IGlossaryExtendedV> {
    spec_ext_items_from_groups(
        spec_group_ext(e.non_trivial_translations(), source, target).filter(spec_ext_keeper()),
        spec_pos_of(e.pos),
        edition,
    )
}

/// The first extended group carrying this sense, if any.
fn find_ext_group(groups: &Vec<ExtGroup>, key: &String) -> (r: Option<usize>)
    ensures
        match r {
            Some(j) => j < groups.len() && groups.deep_view()[j as int].0 == key@ && (forall|i: int|
                0 <= i < j ==> (#[trigger] groups.deep_view()[i]).0 != key@),
            None => forall|i: int|
                0 <= i < groups.len() ==> (#[trigger] groups.deep_view()[i]).0 != key@,
        },
{
    let n = groups.len();
    let mut i: usize = 0;
    while i < n
        invariant
            i <= n,
            n == groups.len(),
            forall|j: int| 0 <= j < i ==> (#[trigger] groups.deep_view()[j]).0 != key@,
        decreases n - i,
    {
        if groups[i].0 == *key {
            return Some(i);
        }
        i = i + 1;
    }
    None
}

/// Appends one word to the target-side (`to_target`) or source-side list of
/// the group with this sense, opening the group if it is new.
fn push_ext_word(groups: &mut Vec<ExtGroup>, key: &String, w: &String, to_target: bool)
    ensures
        final(groups).deep_view() == spec_assoc_push_ext(
            old(groups).deep_view(),
            key@,
            w@,
            to_target,
        ),
{
    let ghost gpre = groups.deep_view();
    let ghost gvec = groups@;
    match find_ext_group(groups, key) {
        Some(j) => {
            let (k2, (mut tw, mut sw)) = groups.remove(j);
            let ghost twpre = tw.deep_view();
            let ghost swpre = sw.deep_view();
            if to_target {
                tw.push(w.clone());
            } else {
                sw.push(w.clone());
            }
            groups.insert(j, (k2, (tw, sw)));
            proof {
                lemma_assoc_push_ext_found(gpre, key@, w@, to_target, j as int);
                let x = (
                    key@,
                    if to_target {
                        (gpre[j as int].1.0.push(w@), gpre[j as int].1.1)
                    } else {
                        (gpre[j as int].1.0, gpre[j as int].1.1.push(w@))
                    },
                );
                if to_target {
                    assert(tw.deep_view() =~= twpre.push(w@));
                } else {
                    assert(sw.deep_view() =~= swpre.push(w@));
                }
                assert(groups@ =~= gvec.remove(j as int).insert(j as int, (k2, (tw, sw))));
                assert(groups@ =~= gvec.update(j as int, (k2, (tw, sw))));
                assert forall|m: int| 0 <= m < groups@.len() implies groups.deep_view()[m]
                    == gpre.update(j as int, x)[m] by {
                    if m == j {
                        assert(groups@[m] == (k2, (tw, sw)));
                        assert(k2.deep_view() == gpre[j as int].0);
                    } else {
                        assert(groups@[m] == gvec[m]);
                    }
                };
                assert(groups.deep_view() =~= gpre.update(j as int, x));
            }
        },
        None => {
            let mut tw: Vec<String> = Vec::new();
            let mut sw: Vec<String> = Vec::new();
            if to_target {
                tw.push(w.clone());
            } else {
                sw.push(w.clone());
            }
            groups.push((key.clone(), (tw, sw)));
            proof {
                lemma_assoc_push_ext_absent(gpre, key@, w@, to_target);
                let x = (
                    key@,
                    if to_target {
                        (seq![w@], Seq::<Seq<char>>::empty())
                    } else {
                        (Seq::<Seq<char>>::empty(), seq![w@])
                    },
                );
                if to_target {
                    assert(tw.deep_view() =~= seq![w@]);
                    assert(sw.deep_view() =~= Seq::<Seq<char>>::empty());
                } else {
                    assert(tw.deep_view() =~= Seq::<Seq<char>>::empty());
                    assert(sw.deep_view() =~= seq![w@]);
                }
                assert(groups.deep_view() =~= gpre.push(x));
            }
        },
    }
}

/// The extended glossary transform: collects, per sense, the words written
/// in the target language and those written in the source language, keeps
/// the senses matched on both sides, and appends one item per target-side
/// word carrying the source-side words as definitions.
pub fn process_glossary_extended(
    edition: &Lang,
    source: &Lang,
    target: &Lang,
    word_entry: &WordEntry,
    irs: &mut Vec<IGlossaryExtended>,
)
    ensures
        final(irs).deep_view() == old(irs).deep_view() + spec_glossary_extended_items(
            word_entry.deep_view(),
            source.deep_view().code,
            target.deep_view().code,
            edition.deep_view(),
        ),
{
    let ghost ev = word_entry.deep_view();
    let ghost scode = source.deep_view().code;
    let ghost tcode = target.deep_view().code;
    let nts = word_entry.non_trivial_translations();
    let mut groups: Vec<ExtGroup> = Vec::new();
    let n = nts.len();
    let mut i: usize = 0;
    proof {
        assert(nts.deep_view().take(0int) =~= Seq::<TranslationV>::empty());
    }
    while i < n
        invariant
            i <= n,
            n == nts.len(),
            nts.deep_view() == ev.non_trivial_translations(),
            scode == source.deep_view().code,
            tcode == target.deep_view().code,
            groups.deep_view() == spec_group_ext(nts.deep_view().take(i as int), scode, tcode),
        decreases n - i,
    {
        let t = &nts[i];
        let ghost tv = nts.deep_view()[i as int];
        proof {
            assert(nts.deep_view().take(i + 1int).drop_last() =~= nts.deep_view().take(i as int));
            assert(nts.deep_view().take(i + 1int).last() == tv);
        }
        if t.lang_code == target.code {
            push_ext_word(&mut groups, &t.sense, &t.word, true);
        }
        if t.lang_code == source.code {
            push_ext_word(&mut groups, &t.sense, &t.word, false);
        }
        i = i + 1;
    }
    proof {
        assert(nts.deep_view().take(n as int) =~= nts.deep_view());
    }
    let mut kept: Vec<ExtGroup> = Vec::new();
    let gn = groups.len();
    let mut g: usize = 0;
    proof {
        assert(groups.deep_view().take(0int) =~= Seq::<ExtGroupV>::empty());
        reveal(Seq::filter);
        assert(kept.deep_view() =~= groups.deep_view().take(0int).filter(spec_ext_keeper()));
    }
    while g < gn
        invariant
            g <= gn,
            gn == groups.len(),
            kept.deep_view() == groups.deep_view().take(g as int).filter(spec_ext_keeper()),
        decreases gn - g,
    {
        proof {
            reveal(Seq::filter);
            assert(groups.deep_view().take(g + 1int).drop_last() =~= groups.deep_view().take(
                g as int,
            ));
            assert(groups.deep_view().take(g + 1int).last() == groups.deep_view()[g as int]);
        }
        let (key, (tw, sw)) = &groups[g];
        if tw.len() > 0 && sw.len() > 0 {
            let ghost kpre = kept.deep_view();
            kept.push((key.clone(), (clone_string_vec(tw), clone_string_vec(sw))));
            proof {
                assert(kept.deep_view() =~= kpre.push(groups.deep_view()[g as int]));
            }
        }
        g = g + 1;
    }
    proof {
        assert(groups.deep_view().take(gn as int) =~= groups.deep_view());
    }
    let found_pos = pos_of(&word_entry.pos);
    let kn = kept.len();
    let mut k: usize = 0;
    let ghost pre = irs.deep_view();
    proof {
        assert(kept.deep_view().take(0int) =~= Seq::<ExtGroupV>::empty());
        assert(irs.deep_view() =~= pre + spec_ext_items_from_groups(
            kept.deep_view().take(0int),
            found_pos@,
            edition.deep_view(),
        ));
    }
    while k < kn
        invariant
            k <= kn,
            kn == kept.len(),
            found_pos@ == spec_pos_of(ev.pos),
            irs.deep_view() == pre + spec_ext_items_from_groups(
                kept.deep_view().take(k as int),
                found_pos@,
                edition.deep_view(),
            ),
        decreases kn - k,
    {
        let ghost gv = kept.deep_view()[k as int];
        proof {
            assert(kept.deep_view().take(k + 1int).drop_last() =~= kept.deep_view().take(k as int));
            assert(kept.deep_view().take(k + 1int).last() == gv);
        }
        let (key, (tw, sw)) = &kept[k];
        let wn = tw.len();
        let mut w: usize = 0;
        proof {
            assert(gv.1.0.take(0int) =~= Seq::<Seq<char>>::empty());
        }
        while w < wn
            invariant
                w <= wn,
                wn == tw.len(),
                k < kept.len(),
                gv == kept.deep_view()[k as int],
                tw.deep_view() == gv.1.0,
                sw.deep_view() == gv.1.1,
                found_pos@ == spec_pos_of(ev.pos),
                irs.deep_view() == pre + spec_ext_items_from_groups(
                    kept.deep_view().take(k as int),
                    found_pos@,
                    edition.deep_view(),
                ) + spec_ext_pairs(
                    gv.1.0.take(w as int),
                    found_pos@,
                    edition.deep_view(),
                    gv.1.1,
                ),
            decreases wn - w,
        {
            let ghost ipre = irs.deep_view();
            irs.push(
                (tw[w].clone(), found_pos.clone(), edition.clone(), clone_string_vec(sw)),
            );
            proof {
                assert(irs.deep_view() =~= ipre.push(
                    (gv.1.0[w as int], found_pos@, edition.deep_view(), gv.1.1),
                ));
                assert(gv.1.0.take(w + 1int).drop_last() =~= gv.1.0.take(w as int));
                assert(gv.1.0.take(w + 1int).last() == gv.1.0[w as int]);
                assert(irs.deep_view() =~= pre + spec_ext_items_from_groups(
                    kept.deep_view().take(k as int),
                    found_pos@,
                    edition.deep_view(),
                ) + spec_ext_pairs(
                    gv.1.0.take(w + 1int),
                    found_pos@,
                    edition.deep_view(),
                    gv.1.1,
                ));
            }
            w = w + 1;
        }
        proof {
            assert(gv.1.0.take(wn as int) =~= gv.1.0);
            assert(irs.deep_view() =~= pre + spec_ext_items_from_groups(
                kept.deep_view().take(k + 1int),
                found_pos@,
                edition.deep_view(),
            ));
        }
        k = k + 1;
    }
    proof {
        assert(kept.deep_view().take(kn as int) =~= kept.deep_view());
    }
}

/// One merged entry of the extended glossary: a lemma with its first-seen
/// part-of-speech tag and edition, and its deduplicated definitions.
pub type ExtMerged = (String, (String, Lang, Vec<String>));

/// Mathematical model of `ExtMerged`.
pub type ExtMergedV = (Seq<char>, (Seq<char>, LangV, Seq<Seq<char>>));

/// The union of an accumulated definition list with more words: each word
/// joins the list only where it is not in it yet.
pub open spec fn spec_union_dedup(acc: Seq<Seq<char>>, ws: Seq<Seq<char>>) -> Seq<Seq<char>>
    decreases ws.len(),
{
    if ws.len() == 0 {
        acc
    } else {
        let u = spec_union_dedup(acc, ws.drop_last());
        if u.contains(ws.last()) {
            u
        } else {
            u.push(ws.last())
        }
    }
}

/// Merges one item into the per-lemma accumulation: the first group with the
/// item's lemma keeps its tag and edition and unions in the definitions; a
/// new lemma opens a group at the end.
pub open spec fn spec_ext_merge_one(m: Seq<ExtMergedV>, it: IGlossaryExtendedV) -> Seq<ExtMergedV>
    decreases m.len(),
{
    if m.len() == 0 {
        seq![(it.0, (it.1, it.2, spec_union_dedup(Seq::<Seq<char>>::empty(), it.3)))]
    } else if m[0].0 == it.0 {
        m.update(0, (m[0].0, (m[0].1.0, m[0].1.1, spec_union_dedup(m[0].1.2, it.3))))
    } else {
        seq![m[0]] + spec_ext_merge_one(m.drop_first(), it)
    }
}

/// The per-lemma accumulation over all items, in first-occurrence order.
pub open spec fn spec_ext_groups_merged(items: Seq<IGlossaryExtendedV>) -> Seq<ExtMergedV>
    decreases items.len(),
{
    if items.len() == 0 {
        Seq::<ExtMergedV>::empty()
    } else {
        spec_ext_merge_one(spec_ext_groups_merged(items.drop_last()), items.last())
    }
}

/// The merged groups written back as intermediate items.
pub open spec fn spec_ext_flatten(groups: Seq<ExtMergedV>) -> Seq<IGlossaryExtendedV>
    decreases groups.len(),
{
    if groups.len() == 0 {
        Seq::<IGlossaryExtendedV>::empty()
    } else {
        spec_ext_flatten(groups.drop_last()).push(
            (groups.last().0, groups.last().1.0, groups.last().1.1, groups.last().1.2),
        )
    }
}

/// What the extended glossary post-processing leaves in the bucket: one item
/// per lemma, with the first-seen tag and edition and the union of all its
/// definition lists, duplicates removed.
pub open spec fn spec_postprocess_ext(items: Seq<IGlossaryExtendedV>) -> Seq<IGlossaryExtendedV> {
    spec_ext_flatten(spec_ext_groups_merged(items))
}

proof fn lemma_ext_merge_found(m: Seq<ExtMergedV>, it: IGlossaryExtendedV, j: int)
    requires
        0 <= j < m.len(),
        m[j].0 == it.0,
        forall|i: int| 0 <= i < j ==> (#[trigger] m[i]).0 != it.0,
    ensures
        spec_ext_merge_one(m, it) == m.update(
            j,
            (m[j].0, (m[j].1.0, m[j].1.1, spec_union_dedup(m[j].1.2, it.3))),
        ),
    decreases m.len(),
{
    if j == 0 {
    } else {
        assert(m[0].0 != it.0);
        let df = m.drop_first();
        assert(forall|i: int| 0 <= i < j - 1 ==> (#[trigger] df[i]).0 != it.0) by {
            assert(forall|i: int| 0 <= i < j - 1 ==> df[i] == m[i + 1]);
        };
        assert(df[j - 1] == m[j]);
        lemma_ext_merge_found(df, it, j - 1);
        let x = (m[j].0, (m[j].1.0, m[j].1.1, spec_union_dedup(m[j].1.2, it.3)));
        assert(seq![m[0]] + df.update(j - 1, x) =~= m.update(j, x));
    }
}

proof fn lemma_ext_merge_absent(m: Seq<ExtMergedV>, it: IGlossaryExtendedV)
    requires
        forall|i: int| 0 <= i < m.len() ==> (#[trigger] m[i]).0 != it.0,
    ensures
        spec_ext_merge_one(m, it) == m.push(
            (it.0, (it.1, it.2, spec_union_dedup(Seq::<Seq<char>>::empty(), it.3))),
        ),
    decreases m.len(),
{
    let x = (it.0, (it.1, it.2, spec_union_dedup(Seq::<Seq<char>>::empty(), it.3)));
    if m.len() == 0 {
        assert(spec_ext_merge_one(m, it) =~= m.push(x));
    } else {
        let df = m.drop_first();
        assert(forall|i: int| 0 <= i < df.len() ==> (#[trigger] df[i]).0 != it.0) by {
            assert(forall|i: int| 0 <= i < df.len() ==> df[i] == m[i + 1]);
        };
        lemma_ext_merge_absent(df, it);
        assert(seq![m[0]] + df.push(x) =~= m.push(x));
    }
}

/// Whether the vector holds a string equal to `x`.
fn vec_contains_string(v: &Vec<String>, x: &String) -> (r: bool)
    ensures
        r == v.deep_view().contains(x@),
{
    let n = v.len();
    let mut i: usize = 0;
    while i < n
        invariant
            i <= n,
            n == v.len(),
            forall|j: int| 0 <= j < i ==> v.deep_view()[j] != x@,
        decreases n - i,
    {
        if v[i] == *x {
            proof {
                assert(v.deep_view()[i as int] == x@);
            }
            return true;
        }
        i = i + 1;
    }
    proof {
        assert(!v.deep_view().contains(x@));
    }
    false
}

/// Adds each word that is not present yet to the accumulated definitions.
fn union_dedup(acc: &mut Vec<String>, ws: &Vec<String>)
    ensures
        final(acc).deep_view() == spec_union_dedup(old(acc).deep_view(), ws.deep_view()),
{
    let ghost apre = acc.deep_view();
    let n = ws.len();
    let mut i: usize = 0;
    proof {
        assert(ws.deep_view().take(0int) =~= Seq::<Seq<char>>::empty());
    }
    while i < n
        invariant
            i <= n,
            n == ws.len(),
            acc.deep_view() == spec_union_dedup(apre, ws.deep_view().take(i as int)),
        decreases n - i,
    {
        proof {
            assert(ws.deep_view().take(i + 1int).drop_last() =~= ws.deep_view().take(i as int));
            assert(ws.deep_view().take(i + 1int).last() == ws.deep_view()[i as int]);
        }
        if !vec_contains_string(acc, &ws[i]) {
            let ghost mid = acc.deep_view();
            acc.push(ws[i].clone());
            proof {
                assert(acc.deep_view() =~= mid.push(ws.deep_view()[i as int]));
            }
        }
        i = i + 1;
    }
    proof {
        assert(ws.deep_view().take(n as int) =~= ws.deep_view());
    }
}

/// The first merged group carrying this lemma, if any.
fn find_merged_group(groups: &Vec<ExtMerged>, key: &String) -> (r: Option<usize>)
    ensures
        match r {
            Some(j) => j < groups.len() && groups.deep_view()[j as int].0 == key@ && (forall|i: int|
                0 <= i < j ==> (#[trigger] groups.deep_view()[i]).0 != key@),
            None => forall|i: int|
                0 <= i < groups.len() ==> (#[trigger] groups.deep_view()[i]).0 != key@,
        },
{
    let n = groups.len();
    let mut i: usize = 0;
    while i < n
        invariant
            i <= n,
            n == groups.len(),
            forall|j: int| 0 <= j < i ==> (#[trigger] groups.deep_view()[j]).0 != key@,
        decreases n - i,
    {
        if groups[i].0 == *key {
            return Some(i);
        }
        i = i + 1;
    }
    None
}

/// The extended glossary post-processing: group the accumulated items by
/// lemma, keep the first-seen tag and edition per lemma, and union every
/// lemma's definition lists with duplicates removed.
pub fn postprocess_glossary_extended(irs: &mut Vec<IGlossaryExtended>)
    ensures
        final(irs).deep_view() == spec_postprocess_ext(old(irs).deep_view()),
{
    let mut merged: Vec<ExtMerged> = Vec::new();
    let n = irs.len();
    let mut i: usize = 0;
    proof {
        assert(irs.deep_view().take(0int) =~= Seq::<IGlossaryExtendedV>::empty());
    }
    while i < n
        invariant
            i <= n,
            n == irs.len(),
            merged.deep_view() == spec_ext_groups_merged(irs.deep_view().take(i as int)),
        decreases n - i,
    {
        let ghost itv = irs.deep_view()[i as int];
        proof {
            assert(irs.deep_view().take(i + 1int).drop_last() =~= irs.deep_view().take(i as int));
            assert(irs.deep_view().take(i + 1int).last() == itv);
        }
        let ghost mpre = merged.deep_view();
        let ghost mvec = merged@;
        let (lemma, pos, edition, translations) = &irs[i];
        match find_merged_group(&merged, lemma) {
            Some(j) => {
                let (k2, (p2, e2, mut defs)) = merged.remove(j);
                let ghost dpre = defs.deep_view();
                union_dedup(&mut defs, translations);
                merged.insert(j, (k2, (p2, e2, defs)));
                proof {
                    lemma_ext_merge_found(mpre, itv, j as int);
                    let x = (
                        mpre[j as int].0,
                        (
                            mpre[j as int].1.0,
                            mpre[j as int].1.1,
                            spec_union_dedup(mpre[j as int].1.2, itv.3),
                        ),
                    );
                    assert(merged@ =~= mvec.remove(j as int).insert(
                        j as int,
                        (k2, (p2, e2, defs)),
                    ));
                    assert(merged@ =~= mvec.update(j as int, (k2, (p2, e2, defs))));
                    assert forall|m: int| 0 <= m < merged@.len() implies merged.deep_view()[m]
                        == mpre.update(j as int, x)[m] by {
                        if m == j {
                            assert(merged@[m] == (k2, (p2, e2, defs)));
                            assert(k2.deep_view() == mpre[j as int].0);
                            assert(p2.deep_view() == mpre[j as int].1.0);
                            assert(e2.deep_view() == mpre[j as int].1.1);
                        } else {
                            assert(merged@[m] == mvec[m]);
                        }
                    };
                    assert(merged.deep_view() =~= mpre.update(j as int, x));
                }
            },
            None => {
                let mut defs: Vec<String> = Vec::new();
                proof {
                    assert(defs.deep_view() =~= Seq::<Seq<char>>::empty());
                    assert(translations.deep_view() == itv.3);
                }
                union_dedup(&mut defs, translations);
                merged.push((lemma.clone(), (pos.clone(), edition.clone(), defs)));
                proof {
                    lemma_ext_merge_absent(mpre, itv);
                    let x = (
                        itv.0,
                        (itv.1, itv.2, spec_union_dedup(Seq::<Seq<char>>::empty(), itv.3)),
                    );
                    assert(merged.deep_view() =~= mpre.push(x));
                }
            },
        }
        i = i + 1;
    }
    proof {
        assert(irs.deep_view().take(n as int) =~= irs.deep_view());
    }
    let mut out: Vec<IGlossaryExtended> = Vec::new();
    let mn = merged.len();
    let mut m: usize = 0;
    proof {
        assert(merged.deep_view().take(0int) =~= Seq::<ExtMergedV>::empty());
    }
    while m < mn
        invariant
            m <= mn,
            mn == merged.len(),
            out.deep_view() == spec_ext_flatten(merged.deep_view().take(m as int)),
        decreases mn - m,
    {
        proof {
            assert(merged.deep_view().take(m + 1int).drop_last() =~= merged.deep_view().take(
                m as int,
            ));
            assert(merged.deep_view().take(m + 1int).last() == merged.deep_view()[m as int]);
        }
        let (lemma, (pos, edition, defs)) = &merged[m];
        let ghost opre = out.deep_view();
        out.push((lemma.clone(), pos.clone(), edition.clone(), clone_string_vec(defs)));
        proof {
            let gv = merged.deep_view()[m as int];
            assert(out.deep_view() =~= opre.push((gv.0, gv.1.0, gv.1.1, gv.1.2)));
        }
        m = m + 1;
    }
    proof {
        assert(merged.deep_view().take(mn as int) =~= merged.deep_view());
    }
    *irs = out;
}

/// No two strings of the sequence are equal.
pub open spec fn spec_distinct_strs(ws: Seq<Seq<char>>) -> bool {
    forall|i: int, j: int| 0 <= i < j < ws.len() ==> #[trigger] ws[i] != #[trigger] ws[j]
}

proof fn lemma_union_dedup_distinct(acc: Seq<Seq<char>>, ws: Seq<Seq<char>>)
    requires
        spec_distinct_strs(acc),
    ensures
        spec_distinct_strs(spec_union_dedup(acc, ws)),
    decreases ws.len(),
{
    if ws.len() > 0 {
        lemma_union_dedup_distinct(acc, ws.drop_last());
        let u = spec_union_dedup(acc, ws.drop_last());
        if !u.contains(ws.last()) {
            let r = u.push(ws.last());
            assert forall|i: int, j: int| 0 <= i < j < r.len() implies r[i] != r[j] by {
                if j == r.len() - 1 {
                    if r[i] == ws.last() {
                        assert(u[i] == ws.last());
                    }
                }
            };
        }
    }
}

proof fn lemma_ext_merge_defs_distinct(m: Seq<ExtMergedV>, it: IGlossaryExtendedV)
    requires
        forall|k: int|
            0 <= k < m.len() ==> spec_distinct_strs((#[trigger] m[k]).1.2),
    ensures
        forall|k: int|
            0 <= k < spec_ext_merge_one(m, it).len() ==> spec_distinct_strs(
                (#[trigger] spec_ext_merge_one(m, it)[k]).1.2,
            ),
    decreases m.len(),
{
    let e = Seq::<Seq<char>>::empty();
    if m.len() == 0 {
        assert(spec_distinct_strs(e));
        lemma_union_dedup_distinct(e, it.3);
    } else if m[0].0 == it.0 {
        lemma_union_dedup_distinct(m[0].1.2, it.3);
    } else {
        let df = m.drop_first();
        assert(forall|k: int| 0 <= k < df.len() ==> df[k] == m[k + 1]);
        lemma_ext_merge_defs_distinct(df, it);
        let r = seq![m[0]] + spec_ext_merge_one(df, it);
        assert(forall|k: int|
            1 <= k < r.len() ==> r[k] == spec_ext_merge_one(df, it)[k - 1]);
        assert(r[0] == m[0]);
    }
}

proof fn lemma_ext_groups_defs_distinct(items: Seq<IGlossaryExtendedV>)
    ensures
        forall|k: int|
            0 <= k < spec_ext_groups_merged(items).len() ==> spec_distinct_strs(
                (#[trigger] spec_ext_groups_merged(items)[k]).1.2,
            ),
    decreases items.len(),
{
    if items.len() > 0 {
        lemma_ext_groups_defs_distinct(items.drop_last());
        lemma_ext_merge_defs_distinct(spec_ext_groups_merged(items.drop_last()), items.last());
    }
}

/// Law: after the extended glossary post-processing, every item's definition
/// list is a set: it holds no duplicate translation, whatever duplicates the
/// accumulated items carried.
pub proof fn lemma_extended_defs_distinct(items: Seq<IGlossaryExtendedV>)
    ensures
        forall|k: int|
            0 <= k < spec_postprocess_ext(items).len() ==> spec_distinct_strs(
                (#[trigger] spec_postprocess_ext(items)[k]).3,
            ),
{
    lemma_ext_groups_defs_distinct(items);
    let groups = spec_ext_groups_merged(items);
    lemma_ext_flatten_defs(groups);
}

proof fn lemma_ext_flatten_defs(groups: Seq<ExtMergedV>)
    requires
        forall|k: int| 0 <= k < groups.len() ==> spec_distinct_strs((#[trigger] groups[k]).1.2),
    ensures
        forall|k: int|
            0 <= k < spec_ext_flatten(groups).len() ==> spec_distinct_strs(
                (#[trigger] spec_ext_flatten(groups)[k]).3,
            ),
    decreases groups.len(),
{
    if groups.len() > 0 {
        let dl = groups.drop_last();
        assert(forall|k: int| 0 <= k < dl.len() ==> dl[k] == groups[k]);
        lemma_ext_flatten_defs(dl);
        let r = spec_ext_flatten(groups);
        assert(forall|k: int| 0 <= k < r.len() - 1 ==> r[k] == spec_ext_flatten(dl)[k]);
        assert(r.last().3 == groups.last().1.2);
    }
}

/// What the extended glossary emission produces: one term record per item,
/// with an empty reading and the definitions as flat text.
pub open spec fn spec_yomitan_ext(items: Seq<IGlossaryExtendedV>) -> Seq<YomitanEntryV> {
    items.map_values(
        |it: IGlossaryExtendedV|
            YomitanEntryV::TermBank(
                TermBankV {
                    word: it.0,
                    reading: Seq::<char>::empty(),
                    def_tags: it.1,
                    rules: it.1,
                    definitions: it.3.map_values(|w: Seq<char>| DetailedDefinitionV::Text(w)),
                },
            ),
    )
}

/// The extended glossary emission: wraps each merged item as a term record.
pub fn to_yomitan_glossary_extended(irs: Vec<IGlossaryExtended>) -> (out: Vec<YomitanEntry>)
    ensures
        out.deep_view() == spec_yomitan_ext(irs.deep_view()),
{
    let mut out: Vec<YomitanEntry> = Vec::new();
    let n = irs.len();
    let mut i: usize = 0;
    while i < n
        invariant
            i <= n,
            n == irs.len(),
            out.deep_view() == spec_yomitan_ext(irs.deep_view().take(i as int)),
        decreases n - i,
    {
        let (lemma, pos, _, translations) = &irs[i];
        let ghost itv = irs.deep_view()[i as int];
        let mut definitions: Vec<crate::yomitan::DetailedDefinition> = Vec::new();
        let wn = translations.len();
        let mut w: usize = 0;
        while w < wn
            invariant
                w <= wn,
                wn == translations.len(),
                i < irs.len(),
                itv == irs.deep_view()[i as int],
                translations.deep_view() == itv.3,
                definitions.deep_view() == itv.3.take(w as int).map_values(
                    |x: Seq<char>| DetailedDefinitionV::Text(x),
                ),
            decreases wn - w,
        {
            let ghost dpre = definitions.deep_view();
            definitions.push(crate::yomitan::DetailedDefinition::Text(translations[w].clone()));
            proof {
                assert(definitions.deep_view() =~= dpre.push(
                    DetailedDefinitionV::Text(itv.3[w as int]),
                ));
                assert(definitions.deep_view() =~= itv.3.take(w + 1int).map_values(
                    |x: Seq<char>| DetailedDefinitionV::Text(x),
                ));
            }
            w = w + 1;
        }
        proof {
            assert(itv.3.take(wn as int) =~= itv.3);
        }
        let entry = YomitanEntry::TermBank(
            crate::yomitan::TermBank(
                lemma.clone(),
                String::new(),
                pos.clone(),
                pos.clone(),
                definitions,
            ),
        );
        let ghost opre = out.deep_view();
        out.push(entry);
        proof {
            assert(definitions.deep_view() =~= itv.3.map_values(
                |x: Seq<char>| DetailedDefinitionV::Text(x),
            ));
            assert(out.deep_view() =~= opre.push(spec_yomitan_ext(irs.deep_view())[i as int]));
            assert(spec_yomitan_ext(irs.deep_view().take(i + 1int)) =~= spec_yomitan_ext(
                irs.deep_view().take(i as int),
            ).push(spec_yomitan_ext(irs.deep_view())[i as int]));
        }
        i = i + 1;
    }
    proof {
        assert(irs.deep_view().take(n as int) =~= irs.deep_view());
    }
    out
}

impl Dictionary for DGlossary {
    type Item = YomitanEntry;

    open spec fn spec_keep(&self, source: LangV, e: WordEntryV) -> bool {
        e.lang_code == source.code
    }

    fn keep_if(&self, source: &Lang, entry: &WordEntry) -> (b: bool) {
        entry.lang_code == source.code
    }

    open spec fn spec_preprocess_entry(&self, langs: LangsV, e: WordEntryV, opts: OptionsV) -> WordEntryV {
        e
    }

    open spec fn spec_preprocess_items(&self, langs: LangsV, e: WordEntryV, opts: OptionsV) -> Seq<
        YomitanEntryV,
    > {
        Seq::<YomitanEntryV>::empty()
    }

    fn preprocess(
        &self,
        langs: &Langs,
        entry: &mut WordEntry,
        opts: &Options,
        irs: &mut Vec<YomitanEntry>,
    ) {
        proof {
            assert(irs.deep_view() =~= irs.deep_view() + Seq::<YomitanEntryV>::empty());
        }
    }

    open spec fn spec_process(&self, langs: LangsV, e: WordEntryV) -> Seq<YomitanEntryV> {
        spec_glossary_items(e, langs.target.code)
    }

    fn process(&self, langs: &Langs, entry: &WordEntry, irs: &mut Vec<YomitanEntry>) {
        process_glossary(&langs.source, &langs.target, entry, irs);
    }

    open spec fn spec_postprocess(&self, items: Seq<YomitanEntryV>) -> Seq<YomitanEntryV> {
        items
    }

    fn postprocess(&self, irs: &mut Vec<YomitanEntry>) {
    }

    open spec fn spec_to_yomitan(&self, langs: LangsV, items: Seq<YomitanEntryV>) -> Seq<
        LabelledYomitanEntryV,
    > {
        seq![LabelledYomitanEntryV { label: "term"@, entries: items }]
    }

    fn to_yomitan(&self, langs: Langs, irs: Vec<YomitanEntry>) -> (out: Vec<LabelledYomitanEntry>) {
        let ghost items = irs.deep_view();
        let mut out: Vec<LabelledYomitanEntry> = Vec::new();
        out.push(LabelledYomitanEntry::new("term", irs));
        proof {
            assert(out.deep_view() =~= seq![
                LabelledYomitanEntryV { label: "term"@, entries: items },
            ]);
        }
        out
    }
}

impl Dictionary for DGlossaryExtended {
    type Item = IGlossaryExtended;

    open spec fn spec_keep(&self, source: LangV, e: WordEntryV) -> bool {
        true
    }

    fn keep_if(&self, source: &Lang, entry: &WordEntry) -> (b: bool) {
        true
    }

    open spec fn spec_preprocess_entry(&self, langs: LangsV, e: WordEntryV, opts: OptionsV) -> WordEntryV {
        e
    }

    open spec fn spec_preprocess_items(&self, langs: LangsV, e: WordEntryV, opts: OptionsV) -> Seq<
        IGlossaryExtendedV,
    > {
        Seq::<IGlossaryExtendedV>::empty()
    }

    fn preprocess(
        &self,
        langs: &Langs,
        entry: &mut WordEntry,
        opts: &Options,
        irs: &mut Vec<IGlossaryExtended>,
    ) {
        proof {
            assert(irs.deep_view() =~= irs.deep_view() + Seq::<IGlossaryExtendedV>::empty());
        }
    }

    open spec fn spec_process(&self, langs: LangsV, e: WordEntryV) -> Seq<IGlossaryExtendedV> {
        spec_glossary_extended_items(e, langs.source.code, langs.target.code, langs.edition)
    }

    fn process(&self, langs: &Langs, entry: &WordEntry, irs: &mut Vec<IGlossaryExtended>) {
        process_glossary_extended(&langs.edition, &langs.source, &langs.target, entry, irs);
    }

    open spec fn spec_postprocess(&self, items: Seq<IGlossaryExtendedV>) -> Seq<
        IGlossaryExtendedV,
    > {
        spec_postprocess_ext(items)
    }

    fn postprocess(&self, irs: &mut Vec<IGlossaryExtended>) {
        postprocess_glossary_extended(irs);
    }

    open spec fn spec_to_yomitan(&self, langs: LangsV, items: Seq<IGlossaryExtendedV>) -> Seq<
        LabelledYomitanEntryV,
    > {
        seq![LabelledYomitanEntryV { label: "term"@, entries: spec_yomitan_ext(items) }]
    }

    fn to_yomitan(&self, langs: Langs, irs: Vec<IGlossaryExtended>) -> (out: Vec<
        LabelledYomitanEntry,
    >) {
        let ghost items = irs.deep_view();
        let entries = to_yomitan_glossary_extended(irs);
        let mut out: Vec<LabelledYomitanEntry> = Vec::new();
        out.push(LabelledYomitanEntry::new("term", entries));
        proof {
            assert(out.deep_view() =~= seq![
                LabelledYomitanEntryV { label: "term"@, entries: spec_yomitan_ext(items) },
            ]);
        }
        out
    }
}

impl Dictionary for DIpa {
    type Item = IIpa;

    open spec fn spec_keep(&self, source: LangV, e: WordEntryV) -> bool {
        e.lang_code == source.code
    }

    fn keep_if(&self, source: &Lang, entry: &WordEntry) -> (b: bool) {
        entry.lang_code == source.code
    }

    open spec fn spec_preprocess_entry(&self, langs: LangsV, e: WordEntryV, opts: OptionsV) -> WordEntryV {
        e
    }

    open spec fn spec_preprocess_items(&self, langs: LangsV, e: WordEntryV, opts: OptionsV) -> Seq<
        IIpaV,
    > {
        Seq::<IIpaV>::empty()
    }

    fn preprocess(
        &self,
        langs: &Langs,
        entry: &mut WordEntry,
        opts: &Options,
        irs: &mut Vec<IIpa>,
    ) {
        proof {
            assert(irs.deep_view() =~= irs.deep_view() + Seq::<IIpaV>::empty());
        }
    }

    open spec fn spec_process(&self, langs: LangsV, e: WordEntryV) -> Seq<IIpaV> {
        spec_ipa_items(e)
    }

    fn process(&self, langs: &Langs, entry: &WordEntry, irs: &mut Vec<IIpa>) {
        process_ipa(&langs.edition, &langs.source, entry, irs);
    }

    open spec fn spec_postprocess(&self, items: Seq<IIpaV>) -> Seq<IIpaV> {
        items
    }

    fn postprocess(&self, irs: &mut Vec<IIpa>) {
    }

    open spec fn spec_to_yomitan(&self, langs: LangsV, items: Seq<IIpaV>) -> Seq<
        LabelledYomitanEntryV,
    > {
        seq![LabelledYomitanEntryV { label: "term"@, entries: spec_yomitan_ipa(items) }]
    }

    fn to_yomitan(&self, langs: Langs, irs: Vec<IIpa>) -> (out: Vec<LabelledYomitanEntry>) {
        let ghost items = irs.deep_view();
        let entries = to_yomitan_ipa(irs);
        let mut out: Vec<LabelledYomitanEntry> = Vec::new();
        out.push(LabelledYomitanEntry::new("term", entries));
        proof {
            assert(out.deep_view() =~= seq![
                LabelledYomitanEntryV { label: "term"@, entries: spec_yomitan_ipa(items) },
            ]);
        }
        out
    }
}

impl Dictionary for DIpaMerged {
    type Item = IIpa;

    open spec fn spec_keep(&self, source: LangV, e: WordEntryV) -> bool {
        e.lang_code == source.code
    }

    fn keep_if(&self, source: &Lang, entry: &WordEntry) -> (b: bool) {
        entry.lang_code == source.code
    }

    open spec fn spec_preprocess_entry(&self, langs: LangsV, e: WordEntryV, opts: OptionsV) -> WordEntryV {
        e
    }

    open spec fn spec_preprocess_items(&self, langs: LangsV, e: WordEntryV, opts: OptionsV) -> Seq<
        IIpaV,
    > {
        Seq::<IIpaV>::empty()
    }

    fn preprocess(
        &self,
        langs: &Langs,
        entry: &mut WordEntry,
        opts: &Options,
        irs: &mut Vec<IIpa>,
    ) {
        proof {
            assert(irs.deep_view() =~= irs.deep_view() + Seq::<IIpaV>::empty());
        }
    }

    open spec fn spec_process(&self, langs: LangsV, e: WordEntryV) -> Seq<IIpaV> {
        spec_ipa_items(e)
    }

    fn process(&self, langs: &Langs, entry: &WordEntry, irs: &mut Vec<IIpa>) {
        process_ipa(&langs.edition, &langs.source, entry, irs);
    }

    open spec fn spec_postprocess(&self, items: Seq<IIpaV>) -> Seq<IIpaV> {
        spec_postprocess_ipa_merged(items)
    }

    fn postprocess(&self, irs: &mut Vec<IIpa>) {
        postprocess_ipa_merged(irs);
    }

    open spec fn spec_to_yomitan(&self, langs: LangsV, items: Seq<IIpaV>) -> Seq<
        LabelledYomitanEntryV,
    > {
        seq![LabelledYomitanEntryV { label: "term"@, entries: spec_yomitan_ipa(items) }]
    }

    fn to_yomitan(&self, langs: Langs, irs: Vec<IIpa>) -> (out: Vec<LabelledYomitanEntry>) {
        let ghost items = irs.deep_view();
        let entries = to_yomitan_ipa(irs);
        let mut out: Vec<LabelledYomitanEntry> = Vec::new();
        out.push(LabelledYomitanEntry::new("term", entries));
        proof {
            assert(out.deep_view() =~= seq![
                LabelledYomitanEntryV { label: "term"@, entries: spec_yomitan_ipa(items) },
            ]);
        }
        out
    }
}


/// The head word an emitted entry carries.
pub open spec fn spec_entry_word(e: YomitanEntryV) -> Seq<char> {
    match e {
        YomitanEntryV::TermBank(t) => t.word,
        YomitanEntryV::TermBankMeta(TermBankMetaV::TermPhoneticTranscription(t)) => t.word,
    }
}

/// No two entries equal, and the words ascend: what the merged phonetic
/// kind promises of each entry set it emits.
pub open spec fn spec_entries_clean(es: Seq<YomitanEntryV>) -> bool {
    (forall|i: int, j: int| 0 <= i < j < es.len() ==> #[trigger] es[i] != #[trigger] es[j])
        && (forall|i: int, j: int|
        0 <= i <= j < es.len() ==> lex_le(
            spec_entry_word(#[trigger] es[i]),
            spec_entry_word(#[trigger] es[j]),
        ))
}

proof fn lemma_merged_bucket_clean(items: Seq<IIpaV>)
    ensures
        spec_entries_clean(spec_yomitan_ipa(spec_postprocess_ipa_merged(items))),
{
    let pp = spec_postprocess_ipa_merged(items);
    lemma_ipa_merged_no_duplicates(items);
    lemma_ipa_merged_sorted(items);
    lemma_ipa_emission_distinct(pp);
    let es = spec_yomitan_ipa(pp);
    assert forall|i: int, j: int| 0 <= i <= j < es.len() implies lex_le(
        spec_entry_word(es[i]),
        spec_entry_word(es[j]),
    ) by {
        assert(spec_entry_word(es[i]) == pp[i].0);
        assert(spec_entry_word(es[j]) == pp[j].0);
        assert(lex_le(pp[i].0, pp[j].0));
    };
}

proof fn lemma_merged_drain_clean(m: Seq<(LangsKeyV, Seq<IIpaV>)>)
    ensures
        forall|k: int, l: int|
            #![trigger spec_drain_buckets(DIpaMerged, m)[k].1[l]]
            0 <= k < spec_drain_buckets(DIpaMerged, m).len() && 0 <= l < spec_drain_buckets(
                DIpaMerged,
                m,
            )[k].1.len() ==> spec_entries_clean(spec_drain_buckets(DIpaMerged, m)[k].1[l].entries),
    decreases m.len(),
{
    if m.len() > 0 {
        lemma_merged_drain_clean(m.drop_last());
        let pre = spec_drain_buckets(DIpaMerged, m.drop_last());
        let whole = spec_drain_buckets(DIpaMerged, m);
        if m.last().1.len() == 0 {
            assert(whole =~= pre);
        } else {
            lemma_merged_bucket_clean(m.last().1);
            assert(forall|k: int| 0 <= k < pre.len() ==> whole[k] == pre[k]);
            assert(whole.last().1 =~= seq![
                LabelledYomitanEntryV {
                    label: "term"@,
                    entries: spec_yomitan_ipa(spec_postprocess_ipa_merged(m.last().1)),
                },
            ]);
        }
    }
}

/// Law: over any datasets and configuration, every entry set the merged
/// phonetic kind emits holds no two equal entries and is sorted ascending
/// by word.  Records contributed identically by several editions land in
/// one shared bucket and survive as one entry.
pub proof fn lemma_merged_run_clean(
    datasets: Seq<(LangV, Seq<WordEntryV>)>,
    source: LangV,
    target: LangV,
    opts: OptionsV,
)
    ensures
        forall|k: int, l: int|
            #![trigger spec_make_dict(DIpaMerged, datasets, source, target, opts)[k].1[l]]
            0 <= k < spec_make_dict(DIpaMerged, datasets, source, target, opts).len() && 0 <= l
                < spec_make_dict(DIpaMerged, datasets, source, target, opts)[k].1.len()
                ==> spec_entries_clean(
                spec_make_dict(DIpaMerged, datasets, source, target, opts)[k].1[l].entries,
            ),
{
    if !opts.skip_yomitan {
        let m = crate::dict::pipeline::spec_run_datasets(
            DIpaMerged,
            Seq::<(LangsKeyV, Seq<IIpaV>)>::empty(),
            datasets,
            source,
            target,
            opts,
        );
        lemma_merged_drain_clean(m);
    }
}

/// Every definition of the entry is flat text, and no two are equal.
pub open spec fn spec_text_defs_distinct(ds: Seq<DetailedDefinitionV>) -> bool {
    (forall|i: int| 0 <= i < ds.len() ==> (#[trigger] ds[i]) is Text)
        && (forall|i: int, j: int| 0 <= i < j < ds.len() ==> #[trigger] ds[i] != #[trigger] ds[j])
}

proof fn lemma_extended_bucket_defs(items: Seq<IGlossaryExtendedV>)
    ensures
        forall|i: int|
            0 <= i < spec_yomitan_ext(spec_postprocess_ext(items)).len()
                ==> match #[trigger] spec_yomitan_ext(spec_postprocess_ext(items))[i] {
                YomitanEntryV::TermBank(t) => spec_text_defs_distinct(t.definitions),
                YomitanEntryV::TermBankMeta(_) => false,
            },
{
    lemma_extended_defs_distinct(items);
    let pp = spec_postprocess_ext(items);
    let es = spec_yomitan_ext(pp);
    assert forall|i: int| 0 <= i < es.len() implies match #[trigger] es[i] {
        YomitanEntryV::TermBank(t) => spec_text_defs_distinct(t.definitions),
        YomitanEntryV::TermBankMeta(_) => false,
    } by {
        assert(spec_distinct_strs(pp[i].3));
        match es[i] {
            YomitanEntryV::TermBank(t) => {
                assert forall|a: int, b: int| 0 <= a < b < t.definitions.len() implies #[trigger] t
                    .definitions[a] != #[trigger] t.definitions[b] by {
                    assert(t.definitions[a] == DetailedDefinitionV::Text(pp[i].3[a]));
                    assert(t.definitions[b] == DetailedDefinitionV::Text(pp[i].3[b]));
                    assert(pp[i].3[a] != pp[i].3[b]);
                };
            },
            YomitanEntryV::TermBankMeta(_) => {},
        }
    };
}

proof fn lemma_extended_drain_defs(m: Seq<(LangsKeyV, Seq<IGlossaryExtendedV>)>)
    ensures
        forall|k: int, l: int|
            #![trigger spec_drain_buckets(DGlossaryExtended, m)[k].1[l]]
            0 <= k < spec_drain_buckets(DGlossaryExtended, m).len() && 0 <= l
                < spec_drain_buckets(DGlossaryExtended, m)[k].1.len() ==> (forall|i: int|
                0 <= i < spec_drain_buckets(DGlossaryExtended, m)[k].1[l].entries.len()
                    ==> match #[trigger] spec_drain_buckets(
                    DGlossaryExtended,
                    m,
                )[k].1[l].entries[i] {
                    YomitanEntryV::TermBank(t) => spec_text_defs_distinct(t.definitions),
                    YomitanEntryV::TermBankMeta(_) => false,
                }),
    decreases m.len(),
{
    if m.len() > 0 {
        lemma_extended_drain_defs(m.drop_last());
        let pre = spec_drain_buckets(DGlossaryExtended, m.drop_last());
        let whole = spec_drain_buckets(DGlossaryExtended, m);
        if m.last().1.len() == 0 {
            assert(whole =~= pre);
        } else {
            lemma_extended_bucket_defs(m.last().1);
            assert(forall|k: int| 0 <= k < pre.len() ==> whole[k] == pre[k]);
            assert(whole.last().1 =~= seq![
                LabelledYomitanEntryV {
                    label: "term"@,
                    entries: spec_yomitan_ext(spec_postprocess_ext(m.last().1)),
                },
            ]);
        }
    }
}

/// Law: over any datasets and configuration, every definition list the
/// extended glossary kind emits is a set of flat text definitions: no
/// translation occurs twice, whatever duplicate cross-references the input
/// carried.
pub proof fn lemma_extended_run_defs(
    datasets: Seq<(LangV, Seq<WordEntryV>)>,
    source: LangV,
    target: LangV,
    opts: OptionsV,
)
    ensures
        forall|k: int, l: int|
            #![trigger spec_make_dict(DGlossaryExtended, datasets, source, target, opts)[k].1[l]]
            0 <= k < spec_make_dict(DGlossaryExtended, datasets, source, target, opts).len() && 0
                <= l < spec_make_dict(DGlossaryExtended, datasets, source, target, opts)[k].1.len()
                ==> (forall|i: int|
                0 <= i < spec_make_dict(
                    DGlossaryExtended,
                    datasets,
                    source,
                    target,
                    opts,
                )[k].1[l].entries.len() ==> match #[trigger] spec_make_dict(
                    DGlossaryExtended,
                    datasets,
                    source,
                    target,
                    opts,
                )[k].1[l].entries[i] {
                    YomitanEntryV::TermBank(t) => spec_text_defs_distinct(t.definitions),
                    YomitanEntryV::TermBankMeta(_) => false,
                }),
{
    if !opts.skip_yomitan {
        let m = crate::dict::pipeline::spec_run_datasets(
            DGlossaryExtended,
            Seq::<(LangsKeyV, Seq<IGlossaryExtendedV>)>::empty(),
            datasets,
            source,
            target,
            opts,
        );
        lemma_extended_drain_defs(m);
    }
}

} // verus!
