use wty::dict::other::{
    postprocess_glossary_extended, postprocess_ipa_merged, process_glossary,
    process_glossary_extended, process_ipa, to_yomitan_glossary_extended, to_yomitan_ipa, IIpa,
    IGlossaryExtended,
};
use wty::lang::Lang;
use wty::models::{Translation, WordEntry};
use wty::yomitan::{
    DetailedDefinition, PhoneticTranscription, TermBank, TermBankMeta, TermPhoneticTranscription,
    YomitanEntry,
};

fn lang(code: &str, long: &str) -> Lang {
    Lang::new(code.to_string(), long.to_string())
}

fn tr(lang_code: &str, sense: &str, word: &str) -> Translation {
    Translation {
        lang_code: lang_code.to_string(),
        sense: sense.to_string(),
        word: word.to_string(),
    }
}

fn entry(word: &str, pos: &str, lang_code: &str, translations: Vec<Translation>) -> WordEntry {
    WordEntry {
        word: word.to_string(),
        pos: pos.to_string(),
        lang_code: lang_code.to_string(),
        senses: vec![],
        translations,
        ipas: vec![],
        reading: None,
    }
}

#[test]
fn glossary_skips_record_with_no_matching_translation() {
    let e = entry("cat", "noun", "en", vec![tr("de", "", "Katze")]);
    let mut irs: Vec<YomitanEntry> = Vec::new();
    process_glossary(&lang("en", "English"), &lang("el", "Greek"), &e, &mut irs);
    assert!(irs.is_empty());
}

#[test]
fn glossary_groups_a_labelled_sense_into_one_block() {
    let e = entry("cat", "noun", "en", vec![tr("el", "X", "a"), tr("el", "X", "b")]);
    let mut irs: Vec<YomitanEntry> = Vec::new();
    process_glossary(&lang("en", "English"), &lang("el", "Greek"), &e, &mut irs);
    let expected = YomitanEntry::TermBank(TermBank(
        "cat".to_string(),
        "cat".to_string(),
        "n".to_string(),
        "n".to_string(),
        vec![DetailedDefinition::Sense {
            sense: "X".to_string(),
            translations: vec!["a".to_string(), "b".to_string()],
        }],
    ));
    assert_eq!(irs, vec![expected]);
}

#[test]
fn glossary_turns_unlabelled_translations_into_text_definitions() {
    let e = entry(
        "cat",
        "proverb",
        "en",
        vec![tr("el", "", "gata"), tr("el", "", "gatos"), tr("de", "", "Katze")],
    );
    let mut irs: Vec<YomitanEntry> = Vec::new();
    process_glossary(&lang("en", "English"), &lang("el", "Greek"), &e, &mut irs);
    let expected = YomitanEntry::TermBank(TermBank(
        "cat".to_string(),
        "cat".to_string(),
        "proverb".to_string(),
        "proverb".to_string(),
        vec![
            DetailedDefinition::Text("gata".to_string()),
            DetailedDefinition::Text("gatos".to_string()),
        ],
    ));
    assert_eq!(irs, vec![expected]);
}

#[test]
fn glossary_uses_resolved_reading_and_drops_trivial_translations() {
    let mut e = entry("cat", "verb", "en", vec![tr("el", "", ""), tr("el", "", "gata")]);
    e.reading = Some("kat".to_string());
    let mut irs: Vec<YomitanEntry> = Vec::new();
    process_glossary(&lang("en", "English"), &lang("el", "Greek"), &e, &mut irs);
    match &irs[0] {
        YomitanEntry::TermBank(TermBank(word, reading, pos, _, defs)) => {
            assert_eq!(word, "cat");
            assert_eq!(reading, "kat");
            assert_eq!(pos, "v");
            assert_eq!(defs, &vec![DetailedDefinition::Text("gata".to_string())]);
        }
        other => panic!("unexpected entry: {other:?}"),
    }
}

#[test]
fn extended_glossary_pairs_target_words_with_source_words() {
    let e = entry(
        "Gibraltar",
        "name",
        "en",
        vec![
            tr("el", "territory", "target-a"),
            tr("sq", "territory", "src-a"),
            tr("sq", "territory", "src-b"),
            tr("el", "only-target", "lonely"),
        ],
    );
    let mut irs: Vec<IGlossaryExtended> = Vec::new();
    process_glossary_extended(
        &lang("en", "English"),
        &lang("sq", "Albanian"),
        &lang("el", "Greek"),
        &e,
        &mut irs,
    );
    // The sense matched on one side only is discarded; the matched sense
    // yields one item per target-side word.
    assert_eq!(irs.len(), 1);
    let (lemma, pos, edition, defs) = &irs[0];
    assert_eq!(lemma, "target-a");
    assert_eq!(pos, "name");
    assert_eq!(edition.code, "en");
    assert_eq!(defs, &vec!["src-a".to_string(), "src-b".to_string()]);
}

#[test]
fn extended_postprocess_unions_definitions_without_duplicates() {
    let en = lang("en", "English");
    let mut irs: Vec<IGlossaryExtended> = vec![
        (
            "w".to_string(),
            "n".to_string(),
            en.clone(),
            vec!["a".to_string(), "b".to_string(), "a".to_string()],
        ),
        (
            "w".to_string(),
            "adj".to_string(),
            en.clone(),
            vec!["b".to_string(), "c".to_string()],
        ),
        ("v".to_string(), "n".to_string(), en.clone(), vec!["x".to_string()]),
    ];
    postprocess_glossary_extended(&mut irs);
    assert_eq!(irs.len(), 2);
    let (lemma, pos, _, defs) = &irs[0];
    assert_eq!(lemma, "w");
    // The first-seen tag wins; the definitions are deduplicated.
    assert_eq!(pos, "n");
    assert_eq!(defs, &vec!["a".to_string(), "b".to_string(), "c".to_string()]);
    let (lemma2, _, _, defs2) = &irs[1];
    assert_eq!(lemma2, "v");
    assert_eq!(defs2, &vec!["x".to_string()]);
}

#[test]
fn extended_emission_writes_flat_text_definitions() {
    let en = lang("en", "English");
    let irs: Vec<IGlossaryExtended> = vec![(
        "w".to_string(),
        "n".to_string(),
        en,
        vec!["a".to_string(), "b".to_string()],
    )];
    let out = to_yomitan_glossary_extended(irs);
    let expected = YomitanEntry::TermBank(TermBank(
        "w".to_string(),
        "".to_string(),
        "n".to_string(),
        "n".to_string(),
        vec![
            DetailedDefinition::Text("a".to_string()),
            DetailedDefinition::Text("b".to_string()),
        ],
    ));
    assert_eq!(out, vec![expected]);
}

fn ipa_entry(word: &str, ipas: Vec<&str>) -> WordEntry {
    WordEntry {
        word: word.to_string(),
        pos: "noun".to_string(),
        lang_code: "el".to_string(),
        senses: vec![],
        translations: vec![],
        ipas: ipas.into_iter().map(|s| s.to_string()).collect(),
        reading: None,
    }
}

#[test]
fn ipa_transform_skips_records_without_transcriptions() {
    let e = ipa_entry("cat", vec![]);
    let mut irs: Vec<IIpa> = Vec::new();
    process_ipa(&lang("en", "English"), &lang("el", "Greek"), &e, &mut irs);
    assert!(irs.is_empty());
}

#[test]
fn ipa_transform_pairs_word_with_transcriptions() {
    let e = ipa_entry("cat", vec!["/kat/"]);
    let mut irs: Vec<IIpa> = Vec::new();
    process_ipa(&lang("en", "English"), &lang("el", "Greek"), &e, &mut irs);
    assert_eq!(irs.len(), 1);
    assert_eq!(irs[0].0, "cat");
    assert_eq!(irs[0].1.reading, "cat");
    assert_eq!(irs[0].1.transcriptions, vec!["/kat/".to_string()]);
}

fn ipa_item(word: &str, t: &str) -> IIpa {
    (
        word.to_string(),
        PhoneticTranscription { reading: word.to_string(), transcriptions: vec![t.to_string()] },
    )
}

#[test]
fn ipa_merged_postprocess_dedups_and_sorts() {
    let mut irs: Vec<IIpa> = vec![
        ipa_item("b", "/b/"),
        ipa_item("a", "/a/"),
        ipa_item("b", "/b/"),
        ipa_item("a", "/a2/"),
    ];
    postprocess_ipa_merged(&mut irs);
    assert_eq!(
        irs,
        vec![ipa_item("a", "/a/"), ipa_item("a", "/a2/"), ipa_item("b", "/b/")]
    );
}

#[test]
fn ipa_emission_wraps_items_as_phonetic_metadata() {
    let out = to_yomitan_ipa(vec![ipa_item("a", "/a/")]);
    let expected = YomitanEntry::TermBankMeta(TermBankMeta::TermPhoneticTranscription(
        TermPhoneticTranscription(
            "a".to_string(),
            "ipa".to_string(),
            PhoneticTranscription {
                reading: "a".to_string(),
                transcriptions: vec!["/a/".to_string()],
            },
        ),
    ));
    assert_eq!(out, vec![expected]);
}
