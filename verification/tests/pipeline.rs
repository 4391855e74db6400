use wty::dict::other::{DGlossary, DIpaMerged};
use wty::dict::pipeline::{
    find_or_download_jsonl, iter_datasets, make_dict, DatasetPath, DatasetPaths, PathKind,
    PathManager,
};
use wty::dict::release::{combination_allowed, fanout_pairs, fetch_lang, langs_for, EditionFrom, EditionIs};
use wty::lang::{EditionSpec, Lang, Langs};
use wty::models::{Translation, WordEntry};
use wty::options::{FieldKey, Options};
use wty::yomitan::{TermBankMeta, YomitanEntry};

fn lang(code: &str, long: &str) -> Lang {
    Lang::new(code.to_string(), long.to_string())
}

fn ipa_record(word: &str, lang_code: &str, ipa: &str) -> WordEntry {
    WordEntry {
        word: word.to_string(),
        pos: "noun".to_string(),
        lang_code: lang_code.to_string(),
        senses: vec![],
        translations: vec![],
        ipas: vec![ipa.to_string()],
        reading: Some(word.to_string()),
    }
}

#[test]
fn merged_kind_dedups_across_editions() {
    // Two editions carry the same record for "foo": the edition-merged
    // phonetic kind emits exactly one entry for it.
    let datasets = vec![
        (lang("en", "English"), vec![ipa_record("foo", "el", "/fo/")]),
        (lang("de", "German"), vec![ipa_record("foo", "el", "/fo/")]),
    ];
    let out = make_dict(
        &DIpaMerged,
        &datasets,
        &lang("el", "Greek"),
        &lang("el", "Greek"),
        &Options::new(),
    );
    assert_eq!(out.len(), 1);
    let (key, labelled) = &out[0];
    assert_eq!(key.edition, EditionSpec::All);
    assert_eq!(labelled.len(), 1);
    assert_eq!(labelled[0].label, "term");
    assert_eq!(labelled[0].entries.len(), 1);
    match &labelled[0].entries[0] {
        YomitanEntry::TermBankMeta(TermBankMeta::TermPhoneticTranscription(t)) => {
            assert_eq!(t.0, "foo");
            assert_eq!(t.1, "ipa");
        }
        other => panic!("unexpected entry: {other:?}"),
    }
}

#[test]
fn glossary_kind_buckets_per_edition() {
    let record = WordEntry {
        word: "cat".to_string(),
        pos: "noun".to_string(),
        lang_code: "en".to_string(),
        senses: vec![],
        translations: vec![Translation {
            lang_code: "el".to_string(),
            sense: "".to_string(),
            word: "gata".to_string(),
        }],
        ipas: vec![],
        reading: None,
    };
    let datasets = vec![(lang("en", "English"), vec![record])];
    let out = make_dict(
        &DGlossary,
        &datasets,
        &lang("en", "English"),
        &lang("el", "Greek"),
        &Options::new(),
    );
    assert_eq!(out.len(), 1);
    let (key, labelled) = &out[0];
    assert_eq!(key.edition, EditionSpec::One(lang("en", "English")));
    assert_eq!(labelled[0].entries.len(), 1);
}

#[test]
fn global_reject_rules_drop_records_before_transform() {
    let record = ipa_record("foo", "el", "/fo/");
    let datasets = vec![(lang("en", "English"), vec![record])];
    let opts = Options {
        filter: vec![],
        reject: vec![(FieldKey::Word, "foo".to_string())],
        redownload: false,
        skip_yomitan: false,
    };
    let out = make_dict(&DIpaMerged, &datasets, &lang("el", "Greek"), &lang("el", "Greek"), &opts);
    assert!(out.is_empty());
}

#[test]
fn skip_yomitan_emits_nothing() {
    let datasets = vec![(lang("en", "English"), vec![ipa_record("foo", "el", "/fo/")])];
    let opts = Options { filter: vec![], reject: vec![], redownload: false, skip_yomitan: true };
    let out = make_dict(&DIpaMerged, &datasets, &lang("el", "Greek"), &lang("el", "Greek"), &opts);
    assert!(out.is_empty());
}

#[test]
fn kind_selection_filters_by_language() {
    // A record in another language than the requested source is not kept.
    let datasets = vec![(lang("en", "English"), vec![ipa_record("foo", "de", "/fo/")])];
    let out = make_dict(
        &DIpaMerged,
        &datasets,
        &lang("el", "Greek"),
        &lang("el", "Greek"),
        &Options::new(),
    );
    assert!(out.is_empty());
}

#[test]
fn self_pairing_is_never_planned() {
    // An edition never pairs with its own language, save the self marker
    // with itself.
    let editions = vec![lang("en", "English"), lang("simple", "Simple English")];
    let langs = vec![
        lang("en", "English"),
        lang("el", "Greek"),
        lang("simple", "Simple English"),
    ];
    let plan = fanout_pairs(&editions, &langs);
    let codes: Vec<(String, String)> = plan
        .iter()
        .map(|(e, l)| (e.code.clone(), l.code.clone()))
        .collect();
    assert_eq!(
        codes,
        vec![
            ("en".to_string(), "el".to_string()),
            ("simple".to_string(), "simple".to_string()),
        ]
    );
    assert!(!combination_allowed(&lang("en", "English"), &lang("en", "English")));
    assert!(combination_allowed(
        &lang("simple", "Simple English"),
        &lang("simple", "Simple English")
    ));
}

#[test]
fn edition_side_decides_the_fetched_language() {
    let langs = Langs::new(lang("en", "English"), lang("el", "Greek"), lang("en", "English"));
    // A kind whose edition is the target reads source-language records.
    assert_eq!(fetch_lang(&wty::dict::other::DIpa, &langs).code, "el");
    // A kind whose edition is the source reads target-language records.
    let glangs = Langs::new(lang("en", "English"), lang("en", "English"), lang("el", "Greek"));
    assert_eq!(fetch_lang(&DGlossary, &glangs).code, "el");
    assert_eq!(wty::dict::other::DIpa.edition_is(), EditionIs::Target);
    let planned = langs_for(&DGlossary, &lang("en", "English"), &lang("el", "Greek"));
    assert_eq!(planned.source.code, "en");
    assert_eq!(planned.target.code, "el");
}

fn pm(redownload: bool, exists_first: bool) -> PathManager {
    PathManager {
        opts: Options { filter: vec![], reject: vec![], redownload, skip_yomitan: false },
        editions: vec![lang("en", "English")],
        source: lang("el", "Greek"),
        target: lang("en", "English"),
        datasets: vec![DatasetPaths {
            edition: lang("en", "English"),
            lang: Some(lang("el", "Greek")),
            inner: vec![
                DatasetPath {
                    kind: PathKind::Gz,
                    path: "data/en-el.jsonl.gz".to_string(),
                    exists: true,
                },
                DatasetPath {
                    kind: PathKind::Unfiltered,
                    path: "data/en-el.jsonl".to_string(),
                    exists: exists_first,
                },
                DatasetPath {
                    kind: PathKind::Filtered,
                    path: "data/en-el-filtered.jsonl".to_string(),
                    exists: false,
                },
            ],
        }],
    }
}

#[test]
fn existing_dataset_file_wins() {
    let p = pm(false, true);
    let chosen = find_or_download_jsonl(&lang("en", "English"), Some(&lang("el", "Greek")), &p);
    assert_eq!(chosen, "data/en-el.jsonl");
}

#[test]
fn forced_redownload_targets_the_last_candidate() {
    let p = pm(true, true);
    let chosen = find_or_download_jsonl(&lang("en", "English"), Some(&lang("el", "Greek")), &p);
    assert_eq!(chosen, "data/en-el-filtered.jsonl");
    let none_exist = pm(false, false);
    let chosen2 =
        find_or_download_jsonl(&lang("en", "English"), Some(&lang("el", "Greek")), &none_exist);
    assert_eq!(chosen2, "data/en-el-filtered.jsonl");
}

#[test]
fn iter_datasets_resolves_every_requested_edition() {
    let p = pm(false, true);
    let list = iter_datasets(&p);
    assert_eq!(list.len(), 1);
    assert_eq!(list[0].0.code, "en");
    assert_eq!(list[0].1, "data/en-el.jsonl");
}
