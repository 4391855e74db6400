use wty::dict::other::find_short_pos;
use wty::dict::pipeline::Intermediate;
use wty::lang::{EditionSpec, Lang, Langs, LangsKey};
use wty::models::{Translation, WordEntry};
use wty::options::{rejected, FieldKey, Options};
use wty::yomitan::{LabelledYomitanEntry, YomitanEntry};

fn lang(code: &str, long: &str) -> Lang {
    Lang::new(code.to_string(), long.to_string())
}

fn record(word: &str, pos: &str, lang_code: &str) -> WordEntry {
    WordEntry {
        word: word.to_string(),
        pos: pos.to_string(),
        lang_code: lang_code.to_string(),
        senses: vec![],
        translations: vec![],
        ipas: vec![],
        reading: None,
    }
}

#[test]
fn self_marker_and_codes() {
    assert!(lang("simple", "Simple English").is_self_marker());
    assert!(!lang("en", "English").is_self_marker());
    assert!(lang("en", "English").same_code(&lang("en", "English")));
    assert!(!lang("en", "English").same_code(&lang("el", "Greek")));
}

#[test]
fn keys_compare_by_content() {
    let a = LangsKey {
        edition: EditionSpec::One(lang("en", "English")),
        source: lang("en", "English"),
        target: lang("el", "Greek"),
    };
    let b = LangsKey {
        edition: EditionSpec::One(lang("en", "English")),
        source: lang("en", "English"),
        target: lang("el", "Greek"),
    };
    let c = LangsKey { edition: EditionSpec::All, source: lang("en", "English"), target: lang("el", "Greek") };
    assert!(a.key_eq(&b));
    assert!(!a.key_eq(&c));
    let l = Langs::new(lang("en", "English"), lang("en", "English"), lang("el", "Greek"));
    assert_eq!(l.target.code, "el");
}

#[test]
fn filter_rules_must_all_match() {
    let opts = Options {
        filter: vec![(FieldKey::Pos, "noun".to_string())],
        reject: vec![],
        redownload: false,
        skip_yomitan: false,
    };
    assert!(!rejected(&record("cat", "noun", "en"), &opts));
    assert!(rejected(&record("run", "verb", "en"), &opts));
}

#[test]
fn reject_rules_drop_on_any_match() {
    let opts = Options {
        filter: vec![],
        reject: vec![
            (FieldKey::Word, "cat".to_string()),
            (FieldKey::LangCode, "de".to_string()),
        ],
        redownload: false,
        skip_yomitan: false,
    };
    assert!(rejected(&record("cat", "noun", "en"), &opts));
    assert!(rejected(&record("Hund", "noun", "de"), &opts));
    assert!(!rejected(&record("dog", "noun", "en"), &opts));
}

#[test]
fn pos_lookup_abbreviates_known_tags() {
    assert_eq!(find_short_pos(&"noun".to_string()), Some("n".to_string()));
    assert_eq!(find_short_pos(&"adverb".to_string()), Some("adv".to_string()));
    assert_eq!(find_short_pos(&"proverb".to_string()), None);
}

#[test]
fn non_trivial_translations_drop_empty_words() {
    let mut e = record("cat", "noun", "en");
    e.translations = vec![
        Translation { lang_code: "el".to_string(), sense: "".to_string(), word: "".to_string() },
        Translation { lang_code: "".to_string(), sense: "".to_string(), word: "x".to_string() },
        Translation {
            lang_code: "el".to_string(),
            sense: "pet".to_string(),
            word: "gata".to_string(),
        },
    ];
    let kept = e.non_trivial_translations();
    assert_eq!(kept.len(), 1);
    assert_eq!(kept[0].word, "gata");
}

#[test]
fn labelled_entry_sets_carry_their_label() {
    let entries: Vec<YomitanEntry> = vec![];
    let l = LabelledYomitanEntry::new("term", entries);
    assert_eq!(l.label, "term");
    assert_eq!(Intermediate::len(&l.entries), 0);
    assert!(Intermediate::is_empty(&l.entries));
}
