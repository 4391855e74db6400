use wty::dict::index::{download_url, index_url, render_index};
use wty::download::url_jsonl_gz;
use wty::lang::Lang;

fn lang(code: &str, long: &str) -> Lang {
    Lang::new(code.to_string(), long.to_string())
}

#[test]
fn urls() {
    let dict_name = "kty-afb-en-ipa";
    let durl = download_url(dict_name, &lang("en", "English"), &lang("afb", "Gulf Arabic"));
    assert_eq!(
        durl,
        "https://huggingface.co/datasets/daxida/test-dataset/resolve/main/dict/afb/en/kty-afb-en-ipa.zip?download=true"
    );
    let iurl = index_url(dict_name);
    assert_eq!(
        iurl,
        "https://huggingface.co/datasets/daxida/test-dataset/resolve/main/index/kty-afb-en-ipa-index?download=true"
    );
}

#[test]
fn jsonl_url_of_english_edition_uses_long_name() {
    let url = url_jsonl_gz(&lang("en", "English"), &lang("sh", "Serbo-Croatian"));
    assert_eq!(
        url,
        "https://kaikki.org/dictionary/Serbo-Croatian/kaikki.org-dictionary-SerboCroatian.jsonl.gz"
    );
}

#[test]
fn jsonl_url_escapes_spaces() {
    let url = url_jsonl_gz(&lang("en", "English"), &lang("grc", "Ancient Greek"));
    assert_eq!(
        url,
        "https://kaikki.org/dictionary/Ancient%20Greek/kaikki.org-dictionary-AncientGreek.jsonl.gz"
    );
}

#[test]
fn jsonl_url_of_other_editions_is_per_edition() {
    let url = url_jsonl_gz(&lang("el", "Greek"), &lang("en", "English"));
    assert_eq!(url, "https://kaikki.org/elwiktionary/raw-wiktextract-data.jsonl.gz");
}

#[test]
fn index_document_carries_the_revision() {
    let json = render_index(
        "kty-el-en",
        &lang("el", "Greek"),
        &lang("en", "English"),
        &"2024.01.02".to_string(),
    );
    assert!(json.contains("\"revision\": \"2024.01.02\""));
    assert!(json.contains("\"sourceLanguage\": \"el\""));
    assert!(json.contains("\"targetLanguage\": \"en\""));
    assert!(json.contains(
        "https://huggingface.co/datasets/daxida/test-dataset/resolve/main/index/kty-el-en-index?download=true"
    ));
    let dated = wty::dict::index::get_index("kty-el-en", &lang("el", "Greek"), &lang("en", "English"));
    assert!(dated.starts_with("{\n  \"title\": \"kty-el-en\""));
    assert!(dated.contains("\"isUpdatable\": true"));
}
