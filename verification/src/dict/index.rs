//! The dictionary index metadata: the download and index URLs of one
//! dictionary, and the index document the viewer reads to check for
//! updates.

use vstd::prelude::*;

use crate::lang::{Lang, LangV};

verus! {

/// The base of every published artifact URL.
pub open spec fn spec_base_url() -> Seq<char> {
    "https://huggingface.co/datasets/daxida/test-dataset/resolve/main"@
}

/// The URL one dictionary is downloaded from.
pub open spec fn spec_download_url(name: Seq<char>, source: LangV, target: LangV) -> Seq<char> {
    spec_base_url() + "/dict/"@ + target.code + "/"@ + source.code + "/"@ + name
        + ".zip?download=true"@
}

/// The URL of the published copy of one dictionary's index.
pub open spec fn spec_index_url(name: Seq<char>) -> Seq<char> {
    spec_base_url() + "/index/"@ + name + "-index?download=true"@
}

/// The URL to download this dictionary.
pub fn download_url(dict_name_expanded: &str, source: &Lang, target: &Lang) -> (r: String)
    ensures
        r@ == spec_download_url(dict_name_expanded@, source.deep_view(), target.deep_view()),
{
    let mut r = String::from_str(
        "https://huggingface.co/datasets/daxida/test-dataset/resolve/main",
    );
    r.append("/dict/");
    r.append(target.code.as_str());
    r.append("/");
    r.append(source.code.as_str());
    r.append("/");
    r.append(dict_name_expanded);
    r.append(".zip?download=true");
    r
}

/// The URL of the cloned index of this dictionary.
pub fn index_url(dict_name_expanded: &str) -> (r: String)
    ensures
        r@ == spec_index_url(dict_name_expanded@),
{
    let mut r = String::from_str(
        "https://huggingface.co/datasets/daxida/test-dataset/resolve/main",
    );
    r.append("/index/");
    r.append(dict_name_expanded);
    r.append("-index?download=true");
    r
}

/// Relies on `chrono::Utc::now`: the current date, dot-separated as
/// year.month.day.  The result depends on the clock, so nothing is promised
/// of it.
#[verifier::external_body]
fn utc_today_dotted() -> (r: String) {
    chrono::Utc::now().format("%Y.%m.%d").to_string()
}

/// The index document for one dictionary, with the given revision date.
pub open spec fn spec_index_json(
    name: Seq<char>,
    source: LangV,
    target: LangV,
    revision: Seq<char>,
) -> Seq<char> {
    "{\n  \"title\": \""@ + name + "\",\n  \"format\": 3,\n  \"revision\": \""@ + revision
        + "\",\n  \"sequenced\": true,\n  \"author\": \"kty contributors\",\n  \"url\": \"https://github.com/daxida/kty\",\n  \"description\": \"Dictionaries for various language pairs generated from Wiktionary data, via Kaikki and kty.\",\n  \"attribution\": \"https://kaikki.org/\",\n  \"sourceLanguage\": \""@
        + source.code + "\",\n  \"targetLanguage\": \""@ + target.code
        + "\",\n  \"isUpdatable\": true,\n  \"indexUrl\": \""@ + spec_index_url(name)
        + "\",\n  \"downloadUrl\": \""@ + spec_download_url(name, source, target) + "\"\n}"@
}

/// Renders the index document for one dictionary with an explicit revision
/// date.
pub fn render_index(dict_name_expanded: &str, source: &Lang, target: &Lang, revision: &String) -> (r:
    String)
    ensures
        r@ == spec_index_json(
            dict_name_expanded@,
            source.deep_view(),
            target.deep_view(),
            revision@,
        ),
{
    let iurl = index_url(dict_name_expanded);
    let durl = download_url(dict_name_expanded, source, target);
    let mut r = String::from_str("{\n  \"title\": \"");
    r.append(dict_name_expanded);
    r.append("\",\n  \"format\": 3,\n  \"revision\": \"");
    r.append(revision.as_str());
    r.append(
        "\",\n  \"sequenced\": true,\n  \"author\": \"kty contributors\",\n  \"url\": \"https://github.com/daxida/kty\",\n  \"description\": \"Dictionaries for various language pairs generated from Wiktionary data, via Kaikki and kty.\",\n  \"attribution\": \"https://kaikki.org/\",\n  \"sourceLanguage\": \"",
    );
    r.append(source.code.as_str());
    r.append("\",\n  \"targetLanguage\": \"");
    r.append(target.code.as_str());
    r.append("\",\n  \"isUpdatable\": true,\n  \"indexUrl\": \"");
    r.append(iurl.as_str());
    r.append("\",\n  \"downloadUrl\": \"");
    r.append(durl.as_str());
    r.append("\"\n}");
    r
}

/// The dictionary index document, dated with today's date as its revision.
/// The revision is whatever the clock gave; everything else is pinned.
pub fn get_index(dict_name_expanded: &str, source: &Lang, target: &Lang) -> (r: String)
    ensures
        exists|revision: Seq<char>|
            r@ == spec_index_json(
                dict_name_expanded@,
                source.deep_view(),
                target.deep_view(),
                revision,
            ),
{
    let current_date = utc_today_dotted();
    let r = render_index(dict_name_expanded, source, target, &current_date);
    proof {
        assert(r@ == spec_index_json(
            dict_name_expanded@,
            source.deep_view(),
            target.deep_view(),
            current_date@,
        ));
    }
    r
}

} // verus!
