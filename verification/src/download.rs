//! The download location of one edition's raw dataset.  The fetch itself is
//! the driver's business; the library only derives the URL.

use vstd::prelude::*;

use crate::lang::{Lang, LangV};
use crate::strutil::push_char;

verus! {

/// The characters kept when a long language name is flattened into a file
/// name: spaces and hyphens are dropped.
pub open spec fn spec_plain_char() -> spec_fn(char) -> bool {
    |c: char| c != ' ' && c != '-'
}

/// A long language name with its spaces and hyphens removed.
pub open spec fn spec_no_special(s: Seq<char>) -> Seq<char> {
    s.filter(spec_plain_char())
}

/// A long language name with each space written as its percent escape.
pub open spec fn spec_escaped(s: Seq<char>) -> Seq<char>
    decreases s.len(),
{
    if s.len() == 0 {
        Seq::<char>::empty()
    } else if s.last() == ' ' {
        spec_escaped(s.drop_last()) + "%20"@
    } else {
        spec_escaped(s.drop_last()).push(s.last())
    }
}

/// The URL of one edition's compressed line-delimited dataset.  The
/// English edition publishes one file per source language under the long
/// language name; every other edition publishes one file for all languages.
pub open spec fn spec_url_jsonl_gz(edition: LangV, source: LangV) -> Seq<char> {
    if edition.code == "en"@ {
        "https://kaikki.org/dictionary/"@ + spec_escaped(source.long)
            + "/kaikki.org-dictionary-"@ + spec_no_special(source.long) + ".jsonl.gz"@
    } else {
        "https://kaikki.org/"@ + edition.code + "wiktionary/raw-wiktextract-data.jsonl.gz"@
    }
}

/// The long name with spaces and hyphens removed.
fn no_special(long: &String) -> (r: String)
    ensures
        r@ == spec_no_special(long@),
{
    let mut r = String::new();
    let s = long.as_str();
    let n = s.unicode_len();
    let mut i: usize = 0;
    proof {
        reveal(Seq::filter);
        assert(long@.take(0int) =~= Seq::<char>::empty());
        assert(r@ =~= long@.take(0int).filter(spec_plain_char()));
    }
    while i < n
        invariant
            i <= n,
            n == long@.len(),
            s@ == long@,
            r@ == long@.take(i as int).filter(spec_plain_char()),
        decreases n - i,
    {
        let c = s.get_char(i);
        proof {
            reveal(Seq::filter);
            assert(long@.take(i + 1int).drop_last() =~= long@.take(i as int));
            assert(long@.take(i + 1int).last() == long@[i as int]);
        }
        if c != ' ' && c != '-' {
            push_char(&mut r, c);
        }
        i = i + 1;
    }
    proof {
        assert(long@.take(n as int) =~= long@);
    }
    r
}

/// The long name with spaces percent-escaped.
fn escaped(long: &String) -> (r: String)
    ensures
        r@ == spec_escaped(long@),
{
    let mut r = String::new();
    let s = long.as_str();
    let n = s.unicode_len();
    let mut i: usize = 0;
    proof {
        assert(long@.take(0int) =~= Seq::<char>::empty());
        assert(r@ =~= spec_escaped(long@.take(0int)));
    }
    while i < n
        invariant
            i <= n,
            n == long@.len(),
            s@ == long@,
            r@ == spec_escaped(long@.take(i as int)),
        decreases n - i,
    {
        let c = s.get_char(i);
        proof {
            assert(long@.take(i + 1int).drop_last() =~= long@.take(i as int));
            assert(long@.take(i + 1int).last() == long@[i as int]);
        }
        if c == ' ' {
            r.append("%20");
        } else {
            push_char(&mut r, c);
        }
        i = i + 1;
    }
    proof {
        assert(long@.take(n as int) =~= long@);
    }
    r
}

/// The URL to download this edition's raw dataset from, as published per
/// source language by the English edition and per edition by the others.
pub fn url_jsonl_gz(edition: &Lang, source: &Lang) -> (r: String)
    ensures
        r@ == spec_url_jsonl_gz(edition.deep_view(), source.deep_view()),
{
    if edition.code == String::from_str("en") {
        let mut r = String::from_str("https://kaikki.org/dictionary/");
        let e = escaped(&source.long);
        r.append(e.as_str());
        r.append("/kaikki.org-dictionary-");
        let p = no_special(&source.long);
        r.append(p.as_str());
        r.append(".jsonl.gz");
        r
    } else {
        let mut r = String::from_str("https://kaikki.org/");
        r.append(edition.code.as_str());
        r.append("wiktionary/raw-wiktextract-data.jsonl.gz");
        r
    }
}

} // verus!
