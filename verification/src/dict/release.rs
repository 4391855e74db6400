//! The persistent record cache and the release fan-out planning.
//!
//! The cache keeps one store per edition with (language code, encoded
//! record) rows: populated once, read many times.  The planning enumerates
//! the (edition, language) combinations a release run drives, under the
//! validity rules; a driver runs the pipeline for each planned combination.

use vstd::prelude::*;

use crate::dict::other::{DGlossary, DIpa, DIpaMerged};
use crate::lang::{Lang, LangV, Langs, LangsV};

verus! {

#[verifier::external_type_specification]
#[verifier::external_body]
pub struct ExConnection(rusqlite::Connection);

#[verifier::external_type_specification]
#[verifier::external_body]
pub struct ExRusqliteError(rusqlite::Error);

/// What a cache store holds: its (language code, encoded record) rows, in
/// insertion order.
pub uninterp spec fn db_rows(conn: rusqlite::Connection) -> Seq<(Seq<char>, Seq<u8>)>;

/// The rows of one language, reduced to their encoded records, in storage
/// order.
pub open spec fn spec_rows_for_lang(rows: Seq<(Seq<char>, Seq<u8>)>, lang: Seq<char>) -> Seq<
    Seq<u8>,
> {
    rows.filter(|r: (Seq<char>, Seq<u8>)| r.0 == lang).map_values(
        |r: (Seq<char>, Seq<u8>)| r.1,
    )
}

/// An error of the record cache: the store could not be opened, read or
/// written.
#[derive(Debug, Clone, Copy, PartialEq, Eq, Structural)]
pub enum CacheError {
    Store,
}

/// One edition's persistent record store.
pub struct WiktextractDb {
    pub conn: rusqlite::Connection,
}

/// Relies on `rusqlite::Connection::open`: opens the store file at this
/// path, creating it on first use; what it holds is whatever the file held.
#[verifier::external_body]
fn db_open(path: &String) -> (r: Result<rusqlite::Connection, rusqlite::Error>) {
    rusqlite::Connection::open(path.as_str())
}

/// Relies on `rusqlite::Connection::execute_batch` running CREATE TABLE IF
/// NOT EXISTS: an existing table keeps its rows; a missing table is created
/// empty.
#[verifier::external_body]
fn db_init_schema(db: &mut WiktextractDb) -> (r: Result<(), rusqlite::Error>)
    ensures
        r is Ok ==> db_rows(final(db).conn) == db_rows(old(db).conn) || db_rows(final(db).conn)
            == Seq::<(Seq<char>, Seq<u8>)>::empty(),
        !(r is Ok) ==> db_rows(final(db).conn) == db_rows(old(db).conn) || db_rows(
            final(db).conn,
        ) == Seq::<(Seq<char>, Seq<u8>)>::empty(),
{
    db.conn.execute_batch(
        "CREATE TABLE IF NOT EXISTS wiktextract (
            id INTEGER PRIMARY KEY,
            lang TEXT NOT NULL,
            entry BLOB NOT NULL
        );
        CREATE INDEX IF NOT EXISTS wiktextract_lang ON wiktextract(lang);",
    )
}

/// Relies on `rusqlite::Connection::query_row` running SELECT COUNT(*): the
/// number of rows the store holds.
#[verifier::external_body]
fn db_row_count(db: &WiktextractDb) -> (r: Result<u64, rusqlite::Error>)
    ensures
        r matches Ok(n) ==> n == db_rows(db.conn).len(),
{
    let n: rusqlite::Result<i64> = db.conn.query_row("SELECT COUNT(*) FROM wiktextract", [], |row| row.get(0));
    n.map(|c| c as u64)
}

/// Relies on rusqlite's transactions and a prepared INSERT: all rows are
/// appended in one transaction; on failure the transaction rolls back and
/// the store is unchanged.
#[verifier::external_body]
fn db_bulk_append(db: &mut WiktextractDb, rows: &Vec<(String, Vec<u8>)>) -> (r: Result<
    (),
    rusqlite::Error,
>)
    ensures
        r is Ok ==> db_rows(final(db).conn) == db_rows(old(db).conn) + rows.deep_view(),
        !(r is Ok) ==> db_rows(final(db).conn) == db_rows(old(db).conn),
{
    let mut run = || -> rusqlite::Result<()> {
        let tx = db.conn.transaction()?;
        {
            let mut stmt = tx.prepare("INSERT INTO wiktextract (lang, entry) VALUES (?1, ?2)")?;
            for (lang, blob) in rows.iter() {
                stmt.execute((lang, blob))?;
            }
        }
        tx.commit()
    };
    run()
}

/// Relies on a prepared SELECT with WHERE lang = ? ORDER BY id: the encoded
/// records of that language, in insertion order.
#[verifier::external_body]
fn db_fetch_blobs(db: &WiktextractDb, lang: &String) -> (r: Result<Vec<Vec<u8>>, rusqlite::Error>)
    ensures
        r matches Ok(v) ==> v.deep_view() == spec_rows_for_lang(db_rows(db.conn), lang@),
{
    let run = || -> rusqlite::Result<Vec<Vec<u8>>> {
        let mut stmt = db.conn.prepare("SELECT entry FROM wiktextract WHERE lang = ?1 ORDER BY id")?;
        let rows = stmt.query_map([lang], |row| row.get(0))?;
        rows.collect()
    };
    run()
}

/// The on-disk location of one edition's store.
pub open spec fn spec_db_path_for(edition: LangV) -> Seq<char> {
    "data/db/wiktextract_"@ + edition.code + ".db"@
}

impl WiktextractDb {
    /// The (language code, encoded record) rows this store holds.
    pub open spec fn rows(self) -> Seq<(Seq<char>, Seq<u8>)> {
        db_rows(self.conn)
    }

    /// The path of one edition's store.
    pub fn db_path_for(edition: &Lang) -> (p: String)
        ensures
            p@ == spec_db_path_for(edition.deep_view()),
    {
        let mut p = String::from_str("data/db/wiktextract_");
        p.append(edition.code.as_str());
        p.append(".db");
        p
    }

    /// Opens the store at this path, creating the file and the schema on
    /// first use.
    pub fn open_at(path: &String) -> (r: Result<WiktextractDb, CacheError>) {
        let conn = match db_open(path) {
            Ok(c) => c,
            Err(_) => {
                return Err(CacheError::Store);
            },
        };
        let mut db = WiktextractDb { conn };
        match db_init_schema(&mut db) {
            Ok(_) => Ok(db),
            Err(_) => Err(CacheError::Store),
        }
    }

    /// Opens one edition's store at its canonical path.
    pub fn open(edition: &Lang) -> (r: Result<WiktextractDb, CacheError>) {
        let path = Self::db_path_for(edition);
        Self::open_at(&path)
    }

    /// The number of records the store holds.
    pub fn row_count(&self) -> (r: Result<u64, CacheError>)
        ensures
            r matches Ok(n) ==> n == self.rows().len(),
    {
        match db_row_count(self) {
            Ok(n) => Ok(n),
            Err(_) => Err(CacheError::Store),
        }
    }

    /// Imports the rows into the store exactly once: a store that already
    /// reports any rows is left exactly as it is, so re-importing into a
    /// populated cache never changes it.  Returns whether an import ran.
    /// On failure the one-transaction append leaves the store unchanged.
    pub fn populate(&mut self, rows: &Vec<(String, Vec<u8>)>) -> (r: Result<bool, CacheError>)
        ensures
            r == Ok::<bool, CacheError>(false) ==> final(self).rows() == old(self).rows()
                && old(self).rows().len() != 0,
            r == Ok::<bool, CacheError>(true) ==> old(self).rows().len() == 0
                && final(self).rows() == rows.deep_view(),
            !(r is Ok) ==> final(self).rows() == old(self).rows(),
    {
        let count = match db_row_count(self) {
            Ok(n) => n,
            Err(_) => {
                return Err(CacheError::Store);
            },
        };
        if count != 0 {
            return Ok(false);
        }
        match db_bulk_append(self, rows) {
            Ok(_) => {
                proof {
                    assert(self.rows() =~= rows.deep_view());
                }
                Ok(true)
            },
            Err(_) => Err(CacheError::Store),
        }
    }

    /// Opens the store at this path and imports the rows unless it is
    /// already populated.
    pub fn create_at(path: &String, rows: &Vec<(String, Vec<u8>)>) -> (r: Result<
        WiktextractDb,
        CacheError,
    >)
        ensures
            r matches Ok(db) ==> db.rows() == rows.deep_view() || db.rows().len() != 0,
    {
        let mut db = match Self::open_at(path) {
            Ok(d) => d,
            Err(e) => {
                return Err(e);
            },
        };
        match db.populate(rows) {
            Ok(imported) => {
                proof {
                    if imported {
                        assert(db.rows() == rows.deep_view());
                    } else {
                        assert(db.rows().len() != 0);
                    }
                }
                Ok(db)
            },
            Err(e) => Err(e),
        }
    }

    /// Opens one edition's store at its canonical path and imports the rows
    /// unless it is already populated.
    pub fn create(edition: &Lang, rows: &Vec<(String, Vec<u8>)>) -> (r: Result<
        WiktextractDb,
        CacheError,
    >)
        ensures
            r matches Ok(db) ==> db.rows() == rows.deep_view() || db.rows().len() != 0,
    {
        let path = Self::db_path_for(edition);
        Self::create_at(&path, rows)
    }

    /// All encoded records of one language, in storage order.
    pub fn fetch_blobs_by_language(&self, lang: &String) -> (r: Result<Vec<Vec<u8>>, CacheError>)
        ensures
            r matches Ok(v) ==> v.deep_view() == spec_rows_for_lang(self.rows(), lang@),
    {
        match db_fetch_blobs(self, lang) {
            Ok(v) => Ok(v),
            Err(_) => Err(CacheError::Store),
        }
    }
}

/// Which side of a dictionary's language pair the edition itself stands on.
#[derive(Debug, Clone, Copy, PartialEq, Eq, Structural)]
pub enum EditionIs {
    Target,
    Source,
}

/// How a kind relates the edition to its language pair, deciding which
/// language's records it reads from an edition's store.
pub trait EditionFrom {
    spec fn spec_edition_is(&self) -> EditionIs;

    fn edition_is(&self) -> (r: EditionIs)
        ensures
            r == self.spec_edition_is(),
    ;
}

impl EditionFrom for DIpa {
    open spec fn spec_edition_is(&self) -> EditionIs {
        EditionIs::Target
    }

    fn edition_is(&self) -> (r: EditionIs) {
        EditionIs::Target
    }
}

impl EditionFrom for DGlossary {
    open spec fn spec_edition_is(&self) -> EditionIs {
        EditionIs::Source
    }

    fn edition_is(&self) -> (r: EditionIs) {
        EditionIs::Source
    }
}

impl EditionFrom for DIpaMerged {
    open spec fn spec_edition_is(&self) -> EditionIs {
        EditionIs::Source
    }

    fn edition_is(&self) -> (r: EditionIs) {
        EditionIs::Source
    }
}

/// The language whose records a kind reads from an edition's store: the
/// non-edition side of its pair.
pub open spec fn spec_fetch_lang(e: EditionIs, langs: LangsV) -> LangV {
    match e {
        EditionIs::Target => langs.source,
        EditionIs::Source => langs.target,
    }
}

/// Which language's records to fetch for one run of this kind.
pub fn fetch_lang<D: EditionFrom>(dict: &D, langs: &Langs) -> (l: Lang)
    ensures
        l.deep_view() == spec_fetch_lang(dict.spec_edition_is(), langs.deep_view()),
{
    match dict.edition_is() {
        EditionIs::Target => langs.source.clone(),
        EditionIs::Source => langs.target.clone(),
    }
}

/// The language pair one planned (edition, language) combination stands
/// for under this kind.
pub open spec fn spec_langs_for(e: EditionIs, edition: LangV, other: LangV) -> LangsV {
    match e {
        EditionIs::Target => LangsV { edition: edition, source: other, target: edition },
        EditionIs::Source => LangsV { edition: edition, source: edition, target: other },
    }
}

/// The (edition, source, target) run of one planned combination.
pub fn langs_for<D: EditionFrom>(dict: &D, edition: &Lang, other: &Lang) -> (l: Langs)
    ensures
        l.deep_view() == spec_langs_for(
            dict.spec_edition_is(),
            edition.deep_view(),
            other.deep_view(),
        ),
{
    match dict.edition_is() {
        EditionIs::Target => Langs::new(edition.clone(), other.clone(), edition.clone()),
        EditionIs::Source => Langs::new(edition.clone(), edition.clone(), other.clone()),
    }
}

/// Whether a combination of an edition with another language is driven at
/// all: the designated self-marker pairs only with itself, and otherwise a
/// language never pairs with its own edition.
pub open spec fn spec_combination_allowed(edition: LangV, other: LangV) -> bool {
    if edition.is_self_marker() || other.is_self_marker() {
        edition.is_self_marker() && other.is_self_marker()
    } else {
        edition.code != other.code
    }
}

/// The validity rule of the fan-out.
pub fn combination_allowed(edition: &Lang, other: &Lang) -> (b: bool)
    ensures
        b == spec_combination_allowed(edition.deep_view(), other.deep_view()),
{
    let es = edition.is_self_marker();
    let os = other.is_self_marker();
    if es || os {
        es && os
    } else {
        !(edition.code == other.code)
    }
}

/// The planned combinations of one edition, in language order.
pub open spec fn spec_pairs_for_edition(edition: LangV, langs: Seq<LangV>) -> Seq<(LangV, LangV)>
    decreases langs.len(),
{
    if langs.len() == 0 {
        Seq::<(LangV, LangV)>::empty()
    } else {
        let pre = spec_pairs_for_edition(edition, langs.drop_last());
        if spec_combination_allowed(edition, langs.last()) {
            pre.push((edition, langs.last()))
        } else {
            pre
        }
    }
}

/// The full fan-out plan: every allowed (edition, language) combination,
/// editions outermost, in the given order.
pub open spec fn spec_fanout_pairs(editions: Seq<LangV>, langs: Seq<LangV>) -> Seq<
    (LangV, LangV),
>
    decreases editions.len(),
{
    if editions.len() == 0 {
        Seq::<(LangV, LangV)>::empty()
    } else {
        spec_fanout_pairs(editions.drop_last(), langs) + spec_pairs_for_edition(
            editions.last(),
            langs,
        )
    }
}

/// Enumerates the combinations a release run drives: each requested edition
/// against each requested language, under the validity rule.  Every run is
/// independent; a driver may run them in any order and in parallel.
pub fn fanout_pairs(editions: &Vec<Lang>, langs: &Vec<Lang>) -> (plan: Vec<(Lang, Lang)>)
    ensures
        plan.deep_view() == spec_fanout_pairs(editions.deep_view(), langs.deep_view()),
{
    let mut plan: Vec<(Lang, Lang)> = Vec::new();
    let en = editions.len();
    let mut e: usize = 0;
    proof {
        assert(editions.deep_view().take(0int) =~= Seq::<LangV>::empty());
        assert(plan.deep_view() =~= spec_fanout_pairs(
            editions.deep_view().take(0int),
            langs.deep_view(),
        ));
    }
    while e < en
        invariant
            e <= en,
            en == editions.len(),
            plan.deep_view() == spec_fanout_pairs(
                editions.deep_view().take(e as int),
                langs.deep_view(),
            ),
        decreases en - e,
    {
        let ghost ev = editions.deep_view()[e as int];
        proof {
            assert(editions.deep_view().take(e + 1int).drop_last() =~= editions.deep_view().take(
                e as int,
            ));
            assert(editions.deep_view().take(e + 1int).last() == ev);
        }
        let edition = &editions[e];
        let ln = langs.len();
        let mut l: usize = 0;
        proof {
            assert(langs.deep_view().take(0int) =~= Seq::<LangV>::empty());
        }
        while l < ln
            invariant
                l <= ln,
                ln == langs.len(),
                e < editions.len(),
                ev == editions.deep_view()[e as int],
                edition.deep_view() == ev,
                plan.deep_view() == spec_fanout_pairs(
                    editions.deep_view().take(e as int),
                    langs.deep_view(),
                ) + spec_pairs_for_edition(ev, langs.deep_view().take(l as int)),
            decreases ln - l,
        {
            proof {
                assert(langs.deep_view().take(l + 1int).drop_last() =~= langs.deep_view().take(
                    l as int,
                ));
                assert(langs.deep_view().take(l + 1int).last() == langs.deep_view()[l as int]);
            }
            if combination_allowed(edition, &langs[l]) {
                let ghost ppre = plan.deep_view();
                plan.push((edition.clone(), langs[l].clone()));
                proof {
                    assert(plan.deep_view() =~= ppre.push((ev, langs.deep_view()[l as int])));
                }
            }
            l = l + 1;
        }
        proof {
            assert(langs.deep_view().take(ln as int) =~= langs.deep_view());
        }
        e = e + 1;
    }
    proof {
        assert(editions.deep_view().take(en as int) =~= editions.deep_view());
    }
    plan
}

proof fn lemma_pairs_for_edition_allowed(edition: LangV, langs: Seq<LangV>, i: int)
    requires
        0 <= i < spec_pairs_for_edition(edition, langs).len(),
    ensures
        spec_pairs_for_edition(edition, langs)[i].0 == edition,
        spec_combination_allowed(
            spec_pairs_for_edition(edition, langs)[i].0,
            spec_pairs_for_edition(edition, langs)[i].1,
        ),
    decreases langs.len(),
{
    if langs.len() > 0 {
        let pre = spec_pairs_for_edition(edition, langs.drop_last());
        if i < pre.len() {
            lemma_pairs_for_edition_allowed(edition, langs.drop_last(), i);
        }
    }
}

/// Law: every planned combination passes the validity rule.  In particular
/// a combination whose language equals its edition's own language, the
/// self-marker pair aside, is never planned and so never runs and never
/// produces output.
pub proof fn lemma_fanout_only_allowed(editions: Seq<LangV>, langs: Seq<LangV>, i: int)
    requires
        0 <= i < spec_fanout_pairs(editions, langs).len(),
    ensures
        spec_combination_allowed(
            spec_fanout_pairs(editions, langs)[i].0,
            spec_fanout_pairs(editions, langs)[i].1,
        ),
    decreases editions.len(),
{
    if editions.len() > 0 {
        let pre = spec_fanout_pairs(editions.drop_last(), langs);
        if i < pre.len() {
            lemma_fanout_only_allowed(editions.drop_last(), langs, i);
        } else {
            lemma_pairs_for_edition_allowed(editions.last(), langs, i - pre.len());
        }
    }
}

} // verus!
