//! The shared pipeline skeleton: the per-kind capability traits, the keyed
//! bucket map of intermediate representations, and the run of one dictionary
//! over one or more edition datasets.

use vstd::prelude::*;

use crate::lang::{EditionSpec, EditionSpecV, Lang, LangV, Langs, LangsKey, LangsKeyV, LangsV};
use crate::models::{WordEntry, WordEntryV};
use crate::options::{rejected, spec_rejected, Options, OptionsV};
use crate::yomitan::{LabelledYomitanEntry, LabelledYomitanEntryV};

verus! {

/// The intermediate representation of one bucket: a collection the transform
/// appends to and the post-processing rewrites.
pub trait Intermediate {
    spec fn spec_len(&self) -> nat;

    fn len(&self) -> (n: usize)
        ensures
            n == self.spec_len(),
    ;

    fn is_empty(&self) -> (b: bool)
        ensures
            b == (self.spec_len() == 0),
    ;
}

impl<T> Intermediate for Vec<T> {
    open spec fn spec_len(&self) -> nat {
        self@.len()
    }

    fn len(&self) -> (n: usize)
        ensures
            n == self.spec_len(),
    {
        Vec::len(self)
    }

    fn is_empty(&self) -> (b: bool)
        ensures
            b == (self.spec_len() == 0),
    {
        Vec::len(self) == 0
    }
}

/// One dictionary kind: the per-kind selection, pre-processing, transform,
/// post-processing and emission plugged into the shared skeleton.
pub trait Dictionary: Sized {
    /// The kind's intermediate item; one bucket holds a vector of them.
    type Item: DeepView;

    /// Whether this kind keeps the record for this source language.
    spec fn spec_keep(&self, source: LangV, e: WordEntryV) -> bool;

    fn keep_if(&self, source: &Lang, entry: &WordEntry) -> (b: bool)
        ensures
            b == self.spec_keep(source.deep_view(), entry.deep_view()),
    ;

    /// How the pre-processing hook rewrites the record.
    spec fn spec_preprocess_entry(&self, langs: LangsV, e: WordEntryV, opts: OptionsV) -> WordEntryV;

    /// The preliminary items the pre-processing hook itself contributes.
    spec fn spec_preprocess_items(&self, langs: LangsV, e: WordEntryV, opts: OptionsV) -> Seq<
        <Self::Item as DeepView>::V,
    >;

    fn preprocess(
        &self,
        langs: &Langs,
        entry: &mut WordEntry,
        opts: &Options,
        irs: &mut Vec<Self::Item>,
    )
        ensures
            final(entry).deep_view() == self.spec_preprocess_entry(
                langs.deep_view(),
                old(entry).deep_view(),
                opts.deep_view(),
            ),
            final(irs).deep_view() == old(irs).deep_view() + self.spec_preprocess_items(
                langs.deep_view(),
                old(entry).deep_view(),
                opts.deep_view(),
            ),
    ;

    /// The items the transform appends for one record.
    spec fn spec_process(&self, langs: LangsV, e: WordEntryV) -> Seq<<Self::Item as DeepView>::V>;

    fn process(&self, langs: &Langs, entry: &WordEntry, irs: &mut Vec<Self::Item>)
        ensures
            final(irs).deep_view() == old(irs).deep_view() + self.spec_process(
                langs.deep_view(),
                entry.deep_view(),
            ),
    ;

    /// What the post-processing leaves in a completed bucket.
    spec fn spec_postprocess(&self, items: Seq<<Self::Item as DeepView>::V>) -> Seq<
        <Self::Item as DeepView>::V,
    >;

    fn postprocess(&self, irs: &mut Vec<Self::Item>)
        ensures
            final(irs).deep_view() == self.spec_postprocess(old(irs).deep_view()),
    ;

    /// The labelled output entry sets emitted for a completed bucket.
    spec fn spec_to_yomitan(&self, langs: LangsV, items: Seq<<Self::Item as DeepView>::V>) -> Seq<
        LabelledYomitanEntryV,
    >;

    fn to_yomitan(&self, langs: Langs, irs: Vec<Self::Item>) -> (out: Vec<LabelledYomitanEntry>)
        ensures
            out.deep_view() == self.spec_to_yomitan(langs.deep_view(), irs.deep_view()),
    ;
}

/// How a kind maps one (edition, source, target) run to the key of the
/// bucket it accumulates into; the edition-merging kinds collapse all
/// editions into one key.
pub trait AggregationKey {
    spec fn spec_langs_to_key(&self, langs: LangsV) -> LangsKeyV;

    fn langs_to_key(&self, langs: &Langs) -> (k: LangsKey)
        ensures
            k.deep_view() == self.spec_langs_to_key(langs.deep_view()),
    ;
}

/// The default aggregation key: exactly this edition with the (source,
/// target) pair.
pub open spec fn spec_key_per_edition(langs: LangsV) -> LangsKeyV {
    LangsKeyV {
        edition: EditionSpecV::One(langs.edition),
        source: langs.source,
        target: langs.target,
    }
}

/// The edition-collapsing aggregation key: all editions share one bucket per
/// (source, target) pair.
pub open spec fn spec_key_all_editions(langs: LangsV) -> LangsKeyV {
    LangsKeyV { edition: EditionSpecV::All, source: langs.source, target: langs.target }
}

impl AggregationKey for crate::dict::other::DGlossary {
    open spec fn spec_langs_to_key(&self, langs: LangsV) -> LangsKeyV {
        spec_key_per_edition(langs)
    }

    fn langs_to_key(&self, langs: &Langs) -> (k: LangsKey)
        ensures
            k.deep_view() == self.spec_langs_to_key(langs.deep_view()),
    {
        LangsKey {
            edition: EditionSpec::One(langs.edition.clone()),
            source: langs.source.clone(),
            target: langs.target.clone(),
        }
    }
}

impl AggregationKey for crate::dict::other::DIpa {
    open spec fn spec_langs_to_key(&self, langs: LangsV) -> LangsKeyV {
        spec_key_per_edition(langs)
    }

    fn langs_to_key(&self, langs: &Langs) -> (k: LangsKey)
        ensures
            k.deep_view() == self.spec_langs_to_key(langs.deep_view()),
    {
        LangsKey {
            edition: EditionSpec::One(langs.edition.clone()),
            source: langs.source.clone(),
            target: langs.target.clone(),
        }
    }
}

impl AggregationKey for crate::dict::other::DIpaMerged {
    open spec fn spec_langs_to_key(&self, langs: LangsV) -> LangsKeyV {
        spec_key_all_editions(langs)
    }

    fn langs_to_key(&self, langs: &Langs) -> (k: LangsKey)
        ensures
            k.deep_view() == self.spec_langs_to_key(langs.deep_view()),
    {
        LangsKey {
            edition: EditionSpec::All,
            source: langs.source.clone(),
            target: langs.target.clone(),
        }
    }
}

impl AggregationKey for crate::dict::other::DGlossaryExtended {
    open spec fn spec_langs_to_key(&self, langs: LangsV) -> LangsKeyV {
        spec_key_all_editions(langs)
    }

    fn langs_to_key(&self, langs: &Langs) -> (k: LangsKey)
        ensures
            k.deep_view() == self.spec_langs_to_key(langs.deep_view()),
    {
        LangsKey {
            edition: EditionSpec::All,
            source: langs.source.clone(),
            target: langs.target.clone(),
        }
    }
}

/// Appends items under their key: the first bucket with that key takes them;
/// a missing key opens a bucket at the end, even where the items are empty.
pub open spec fn spec_buckets_append<T>(
    m: Seq<(LangsKeyV, Seq<T>)>,
    key: LangsKeyV,
    items: Seq<T>,
) -> Seq<(LangsKeyV, Seq<T>)>
    decreases m.len(),
{
    if m.len() == 0 {
        seq![(key, items)]
    } else if m[0].0 == key {
        m.update(0, (m[0].0, m[0].1 + items))
    } else {
        seq![m[0]] + spec_buckets_append(m.drop_first(), key, items)
    }
}

proof fn lemma_buckets_append_found<T>(
    m: Seq<(LangsKeyV, Seq<T>)>,
    key: LangsKeyV,
    items: Seq<T>,
    j: int,
)
    requires
        0 <= j < m.len(),
        m[j].0 == key,
        forall|i: int| 0 <= i < j ==> (#[trigger] m[i]).0 != key,
    ensures
        spec_buckets_append(m, key, items) == m.update(j, (m[j].0, m[j].1 + items)),
    decreases m.len(),
{
    if j == 0 {
    } else {
        assert(m[0].0 != key);
        let df = m.drop_first();
        assert(forall|i: int| 0 <= i < j - 1 ==> (#[trigger] df[i]).0 != key) by {
            assert(forall|i: int| 0 <= i < j - 1 ==> df[i] == m[i + 1]);
        };
        assert(df[j - 1] == m[j]);
        lemma_buckets_append_found(df, key, items, j - 1);
        let x = (m[j].0, m[j].1 + items);
        assert(seq![m[0]] + df.update(j - 1, x) =~= m.update(j, x));
    }
}

proof fn lemma_buckets_append_absent<T>(m: Seq<(LangsKeyV, Seq<T>)>, key: LangsKeyV, items: Seq<T>)
    requires
        forall|i: int| 0 <= i < m.len() ==> (#[trigger] m[i]).0 != key,
    ensures
        spec_buckets_append(m, key, items) == m.push((key, items)),
    decreases m.len(),
{
    if m.len() == 0 {
        assert(spec_buckets_append(m, key, items) =~= m.push((key, items)));
    } else {
        let df = m.drop_first();
        assert(forall|i: int| 0 <= i < df.len() ==> (#[trigger] df[i]).0 != key) by {
            assert(forall|i: int| 0 <= i < df.len() ==> df[i] == m[i + 1]);
        };
        lemma_buckets_append_absent(df, key, items);
        assert(seq![m[0]] + df.push((key, items)) =~= m.push((key, items)));
    }
}

/// What one record adds to the bucket map: nothing where the global filter
/// rejects it or the kind does not keep it; else its transformed items,
/// appended under the kind's aggregation key.
pub open spec fn spec_record_step<D: Dictionary + AggregationKey>(
    d: D,
    m: Seq<(LangsKeyV, Seq<<D::Item as DeepView>::V>)>,
    langs: LangsV,
    e: WordEntryV,
    opts: OptionsV,
) -> Seq<(LangsKeyV, Seq<<D::Item as DeepView>::V>)> {
    if spec_rejected(e, opts) {
        m
    } else if !d.spec_keep(langs.source, e) {
        m
    } else {
        let e2 = d.spec_preprocess_entry(langs, e, opts);
        let items = d.spec_preprocess_items(langs, e, opts) + d.spec_process(langs, e2);
        spec_buckets_append(m, d.spec_langs_to_key(langs), items)
    }
}

/// The bucket map after one dataset's records, in record order.
pub open spec fn spec_run_dataset<D: Dictionary + AggregationKey>(
    d: D,
    m: Seq<(LangsKeyV, Seq<<D::Item as DeepView>::V>)>,
    langs: LangsV,
    records: Seq<WordEntryV>,
    opts: OptionsV,
) -> Seq<(LangsKeyV, Seq<<D::Item as DeepView>::V>)>
    decreases records.len(),
{
    if records.len() == 0 {
        m
    } else {
        spec_record_step(
            d,
            spec_run_dataset(d, m, langs, records.drop_last(), opts),
            langs,
            records.last(),
            opts,
        )
    }
}

/// The bucket map after all datasets, in dataset order.
pub open spec fn spec_run_datasets<D: Dictionary + AggregationKey>(
    d: D,
    m: Seq<(LangsKeyV, Seq<<D::Item as DeepView>::V>)>,
    datasets: Seq<(LangV, Seq<WordEntryV>)>,
    source: LangV,
    target: LangV,
    opts: OptionsV,
) -> Seq<(LangsKeyV, Seq<<D::Item as DeepView>::V>)>
    decreases datasets.len(),
{
    if datasets.len() == 0 {
        m
    } else {
        spec_run_dataset(
            d,
            spec_run_datasets(d, m, datasets.drop_last(), source, target, opts),
            LangsV { edition: datasets.last().0, source: source, target: target },
            datasets.last().1,
            opts,
        )
    }
}

/// The run the emission of one bucket is handed: for a single-edition key
/// that edition, and for a collapsed key the source language in the edition
/// position, which the edition-merging kinds never read.
pub open spec fn spec_langs_of_key(key: LangsKeyV) -> LangsV {
    match key.edition {
        EditionSpecV::One(e) => LangsV { edition: e, source: key.source, target: key.target },
        EditionSpecV::All => LangsV { edition: key.source, source: key.source, target: key.target },
    }
}

/// The emitted output per bucket, in bucket order: empty buckets are
/// silently skipped, the rest are post-processed and emitted.
pub open spec fn spec_drain_buckets<D: Dictionary + AggregationKey>(
    d: D,
    m: Seq<(LangsKeyV, Seq<<D::Item as DeepView>::V>)>,
) -> Seq<(LangsKeyV, Seq<LabelledYomitanEntryV>)>
    decreases m.len(),
{
    if m.len() == 0 {
        Seq::<(LangsKeyV, Seq<LabelledYomitanEntryV>)>::empty()
    } else {
        spec_drain_buckets(d, m.drop_last()) + (if m.last().1.len() == 0 {
            Seq::<(LangsKeyV, Seq<LabelledYomitanEntryV>)>::empty()
        } else {
            seq![
                (
                    m.last().0,
                    d.spec_to_yomitan(
                        spec_langs_of_key(m.last().0),
                        d.spec_postprocess(m.last().1),
                    ),
                ),
            ]
        })
    }
}

/// What one full run of a dictionary kind over the given datasets emits:
/// the labelled entry sets per aggregation key, in the order the keys were
/// first opened.  With `skip_yomitan` set nothing is emitted.
pub open spec fn spec_make_dict<D: Dictionary + AggregationKey>(
    d: D,
    datasets: Seq<(LangV, Seq<WordEntryV>)>,
    source: LangV,
    target: LangV,
    opts: OptionsV,
) -> Seq<(LangsKeyV, Seq<LabelledYomitanEntryV>)> {
    if opts.skip_yomitan {
        Seq::<(LangsKeyV, Seq<LabelledYomitanEntryV>)>::empty()
    } else {
        spec_drain_buckets(
            d,
            spec_run_datasets(
                d,
                Seq::<(LangsKeyV, Seq<<D::Item as DeepView>::V>)>::empty(),
                datasets,
                source,
                target,
                opts,
            ),
        )
    }
}

/// The first bucket carrying this key, if any.
fn find_bucket<T>(buckets: &Vec<(LangsKey, Vec<T>)>, key: &LangsKey) -> (r: Option<usize>)
    ensures
        match r {
            Some(j) => j < buckets.len() && buckets@[j as int].0.deep_view() == key.deep_view()
                && (forall|i: int|
                0 <= i < j ==> (#[trigger] buckets@[i]).0.deep_view() != key.deep_view()),
            None => forall|i: int|
                0 <= i < buckets.len() ==> (#[trigger] buckets@[i]).0.deep_view()
                    != key.deep_view(),
        },
{
    let n = buckets.len();
    let mut i: usize = 0;
    while i < n
        invariant
            i <= n,
            n == buckets.len(),
            forall|j: int|
                0 <= j < i ==> (#[trigger] buckets@[j]).0.deep_view() != key.deep_view(),
        decreases n - i,
    {
        if buckets[i].0.key_eq(key) {
            return Some(i);
        }
        i = i + 1;
    }
    None
}

/// Runs one dictionary kind over the given edition datasets: filters and
/// transforms every record into its aggregation bucket, then post-processes
/// and emits every non-empty bucket.  The caller hands the emitted entry
/// sets to the external writer.
pub fn make_dict<D: Dictionary + AggregationKey>(
    dict: &D,
    datasets: &Vec<(Lang, Vec<WordEntry>)>,
    source: &Lang,
    target: &Lang,
    opts: &Options,
) -> (out: Vec<(LangsKey, Vec<LabelledYomitanEntry>)>)
    ensures
        out.deep_view() == spec_make_dict(
            *dict,
            datasets.deep_view(),
            source.deep_view(),
            target.deep_view(),
            opts.deep_view(),
        ),
{
    let ghost sv = source.deep_view();
    let ghost tv = target.deep_view();
    let ghost ov = opts.deep_view();
    let ghost empty_m = Seq::<(LangsKeyV, Seq<<D::Item as DeepView>::V>)>::empty();
    let mut buckets: Vec<(LangsKey, Vec<D::Item>)> = Vec::new();
    let dn = datasets.len();
    let mut di: usize = 0;
    proof {
        assert(datasets.deep_view().take(0int) =~= Seq::<(LangV, Seq<WordEntryV>)>::empty());
        assert(buckets.deep_view() =~= empty_m);
    }
    while di < dn
        invariant
            di <= dn,
            dn == datasets.len(),
            sv == source.deep_view(),
            tv == target.deep_view(),
            ov == opts.deep_view(),
            empty_m == Seq::<(LangsKeyV, Seq<<D::Item as DeepView>::V>)>::empty(),
            buckets.deep_view() == spec_run_datasets(
                *dict,
                empty_m,
                datasets.deep_view().take(di as int),
                sv,
                tv,
                ov,
            ),
        decreases dn - di,
    {
        let (edition, records) = &datasets[di];
        let ghost edv = datasets.deep_view()[di as int].0;
        let langs = Langs::new(edition.clone(), source.clone(), target.clone());
        let ghost lv = langs.deep_view();
        let ghost mprev = buckets.deep_view();
        proof {
            assert(datasets.deep_view().take(di + 1int).drop_last() =~= datasets.deep_view().take(
                di as int,
            ));
            assert(datasets.deep_view().take(di + 1int).last() == datasets.deep_view()[di as int]);
            assert(records.deep_view() == datasets.deep_view()[di as int].1);
            assert(lv == LangsV { edition: edv, source: sv, target: tv });
        }
        let rn = records.len();
        let mut ri: usize = 0;
        proof {
            assert(records.deep_view().take(0int) =~= Seq::<WordEntryV>::empty());
        }
        while ri < rn
            invariant
                ri <= rn,
                rn == records.len(),
                di < datasets.len(),
                ov == opts.deep_view(),
                lv == langs.deep_view(),
                records.deep_view() == datasets.deep_view()[di as int].1,
                buckets.deep_view() == spec_run_dataset(
                    *dict,
                    mprev,
                    lv,
                    records.deep_view().take(ri as int),
                    ov,
                ),
            decreases rn - ri,
        {
            let record = &records[ri];
            let ghost rv = records.deep_view()[ri as int];
            proof {
                assert(records.deep_view().take(ri + 1int).drop_last() =~= records.deep_view().take(
                    ri as int,
                ));
                assert(records.deep_view().take(ri + 1int).last() == rv);
            }
            if !rejected(record, opts) && dict.keep_if(&langs.source, record) {
                let key = dict.langs_to_key(&langs);
                let ghost keyv = key.deep_view();
                let ghost mcur = buckets.deep_view();
                match find_bucket(&buckets, &key) {
                    Some(j) => {
                        let ghost bvec = buckets@;
                        let (k2, mut irs) = buckets.remove(j);
                        let ghost irspre = irs.deep_view();
                        let mut entry = record.clone();
                        dict.preprocess(&langs, &mut entry, opts, &mut irs);
                        dict.process(&langs, &entry, &mut irs);
                        buckets.insert(j, (k2, irs));
                        proof {
                            let items = dict.spec_preprocess_items(lv, rv, ov)
                                + dict.spec_process(lv, dict.spec_preprocess_entry(lv, rv, ov));
                            lemma_buckets_append_found(mcur, keyv, items, j as int);
                            let x = (mcur[j as int].0, mcur[j as int].1 + items);
                            assert(irs.deep_view() =~= mcur[j as int].1 + items);
                            assert(buckets@ =~= bvec.remove(j as int).insert(
                                j as int,
                                (k2, irs),
                            ));
                            assert(buckets@ =~= bvec.update(j as int, (k2, irs)));
                            assert forall|m: int| 0 <= m < buckets@.len() implies
                                buckets.deep_view()[m] == mcur.update(j as int, x)[m] by {
                                if m == j {
                                    assert(buckets@[m] == (k2, irs));
                                    assert(k2.deep_view() == mcur[j as int].0);
                                } else {
                                    assert(buckets@[m] == bvec[m]);
                                }
                            };
                            assert(buckets.deep_view() =~= mcur.update(j as int, x));
                        }
                    },
                    None => {
                        let mut irs: Vec<D::Item> = Vec::new();
                        let ghost irspre = irs.deep_view();
                        let mut entry = record.clone();
                        dict.preprocess(&langs, &mut entry, opts, &mut irs);
                        dict.process(&langs, &entry, &mut irs);
                        buckets.push((key, irs));
                        proof {
                            let items = dict.spec_preprocess_items(lv, rv, ov)
                                + dict.spec_process(lv, dict.spec_preprocess_entry(lv, rv, ov));
                            lemma_buckets_append_absent(mcur, keyv, items);
                            assert(irspre =~= Seq::<<D::Item as DeepView>::V>::empty());
                            assert(irs.deep_view() =~= items);
                            assert(buckets.deep_view() =~= mcur.push((keyv, items)));
                        }
                    },
                }
            }
            ri = ri + 1;
        }
        proof {
            assert(records.deep_view().take(rn as int) =~= records.deep_view());
        }
        di = di + 1;
    }
    proof {
        assert(datasets.deep_view().take(dn as int) =~= datasets.deep_view());
    }
    let mut out: Vec<(LangsKey, Vec<LabelledYomitanEntry>)> = Vec::new();
    if opts.skip_yomitan {
        proof {
            assert(out.deep_view() =~= spec_make_dict(*dict, datasets.deep_view(), sv, tv, ov));
        }
        return out;
    }
    let ghost ball = buckets.deep_view();
    let bn = buckets.len();
    let mut b: usize = 0;
    proof {
        assert(ball.take(0int) =~= Seq::<(LangsKeyV, Seq<<D::Item as DeepView>::V>)>::empty());
        assert(out.deep_view() =~= spec_drain_buckets(*dict, ball.take(0int)));
    }
    while b < bn
        invariant
            b <= bn,
            bn == ball.len(),
            buckets@.len() == bn - b,
            buckets.deep_view() == ball.skip(b as int),
            out.deep_view() == spec_drain_buckets(*dict, ball.take(b as int)),
        decreases bn - b,
    {
        let ghost bvec = buckets@;
        let (key, mut irs) = buckets.remove(0);
        proof {
            assert((key, irs) == bvec[0int]);
            assert(bvec[0int].deep_view() == ball.skip(b as int)[0int]);
            assert(ball.skip(b as int)[0int] == ball[b as int]);
            assert(key.deep_view() == ball[b as int].0);
            assert(irs.deep_view() == ball[b as int].1);
            assert(buckets@ =~= bvec.remove(0int));
            assert forall|m: int| 0 <= m < buckets@.len() implies buckets.deep_view()[m]
                == ball.skip(b + 1int)[m] by {
                assert(buckets@[m] == bvec[m + 1]);
                assert(bvec[m + 1].deep_view() == ball.skip(b as int)[m + 1]);
            };
            assert(buckets.deep_view() =~= ball.skip(b + 1int));
            assert(ball.take(b + 1int).drop_last() =~= ball.take(b as int));
            assert(ball.take(b + 1int).last() == ball[b as int]);
        }
        if Intermediate::is_empty(&irs) {
            proof {
                assert(irs.deep_view().len() == irs@.len());
                assert(ball[b as int].1.len() == 0);
                assert(out.deep_view() =~= spec_drain_buckets(*dict, ball.take(b + 1int)));
            }
        } else {
            dict.postprocess(&mut irs);
            let langs = match &key.edition {
                EditionSpec::One(e) => Langs::new(e.clone(), key.source.clone(), key.target.clone()),
                EditionSpec::All => Langs::new(
                    key.source.clone(),
                    key.source.clone(),
                    key.target.clone(),
                ),
            };
            proof {
                assert(langs.deep_view() == spec_langs_of_key(ball[b as int].0));
            }
            let labelled = dict.to_yomitan(langs, irs);
            let ghost opre = out.deep_view();
            out.push((key, labelled));
            proof {
                assert(out.deep_view() =~= opre.push(
                    (
                        ball[b as int].0,
                        dict.spec_to_yomitan(
                            spec_langs_of_key(ball[b as int].0),
                            dict.spec_postprocess(ball[b as int].1),
                        ),
                    ),
                ));
                assert(out.deep_view() =~= spec_drain_buckets(*dict, ball.take(b + 1int)));
            }
        }
        b = b + 1;
    }
    proof {
        assert(ball.take(bn as int) =~= ball);
    }
    out
}

/// The stages a dataset file passes through on disk.
#[derive(Debug, Clone, Copy, PartialEq, Eq, Structural)]
pub enum PathKind {
    Gz,
    Unfiltered,
    Filtered,
}

impl DeepView for PathKind {
    type V = PathKind;

    open spec fn deep_view(&self) -> PathKind {
        *self
    }
}

/// Mathematical model of a dataset path candidate.
pub struct DatasetPathV {
    pub kind: PathKind,
    pub path: Seq<char>,
    pub exists: bool,
}

/// One candidate location of a dataset file: its stage, its path, and
/// whether the caller found a file there.
#[derive(Debug)]
pub struct DatasetPath {
    pub kind: PathKind,
    pub path: String,
    pub exists: bool,
}

impl DeepView for DatasetPath {
    type V = DatasetPathV;

    open spec fn deep_view(&self) -> DatasetPathV {
        DatasetPathV { kind: self.kind, path: self.path@, exists: self.exists }
    }
}

impl Clone for DatasetPath {
    fn clone(&self) -> (p: DatasetPath)
        ensures
            p.deep_view() == self.deep_view(),
    {
        DatasetPath { kind: self.kind, path: self.path.clone(), exists: self.exists }
    }
}

/// Mathematical model of one (edition, language) entry of the path table.
pub struct DatasetPathsV {
    pub edition: LangV,
    pub lang: Option<LangV>,
    pub inner: Seq<DatasetPathV>,
}

/// The dataset path candidates of one (edition, optional language) pair.
#[derive(Debug)]
pub struct DatasetPaths {
    pub edition: Lang,
    pub lang: Option<Lang>,
    pub inner: Vec<DatasetPath>,
}

impl DeepView for DatasetPaths {
    type V = DatasetPathsV;

    open spec fn deep_view(&self) -> DatasetPathsV {
        DatasetPathsV {
            edition: self.edition.deep_view(),
            lang: match &self.lang {
                Some(l) => Some(l.deep_view()),
                None => None,
            },
            inner: self.inner.deep_view(),
        }
    }
}

/// Mathematical model of the path manager.
pub struct PathManagerV {
    pub opts: OptionsV,
    pub editions: Seq<LangV>,
    pub source: LangV,
    pub target: LangV,
    pub datasets: Seq<DatasetPathsV>,
}

/// The externally supplied path table: where each edition's dataset may lie
/// on disk, which editions a run covers, and the run's languages and
/// options.  The caller fills in the `exists` flags; the library only
/// chooses among the candidates.
#[derive(Debug)]
pub struct PathManager {
    pub opts: Options,
    pub editions: Vec<Lang>,
    pub source: Lang,
    pub target: Lang,
    pub datasets: Vec<DatasetPaths>,
}

impl DeepView for PathManager {
    type V = PathManagerV;

    open spec fn deep_view(&self) -> PathManagerV {
        PathManagerV {
            opts: self.opts.deep_view(),
            editions: self.editions.deep_view(),
            source: self.source.deep_view(),
            target: self.target.deep_view(),
            datasets: self.datasets.deep_view(),
        }
    }
}

/// Whether a table entry's language slot matches the requested one, by
/// code.
pub open spec fn spec_lang_opt_matches(a: Option<LangV>, b: Option<LangV>) -> bool {
    match (a, b) {
        (Option::None, Option::None) => true,
        (Option::Some(x), Option::Some(y)) => x.code == y.code,
        _ => false,
    }
}

/// The candidates of the first table entry for this (edition, language)
/// pair; an absent pair has none.
pub open spec fn spec_find_paths(
    ds: Seq<DatasetPathsV>,
    edition: LangV,
    lang: Option<LangV>,
) -> Seq<DatasetPathV>
    decreases ds.len(),
{
    if ds.len() == 0 {
        Seq::<DatasetPathV>::empty()
    } else if ds[0].edition.code == edition.code && spec_lang_opt_matches(ds[0].lang, lang) {
        ds[0].inner
    } else {
        spec_find_paths(ds.drop_first(), edition, lang)
    }
}

/// The candidate stages the lookup considers.
pub open spec fn spec_checked_kind() -> spec_fn(DatasetPathV) -> bool {
    |p: DatasetPathV| p.kind == PathKind::Unfiltered || p.kind == PathKind::Filtered
}

/// The first candidate the caller found a file at, if any.
pub open spec fn spec_first_existing(ps: Seq<DatasetPathV>) -> Option<DatasetPathV>
    decreases ps.len(),
{
    if ps.len() == 0 {
        Option::<DatasetPathV>::None
    } else if ps[0].exists {
        Option::Some(ps[0])
    } else {
        spec_first_existing(ps.drop_first())
    }
}

/// The dataset path one run reads: the first existing candidate of the
/// checked stages, unless a fresh download is forced; else the last
/// candidate, which the caller is to download to.  With no candidate at
/// all there is nothing to read.
pub open spec fn spec_find_jsonl(pm: PathManagerV, edition: LangV, lang: Option<LangV>) -> Option<
    Seq<char>,
> {
    let ok = spec_find_paths(pm.datasets, edition, lang).filter(spec_checked_kind());
    if !pm.opts.redownload && spec_first_existing(ok) is Some {
        match spec_first_existing(ok) {
            Option::Some(p) => Option::Some(p.path),
            Option::None => Option::None,
        }
    } else if ok.len() > 0 {
        Option::Some(ok.last().path)
    } else {
        Option::None
    }
}

proof fn lemma_first_existing_at(ps: Seq<DatasetPathV>, i: int)
    requires
        0 <= i < ps.len(),
        ps[i].exists,
        forall|j: int| 0 <= j < i ==> !(#[trigger] ps[j]).exists,
    ensures
        spec_first_existing(ps) == Option::Some(ps[i]),
    decreases ps.len(),
{
    if i == 0 {
    } else {
        assert(!ps[0].exists);
        let df = ps.drop_first();
        assert(forall|j: int| 0 <= j < i - 1 ==> !(#[trigger] df[j]).exists) by {
            assert(forall|j: int| 0 <= j < i - 1 ==> df[j] == ps[j + 1]);
        };
        assert(df[i - 1] == ps[i]);
        lemma_first_existing_at(df, i - 1);
    }
}

proof fn lemma_first_existing_none(ps: Seq<DatasetPathV>)
    requires
        forall|j: int| 0 <= j < ps.len() ==> !(#[trigger] ps[j]).exists,
    ensures
        spec_first_existing(ps) is None,
    decreases ps.len(),
{
    if ps.len() > 0 {
        let df = ps.drop_first();
        assert(forall|j: int| 0 <= j < df.len() ==> !(#[trigger] df[j]).exists) by {
            assert(forall|j: int| 0 <= j < df.len() ==> df[j] == ps[j + 1]);
        };
        lemma_first_existing_none(df);
    }
}

/// Looks up the candidates for this (edition, language) pair.
fn dataset_paths<'a>(pm: &'a PathManager, edition: &Lang, lang: Option<&Lang>) -> (r: Option<
    &'a DatasetPaths,
>)
    ensures
        match r {
            Some(d) => d.deep_view().inner == spec_find_paths(
                pm.deep_view().datasets,
                edition.deep_view(),
                lang.deep_view(),
            ),
            None => spec_find_paths(
                pm.deep_view().datasets,
                edition.deep_view(),
                lang.deep_view(),
            ) == Seq::<DatasetPathV>::empty(),
        },
{
    let n = pm.datasets.len();
    let mut i: usize = 0;
    proof {
        assert(pm.deep_view().datasets.skip(0int) =~= pm.deep_view().datasets);
    }
    while i < n
        invariant
            i <= n,
            n == pm.datasets.len(),
            spec_find_paths(
                pm.deep_view().datasets,
                edition.deep_view(),
                lang.deep_view(),
            ) == spec_find_paths(
                pm.deep_view().datasets.skip(i as int),
                edition.deep_view(),
                lang.deep_view(),
            ),
        decreases n - i,
    {
        let d = &pm.datasets[i];
        let lang_matches = match (&d.lang, lang) {
            (None, None) => true,
            (Some(x), Some(y)) => x.code == y.code,
            _ => false,
        };
        proof {
            let rest = pm.deep_view().datasets.skip(i as int);
            assert(rest[0int] == pm.deep_view().datasets[i as int]);
            assert(rest.drop_first() =~= pm.deep_view().datasets.skip(i + 1int));
            assert(lang_matches == spec_lang_opt_matches(
                pm.deep_view().datasets[i as int].lang,
                lang.deep_view(),
            ));
        }
        if d.edition.code == edition.code && lang_matches {
            return Some(d);
        }
        i = i + 1;
    }
    proof {
        assert(pm.deep_view().datasets.skip(n as int) =~= Seq::<DatasetPathsV>::empty());
    }
    None
}

/// Chooses the dataset file one run reads, the unfiltered and filtered
/// stages considered: an existing file wins unless a fresh download is
/// forced, and otherwise the last candidate names where the download goes.
pub fn find_or_download_jsonl(edition: &Lang, lang: Option<&Lang>, pm: &PathManager) -> (r: String)
    requires
        spec_find_jsonl(pm.deep_view(), edition.deep_view(), lang.deep_view()) is Some,
    ensures
        Option::Some(r@) == spec_find_jsonl(pm.deep_view(), edition.deep_view(), lang.deep_view()),
{
    let ghost okspec = spec_find_paths(
        pm.deep_view().datasets,
        edition.deep_view(),
        lang.deep_view(),
    ).filter(spec_checked_kind());
    let mut of_kind: Vec<DatasetPath> = Vec::new();
    match dataset_paths(pm, edition, lang) {
        Some(d) => {
            let cn = d.inner.len();
            let mut c: usize = 0;
            proof {
                reveal(Seq::filter);
                assert(d.inner.deep_view().take(0int) =~= Seq::<DatasetPathV>::empty());
                assert(of_kind.deep_view() =~= d.inner.deep_view().take(0int).filter(
                    spec_checked_kind(),
                ));
            }
            while c < cn
                invariant
                    c <= cn,
                    cn == d.inner.len(),
                    d.deep_view().inner == spec_find_paths(
                        pm.deep_view().datasets,
                        edition.deep_view(),
                        lang.deep_view(),
                    ),
                    okspec == spec_find_paths(
                        pm.deep_view().datasets,
                        edition.deep_view(),
                        lang.deep_view(),
                    ).filter(spec_checked_kind()),
                    of_kind.deep_view() == d.inner.deep_view().take(c as int).filter(
                        spec_checked_kind(),
                    ),
                decreases cn - c,
            {
                proof {
                    reveal(Seq::filter);
                    assert(d.inner.deep_view().take(c + 1int).drop_last()
                        =~= d.inner.deep_view().take(c as int));
                    assert(d.inner.deep_view().take(c + 1int).last() == d.inner.deep_view()[
                        c as int
                    ]);
                }
                let p = &d.inner[c];
                if matches!(p.kind, PathKind::Unfiltered) || matches!(p.kind, PathKind::Filtered) {
                    let ghost kpre = of_kind.deep_view();
                    of_kind.push(p.clone());
                    proof {
                        assert(of_kind.deep_view() =~= kpre.push(d.inner.deep_view()[c as int]));
                    }
                }
                c = c + 1;
            }
            proof {
                assert(d.inner.deep_view().take(cn as int) =~= d.inner.deep_view());
                assert(of_kind.deep_view() =~= okspec);
            }
        },
        None => {
            proof {
                reveal(Seq::filter);
                assert(okspec =~= Seq::<DatasetPathV>::empty());
            }
        },
    }
    if !pm.opts.redownload {
        let n = of_kind.len();
        let mut i: usize = 0;
        while i < n
            invariant
                i <= n,
                n == of_kind.len(),
                of_kind.deep_view() == okspec,
                okspec == spec_find_paths(
                    pm.deep_view().datasets,
                    edition.deep_view(),
                    lang.deep_view(),
                ).filter(spec_checked_kind()),
                !pm.deep_view().opts.redownload,
                forall|j: int| 0 <= j < i ==> !(#[trigger] okspec[j]).exists,
            decreases n - i,
        {
            if of_kind[i].exists {
                proof {
                    lemma_first_existing_at(okspec, i as int);
                }
                return of_kind[i].path.clone();
            }
            i = i + 1;
        }
        proof {
            lemma_first_existing_none(okspec);
        }
    }
    proof {
        if spec_first_existing(okspec) is Some {
            assert(pm.deep_view().opts.redownload);
        }
        assert(okspec.len() > 0);
    }
    let last = of_kind.len() - 1;
    of_kind[last].path.clone()
}

/// One (edition, dataset path) per requested edition, in order.
pub open spec fn spec_datasets_list(pm: PathManagerV, editions: Seq<LangV>) -> Seq<
    (LangV, Seq<char>),
>
    decreases editions.len(),
{
    if editions.len() == 0 {
        Seq::<(LangV, Seq<char>)>::empty()
    } else {
        spec_datasets_list(pm, editions.drop_last()).push(
            (
                editions.last(),
                match spec_find_jsonl(pm, editions.last(), Option::Some(pm.source)) {
                    Option::Some(p) => p,
                    Option::None => Seq::<char>::empty(),
                },
            ),
        )
    }
}

/// Resolves the dataset file of every requested edition, for the run's
/// source language, in the order the editions were requested.
pub fn iter_datasets(pm: &PathManager) -> (r: Vec<(Lang, String)>)
    requires
        forall|i: int|
            0 <= i < pm.deep_view().editions.len() ==> spec_find_jsonl(
                pm.deep_view(),
                #[trigger] pm.deep_view().editions[i],
                Option::Some(pm.deep_view().source),
            ) is Some,
    ensures
        r.deep_view() == spec_datasets_list(pm.deep_view(), pm.deep_view().editions),
{
    let mut r: Vec<(Lang, String)> = Vec::new();
    let n = pm.editions.len();
    let mut i: usize = 0;
    proof {
        assert(pm.deep_view().editions.take(0int) =~= Seq::<LangV>::empty());
        assert(r.deep_view() =~= spec_datasets_list(
            pm.deep_view(),
            pm.deep_view().editions.take(0int),
        ));
    }
    while i < n
        invariant
            i <= n,
            n == pm.editions.len(),
            forall|j: int|
                0 <= j < pm.deep_view().editions.len() ==> spec_find_jsonl(
                    pm.deep_view(),
                    #[trigger] pm.deep_view().editions[j],
                    Option::Some(pm.deep_view().source),
                ) is Some,
            r.deep_view() == spec_datasets_list(
                pm.deep_view(),
                pm.deep_view().editions.take(i as int),
            ),
        decreases n - i,
    {
        let ghost ev = pm.deep_view().editions[i as int];
        proof {
            assert(pm.deep_view().editions.take(i + 1int).drop_last()
                =~= pm.deep_view().editions.take(i as int));
            assert(pm.deep_view().editions.take(i + 1int).last() == ev);
        }
        let edition = &pm.editions[i];
        let path = find_or_download_jsonl(edition, Some(&pm.source), pm);
        let ghost rpre = r.deep_view();
        r.push((edition.clone(), path));
        proof {
            assert(r.deep_view() =~= rpre.push(
                (
                    ev,
                    match spec_find_jsonl(pm.deep_view(), ev, Option::Some(pm.deep_view().source)) {
                        Option::Some(p) => p,
                        Option::None => Seq::<char>::empty(),
                    },
                ),
            ));
        }
        i = i + 1;
    }
    proof {
        assert(pm.deep_view().editions.take(n as int) =~= pm.deep_view().editions);
    }
    r
}

} // verus!
