//! Observational diagnostics: which tags were accepted or rejected, and
//! which word first triggered each.  Purely informational; nothing here
//! affects the pipeline's control flow.

use vstd::prelude::*;

verus! {

/// One tag's observations: the tag and the words it was seen on.
pub type CounterV = Seq<(Seq<char>, Seq<Seq<char>>)>;

/// Records one word under its tag: the first entry with that tag takes it;
/// a missing tag opens an entry at the end.
pub open spec fn spec_counter_push(m: CounterV, key: Seq<char>, word: Seq<char>) -> CounterV
    decreases m.len(),
{
    if m.len() == 0 {
        seq![(key, seq![word])]
    } else if m[0].0 == key {
        m.update(0, (m[0].0, m[0].1.push(word)))
    } else {
        seq![m[0]] + spec_counter_push(m.drop_first(), key, word)
    }
}

proof fn lemma_counter_push_found(m: CounterV, key: Seq<char>, word: Seq<char>, j: int)
    requires
        0 <= j < m.len(),
        m[j].0 == key,
        forall|i: int| 0 <= i < j ==> (#[trigger] m[i]).0 != key,
    ensures
        spec_counter_push(m, key, word) == m.update(j, (m[j].0, m[j].1.push(word))),
    decreases m.len(),
{
    if j == 0 {
    } else {
        assert(m[0].0 != key);
        let df = m.drop_first();
        assert(forall|i: int| 0 <= i < j - 1 ==> (#[trigger] df[i]).0 != key) by {
            assert(forall|i: int| 0 <= i < j - 1 ==> df[i] == m[i + 1]);
        };
        assert(df[j - 1] == m[j]);
        lemma_counter_push_found(df, key, word, j - 1);
        let x = (m[j].0, m[j].1.push(word));
        assert(seq![m[0]] + df.update(j - 1, x) =~= m.update(j, x));
    }
}

proof fn lemma_counter_push_absent(m: CounterV, key: Seq<char>, word: Seq<char>)
    requires
        forall|i: int| 0 <= i < m.len() ==> (#[trigger] m[i]).0 != key,
    ensures
        spec_counter_push(m, key, word) == m.push((key, seq![word])),
    decreases m.len(),
{
    if m.len() == 0 {
        assert(spec_counter_push(m, key, word) =~= m.push((key, seq![word])));
    } else {
        let df = m.drop_first();
        assert(forall|i: int| 0 <= i < df.len() ==> (#[trigger] df[i]).0 != key) by {
            assert(forall|i: int| 0 <= i < df.len() ==> df[i] == m[i + 1]);
        };
        lemma_counter_push_absent(df, key, word);
        assert(seq![m[0]] + df.push((key, seq![word])) =~= m.push((key, seq![word])));
    }
}

/// Tag observations gathered while a dictionary is built: the tags found in
/// the tag bank and those not found, each with the words they were seen on,
/// in first-occurrence order.
#[derive(Debug)]
pub struct Diagnostics {
    accepted_tags: Vec<(String, Vec<String>)>,
    rejected_tags: Vec<(String, Vec<String>)>,
}

impl Diagnostics {
    /// The accepted-tag observations.
    pub closed spec fn accepted_view(&self) -> CounterV {
        self.accepted_tags.deep_view()
    }

    /// The rejected-tag observations.
    pub closed spec fn rejected_view(&self) -> CounterV {
        self.rejected_tags.deep_view()
    }

    /// An empty set of observations.
    pub fn new() -> (d: Diagnostics)
        ensures
            d.accepted_view() == Seq::<(Seq<char>, Seq<Seq<char>>)>::empty(),
            d.rejected_view() == Seq::<(Seq<char>, Seq<Seq<char>>)>::empty(),
    {
        let d = Diagnostics { accepted_tags: Vec::new(), rejected_tags: Vec::new() };
        proof {
            assert(d.accepted_view() =~= Seq::<(Seq<char>, Seq<Seq<char>>)>::empty());
            assert(d.rejected_view() =~= Seq::<(Seq<char>, Seq<Seq<char>>)>::empty());
        }
        d
    }

    /// Records one word under its tag in a counter.
    fn increment(map: &mut Vec<(String, Vec<String>)>, key: String, word: String)
        ensures
            final(map).deep_view() == spec_counter_push(old(map).deep_view(), key@, word@),
    {
        let ghost mpre = map.deep_view();
        let ghost mvec = map@;
        let ghost keyv = key@;
        let ghost wordv = word@;
        let n = map.len();
        let mut i: usize = 0;
        while i < n
            invariant
                i <= n,
                n == map.len(),
                map.deep_view() == mpre,
                mpre == old(map).deep_view(),
                map@ == mvec,
                keyv == key@,
                wordv == word@,
                forall|j: int| 0 <= j < i ==> (#[trigger] map.deep_view()[j]).0 != key@,
            decreases n - i,
        {
            if map[i].0 == key {
                let (k2, mut words) = map.remove(i);
                let ghost wpre = words.deep_view();
                words.push(word);
                map.insert(i, (k2, words));
                proof {
                    lemma_counter_push_found(mpre, keyv, wordv, i as int);
                    let x = (mpre[i as int].0, mpre[i as int].1.push(wordv));
                    assert(words.deep_view() =~= wpre.push(wordv));
                    assert(map@ =~= mvec.remove(i as int).insert(i as int, (k2, words)));
                    assert(map@ =~= mvec.update(i as int, (k2, words)));
                    assert forall|m: int| 0 <= m < map@.len() implies map.deep_view()[m]
                        == mpre.update(i as int, x)[m] by {
                        if m == i {
                            assert(map@[m] == (k2, words));
                            assert(k2.deep_view() == mpre[i as int].0);
                        } else {
                            assert(map@[m] == mvec[m]);
                        }
                    };
                    assert(map.deep_view() =~= mpre.update(i as int, x));
                }
                return ;
            }
            i = i + 1;
        }
        let mut words: Vec<String> = Vec::new();
        words.push(word);
        map.push((key, words));
        proof {
            lemma_counter_push_absent(mpre, keyv, wordv);
            assert(words.deep_view() =~= seq![wordv]);
            assert(map.deep_view() =~= mpre.push((keyv, seq![wordv])));
        }
    }

    /// Records a tag found in the tag bank, with the word it was seen on.
    pub fn increment_accepted_tag(&mut self, tag: String, word: String)
        ensures
            final(self).accepted_view() == spec_counter_push(
                old(self).accepted_view(),
                tag@,
                word@,
            ),
            final(self).rejected_view() == old(self).rejected_view(),
    {
        Self::increment(&mut self.accepted_tags, tag, word);
    }

    /// Records a tag not found in the tag bank, with the word it was seen
    /// on.
    pub fn increment_rejected_tag(&mut self, tag: String, word: String)
        ensures
            final(self).rejected_view() == spec_counter_push(
                old(self).rejected_view(),
                tag@,
                word@,
            ),
            final(self).accepted_view() == old(self).accepted_view(),
    {
        Self::increment(&mut self.rejected_tags, tag, word);
    }

    /// Whether nothing was observed.
    pub fn is_empty(&self) -> (b: bool)
        ensures
            b == (self.accepted_view().len() == 0 && self.rejected_view().len() == 0),
    {
        self.accepted_tags.len() == 0 && self.rejected_tags.len() == 0
    }

    /// The accepted-tag summary, ready to be written out.
    pub fn accepted_summary(&self) -> (r: Vec<(String, (usize, String))>)
        ensures
            r.deep_view() == spec_counter_summary(self.accepted_view()),
    {
        convert_and_sort(&self.accepted_tags)
    }

    /// The rejected-tag summary, ready to be written out.
    pub fn rejected_summary(&self) -> (r: Vec<(String, (usize, String))>)
        ensures
            r.deep_view() == spec_counter_summary(self.rejected_view()),
    {
        convert_and_sort(&self.rejected_tags)
    }
}

/// One tag's summary line: how often it was seen and the first word it was
/// seen on.  Tags seen on no word are dropped.
pub open spec fn spec_summary_entries(m: CounterV) -> Seq<(Seq<char>, (usize, Seq<char>))>
    decreases m.len(),
{
    if m.len() == 0 {
        Seq::<(Seq<char>, (usize, Seq<char>))>::empty()
    } else {
        let pre = spec_summary_entries(m.drop_last());
        if m.last().1.len() == 0 {
            pre
        } else {
            pre.push((m.last().0, (m.last().1.len() as usize, m.last().1[0])))
        }
    }
}

/// Inserting one summary line into a run already sorted by count, largest
/// first: the line lands after every entry counted at least as often, which
/// keeps the order stable.
pub open spec fn spec_summary_insert(
    s: Seq<(Seq<char>, (usize, Seq<char>))>,
    x: (Seq<char>, (usize, Seq<char>)),
) -> Seq<(Seq<char>, (usize, Seq<char>))>
    decreases s.len(),
{
    if s.len() == 0 {
        seq![x]
    } else if s.last().1.0 >= x.1.0 {
        s.push(x)
    } else {
        spec_summary_insert(s.drop_last(), x).push(s.last())
    }
}

/// The stable sort of the summary lines, most frequent first.
pub open spec fn spec_summary_sort(s: Seq<(Seq<char>, (usize, Seq<char>))>) -> Seq<
    (Seq<char>, (usize, Seq<char>)),
>
    decreases s.len(),
{
    if s.len() == 0 {
        Seq::<(Seq<char>, (usize, Seq<char>))>::empty()
    } else {
        spec_summary_insert(spec_summary_sort(s.drop_last()), s.last())
    }
}

/// The written summary of one counter: one line per tag seen on any word,
/// sorted by how often it was seen, most frequent first; ties keep their
/// first-occurrence order.
pub open spec fn spec_counter_summary(m: CounterV) -> Seq<(Seq<char>, (usize, Seq<char>))> {
    spec_summary_sort(spec_summary_entries(m))
}

proof fn lemma_summary_insert_position(
    s: Seq<(Seq<char>, (usize, Seq<char>))>,
    x: (Seq<char>, (usize, Seq<char>)),
    p: int,
)
    requires
        0 <= p <= s.len(),
        p > 0 ==> s[p - 1].1.0 >= x.1.0,
        forall|j: int| p <= j < s.len() ==> !((#[trigger] s[j]).1.0 >= x.1.0),
    ensures
        spec_summary_insert(s, x) == s.insert(p, x),
    decreases s.len(),
{
    if p == s.len() {
        if s.len() == 0 {
            assert(spec_summary_insert(s, x) =~= s.insert(p, x));
        } else {
            assert(s.insert(p, x) =~= s.push(x));
        }
    } else {
        assert(!(s[s.len() - 1].1.0 >= x.1.0));
        let dl = s.drop_last();
        assert(p > 0 ==> dl[p - 1] == s[p - 1]);
        assert(forall|j: int| p <= j < dl.len() ==> #[trigger] dl[j] == s[j]);
        lemma_summary_insert_position(dl, x, p);
        assert(spec_summary_insert(s, x) == dl.insert(p, x).push(s.last()));
        assert(dl.insert(p, x).push(s.last()) =~= s.insert(p, x));
    }
}

/// The summary of a counter: drops tags without words, keeps count and
/// first word per tag, and sorts by count, most frequent first, stably.
pub fn convert_and_sort(map: &Vec<(String, Vec<String>)>) -> (r: Vec<(String, (usize, String))>)
    ensures
        r.deep_view() == spec_counter_summary(map.deep_view()),
{
    let mut entries: Vec<(String, (usize, String))> = Vec::new();
    let n = map.len();
    let mut i: usize = 0;
    proof {
        assert(map.deep_view().take(0int) =~= Seq::<(Seq<char>, Seq<Seq<char>>)>::empty());
    }
    while i < n
        invariant
            i <= n,
            n == map.len(),
            entries.deep_view() == spec_summary_entries(map.deep_view().take(i as int)),
        decreases n - i,
    {
        proof {
            assert(map.deep_view().take(i + 1int).drop_last() =~= map.deep_view().take(i as int));
            assert(map.deep_view().take(i + 1int).last() == map.deep_view()[i as int]);
        }
        let (key, words) = &map[i];
        if words.len() > 0 {
            let ghost epre = entries.deep_view();
            entries.push((key.clone(), (words.len(), words[0].clone())));
            proof {
                let mv = map.deep_view()[i as int];
                assert(entries.deep_view() =~= epre.push((mv.0, (mv.1.len() as usize, mv.1[0]))));
            }
        }
        i = i + 1;
    }
    proof {
        assert(map.deep_view().take(n as int) =~= map.deep_view());
    }
    let mut sorted: Vec<(String, (usize, String))> = Vec::new();
    let en = entries.len();
    let mut i: usize = 0;
    proof {
        assert(entries.deep_view().take(0int) =~= Seq::<(Seq<char>, (usize, Seq<char>))>::empty());
        assert(sorted.deep_view() =~= spec_summary_sort(entries.deep_view().take(0int)));
    }
    while i < en
        invariant
            i <= en,
            en == entries.len(),
            sorted.deep_view() == spec_summary_sort(entries.deep_view().take(i as int)),
        decreases en - i,
    {
        let (key, (count, word)) = &entries[i];
        let x = (key.clone(), (*count, word.clone()));
        let mut p: usize = sorted.len();
        while p > 0 && !(sorted[p - 1].1.0 >= *count)
            invariant
                p <= sorted.len(),
                x.deep_view() == entries.deep_view()[i as int],
                i < entries.len(),
                x.1.0 == *count,
                forall|j: int|
                    p <= j < sorted.deep_view().len() ==> !((#[trigger] sorted.deep_view()[j]).1.0
                        >= x.deep_view().1.0),
            decreases p,
        {
            p = p - 1;
        }
        let ghost spre = sorted.deep_view();
        proof {
            lemma_summary_insert_position(spre, x.deep_view(), p as int);
        }
        sorted.insert(p, x);
        proof {
            assert(sorted.deep_view() =~= spec_summary_insert(
                spre,
                entries.deep_view()[i as int],
            ));
            assert(entries.deep_view().take(i + 1int).drop_last() =~= entries.deep_view().take(
                i as int,
            ));
            assert(entries.deep_view().take(i + 1int).last() == entries.deep_view()[i as int]);
        }
        i = i + 1;
    }
    proof {
        assert(entries.deep_view().take(en as int) =~= entries.deep_view());
    }
    sorted
}

} // verus!
