//! Outcomes of tests, by the filter key of the leaf that they belong to.

use vstd::prelude::*;

use crate::text::{has_text_in, same_text, texts};

verus! {

#[derive(Clone, Copy, Debug, PartialEq, Eq, Structural)]
pub enum LeafStatus {
    Passed,
    Failed,
    Skipped,
}

/// The outcome of one leaf.
#[derive(Clone, Debug)]
pub struct LeafResult {
    pub status: LeafStatus,
    pub details: Vec<String>,
}

/// What a [`LeafResult`] says, as values.
pub struct LeafResultView {
    pub status: LeafStatus,
    pub details: Seq<Seq<char>>,
}

impl View for LeafResult {
    type V = LeafResultView;

    open spec fn view(&self) -> LeafResultView {
        LeafResultView { status: self.status, details: texts(self.details@) }
    }
}

/// Outcomes by the filter key of the leaf. No key occurs twice.
pub struct LeafResults {
    entries: Vec<(String, LeafResult)>,
}

/// A key with the outcome recorded for it.
pub type EntryView = (Seq<char>, LeafResultView);

/// What a list of keys with outcomes says, entry by entry.
pub open spec fn entry_views(es: Seq<(String, LeafResult)>) -> Seq<EntryView> {
    es.map_values(|e: (String, LeafResult)| (e.0@, e.1@))
}

/// No key occurs twice.
pub open spec fn distinct_keys(es: Seq<EntryView>) -> bool {
    forall|i: int, j: int|
        0 <= i < j < es.len() ==> (#[trigger] es[i]).0 != (#[trigger] es[j]).0
}

/// The outcomes by key; of two entries for one key the later one counts.
pub open spec fn map_of(es: Seq<EntryView>) -> Map<Seq<char>, LeafResultView>
    decreases es.len(),
{
    if es.len() == 0 {
        Map::empty()
    } else {
        map_of(es.drop_last()).insert(es.last().0, es.last().1)
    }
}

pub proof fn lemma_map_of(es: Seq<EntryView>)
    requires
        distinct_keys(es),
    ensures
        map_of(es).dom().finite(),
        forall|k: Seq<char>|
            map_of(es).dom().contains(k) <==> exists|i: int|
                0 <= i < es.len() && (#[trigger] es[i]).0 == k,
        forall|i: int| 0 <= i < es.len() ==> map_of(es)[(#[trigger] es[i]).0] == es[i].1,
    decreases es.len(),
{
    if es.len() > 0 {
        let init = es.drop_last();
        lemma_map_of(init);
        assert forall|k: Seq<char>|
            map_of(es).dom().contains(k) <==> exists|i: int|
                0 <= i < es.len() && (#[trigger] es[i]).0 == k by {
            if map_of(init).dom().contains(k) {
                let i = choose|i: int| 0 <= i < init.len() && (#[trigger] init[i]).0 == k;
                assert(es[i].0 == k);
            }
            if k == es.last().0 {
                assert(es[es.len() - 1].0 == k);
            }
            if exists|i: int| 0 <= i < es.len() && (#[trigger] es[i]).0 == k {
                let i = choose|i: int| 0 <= i < es.len() && (#[trigger] es[i]).0 == k;
                if i < es.len() - 1 {
                    assert(init[i].0 == k);
                }
            }
        }
        assert forall|i: int| 0 <= i < es.len() implies map_of(es)[(#[trigger] es[i]).0]
            == es[i].1 by {
            if i < es.len() - 1 {
                assert(init[i] == es[i]);
                assert(es[i].0 != es[es.len() - 1].0);
            }
        }
    }
}

impl View for LeafResults {
    type V = Map<Seq<char>, LeafResultView>;

    closed spec fn view(&self) -> Map<Seq<char>, LeafResultView> {
        map_of(entry_views(self.entries@))
    }
}

impl LeafResults {
    pub closed spec fn wf(&self) -> bool {
        distinct_keys(entry_views(self.entries@))
    }

    /// The entries in the order in which their keys came.
    pub closed spec fn listed(&self) -> Seq<EntryView> {
        entry_views(self.entries@)
    }

    pub proof fn lemma_listed(&self)
        requires
            self.wf(),
        ensures
            distinct_keys(self.listed()),
            self@ == map_of(self.listed()),
    {
    }

    pub fn len(&self) -> (r: usize)
        ensures
            r == self.listed().len(),
    {
        self.entries.len()
    }

    pub fn entry(&self, i: usize) -> (r: (&String, &LeafResult))
        requires
            i < self.listed().len(),
        ensures
            (r.0@, r.1@) == self.listed()[i as int],
    {
        (&self.entries[i].0, &self.entries[i].1)
    }

    pub fn new() -> (r: Self)
        ensures
            r.wf(),
            r@ == Map::<Seq<char>, LeafResultView>::empty(),
    {
        LeafResults { entries: Vec::new() }
    }

    fn position(&self, key: &str) -> (r: Option<usize>)
        requires
            self.wf(),
        ensures
            r matches Some(i) ==> i < self.entries@.len() && self.entries@[i as int].0@ == key@,
            r is Some <==> self@.dom().contains(key@),
    {
        let ghost es = entry_views(self.entries@);
        proof {
            lemma_map_of(es);
        }
        let mut i: usize = 0;
        while i < self.entries.len()
            invariant
                self.wf(),
                es == entry_views(self.entries@),
                i <= self.entries@.len(),
                forall|j: int| 0 <= j < i ==> (#[trigger] es[j]).0 != key@,
                forall|k: Seq<char>|
                    self@.dom().contains(k) <==> exists|i: int|
                        0 <= i < es.len() && (#[trigger] es[i]).0 == k,
            decreases self.entries@.len() - i,
        {
            if same_text(self.entries[i].0.as_str(), key) {
                assert(es[i as int].0 == key@);
                return Some(i);
            }
            i += 1;
        }
        None
    }

    pub fn contains_key(&self, key: &str) -> (r: bool)
        requires
            self.wf(),
        ensures
            r == self@.dom().contains(key@),
    {
        self.position(key).is_some()
    }

    pub fn is_empty(&self) -> (r: bool)
        requires
            self.wf(),
        ensures
            r == (self@ == Map::<Seq<char>, LeafResultView>::empty()),
    {
        proof {
            lemma_map_of(entry_views(self.entries@));
            if self.entries@.len() > 0 {
                assert(self@.dom().contains(entry_views(self.entries@)[0].0));
            }
        }
        self.entries.len() == 0
    }

    pub fn get(&self, key: &str) -> (r: Option<&LeafResult>)
        requires
            self.wf(),
        ensures
            match r {
                Some(v) => self@.dom().contains(key@) && v@ == self@[key@],
                None => !self@.dom().contains(key@),
            },
    {
        match self.position(key) {
            Some(i) => {
                proof {
                    lemma_map_of(entry_views(self.entries@));
                    assert(entry_views(self.entries@)[i as int].0 == key@);
                }
                Some(&self.entries[i].1)
            },
            None => None,
        }
    }

    pub fn insert(&mut self, key: String, value: LeafResult)
        requires
            old(self).wf(),
        ensures
            final(self).wf(),
            final(self)@ == old(self)@.insert(key@, value@),
    {
        let ghost es0 = entry_views(self.entries@);
        let ghost k = key@;
        let ghost v = value@;
        proof {
            lemma_map_of(es0);
        }
        match self.position(key.as_str()) {
            Some(i) => {
                self.entries.set(i, (key, value));
                proof {
                    let es1 = entry_views(self.entries@);
                    assert(es0[i as int].0 == k);
                    assert(es1 =~= es0.update(i as int, (k, v)));
                    assert(distinct_keys(es1));
                    lemma_map_of(es1);
                    assert forall|x: Seq<char>|
                        map_of(es1).dom().contains(x) <==> map_of(es0).dom().contains(x) by {
                        if map_of(es0).dom().contains(x) {
                            let j = choose|j: int| 0 <= j < es0.len() && (#[trigger] es0[j]).0 == x;
                            assert(es1[j].0 == x);
                        }
                        if map_of(es1).dom().contains(x) {
                            let j = choose|j: int| 0 <= j < es1.len() && (#[trigger] es1[j]).0 == x;
                            assert(es0[j].0 == x);
                        }
                    }
                    assert forall|x: Seq<char>|
                        map_of(es0).dom().contains(x) implies map_of(es1)[x] == map_of(
                        es0,
                    ).insert(k, v)[x] by {
                        let j = choose|j: int| 0 <= j < es0.len() && (#[trigger] es0[j]).0 == x;
                        assert(es1[j].0 == x);
                    }
                    assert(map_of(es1) =~= map_of(es0).insert(k, v));
                }
            },
            None => {
                self.entries.push((key, value));
                proof {
                    let es1 = entry_views(self.entries@);
                    assert(es1 =~= es0.push((k, v)));
                    assert(es1.drop_last() =~= es0);
                    assert forall|i: int, j: int| 0 <= i < j < es1.len() implies (
                    #[trigger] es1[i]).0 != (#[trigger] es1[j]).0 by {
                        if j == es1.len() - 1 {
                            assert(es0[i].0 == es1[i].0);
                        }
                    }
                }
            },
        }
    }

    /// Drops every outcome whose key is not in `keys`.
    pub fn keep_keys(&mut self, keys: &Vec<String>)
        requires
            old(self).wf(),
        ensures
            final(self).wf(),
            final(self)@ == old(self)@.restrict(
                Set::new(|k: Seq<char>| texts(keys@).contains(k)),
            ),
    {
        let ghost kept = Set::new(|k: Seq<char>| texts(keys@).contains(k));
        let mut out = LeafResults::new();
        let mut i: usize = 0;
        assert(map_of(self.listed().take(0)).restrict(kept) =~= Map::<
            Seq<char>,
            LeafResultView,
        >::empty());
        while i < self.entries.len()
            invariant
                self.wf(),
                out.wf(),
                kept == Set::new(|k: Seq<char>| texts(keys@).contains(k)),
                i <= self.entries@.len(),
                out@ == map_of(self.listed().take(i as int)).restrict(kept),
            decreases self.entries@.len() - i,
        {
            let ghost next = self.listed().take(i + 1);
            assert(next.drop_last() =~= self.listed().take(i as int));
            let ghost m = map_of(self.listed().take(i as int));
            let ghost e = self.listed()[i as int];
            assert(map_of(next) == m.insert(e.0, e.1));
            if has_text_in(keys, self.entries[i].0.as_str()) {
                out.insert(self.entries[i].0.clone(), clone_result(&self.entries[i].1));
                assert(out@ =~= m.insert(e.0, e.1).restrict(kept));
            } else {
                assert(out@ =~= m.insert(e.0, e.1).restrict(kept));
            }
            i += 1;
        }
        assert(self.listed().take(i as int) =~= self.listed());
        self.entries = out.entries;
    }

    /// The outcomes of a list; of two entries for one key the later one counts.
    pub fn from_pairs(pairs: &Vec<(String, LeafResult)>) -> (r: Self)
        ensures
            r.wf(),
            r@ == map_of(entry_views(pairs@)),
    {
        let mut out = LeafResults::new();
        let mut i: usize = 0;
        let ghost all = entry_views(pairs@);
        while i < pairs.len()
            invariant
                out.wf(),
                all == entry_views(pairs@),
                i <= pairs@.len(),
                out@ == map_of(all.take(i as int)),
            decreases pairs@.len() - i,
        {
            let ghost next = all.take(i + 1);
            assert(next.drop_last() =~= all.take(i as int));
            out.insert(pairs[i].0.clone(), clone_result(&pairs[i].1));
            i += 1;
        }
        assert(all.take(i as int) =~= all);
        out
    }

    /// The outcomes as a list, each key once.
    pub fn to_pairs(&self) -> (r: Vec<(String, LeafResult)>)
        requires
            self.wf(),
        ensures
            distinct_keys(entry_views(r@)),
            map_of(entry_views(r@)) == self@,
    {
        let mut out: Vec<(String, LeafResult)> = Vec::new();
        let mut i: usize = 0;
        while i < self.entries.len()
            invariant
                i <= self.entries@.len(),
                entry_views(out@) == self.listed().take(i as int),
            decreases self.entries@.len() - i,
        {
            let ghost o = entry_views(out@);
            out.push((self.entries[i].0.clone(), clone_result(&self.entries[i].1)));
            assert(entry_views(out@) =~= o.push(self.listed()[i as int]));
            assert(self.listed().take(i + 1) =~= o.push(self.listed()[i as int]));
            i += 1;
        }
        assert(self.listed().take(i as int) =~= self.listed());
        out
    }
}

pub fn clone_texts(v: &Vec<String>) -> (r: Vec<String>)
    ensures
        texts(r@) == texts(v@),
{
    let mut out: Vec<String> = Vec::new();
    let mut i: usize = 0;
    while i < v.len()
        invariant
            i <= v@.len(),
            texts(out@) == texts(v@).take(i as int),
        decreases v@.len() - i,
    {
        let ghost o = texts(out@);
        out.push(v[i].clone());
        assert(texts(out@) =~= o.push(v@[i as int]@));
        assert(texts(v@).take(i + 1) =~= o.push(v@[i as int]@));
        i += 1;
    }
    assert(texts(v@).take(i as int) =~= texts(v@));
    out
}

pub fn clone_result(r: &LeafResult) -> (c: LeafResult)
    ensures
        c@ == r@,
{
    LeafResult { status: r.status, details: clone_texts(&r.details) }
}

} // verus!
