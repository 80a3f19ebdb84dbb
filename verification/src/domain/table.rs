//! A small table with texts as keys.

use vstd::prelude::*;

use crate::text::same_text;

verus! {

/// Values by name; each name stands in it once.
#[derive(Debug)]
pub struct Table<V> {
    entries: Vec<(String, V)>,
}

/// What a list of entries says: of two with the same name, the later one.
pub open spec fn table_of<V>(es: Seq<(String, V)>) -> Map<Seq<char>, V>
    decreases es.len(),
{
    if es.len() == 0 {
        Map::empty()
    } else {
        table_of(es.drop_last()).insert(es.last().0@, es.last().1)
    }
}

pub open spec fn distinct_names<V>(es: Seq<(String, V)>) -> bool {
    forall|i: int, j: int|
        0 <= i < j < es.len() ==> (#[trigger] es[i]).0@ != (#[trigger] es[j]).0@
}

proof fn lemma_table_of<V>(es: Seq<(String, V)>)
    requires
        distinct_names(es),
    ensures
        forall|k: Seq<char>| #[trigger]
            table_of(es).dom().contains(k) <==> exists|i: int|
                0 <= i < es.len() && (#[trigger] es[i]).0@ == k,
        forall|i: int|
            0 <= i < es.len() ==> table_of(es)[(#[trigger] es[i]).0@] == es[i].1,
        table_of(es).dom().finite(),
        table_of(es).dom().len() == es.len(),
    decreases es.len(),
{
    let m = table_of(es);
    if es.len() > 0 {
        let init = es.drop_last();
        assert(distinct_names(init)) by {
            assert forall|i: int, j: int| 0 <= i < j < init.len() implies (#[trigger] init[i]).0@
                != (#[trigger] init[j]).0@ by {
                assert(es[i].0@ != es[j].0@);
            }
        }
        lemma_table_of(init);
        let key = es.last().0@;
        assert(!table_of(init).dom().contains(key)) by {
            if table_of(init).dom().contains(key) {
                let i = choose|i: int| 0 <= i < init.len() && (#[trigger] init[i]).0@ == key;
                assert(es[i].0@ != es[es.len() - 1].0@);
            }
        }
        assert(m.dom() =~= table_of(init).dom().insert(key));
        assert forall|k: Seq<char>| #[trigger] m.dom().contains(k) <==> exists|i: int|
            0 <= i < es.len() && (#[trigger] es[i]).0@ == k by {
            if k == key {
                assert(es[es.len() - 1].0@ == k);
            } else if table_of(init).dom().contains(k) {
                let i = choose|i: int| 0 <= i < init.len() && (#[trigger] init[i]).0@ == k;
                assert(es[i].0@ == k);
            }
            if exists|i: int| 0 <= i < es.len() && (#[trigger] es[i]).0@ == k {
                let i = choose|i: int| 0 <= i < es.len() && (#[trigger] es[i]).0@ == k;
                if i < init.len() {
                    assert(init[i].0@ == k);
                }
            }
        }
        assert forall|i: int| 0 <= i < es.len() implies m[(#[trigger] es[i]).0@] == es[i].1 by {
            if i < init.len() {
                assert(init[i] == es[i]);
                assert(es[i].0@ != es[es.len() - 1].0@);
            }
        }
    }
}

proof fn lemma_table_update<V>(es: Seq<(String, V)>, at: int, value: V)
    requires
        distinct_names(es),
        0 <= at < es.len(),
    ensures
        distinct_names(es.update(at, (es[at].0, value))),
        table_of(es.update(at, (es[at].0, value))) == table_of(es).insert(es[at].0@, value),
{
    let u = es.update(at, (es[at].0, value));
    assert(distinct_names(u)) by {
        assert forall|i: int, j: int| 0 <= i < j < u.len() implies (#[trigger] u[i]).0@ != (
        #[trigger] u[j]).0@ by {
            assert(es[i].0@ != es[j].0@);
        }
    }
    lemma_table_of(es);
    lemma_table_of(u);
    let a = table_of(u);
    let b = table_of(es).insert(es[at].0@, value);
    assert forall|k: Seq<char>| a.dom().contains(k) <==> b.dom().contains(k) by {
        if a.dom().contains(k) {
            let i = choose|i: int| 0 <= i < u.len() && (#[trigger] u[i]).0@ == k;
            assert(es[i].0@ == k);
        }
        if table_of(es).dom().contains(k) {
            let i = choose|i: int| 0 <= i < es.len() && (#[trigger] es[i]).0@ == k;
            assert(u[i].0@ == k);
        }
        assert(u[at].0@ == es[at].0@);
    }
    assert forall|k: Seq<char>| a.dom().contains(k) implies a[k] == b[k] by {
        let i = choose|i: int| 0 <= i < u.len() && (#[trigger] u[i]).0@ == k;
        assert(a[u[i].0@] == u[i].1);
        assert(b[k] == if k == es[at].0@ {
            value
        } else {
            table_of(es)[k]
        });
        if i != at {
            assert(es[i] == u[i]);
            assert(table_of(es)[es[i].0@] == es[i].1);
            if i < at {
                assert(es[i].0@ != es[at].0@);
            } else {
                assert(es[at].0@ != es[i].0@);
            }
        }
    }
    assert(a =~= b);
}

impl<V> View for Table<V> {
    type V = Map<Seq<char>, V>;

    closed spec fn view(&self) -> Map<Seq<char>, V> {
        table_of(self.entries@)
    }
}

impl<V> Table<V> {
    #[verifier::type_invariant]
    spec fn names_are_distinct(self) -> bool {
        distinct_names(self.entries@)
    }

    pub fn new() -> (r: Self)
        ensures
            r@ == Map::<Seq<char>, V>::empty(),
    {
        Table { entries: Vec::new() }
    }

    fn find(&self, name: &str) -> (r: Option<usize>)
        ensures
            match r {
                Some(i) => i < self.entries@.len() && self.entries@[i as int].0@ == name@,
                None => !self@.dom().contains(name@),
            },
    {
        proof {
            use_type_invariant(self);
            lemma_table_of(self.entries@);
        }
        let mut i: usize = 0;
        while i < self.entries.len()
            invariant
                i <= self.entries@.len(),
                forall|j: int| 0 <= j < i ==> (#[trigger] self.entries@[j]).0@ != name@,
            decreases self.entries@.len() - i,
        {
            if same_text(self.entries[i].0.as_str(), name) {
                return Some(i);
            }
            i += 1;
        }
        None
    }

    pub fn len(&self) -> (r: usize)
        ensures
            r == self@.dom().len(),
    {
        proof {
            use_type_invariant(self);
            lemma_table_of(self.entries@);
        }
        self.entries.len()
    }

    pub fn contains_key(&self, name: &str) -> (r: bool)
        ensures
            r == self@.dom().contains(name@),
    {
        proof {
            use_type_invariant(self);
            lemma_table_of(self.entries@);
        }
        self.find(name).is_some()
    }

    pub fn get(&self, name: &str) -> (r: Option<&V>)
        ensures
            match r {
                Some(v) => self@.dom().contains(name@) && *v == self@[name@],
                None => !self@.dom().contains(name@),
            },
    {
        proof {
            use_type_invariant(self);
            lemma_table_of(self.entries@);
        }
        match self.find(name) {
            Some(i) => Some(&self.entries[i].1),
            None => None,
        }
    }

    /// Gives a name a value, in place of the one that it had.
    pub fn insert(&mut self, name: String, value: V)
        ensures
            final(self)@ == old(self)@.insert(name@, value),
    {
        proof {
            use_type_invariant(&*self);
            lemma_table_of(self.entries@);
        }
        let ghost es = self.entries@;
        let found = self.find(name.as_str());
        let mut entries: Vec<(String, V)> = Vec::new();
        std::mem::swap(&mut entries, &mut self.entries);
        match found {
            Some(i) => {
                proof {
                    lemma_table_update(es, i as int, value);
                    let u = es.update(i as int, (es[i as int].0, value));
                    let w = es.update(i as int, (name, value));
                    lemma_same_names(u, w);
                }
                entries.set(i, (name, value));
            },
            None => {
                proof {
                    let w = es.push((name, value));
                    assert(w.drop_last() =~= es);
                    assert(distinct_names(w)) by {
                        assert forall|a: int, b: int| 0 <= a < b < w.len() implies (
                        #[trigger] w[a]).0@ != (#[trigger] w[b]).0@ by {
                            if b < es.len() {
                                assert(es[a].0@ != es[b].0@);
                            } else {
                                assert(table_of(es).dom().contains(es[a].0@));
                            }
                        }
                    }
                }
                entries.push((name, value));
            },
        }
        self.entries = entries;
    }
}

proof fn lemma_same_names<V>(a: Seq<(String, V)>, b: Seq<(String, V)>)
    requires
        a.len() == b.len(),
        forall|i: int|
            0 <= i < a.len() ==> (#[trigger] a[i]).0@ == b[i].0@ && a[i].1 == b[i].1,
        distinct_names(a),
    ensures
        distinct_names(b),
        table_of(a) == table_of(b),
    decreases a.len(),
{
    assert(distinct_names(b)) by {
        assert forall|i: int, j: int| 0 <= i < j < b.len() implies (#[trigger] b[i]).0@ != (
        #[trigger] b[j]).0@ by {
            assert(a[i].0@ != a[j].0@);
        }
    }
    if a.len() > 0 {
        assert forall|i: int| 0 <= i < a.drop_last().len() implies (
        #[trigger] a.drop_last()[i]).0@ == b.drop_last()[i].0@ && a.drop_last()[i].1
            == b.drop_last()[i].1 by {
            assert(a[i].0@ == b[i].0@);
        }
        assert(distinct_names(a.drop_last())) by {
            assert forall|i: int, j: int| 0 <= i < j < a.drop_last().len() implies (
            #[trigger] a.drop_last()[i]).0@ != (#[trigger] a.drop_last()[j]).0@ by {
                assert(a[i].0@ != a[j].0@);
            }
        }
        lemma_same_names(a.drop_last(), b.drop_last());
        assert(a[a.len() - 1].0@ == b[b.len() - 1].0@);
    }
}

} // verus!
