//! The order of texts by their characters, and sorted lists without repeats.

use vstd::prelude::*;

use crate::text::{chars_of, same_text, texts};

verus! {

/// `a` stands before `b`: at the first place where they differ its character
/// is the smaller one, or it is a proper prefix of `b`.
pub open spec fn before(a: Seq<char>, b: Seq<char>) -> bool
    decreases a.len(),
{
    if b.len() == 0 {
        false
    } else if a.len() == 0 {
        true
    } else if a[0] != b[0] {
        a[0] < b[0]
    } else {
        before(a.drop_first(), b.drop_first())
    }
}

pub proof fn lemma_before_irreflexive(a: Seq<char>)
    ensures
        !before(a, a),
    decreases a.len(),
{
    if a.len() > 0 {
        lemma_before_irreflexive(a.drop_first());
    }
}

pub proof fn lemma_before_transitive(a: Seq<char>, b: Seq<char>, c: Seq<char>)
    requires
        before(a, b),
        before(b, c),
    ensures
        before(a, c),
    decreases a.len(),
{
    if a.len() > 0 && b.len() > 0 && c.len() > 0 && a[0] == b[0] && b[0] == c[0] {
        lemma_before_transitive(a.drop_first(), b.drop_first(), c.drop_first());
    }
}

pub proof fn lemma_before_total(a: Seq<char>, b: Seq<char>)
    ensures
        a == b || before(a, b) || before(b, a),
    decreases a.len(),
{
    if a.len() == 0 || b.len() == 0 {
        if a.len() == b.len() {
            assert(a =~= b);
        }
    } else if a[0] == b[0] {
        lemma_before_total(a.drop_first(), b.drop_first());
        if a.drop_first() == b.drop_first() {
            assert(a =~= seq![a[0]] + a.drop_first());
            assert(b =~= seq![b[0]] + b.drop_first());
        }
    }
}

pub fn is_before(a: &str, b: &str) -> (r: bool)
    ensures
        r == before(a@, b@),
{
    let x = chars_of(a);
    let y = chars_of(b);
    let mut i: usize = 0;
    assert(a@.skip(0) =~= a@);
    assert(b@.skip(0) =~= b@);
    loop
        invariant
            x@ == a@,
            y@ == b@,
            i <= x@.len(),
            i <= y@.len(),
            before(a@, b@) == before(a@.skip(i as int), b@.skip(i as int)),
        decreases x@.len() - i,
    {
        if i == y.len() {
            return false;
        }
        if i == x.len() {
            return true;
        }
        if x[i] != y[i] {
            return x[i] < y[i];
        }
        assert(a@.skip(i as int).drop_first() =~= a@.skip(i + 1));
        assert(b@.skip(i as int).drop_first() =~= b@.skip(i + 1));
        i += 1;
    }
}

/// Each text stands before all that follow it; so none occurs twice.
pub open spec fn ascending(s: Seq<Seq<char>>) -> bool {
    forall|i: int, j: int| 0 <= i < j < s.len() ==> before(#[trigger] s[i], #[trigger] s[j])
}

/// Where `key` stands in an ascending list, or where it belongs.
pub fn ascending_position(v: &Vec<String>, key: &str) -> (r: (usize, bool))
    requires
        ascending(texts(v@)),
    ensures
        r.0 <= v@.len(),
        r.1 ==> r.0 < v@.len() && v@[r.0 as int]@ == key@,
        !r.1 ==> !texts(v@).contains(key@),
        forall|k: int| 0 <= k < r.0 ==> before(#[trigger] texts(v@)[k], key@),
        !r.1 ==> forall|k: int|
            r.0 <= k < v@.len() ==> before(key@, #[trigger] texts(v@)[k]),
{
    let mut i: usize = 0;
    while i < v.len() && is_before(v[i].as_str(), key)
        invariant
            i <= v@.len(),
            forall|k: int| 0 <= k < i ==> before(#[trigger] texts(v@)[k], key@),
        decreases v@.len() - i,
    {
        i += 1;
    }
    if i < v.len() && same_text(v[i].as_str(), key) {
        return (i, true);
    }
    proof {
        let t = texts(v@);
        if i < v@.len() {
            lemma_before_total(t[i as int], key@);
        }
        assert forall|k: int| i <= k < v@.len() implies before(key@, #[trigger] t[k]) by {
            if k > i {
                lemma_before_transitive(key@, t[i as int], t[k]);
            }
        }
        assert forall|k: int| 0 <= k < t.len() implies t[k] != key@ by {
            lemma_before_irreflexive(key@);
        }
    }
    (i, false)
}

/// Puts `key` into an ascending list, unless it is there already.
pub fn insert_ascending(v: &mut Vec<String>, key: String)
    requires
        ascending(texts(old(v)@)),
    ensures
        ascending(texts(final(v)@)),
        forall|t: Seq<char>|
            texts(final(v)@).contains(t) <==> texts(old(v)@).contains(t) || t == key@,
{
    let (i, found) = ascending_position(v, key.as_str());
    let ghost t0 = texts(v@);
    if found {
        assert(t0[i as int] == key@);
    } else {
        let ghost k = key@;
        v.insert(i, key);
        let ghost t1 = texts(v@);
        proof {
            assert(t1 =~= t0.insert(i as int, k));
            assert forall|a: int, b: int| 0 <= a < b < t1.len() implies before(
                #[trigger] t1[a],
                #[trigger] t1[b],
            ) by {
                let a0 = if a < i {
                    a
                } else {
                    a - 1
                };
                let b0 = if b < i {
                    b
                } else {
                    b - 1
                };
                if a != i && b != i {
                    assert(t1[a] == t0[a0] && t1[b] == t0[b0]);
                } else if a == i {
                    assert(t1[b] == t0[b0]);
                } else {
                    assert(t1[a] == t0[a0]);
                }
            }
            assert forall|t: Seq<char>| t1.contains(t) <==> t0.contains(t) || t == k by {
                if t0.contains(t) {
                    let j = choose|j: int| 0 <= j < t0.len() && t0[j] == t;
                    assert(t1[if j < i {
                        j
                    } else {
                        j + 1
                    }] == t);
                }
                if t == k {
                    assert(t1[i as int] == t);
                }
                if t1.contains(t) && t != k {
                    let j = choose|j: int| 0 <= j < t1.len() && t1[j] == t;
                    assert(t0[if j < i {
                        j
                    } else {
                        j - 1
                    }] == t);
                }
            }
        }
    }
}

/// The texts in `ts`, in ascending order and each once.
pub open spec fn ascending_list(ts: Seq<Seq<char>>) -> Seq<Seq<char>> {
    choose|l: Seq<Seq<char>>| #[trigger]
        ascending(l) && forall|t: Seq<char>| l.contains(t) <==> ts.contains(t)
}

proof fn with_inserted(l: Seq<Seq<char>>, x: Seq<char>) -> (r: Seq<Seq<char>>)
    requires
        ascending(l),
    ensures
        ascending(r),
        forall|t: Seq<char>| r.contains(t) <==> l.contains(t) || t == x,
    decreases l.len(),
{
    if l.len() > 0 && l[0] == x {
        l
    } else if l.len() == 0 || before(x, l[0]) {
        let r = seq![x] + l;
        assert forall|i: int, j: int| 0 <= i < j < r.len() implies before(
            #[trigger] r[i],
            #[trigger] r[j],
        ) by {
            assert(r[j] == l[j - 1]);
            if i > 0 {
                assert(r[i] == l[i - 1]);
            } else if j > 1 {
                assert(before(l[0], l[j - 1]));
                lemma_before_transitive(x, l[0], l[j - 1]);
            }
        }
        assert forall|t: Seq<char>| r.contains(t) <==> l.contains(t) || t == x by {
            assert(r[0] == x);
            if l.contains(t) {
                let j = choose|j: int| 0 <= j < l.len() && l[j] == t;
                assert(r[j + 1] == t);
            }
        }
        r
    } else {
        let tail = l.drop_first();
        assert forall|i: int, j: int| 0 <= i < j < tail.len() implies before(
            #[trigger] tail[i],
            #[trigger] tail[j],
        ) by {
            assert(before(l[i + 1], l[j + 1]));
        }
        let rest = with_inserted(tail, x);
        let r = seq![l[0]] + rest;
        lemma_before_total(x, l[0]);
        assert forall|i: int, j: int| 0 <= i < j < r.len() implies before(
            #[trigger] r[i],
            #[trigger] r[j],
        ) by {
            if i > 0 {
                assert(before(rest[i - 1], rest[j - 1]));
            } else {
                assert(rest.contains(rest[j - 1]));
                if rest[j - 1] != x {
                    let k = choose|k: int| 0 <= k < tail.len() && tail[k] == rest[j - 1];
                    assert(before(l[0], l[k + 1]));
                }
            }
        }
        assert forall|t: Seq<char>| r.contains(t) <==> l.contains(t) || t == x by {
            if r.contains(t) {
                let j = choose|j: int| 0 <= j < r.len() && r[j] == t;
                if j == 0 {
                    assert(l[0] == t);
                } else {
                    assert(rest[j - 1] == t);
                    assert(rest.contains(t));
                    if t != x {
                        let k = choose|k: int| 0 <= k < tail.len() && tail[k] == t;
                        assert(l[k + 1] == t);
                    }
                }
            }
            if l.contains(t) {
                let j = choose|j: int| 0 <= j < l.len() && l[j] == t;
                if j > 0 {
                    assert(tail[j - 1] == t);
                    assert(rest.contains(t));
                    let k = choose|k: int| 0 <= k < rest.len() && rest[k] == t;
                    assert(r[k + 1] == t);
                } else {
                    assert(r[0] == t);
                }
            }
            if t == x {
                assert(rest.contains(t));
                let k = choose|k: int| 0 <= k < rest.len() && rest[k] == t;
                assert(r[k + 1] == t);
            }
        }
        r
    }
}

proof fn some_ascending(ts: Seq<Seq<char>>) -> (l: Seq<Seq<char>>)
    ensures
        ascending(l),
        forall|t: Seq<char>| l.contains(t) <==> ts.contains(t),
    decreases ts.len(),
{
    if ts.len() == 0 {
        Seq::empty()
    } else {
        let shorter = some_ascending(ts.drop_last());
        let l = with_inserted(shorter, ts.last());
        assert forall|t: Seq<char>| ts.contains(t) <==> ts.drop_last().contains(t) || t
            == ts.last() by {
            if ts.contains(t) && t != ts.last() {
                let j = choose|j: int| 0 <= j < ts.len() && ts[j] == t;
                assert(ts.drop_last()[j] == t);
            }
            if ts.drop_last().contains(t) {
                let j = choose|j: int| 0 <= j < ts.len() - 1 && ts.drop_last()[j] == t;
                assert(ts[j] == t);
            }
        }
        l
    }
}

pub proof fn lemma_ascending_list(ts: Seq<Seq<char>>)
    ensures
        ascending(ascending_list(ts)),
        forall|t: Seq<char>| ascending_list(ts).contains(t) <==> ts.contains(t),
{
    let l = some_ascending(ts);
    assert(ascending(l) && forall|t: Seq<char>| l.contains(t) <==> ts.contains(t));
}

pub fn sorted_unique(names: &Vec<String>) -> (r: Vec<String>)
    ensures
        texts(r@) == ascending_list(texts(names@)),
        ascending(texts(r@)),
        forall|t: Seq<char>| texts(r@).contains(t) <==> texts(names@).contains(t),
{
    let mut out: Vec<String> = Vec::new();
    let mut i: usize = 0;
    while i < names.len()
        invariant
            i <= names@.len(),
            ascending(texts(out@)),
            forall|t: Seq<char>|
                texts(out@).contains(t) <==> texts(names@).take(i as int).contains(t),
        decreases names@.len() - i,
    {
        let ghost before_names = texts(names@).take(i as int);
        let ghost next_names = texts(names@).take(i + 1);
        insert_ascending(&mut out, names[i].clone());
        proof {
            assert(next_names =~= before_names.push(names@[i as int]@));
            assert forall|t: Seq<char>|
                next_names.contains(t) <==> before_names.contains(t) || t == names@[i as int]@ by {
                if before_names.contains(t) {
                    let j = choose|j: int| 0 <= j < before_names.len() && before_names[j] == t;
                    assert(next_names[j] == t);
                }
                if t == names@[i as int]@ {
                    assert(next_names[i as int] == t);
                }
            }
        }
        i += 1;
    }
    assert(texts(names@).take(i as int) =~= texts(names@));
    proof {
        lemma_ascending_list(texts(names@));
        law_ascending_unique(texts(out@), ascending_list(texts(names@)));
    }
    out
}

proof fn lemma_ascending_ext(a: Seq<Seq<char>>, b: Seq<Seq<char>>, n: int)
    requires
        ascending(a),
        ascending(b),
        forall|t: Seq<char>| a.contains(t) <==> b.contains(t),
        0 <= n <= a.len(),
        n <= b.len(),
    ensures
        a.take(n) == b.take(n),
    decreases n,
{
    if n > 0 {
        lemma_ascending_ext(a, b, n - 1);
        let x = a[n - 1];
        let y = b[n - 1];
        if x != y {
            lemma_before_total(x, y);
            assert(a.contains(x));
            assert(b.contains(y));
            let (s, o, t) = if before(x, y) {
                (a, b, x)
            } else {
                (b, a, y)
            };
            let k = choose|k: int| 0 <= k < o.len() && o[k] == t;
            lemma_before_irreflexive(t);
            if k >= n {
                assert(before(o[n - 1], o[k]));
                lemma_before_transitive(t, o[n - 1], o[k]);
            } else if k == n - 1 {
            } else {
                assert(a.take(n - 1)[k] == b.take(n - 1)[k]);
                assert(s[k] == t && s[n - 1] == t);
                assert(before(s[k], s[n - 1]));
            }
            assert(false);
        }
        assert(a.take(n) =~= a.take(n - 1).push(x));
        assert(b.take(n) =~= b.take(n - 1).push(y));
    }
}

/// Two ascending lists that hold the same texts are the same list: what
/// [`sorted_unique`] returns is fixed by what goes in.
pub proof fn law_ascending_unique(a: Seq<Seq<char>>, b: Seq<Seq<char>>)
    requires
        ascending(a),
        ascending(b),
        forall|t: Seq<char>| a.contains(t) <==> b.contains(t),
    ensures
        a == b,
{
    let n = if a.len() <= b.len() {
        a.len() as int
    } else {
        b.len() as int
    };
    lemma_ascending_ext(a, b, n);
    if a.len() != b.len() {
        let (long, short) = if a.len() > b.len() {
            (a, b)
        } else {
            (b, a)
        };
        let t = long[n];
        assert(long.contains(t));
        let k = choose|k: int| 0 <= k < short.len() && short[k] == t;
        assert(a.take(n)[k] == b.take(n)[k]);
        assert(before(long[k], long[n]));
        lemma_before_irreflexive(t);
    } else {
        assert(a.take(n) =~= a);
        assert(b.take(n) =~= b);
    }
}

/// An ascending list holds each text once.
pub proof fn law_ascending_lists_hold_each_once(s: Seq<Seq<char>>)
    requires
        ascending(s),
    ensures
        s.no_duplicates(),
{
    assert forall|i: int, j: int| 0 <= i < s.len() && 0 <= j < s.len() && i != j implies s[i]
        != s[j] by {
        lemma_before_irreflexive(s[i]);
        if i < j {
            assert(before(s[i], s[j]));
        } else {
            assert(before(s[j], s[i]));
        }
    }
}

/// Texts are in the order of the first characters in which they differ; one that
/// another goes on from comes first.
pub proof fn law_first_difference_decides(
    common: Seq<char>,
    x: char,
    y: char,
    a: Seq<char>,
    b: Seq<char>,
)
    ensures
        x < y ==> before(common + seq![x] + a, common + seq![y] + b),
        before(common, common + seq![x] + a),
        !before(common + seq![x] + a, common),
    decreases common.len(),
{
    let s = common + seq![x] + a;
    let t = common + seq![y] + b;
    assert(s.len() > 0 && t.len() > 0);
    if common.len() > 0 {
        let rest = common.drop_first();
        law_first_difference_decides(rest, x, y, a, b);
        assert(s[0] == common[0] && t[0] == common[0]);
        assert(s.drop_first() =~= rest + seq![x] + a);
        assert(t.drop_first() =~= rest + seq![y] + b);
    } else {
        assert(s[0] == x && t[0] == y);
    }
}

} // verus!
