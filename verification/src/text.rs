//! Text as sequences of characters: the vocabulary that every other module
//! states its contracts in, and the executable operations that meet it.

use vstd::prelude::*;
use vstd::utf8::{encode_utf8, encode_utf8_decode_utf8};

verus! {

/// `String::push` appends the given character to the end of the string.
pub assume_specification[ String::push ](s: &mut String, c: char)
    ensures
        final(s)@ == old(s)@.push(c),
;

/// `String::pop` removes the last character and returns it, or returns `None`
/// and leaves the string as it is when there is none.
pub assume_specification[ String::pop ](s: &mut String) -> (r: Option<char>)
    ensures
        old(s)@.len() == 0 ==> r is None && final(s)@ == old(s)@,
        old(s)@.len() > 0 ==> r == Some(old(s)@.last()) && final(s)@ == old(s)@.drop_last(),
;

/// The texts that a vector of strings holds, in order.
pub open spec fn texts(v: Seq<String>) -> Seq<Seq<char>> {
    v.map_values(|s: String| s@)
}

/// The text of an optional string.
pub open spec fn opt_text(o: Option<String>) -> Option<Seq<char>> {
    match o {
        Some(s) => Some(s@),
        None => None,
    }
}

// ---------------------------------------------------------------------------
// Characters
// ---------------------------------------------------------------------------
/// Unicode's `White_Space` property.
pub open spec fn is_white_space(c: char) -> bool {
    let n = c as u32;
    ||| 0x09 <= n <= 0x0d
    ||| n == 0x20
    ||| n == 0x85
    ||| n == 0xa0
    ||| n == 0x1680
    ||| 0x2000 <= n <= 0x200a
    ||| n == 0x2028
    ||| n == 0x2029
    ||| n == 0x202f
    ||| n == 0x205f
    ||| n == 0x3000
}

pub fn white_space(c: char) -> (r: bool)
    ensures
        r == is_white_space(c),
{
    let n: u32 = c as u32;
    (0x09 <= n && n <= 0x0d) || n == 0x20 || n == 0x85 || n == 0xa0 || n == 0x1680 || (0x2000 <= n
        && n <= 0x200a) || n == 0x2028 || n == 0x2029 || n == 0x202f || n == 0x205f || n == 0x3000
}

/// An ASCII capital letter becomes its small letter; every other character
/// stays as it is.
pub open spec fn ascii_lower(c: char) -> char {
    if 'A' <= c <= 'Z' {
        (c as u32 + 32) as char
    } else {
        c
    }
}

pub fn to_ascii_lower(c: char) -> (r: char)
    ensures
        r == ascii_lower(c),
{
    if 'A' <= c && c <= 'Z' {
        (c as u8 + 32) as char
    } else {
        c
    }
}

pub open spec fn is_digit(c: char) -> bool {
    '0' <= c <= '9'
}

/// The ASCII characters that are printed, are no letters and no digits, and
/// are not the space.
pub open spec fn is_ascii_punctuation(c: char) -> bool {
    ||| '!' <= c <= '/'
    ||| ':' <= c <= '@'
    ||| '[' <= c <= '`'
    ||| '{' <= c <= '~'
}

pub fn ascii_punctuation(c: char) -> (r: bool)
    ensures
        r == is_ascii_punctuation(c),
{
    ('!' <= c && c <= '/') || (':' <= c && c <= '@') || ('[' <= c && c <= '`') || ('{' <= c && c
        <= '~')
}

// ---------------------------------------------------------------------------
// Between strings and character vectors
// ---------------------------------------------------------------------------
pub fn chars_of(s: &str) -> (r: Vec<char>)
    ensures
        r@ == s@,
{
    let mut v: Vec<char> = Vec::new();
    for c in it: s.chars()
        invariant
            v@ == it.seq().take(it.index() as int),
    {
        v.push(c);
    }
    v
}

pub fn string_of(chars: &Vec<char>, from: usize, to: usize) -> (r: String)
    requires
        from <= to <= chars@.len(),
    ensures
        r@ == chars@.subrange(from as int, to as int),
{
    let mut s = String::new();
    let mut i: usize = from;
    while i < to
        invariant
            from <= i <= to <= chars@.len(),
            s@ == chars@.subrange(from as int, i as int),
        decreases to - i,
    {
        s.push(chars[i]);
        i += 1;
    }
    s
}

pub fn concat(a: &str, b: &str) -> (r: String)
    ensures
        r@ == a@ + b@,
{
    let mut s = a.to_owned();
    s.append(b);
    s
}

pub fn same_text(a: &str, b: &str) -> (r: bool)
    ensures
        r == (a@ == b@),
{
    let x = a.as_bytes();
    let y = b.as_bytes();
    proof {
        encode_utf8_decode_utf8(a@);
        encode_utf8_decode_utf8(b@);
    }
    if x.len() != y.len() {
        return false;
    }
    let mut i: usize = 0;
    while i < x.len()
        invariant
            x@ == encode_utf8(a@),
            y@ == encode_utf8(b@),
            x@.len() == y@.len(),
            i <= x@.len(),
            forall|j: int| 0 <= j < i ==> x@[j] == y@[j],
        decreases x@.len() - i,
    {
        if x[i] != y[i] {
            return false;
        }
        i += 1;
    }
    assert(x@ =~= y@);
    true
}

/// Whether one of the strings has this text.
pub fn has_text_in(list: &Vec<String>, key: &str) -> (r: bool)
    ensures
        r == texts(list@).contains(key@),
{
    let mut i: usize = 0;
    while i < list.len()
        invariant
            i <= list@.len(),
            forall|j: int| 0 <= j < i ==> texts(list@)[j] != key@,
        decreases list@.len() - i,
    {
        if same_text(list[i].as_str(), key) {
            assert(texts(list@)[i as int] == key@);
            return true;
        }
        i += 1;
    }
    false
}

// ---------------------------------------------------------------------------
// Trimming
// ---------------------------------------------------------------------------
/// What is left of `s` after its leading white space.
pub open spec fn trim_start_of(s: Seq<char>) -> Seq<char>
    decreases s.len(),
{
    if s.len() > 0 && is_white_space(s[0]) {
        trim_start_of(s.drop_first())
    } else {
        s
    }
}

/// What is left of `s` before its trailing white space.
pub open spec fn trim_end_of(s: Seq<char>) -> Seq<char>
    decreases s.len(),
{
    if s.len() > 0 && is_white_space(s.last()) {
        trim_end_of(s.drop_last())
    } else {
        s
    }
}

/// `s` without its leading and trailing white space.
pub open spec fn trimmed(s: Seq<char>) -> Seq<char> {
    trim_end_of(trim_start_of(s))
}

proof fn lemma_trimming_shortens(s: Seq<char>)
    ensures
        trim_start_of(s).len() <= s.len(),
        trim_end_of(s).len() <= s.len(),
    decreases s.len(),
{
    if s.len() > 0 {
        lemma_trimming_shortens(s.drop_first());
        lemma_trimming_shortens(s.drop_last());
    }
}

/// A text that trimming leaves as it is does not start with white space.
pub proof fn lemma_trimmed_starts_dark(s: Seq<char>)
    requires
        s.len() > 0,
        trimmed(s) == s,
    ensures
        !is_white_space(s[0]),
{
    if is_white_space(s[0]) {
        lemma_trimming_shortens(s.drop_first());
        lemma_trimming_shortens(trim_start_of(s));
    }
}

/// A text that does not start with white space is not trimmed away.
pub proof fn lemma_dark_start_stays(s: Seq<char>)
    requires
        s.len() > 0,
        !is_white_space(s[0]),
    ensures
        trimmed(s).len() > 0,
    decreases s.len(),
{
    if is_white_space(s.last()) {
        assert(s.drop_last()[0] == s[0]);
        lemma_dark_start_stays(s.drop_last());
    }
}

/// What is left of `s` before its trailing run of `c`.
pub open spec fn trim_end_char(s: Seq<char>, c: char) -> Seq<char>
    decreases s.len(),
{
    if s.len() > 0 && s.last() == c {
        trim_end_char(s.drop_last(), c)
    } else {
        s
    }
}

/// What is left of `s` after its leading run of `c`.
pub open spec fn trim_start_char(s: Seq<char>, c: char) -> Seq<char>
    decreases s.len(),
{
    if s.len() > 0 && s[0] == c {
        trim_start_char(s.drop_first(), c)
    } else {
        s
    }
}

pub fn trim_start(s: &str) -> (r: &str)
    ensures
        r@ == trim_start_of(s@),
{
    let v = chars_of(s);
    let mut a: usize = 0;
    assert(s@.skip(0) =~= s@);
    while a < v.len() && white_space(v[a])
        invariant
            v@ == s@,
            a <= v@.len(),
            trim_start_of(s@) == trim_start_of(s@.skip(a as int)),
        decreases v@.len() - a,
    {
        assert(s@.skip(a as int).drop_first() =~= s@.skip(a + 1));
        a += 1;
    }
    assert(s@.skip(a as int) =~= s@.subrange(a as int, s@.len() as int));
    s.substring_char(a, v.len())
}

pub fn trim_end(s: &str) -> (r: &str)
    ensures
        r@ == trim_end_of(s@),
{
    let v = chars_of(s);
    let mut b: usize = v.len();
    assert(s@.take(b as int) =~= s@);
    while b > 0 && white_space(v[b - 1])
        invariant
            v@ == s@,
            b <= v@.len(),
            trim_end_of(s@) == trim_end_of(s@.take(b as int)),
        decreases b,
    {
        assert(s@.take(b as int).drop_last() =~= s@.take(b - 1));
        b -= 1;
    }
    assert(s@.take(b as int) =~= s@.subrange(0, b as int));
    s.substring_char(0, b)
}

pub fn trim(s: &str) -> (r: &str)
    ensures
        r@ == trimmed(s@),
{
    trim_end(trim_start(s))
}

pub fn trim_end_matches(s: &str, c: char) -> (r: &str)
    ensures
        r@ == trim_end_char(s@, c),
{
    let v = chars_of(s);
    let mut b: usize = v.len();
    assert(s@.take(b as int) =~= s@);
    while b > 0 && v[b - 1] == c
        invariant
            v@ == s@,
            b <= v@.len(),
            trim_end_char(s@, c) == trim_end_char(s@.take(b as int), c),
        decreases b,
    {
        assert(s@.take(b as int).drop_last() =~= s@.take(b - 1));
        b -= 1;
    }
    assert(s@.take(b as int) =~= s@.subrange(0, b as int));
    s.substring_char(0, b)
}

pub fn trim_start_matches(s: &str, c: char) -> (r: &str)
    ensures
        r@ == trim_start_char(s@, c),
{
    let v = chars_of(s);
    let mut a: usize = 0;
    assert(s@.skip(0) =~= s@);
    while a < v.len() && v[a] == c
        invariant
            v@ == s@,
            a <= v@.len(),
            trim_start_char(s@, c) == trim_start_char(s@.skip(a as int), c),
        decreases v@.len() - a,
    {
        assert(s@.skip(a as int).drop_first() =~= s@.skip(a + 1));
        a += 1;
    }
    assert(s@.skip(a as int) =~= s@.subrange(a as int, s@.len() as int));
    s.substring_char(a, v.len())
}

// ---------------------------------------------------------------------------
// Prefixes, suffixes, occurrences
// ---------------------------------------------------------------------------
pub fn starts_with(s: &str, prefix: &str) -> (r: bool)
    ensures
        r == prefix@.is_prefix_of(s@),
{
    let v = chars_of(s);
    let p = chars_of(prefix);
    occurs(&v, &p, 0)
}

pub fn starts_with_char(s: &str, c: char) -> (r: bool)
    ensures
        r == (s@.len() > 0 && s@[0] == c),
{
    let v = chars_of(s);
    v.len() > 0 && v[0] == c
}

pub fn ends_with_char(s: &str, c: char) -> (r: bool)
    ensures
        r == (s@.len() > 0 && s@.last() == c),
{
    let v = chars_of(s);
    v.len() > 0 && v[v.len() - 1] == c
}

pub fn ends_with(s: &str, suffix: &str) -> (r: bool)
    ensures
        r == suffix@.is_suffix_of(s@),
{
    let v = chars_of(s);
    let p = chars_of(suffix);
    if p.len() > v.len() {
        return false;
    }
    occurs(&v, &p, v.len() - p.len())
}

/// What follows `prefix` in `s`, where `s` starts with it.
pub open spec fn after_prefix(s: Seq<char>, prefix: Seq<char>) -> Option<Seq<char>> {
    if prefix.is_prefix_of(s) {
        Some(s.skip(prefix.len() as int))
    } else {
        None
    }
}

/// The text of an optional string slice.
pub open spec fn opt_str(o: Option<&str>) -> Option<Seq<char>> {
    match o {
        Some(s) => Some(s@),
        None => None,
    }
}

pub fn strip_prefix<'a>(s: &'a str, prefix: &str) -> (r: Option<&'a str>)
    ensures
        opt_str(r) == after_prefix(s@, prefix@),
{
    if starts_with(s, prefix) {
        let n: usize = s.unicode_len();
        let k: usize = prefix.unicode_len();
        assert(s@.skip(k as int) =~= s@.subrange(k as int, n as int));
        Some(s.substring_char(k, n))
    } else {
        None
    }
}

/// `part` stands in `s` from position `at` on.
pub open spec fn occurs_at(s: Seq<char>, part: Seq<char>, at: int) -> bool {
    0 <= at && at + part.len() <= s.len() && s.subrange(at, at + part.len()) == part
}

/// `part` stands somewhere in `s`.
pub open spec fn has_text(s: Seq<char>, part: Seq<char>) -> bool {
    exists|at: int| occurs_at(s, part, at)
}

/// `at` is where `part` stands first in `s`.
pub open spec fn first_occurrence(s: Seq<char>, part: Seq<char>, at: int) -> bool {
    occurs_at(s, part, at) && forall|k: int| k < at ==> !occurs_at(s, part, k)
}

fn occurs(s: &Vec<char>, part: &Vec<char>, at: usize) -> (r: bool)
    requires
        at <= s@.len(),
    ensures
        r == occurs_at(s@, part@, at as int),
{
    let n: usize = s.len();
    if part.len() > n - at {
        return false;
    }
    let mut i: usize = 0;
    while i < part.len()
        invariant
            n == s@.len(),
            at + part@.len() <= n,
            i <= part@.len(),
            forall|j: int| 0 <= j < i ==> s@[at + j] == #[trigger] part@[j],
        decreases part@.len() - i,
    {
        if s[at + i] != part[i] {
            assert(s@.subrange(at as int, at + part@.len())[i as int] != part@[i as int]);
            return false;
        }
        i += 1;
    }
    assert(s@.subrange(at as int, at + part@.len()) =~= part@);
    true
}

/// Where `part` stands first in `s`, counted in characters.
pub fn find(s: &str, part: &str) -> (r: Option<usize>)
    ensures
        r matches Some(at) ==> first_occurrence(s@, part@, at as int),
        r is None ==> !has_text(s@, part@),
{
    let v = chars_of(s);
    let p = chars_of(part);
    let mut i: usize = 0;
    while i < v.len()
        invariant
            v@ == s@,
            p@ == part@,
            i <= v@.len(),
            forall|k: int| k < i ==> !occurs_at(s@, part@, k),
        decreases v@.len() - i,
    {
        if occurs(&v, &p, i) {
            return Some(i);
        }
        i += 1;
    }
    if occurs(&v, &p, i) {
        return Some(i);
    }
    None
}

/// What stands before the first `part`, or all of `s`.
pub open spec fn before_text(s: Seq<char>, part: Seq<char>) -> Seq<char> {
    if has_text(s, part) {
        s.take(choose|at: int| first_occurrence(s, part, at))
    } else {
        s
    }
}

pub fn before_part<'a>(s: &'a str, part: &str) -> (r: &'a str)
    ensures
        r@ == before_text(s@, part@),
{
    match find(s, part) {
        Some(at) => {
            proof {
                let other = choose|k: int| first_occurrence(s@, part@, k);
                assert(first_occurrence(s@, part@, at as int));
                assert(other == at);
                assert(s@.take(at as int) =~= s@.subrange(0, at as int));
            }
            s.substring_char(0, at)
        },
        None => s,
    }
}

/// What stands behind the first `part`, if there is one.
pub open spec fn after_text(s: Seq<char>, part: Seq<char>) -> Option<Seq<char>> {
    if has_text(s, part) {
        Some(s.skip((choose|at: int| first_occurrence(s, part, at)) + part.len()))
    } else {
        None
    }
}

pub fn after_part<'a>(s: &'a str, part: &str) -> (r: Option<&'a str>)
    ensures
        opt_str(r) == after_text(s@, part@),
{
    match find(s, part) {
        Some(at) => {
            let n: usize = s.unicode_len();
            let k: usize = part.unicode_len();
            proof {
                let other = choose|k: int| first_occurrence(s@, part@, k);
                assert(first_occurrence(s@, part@, at as int));
                assert(other == at);
                assert(s@.skip(at + k) =~= s@.subrange(at + k, n as int));
            }
            Some(s.substring_char(at + k, n))
        },
        None => None,
    }
}

pub fn contains(s: &str, part: &str) -> (r: bool)
    ensures
        r == has_text(s@, part@),
{
    find(s, part).is_some()
}

pub fn contains_char(s: &str, c: char) -> (r: bool)
    ensures
        r == s@.contains(c),
{
    let v = chars_of(s);
    let mut i: usize = 0;
    while i < v.len()
        invariant
            v@ == s@,
            i <= v@.len(),
            forall|j: int| 0 <= j < i ==> s@[j] != c,
        decreases v@.len() - i,
    {
        if v[i] == c {
            assert(s@[i as int] == c);
            return true;
        }
        i += 1;
    }
    false
}

// ---------------------------------------------------------------------------
// Splitting and joining
// ---------------------------------------------------------------------------
/// The position of the first `c` in `s`, or the length of `s`.
pub open spec fn first_index(s: Seq<char>, c: char) -> int
    decreases s.len(),
{
    if s.len() == 0 || s[0] == c {
        0
    } else {
        1 + first_index(s.drop_first(), c)
    }
}

pub proof fn lemma_first_index(s: Seq<char>, c: char)
    ensures
        0 <= first_index(s, c) <= s.len(),
        first_index(s, c) < s.len() ==> s[first_index(s, c)] == c,
        forall|j: int| 0 <= j < first_index(s, c) ==> s[j] != c,
    decreases s.len(),
{
    if s.len() > 0 && s[0] != c {
        lemma_first_index(s.drop_first(), c);
        let n = first_index(s.drop_first(), c);
        assert forall|j: int| 0 <= j < n + 1 implies s[j] != c by {
            if j > 0 {
                assert(s.drop_first()[j - 1] != c);
            }
        }
    }
}

/// What stands before the first `c`.
pub open spec fn first_segment(s: Seq<char>, c: char) -> Seq<char> {
    s.take(first_index(s, c))
}

/// The pieces of `s` between the `c`s: always one more than there are `c`s.
pub open spec fn segments(s: Seq<char>, c: char) -> Seq<Seq<char>>
    decreases s.len(),
{
    let i = first_index(s, c);
    if i == s.len() {
        seq![s]
    } else {
        proof {
            lemma_first_index(s, c);
        }
        seq![s.take(i)] + segments(s.skip(i + 1), c)
    }
}

pub fn index_of_char(s: &Vec<char>, from: usize, c: char) -> (r: usize)
    requires
        from <= s@.len(),
    ensures
        r - from == first_index(s@.skip(from as int), c),
        from <= r <= s@.len(),
{
    let mut i: usize = from;
    while i < s.len() && s[i] != c
        invariant
            from <= i <= s@.len(),
            first_index(s@.skip(from as int), c) == i - from + first_index(s@.skip(i as int), c),
        decreases s@.len() - i,
    {
        assert(s@.skip(i as int).drop_first() =~= s@.skip(i + 1));
        i += 1;
    }
    i
}

pub fn before_char<'a>(s: &'a str, c: char) -> (r: &'a str)
    ensures
        r@ == first_segment(s@, c),
{
    let v = chars_of(s);
    assert(s@.skip(0) =~= s@);
    let i: usize = index_of_char(&v, 0, c);
    assert(s@.take(i as int) =~= s@.subrange(0, i as int));
    s.substring_char(0, i)
}

pub fn split(s: &str, c: char) -> (r: Vec<String>)
    ensures
        texts(r@) == segments(s@, c),
        r@.len() >= 1,
{
    let v = chars_of(s);
    let mut out: Vec<String> = Vec::new();
    let mut pos: usize = 0;
    assert(s@.skip(0) =~= s@);
    assert(texts(out@) + segments(s@, c) =~= segments(s@, c));
    loop
        invariant
            v@ == s@,
            pos <= v@.len(),
            texts(out@) + segments(s@.skip(pos as int), c) == segments(s@, c),
        decreases v@.len() - pos,
    {
        let i: usize = index_of_char(&v, pos, c);
        let ghost rest = s@.skip(pos as int);
        proof {
            lemma_first_index(rest, c);
        }
        let piece = string_of(&v, pos, i);
        assert(piece@ =~= rest.take(i - pos));
        let ghost before = texts(out@);
        out.push(piece);
        assert(texts(out@) =~= before.push(piece@));
        if i == v.len() {
            assert(rest.take(i - pos) =~= rest);
            assert(texts(out@) =~= before + seq![rest]);
            return out;
        }
        assert(rest.skip(i - pos + 1) =~= s@.skip(i + 1));
        assert(texts(out@) + segments(s@.skip(i + 1), c) =~= before + (seq![rest.take(i - pos)]
            + segments(rest.skip(i - pos + 1), c)));
        pos = i + 1;
    }
}

/// The parts in order, with `sep` between each two.
pub open spec fn joined(parts: Seq<Seq<char>>, sep: Seq<char>) -> Seq<char>
    decreases parts.len(),
{
    if parts.len() == 0 {
        Seq::empty()
    } else if parts.len() == 1 {
        parts[0]
    } else {
        joined(parts.drop_last(), sep) + sep + parts.last()
    }
}

pub fn join(parts: &Vec<String>, sep: &str) -> (r: String)
    ensures
        r@ == joined(texts(parts@), sep@),
{
    let mut out = String::new();
    let mut i: usize = 0;
    assert(texts(parts@).take(0) =~= Seq::<Seq<char>>::empty());
    while i < parts.len()
        invariant
            i <= parts@.len(),
            out@ == joined(texts(parts@).take(i as int), sep@),
        decreases parts@.len() - i,
    {
        let ghost next = texts(parts@).take(i + 1);
        assert(next.drop_last() =~= texts(parts@).take(i as int));
        assert(next.last() == parts@[i as int]@);
        if i > 0 {
            out.append(sep);
        }
        out.append(parts[i].as_str());
        i += 1;
    }
    assert(texts(parts@).take(i as int) =~= texts(parts@));
    out
}

/// `s` written `n` times.
pub open spec fn repeated(s: Seq<char>, n: nat) -> Seq<char>
    decreases n,
{
    if n == 0 {
        Seq::empty()
    } else {
        repeated(s, (n - 1) as nat) + s
    }
}

pub fn repeat(s: &str, n: usize) -> (r: String)
    ensures
        r@ == repeated(s@, n as nat),
{
    let mut out = String::new();
    let mut i: usize = 0;
    while i < n
        invariant
            i <= n,
            out@ == repeated(s@, i as nat),
        decreases n - i,
    {
        out.append(s);
        i += 1;
    }
    out
}

/// `s`, followed by as many `fill`s as it takes to reach `width` characters.
pub open spec fn padded(s: Seq<char>, width: nat, fill: char) -> Seq<char> {
    s + Seq::new(
        if s.len() < width {
            (width - s.len()) as nat
        } else {
            0
        },
        |i: int| fill,
    )
}

pub fn pad(s: &str, width: usize, fill: char) -> (r: String)
    ensures
        r@ == padded(s@, width as nat, fill),
{
    let mut out = s.to_owned();
    let mut n: usize = s.unicode_len();
    while n < width
        invariant
            n >= s@.len(),
            s@.len() <= width ==> n <= width,
            s@.len() > width ==> n == s@.len(),
            out@ == s@ + Seq::new((n - s@.len()) as nat, |i: int| fill),
        decreases width - n,
    {
        out.push(fill);
        n += 1;
    }
    out
}

// ---------------------------------------------------------------------------
// Case
// ---------------------------------------------------------------------------
/// Every ASCII capital letter made small.
pub open spec fn ascii_lowered(s: Seq<char>) -> Seq<char> {
    s.map_values(|c: char| ascii_lower(c))
}

pub fn eq_ignore_ascii_case(a: &str, b: &str) -> (r: bool)
    ensures
        r == (ascii_lowered(a@) == ascii_lowered(b@)),
{
    let x = chars_of(a);
    let y = chars_of(b);
    if x.len() != y.len() {
        assert(ascii_lowered(a@).len() != ascii_lowered(b@).len());
        return false;
    }
    let mut i: usize = 0;
    while i < x.len()
        invariant
            x@ == a@,
            y@ == b@,
            x@.len() == y@.len(),
            i <= x@.len(),
            forall|j: int| 0 <= j < i ==> ascii_lower(x@[j]) == ascii_lower(y@[j]),
        decreases x@.len() - i,
    {
        if to_ascii_lower(x[i]) != to_ascii_lower(y[i]) {
            assert(ascii_lowered(a@)[i as int] != ascii_lowered(b@)[i as int]);
            return false;
        }
        i += 1;
    }
    assert(ascii_lowered(a@) =~= ascii_lowered(b@));
    true
}

} // verus!
