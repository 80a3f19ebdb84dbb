//! Reading C# sources: where test methods stand, so that the tests of a runner's
//! list find their place in the tree.

use vstd::prelude::*;

use crate::domain::table::Table;
use crate::text::{
    before_char, chars_of, concat, contains_char, ends_with_char, first_segment, is_white_space,
    opt_text, same_text, segments, split, starts_with, string_of, texts, trim, trim_end,
    trim_end_of, trim_start, trim_start_of, trimmed, white_space,
};
use crate::unicode::is_letter_or_number;

verus! {

// ---------------------------------------------------------------------------
// Names
// ---------------------------------------------------------------------------
pub open spec fn is_name_char(c: char) -> bool {
    is_letter_or_number(c) || c == '_'
}

fn name_char(c: char) -> (r: bool)
    ensures
        r == is_name_char(c),
{
    c.is_alphanumeric() || c == '_'
}

/// The name that a text begins with.
pub open spec fn leading_name(s: Seq<char>) -> Seq<char>
    decreases s.len(),
{
    if s.len() == 0 || !is_name_char(s[0]) {
        Seq::empty()
    } else {
        seq![s[0]] + leading_name(s.drop_first())
    }
}

/// The name that a text ends with.
pub open spec fn trailing_name(s: Seq<char>) -> Seq<char>
    decreases s.len(),
{
    if s.len() == 0 || !is_name_char(s.last()) {
        Seq::empty()
    } else {
        trailing_name(s.drop_last()).push(s.last())
    }
}

fn name_at(v: &Vec<char>, from: usize) -> (r: usize)
    requires
        from <= v@.len(),
    ensures
        from <= r <= v@.len(),
        v@.subrange(from as int, r as int) == leading_name(v@.skip(from as int)),
{
    let ghost s = v@.skip(from as int);
    let mut i: usize = from;
    assert(s.skip(0) =~= s);
    assert(s.take(0) + leading_name(s) =~= leading_name(s));
    while i < v.len() && name_char(v[i])
        invariant
            s == v@.skip(from as int),
            from <= i <= v@.len(),
            leading_name(s) == s.take(i - from) + leading_name(s.skip(i - from)),
        decreases v@.len() - i,
    {
        let ghost k = i - from;
        assert(s.skip(k)[0] == v@[i as int]);
        assert(s.skip(k).drop_first() =~= s.skip(k + 1));
        assert(s.take(k) + (seq![v@[i as int]] + leading_name(s.skip(k + 1))) =~= s.take(k + 1)
            + leading_name(s.skip(k + 1)));
        i += 1;
    }
    proof {
        let k = i - from;
        if i < v@.len() {
            assert(s.skip(k)[0] == v@[i as int]);
        }
        assert(leading_name(s.skip(k)) =~= Seq::<char>::empty());
        assert(s.take(k) =~= v@.subrange(from as int, i as int));
        assert(leading_name(s) =~= s.take(k));
    }
    i
}

fn name_before(v: &Vec<char>, end: usize) -> (r: usize)
    requires
        end <= v@.len(),
    ensures
        r <= end,
        v@.subrange(r as int, end as int) == trailing_name(v@.take(end as int)),
{
    let ghost s = v@.take(end as int);
    let mut i: usize = end;
    assert(s.take(end as int) =~= s);
    assert(trailing_name(s) + s.skip(end as int) =~= trailing_name(s));
    while i > 0 && name_char(v[i - 1])
        invariant
            s == v@.take(end as int),
            end <= v@.len(),
            i <= end,
            trailing_name(s) == trailing_name(s.take(i as int)) + s.skip(i as int),
        decreases i,
    {
        assert(s.take(i as int).last() == v@[i - 1]);
        assert(s.take(i as int).drop_last() =~= s.take(i - 1));
        assert(trailing_name(s.take(i - 1)).push(v@[i - 1]) + s.skip(i as int) =~= trailing_name(
            s.take(i - 1),
        ) + s.skip(i - 1));
        i -= 1;
    }
    proof {
        if i > 0 {
            assert(s.take(i as int).last() == v@[i - 1]);
        }
        assert(trailing_name(s.take(i as int)) =~= Seq::<char>::empty());
        assert(s.skip(i as int) =~= v@.subrange(i as int, end as int));
        assert(trailing_name(s) =~= s.skip(i as int));
    }
    i
}

/// A reported name without its parameters.
pub open spec fn without_params(name: Seq<char>) -> Seq<char> {
    trimmed(first_segment(name, '('))
}

pub fn strip_params(name: &str) -> (r: String)
    ensures
        r@ == without_params(name@),
{
    trim(before_char(name, '(')).to_owned()
}

// ---------------------------------------------------------------------------
// Attributes
// ---------------------------------------------------------------------------
/// The attributes that mark a test method.
pub open spec fn marks_test(name: Seq<char>) -> bool {
    name == "Test"@ || name == "TestCase"@ || name == "TestCaseSource"@ || name == "Fact"@ || name
        == "Theory"@ || name == "TestMethod"@ || name == "DataTestMethod"@
}

fn is_mark(name: &str) -> (r: bool)
    ensures
        r == marks_test(name@),
{
    same_text(name, "Test") || same_text(name, "TestCase") || same_text(name, "TestCaseSource")
        || same_text(name, "Fact") || same_text(name, "Theory") || same_text(name, "TestMethod")
        || same_text(name, "DataTestMethod")
}

/// A text that begins with a bracket, whose first attribute marks a test.
pub open spec fn test_attribute(t: Seq<char>) -> bool {
    t.len() > 0 && t[0] == '[' && marks_test(leading_name(t.skip(1)))
}

/// Whether a line begins with an attribute that marks a test method.
pub fn is_test_attribute(line: &str) -> (r: bool)
    ensures
        r == test_attribute(trimmed(line@)),
{
    let t = trim(line);
    let v = chars_of(t);
    if v.len() == 0 || v[0] != '[' {
        return false;
    }
    let end: usize = name_at(&v, 1);
    is_mark(string_of(&v, 1, end).as_str())
}

/// How many characters there are up to the bracket that closes the first one, of
/// which `depth` are open before the text.
pub open spec fn bracket_end(s: Seq<char>, depth: int) -> int
    decreases s.len(),
{
    if s.len() == 0 {
        0
    } else {
        let d = if s[0] == '[' {
            depth + 1
        } else if s[0] == ']' {
            depth - 1
        } else {
            depth
        };
        if d <= 0 {
            1
        } else {
            1 + bracket_end(s.drop_first(), d)
        }
    }
}

pub proof fn lemma_bracket_end(s: Seq<char>, depth: int)
    ensures
        0 <= bracket_end(s, depth) <= s.len(),
        s.len() > 0 ==> bracket_end(s, depth) >= 1,
    decreases s.len(),
{
    if s.len() > 0 {
        let d = if s[0] == '[' {
            depth + 1
        } else if s[0] == ']' {
            depth - 1
        } else {
            depth
        };
        if d > 0 {
            lemma_bracket_end(s.drop_first(), d);
        }
    }
}

pub proof fn lemma_trimmed_len(s: Seq<char>)
    ensures
        trimmed(s).len() <= s.len(),
    decreases s.len(),
{
    lemma_trim_start_len(s);
    lemma_trim_end_len(trim_start_of(s));
}

pub proof fn lemma_trim_start_len(s: Seq<char>)
    ensures
        trim_start_of(s).len() <= s.len(),
    decreases s.len(),
{
    if s.len() > 0 && is_white_space(s[0]) {
        lemma_trim_start_len(s.drop_first());
    }
}

pub proof fn lemma_trim_end_len(s: Seq<char>)
    ensures
        trim_end_of(s).len() <= s.len(),
    decreases s.len(),
{
    if s.len() > 0 && is_white_space(s.last()) {
        lemma_trim_end_len(s.drop_last());
    }
}

/// What stands behind the attributes that a text begins with.
pub open spec fn behind_attributes(t: Seq<char>) -> Seq<char>
    decreases t.len(),
{
    if t.len() == 0 || t[0] != '[' {
        t
    } else {
        let rest = t.skip(bracket_end(t, 0));
        proof {
            lemma_bracket_end(t, 0);
            lemma_trimmed_len(rest);
        }
        behind_attributes(trimmed(rest))
    }
}

/// One of the attributes that a text begins with marks a test.
pub open spec fn has_test_attribute(t: Seq<char>) -> bool
    decreases t.len(),
{
    if t.len() == 0 || t[0] != '[' {
        false
    } else {
        let rest = t.skip(bracket_end(t, 0));
        proof {
            lemma_bracket_end(t, 0);
            lemma_trimmed_len(rest);
        }
        test_attribute(t) || has_test_attribute(trimmed(rest))
    }
}

fn find_bracket_end(v: &Vec<char>) -> (r: usize)
    requires
        v@.len() > 0,
    ensures
        r == bracket_end(v@, 0),
        1 <= r <= v@.len(),
{
    let n: usize = v.len();
    let mut depth: usize = 0;
    let mut i: usize = 0;
    assert(v@.skip(0) =~= v@);
    proof {
        lemma_bracket_end(v@, 0);
    }
    while i < n
        invariant
            n == v@.len(),
            n > 0,
            i <= n,
            depth <= i,
            i > 0 ==> depth > 0,
            bracket_end(v@, 0) == i + bracket_end(v@.skip(i as int), depth as int),
        decreases n - i,
    {
        let c: char = v[i];
        assert(v@.skip(i as int)[0] == c);
        assert(v@.skip(i as int).drop_first() =~= v@.skip(i + 1));
        if c == '[' {
            depth = depth + 1;
        } else if c == ']' {
            if depth <= 1 {
                return i + 1;
            }
            depth = depth - 1;
        } else if depth == 0 {
            return i + 1;
        }
        i += 1;
    }
    i
}

/// What stands behind the attributes that a text begins with, and whether one of
/// them marks a test.
fn read_attributes(t: &str) -> (r: (String, bool))
    ensures
        r.0@ == behind_attributes(t@),
        r.1 == has_test_attribute(t@),
{
    let mut rest: String = t.to_owned();
    let mut marked = false;
    loop
        invariant_except_break
            behind_attributes(t@) == behind_attributes(rest@),
            has_test_attribute(t@) == (marked || has_test_attribute(rest@)),
        ensures
            rest@ == behind_attributes(t@),
            marked == has_test_attribute(t@),
        decreases rest@.len(),
    {
        let v = chars_of(rest.as_str());
        if v.len() == 0 || v[0] != '[' {
            break;
        }
        let end: usize = name_at(&v, 1);
        if is_mark(string_of(&v, 1, end).as_str()) {
            marked = true;
        }
        let close: usize = find_bracket_end(&v);
        let tail = string_of(&v, close, v.len());
        proof {
            assert(tail@ =~= rest@.skip(close as int));
            lemma_trimmed_len(tail@);
        }
        rest = trim(tail.as_str()).to_owned();
    }
    (rest, marked)
}

// ---------------------------------------------------------------------------
// Methods
// ---------------------------------------------------------------------------
/// Words before a bracket that begin no method.
pub open spec fn is_keyword(name: Seq<char>) -> bool {
    name == "if"@ || name == "while"@ || name == "for"@ || name == "foreach"@ || name == "switch"@
        || name == "catch"@ || name == "using"@ || name == "lock"@ || name == "return"@
}

fn keyword(name: &str) -> (r: bool)
    ensures
        r == is_keyword(name@),
{
    same_text(name, "if") || same_text(name, "while") || same_text(name, "for") || same_text(
        name,
        "foreach",
    ) || same_text(name, "switch") || same_text(name, "catch") || same_text(name, "using")
        || same_text(name, "lock") || same_text(name, "return")
}

/// What stands before the last `c`, or nothing.
pub open spec fn before_last(s: Seq<char>, c: char) -> Seq<char>
    decreases s.len(),
{
    if s.len() == 0 {
        s
    } else if s.last() == c {
        s.drop_last()
    } else {
        before_last(s.drop_last(), c)
    }
}

/// The head of a method without its type parameters.
pub open spec fn without_generics(head: Seq<char>) -> Seq<char> {
    let h = trim_end_of(head);
    if h.len() > 0 && h.last() == '>' {
        trim_end_of(before_last(h, '<'))
    } else {
        h
    }
}

/// The name of the method that a line declares: the name before the first
/// bracket, if something stands before it, and it is no keyword.
pub open spec fn method_name(line: Seq<char>) -> Option<Seq<char>> {
    if !line.contains('(') {
        None
    } else {
        let head = without_generics(first_segment(line, '('));
        let name = trailing_name(head);
        let before = head.take(head.len() - name.len());
        if name.len() == 0 || is_keyword(name) || trimmed(before).len() == 0 || !is_white_space(
            before.last(),
        ) {
            None
        } else {
            Some(name)
        }
    }
}

fn cut_at_last(s: &str, c: char) -> (r: String)
    ensures
        r@ == before_last(s@, c),
{
    let v = chars_of(s);
    let mut n: usize = v.len();
    assert(v@.take(n as int) =~= s@);
    while n > 0
        invariant
            v@ == s@,
            n <= v@.len(),
            before_last(s@, c) == before_last(v@.take(n as int), c),
        decreases n,
    {
        assert(v@.take(n as int).last() == v@[n - 1]);
        assert(v@.take(n as int).drop_last() =~= v@.take(n - 1));
        if v[n - 1] == c {
            assert(v@.take(n - 1) =~= v@.subrange(0, n - 1));
            return string_of(&v, 0, n - 1);
        }
        n -= 1;
    }
    assert(v@.take(0) =~= v@.subrange(0, 0));
    string_of(&v, 0, 0)
}

fn drop_generics(head: &str) -> (r: String)
    ensures
        r@ == without_generics(head@),
{
    let h = trim_end(head);
    if ends_with_char(h, '>') {
        trim_end(cut_at_last(h, '<').as_str()).to_owned()
    } else {
        h.to_owned()
    }
}

proof fn lemma_trailing_name(s: Seq<char>)
    ensures
        trailing_name(s).len() <= s.len(),
    decreases s.len(),
{
    if s.len() > 0 && is_name_char(s.last()) {
        lemma_trailing_name(s.drop_last());
    }
}

pub fn extract_method_name(line: &str) -> (r: Option<String>)
    ensures
        opt_text(r) == method_name(line@),
{
    if !contains_char(line, '(') {
        return None;
    }
    let head = drop_generics(before_char(line, '('));
    let v = chars_of(head.as_str());
    let n: usize = v.len();
    let start: usize = name_before(&v, n);
    let name = string_of(&v, start, n);
    let before = string_of(&v, 0, start);
    proof {
        assert(v@.take(n as int) =~= head@);
        lemma_trailing_name(head@);
        assert(name@ == trailing_name(head@));
        assert(before@ =~= head@.take(head@.len() - name@.len()));
    }
    if start == n || keyword(name.as_str()) || trim(before.as_str()).is_empty() {
        return None;
    }
    proof {
        if before@.len() == 0 {
            assert(trim_start_of(before@) == before@);
            assert(trimmed(before@) == before@);
        }
    }
    if !white_space(v[start - 1]) {
        assert(before@.last() == v@[start - 1]);
        return None;
    }
    assert(before@.last() == v@[start - 1]);
    Some(name)
}

// ---------------------------------------------------------------------------
// Classes
// ---------------------------------------------------------------------------
/// How many characters there are before the first white space.
pub open spec fn word_len(s: Seq<char>) -> int
    decreases s.len(),
{
    if s.len() == 0 || is_white_space(s[0]) {
        0
    } else {
        1 + word_len(s.drop_first())
    }
}

pub proof fn lemma_word_len(s: Seq<char>)
    ensures
        0 <= word_len(s) <= s.len(),
        s.len() > 0 && !is_white_space(s[0]) ==> word_len(s) > 0,
    decreases s.len(),
{
    if s.len() > 0 && !is_white_space(s[0]) {
        lemma_word_len(s.drop_first());
    }
}

pub proof fn lemma_trim_start_head(s: Seq<char>)
    ensures
        trim_start_of(s).len() > 0 ==> !is_white_space(trim_start_of(s)[0]),
    decreases s.len(),
{
    if s.len() > 0 && is_white_space(s[0]) {
        lemma_trim_start_head(s.drop_first());
    }
}

/// The pieces of a text between its white space.
pub open spec fn words(s: Seq<char>) -> Seq<Seq<char>>
    decreases s.len(),
{
    let t = trim_start_of(s);
    if t.len() == 0 {
        Seq::empty()
    } else {
        proof {
            lemma_trim_start_len(s);
            lemma_trim_start_head(s);
            lemma_word_len(t);
        }
        seq![t.take(word_len(t))] + words(t.skip(word_len(t)))
    }
}

fn split_words(s: &str) -> (r: Vec<String>)
    ensures
        texts(r@) == words(s@),
{
    let mut out: Vec<String> = Vec::new();
    let mut rest: String = s.to_owned();
    assert(texts(out@) + words(rest@) =~= words(s@));
    loop
        invariant_except_break
            words(s@) == texts(out@) + words(rest@),
        ensures
            texts(out@) == words(s@),
        decreases rest@.len(),
    {
        let t = trim_start(rest.as_str()).to_owned();
        proof {
            lemma_trim_start_len(rest@);
            lemma_trim_start_head(rest@);
            lemma_word_len(t@);
        }
        let v = chars_of(t.as_str());
        if v.len() == 0 {
            assert(texts(out@) + words(rest@) =~= texts(out@));
            break;
        }
        let mut n: usize = 0;
        assert(v@.skip(0) =~= t@);
        while n < v.len() && !white_space(v[n])
            invariant
                v@ == t@,
                n <= v@.len(),
                word_len(t@) == n + word_len(v@.skip(n as int)),
            decreases v@.len() - n,
        {
            assert(v@.skip(n as int)[0] == v@[n as int]);
            assert(v@.skip(n as int).drop_first() =~= v@.skip(n + 1));
            n += 1;
        }
        proof {
            if n < v@.len() {
                assert(v@.skip(n as int)[0] == v@[n as int]);
            }
            assert(word_len(v@.skip(n as int)) == 0);
        }
        let word = string_of(&v, 0, n);
        let tail = string_of(&v, n, v.len());
        let ghost o = texts(out@);
        proof {
            assert(word@ =~= t@.take(n as int));
            assert(tail@ =~= t@.skip(n as int));
        }
        out.push(word);
        proof {
            assert(texts(out@) =~= o.push(t@.take(n as int)));
            assert(o + (seq![t@.take(n as int)] + words(tail@)) =~= texts(out@) + words(tail@));
        }
        rest = tail;
    }
    out
}

pub open spec fn all_name_chars(w: Seq<char>) -> bool {
    leading_name(w) == w
}

/// The class that the words declare: the name behind `class`, if only names
/// stand before it.
pub open spec fn class_in(ws: Seq<Seq<char>>) -> Option<Seq<char>>
    decreases ws.len(),
{
    if ws.len() < 2 {
        None
    } else if ws[0] == "class"@ {
        if leading_name(ws[1]).len() == 0 {
            None
        } else {
            Some(leading_name(ws[1]))
        }
    } else if all_name_chars(ws[0]) {
        class_in(ws.drop_first())
    } else {
        None
    }
}

/// The name of the class that a line declares.
pub open spec fn class_name(line: Seq<char>) -> Option<Seq<char>> {
    class_in(words(line))
}

fn name_of(word: &str) -> (r: String)
    ensures
        r@ == leading_name(word@),
{
    let v = chars_of(word);
    assert(v@.skip(0) =~= word@);
    let end: usize = name_at(&v, 0);
    string_of(&v, 0, end)
}

pub fn extract_class_name(line: &str) -> (r: Option<String>)
    ensures
        opt_text(r) == class_name(line@),
{
    let ws = split_words(line);
    let ghost all = texts(ws@);
    let n: usize = ws.len();
    let mut i: usize = 0;
    assert(all.skip(0) =~= all);
    assert(all.len() == n);
    while i < n && n - i >= 2
        invariant
            all == texts(ws@),
            all == words(line@),
            n == ws@.len(),
            all.len() == n,
            i <= n,
            class_in(all) == class_in(all.skip(i as int)),
        decreases n - i,
    {
        let word = ws[i].as_str();
        proof {
            assert(all.skip(i as int)[0] == word@);
            assert(all.skip(i as int)[1] == ws@[i + 1]@);
            assert(all.skip(i as int).drop_first() =~= all.skip(i + 1));
        }
        if same_text(word, "class") {
            let name = name_of(ws[i + 1].as_str());
            if name.as_str().is_empty() {
                return None;
            }
            return Some(name);
        }
        if !same_text(name_of(word).as_str(), word) {
            return None;
        }
        i += 1;
    }
    None
}

// ---------------------------------------------------------------------------
// Places in the tree
// ---------------------------------------------------------------------------
/// Where the method stands: in which folder, and in which class.
#[derive(Clone, Debug)]
pub struct MethodPlace {
    pub folder: String,
    pub class: String,
}

pub open spec fn path_of(folder: Seq<char>, class: Seq<char>, method: Seq<char>) -> Seq<char> {
    if folder.len() == 0 {
        class + "."@ + method
    } else {
        folder + "."@ + class + "."@ + method
    }
}

/// The path of a test in the tree: its class and method below the folder of the
/// class, or else of the method; as it stands where neither is known.
pub open spec fn enriched(
    fqn: Seq<char>,
    methods: Map<Seq<char>, MethodPlace>,
    classes: Map<Seq<char>, String>,
) -> Seq<char> {
    let segs = segments(fqn, '.');
    let method = segs.last();
    if segs.len() >= 2 && classes.dom().contains(segs[segs.len() - 2]) {
        path_of(classes[segs[segs.len() - 2]]@, segs[segs.len() - 2], method)
    } else if methods.dom().contains(method) {
        path_of(methods[method].folder@, methods[method].class@, method)
    } else {
        fqn
    }
}

fn make_path(folder: &str, class: &str, method: &str) -> (r: String)
    ensures
        r@ == path_of(folder@, class@, method@),
{
    let mut s = if folder.is_empty() {
        class.to_owned()
    } else {
        let mut f = concat(folder, ".");
        f.append(class);
        f
    };
    s.append(".");
    s.append(method);
    s
}

pub fn enrich(fqn: &str, methods: &Table<MethodPlace>, classes: &Table<String>) -> (r: String)
    ensures
        r@ == enriched(fqn@, methods@, classes@),
{
    let segs = split(fqn, '.');
    let n: usize = segs.len();
    let ghost all = segments(fqn@, '.');
    assert(all.len() == n);
    assert(all[n - 1] == segs@[n - 1]@);
    let method = segs[n - 1].as_str();
    if n >= 2 {
        let class = segs[n - 2].as_str();
        assert(all[n - 2] == class@);
        match classes.get(class) {
            Some(folder) => {
                return make_path(folder.as_str(), class, method);
            },
            None => {},
        }
    }
    match methods.get(method) {
        Some(place) => make_path(place.folder.as_str(), place.class.as_str(), method),
        None => fqn.to_owned(),
    }
}

// ---------------------------------------------------------------------------
// Reading a file
// ---------------------------------------------------------------------------
/// What was read of a file so far.
#[verifier::ext_equal]
pub struct Scan {
    /// Folder and class of every test method, by its name.
    pub methods: Map<Seq<char>, (Seq<char>, Seq<char>)>,
    /// Folder of every class, by its name.
    pub classes: Map<Seq<char>, Seq<char>>,
    /// The class that was declared last.
    pub class: Seq<char>,
    /// An attribute that marks a test waits for its method.
    pub pending: bool,
}

pub open spec fn is_comment(t: Seq<char>) -> bool {
    "//"@.is_prefix_of(t)
}

/// One line more.
pub open spec fn scanned(s: Scan, line: Seq<char>, folder: Seq<char>) -> Scan {
    let t = trimmed(line);
    let code = behind_attributes(t);
    let marked = s.pending || has_test_attribute(t);
    if code.len() == 0 || is_comment(code) {
        Scan { pending: marked, ..s }
    } else {
        match class_name(code) {
            Some(class) => Scan {
                classes: s.classes.insert(class, folder),
                class,
                pending: false,
                ..s
            },
            None => match method_name(code) {
                Some(method) => if marked {
                    Scan {
                        methods: s.methods.insert(method, (folder, s.class)),
                        pending: false,
                        ..s
                    }
                } else {
                    s
                },
                None => Scan { pending: marked, ..s },
            },
        }
    }
}

pub open spec fn scanned_all(s: Scan, lines: Seq<Seq<char>>, folder: Seq<char>) -> Scan
    decreases lines.len(),
{
    if lines.len() == 0 {
        s
    } else {
        scanned(scanned_all(s, lines.drop_last(), folder), lines.last(), folder)
    }
}

pub open spec fn place_views(m: Map<Seq<char>, MethodPlace>) -> Map<
    Seq<char>,
    (Seq<char>, Seq<char>),
> {
    m.map_values(|p: MethodPlace| (p.folder@, p.class@))
}

pub open spec fn text_views(m: Map<Seq<char>, String>) -> Map<Seq<char>, Seq<char>> {
    m.map_values(|s: String| s@)
}

/// What the tables and the class say.
pub open spec fn scan_of(
    methods: Map<Seq<char>, MethodPlace>,
    classes: Map<Seq<char>, String>,
    class: Seq<char>,
    pending: bool,
) -> Scan {
    Scan { methods: place_views(methods), classes: text_views(classes), class, pending }
}

/// Adds the test methods and the classes of a file that lies in `folder`.
pub fn parse_cs_content(
    content: &str,
    folder: &str,
    methods: &mut Table<MethodPlace>,
    classes: &mut Table<String>,
)
    ensures
        ({
            let start = scan_of(old(methods)@, old(classes)@, Seq::empty(), false);
            let end = scanned_all(start, segments(content@, '\n'), folder@);
            &&& place_views(final(methods)@) == end.methods
            &&& text_views(final(classes)@) == end.classes
        }),
{
    let lines = split(content, '\n');
    let ghost all = segments(content@, '\n');
    let mut class = String::new();
    let mut pending = false;
    let ghost start = scan_of(methods@, classes@, Seq::empty(), false);
    let mut i: usize = 0;
    assert(all.take(0) =~= Seq::<Seq<char>>::empty());
    assert(class@ =~= Seq::<char>::empty());
    while i < lines.len()
        invariant
            all == texts(lines@),
            i <= lines@.len(),
            scan_of(methods@, classes@, class@, pending) == scanned_all(
                start,
                all.take(i as int),
                folder@,
            ),
        decreases lines@.len() - i,
    {
        let ghost before = scan_of(methods@, classes@, class@, pending);
        let line = lines[i].as_str();
        proof {
            assert(all.take(i + 1).drop_last() =~= all.take(i as int));
            assert(all.take(i + 1).last() == line@);
        }
        let (code, is_marked) = read_attributes(trim(line));
        let marked = pending || is_marked;
        if code.as_str().is_empty() || starts_with(code.as_str(), "//") {
            pending = marked;
        } else {
            match extract_class_name(code.as_str()) {
                Some(name) => {
                    let ghost m = classes@;
                    let value = folder.to_owned();
                    classes.insert(name.clone(), value);
                    assert(text_views(classes@) =~= text_views(m).insert(name@, folder@));
                    class = name;
                    pending = false;
                },
                None => match extract_method_name(code.as_str()) {
                    Some(name) => {
                        if marked {
                            let ghost m = methods@;
                            let place = MethodPlace {
                                folder: folder.to_owned(),
                                class: class.clone(),
                            };
                            methods.insert(name, place);
                            assert(place_views(methods@) =~= place_views(m).insert(
                                name@,
                                (folder@, class@),
                            ));
                            pending = false;
                        }
                    },
                    None => {
                        pending = marked;
                    },
                },
            }
        }
        assert(scan_of(methods@, classes@, class@, pending) =~= scanned(before, line@, folder@));
        i += 1;
    }
    assert(all.take(i as int) =~= all);
}

/// Reading a file adds methods and classes, and never takes one away.
pub proof fn law_reading_only_adds(s: Scan, lines: Seq<Seq<char>>, folder: Seq<char>)
    ensures
        s.methods.dom().subset_of(scanned_all(s, lines, folder).methods.dom()),
        s.classes.dom().subset_of(scanned_all(s, lines, folder).classes.dom()),
    decreases lines.len(),
{
    if lines.len() > 0 {
        law_reading_only_adds(s, lines.drop_last(), folder);
    }
}

} // verus!
