//! What is read out of a source file: its classes, and its test methods by the
//! attributes above them.

use vstd::prelude::*;

use crate::domain::sources::{
    all_name_chars, before_last, behind_attributes, bracket_end, class_in, class_name,
    has_test_attribute, is_comment, is_keyword, is_name_char, leading_name, method_name, scanned,
    test_attribute, trailing_name, word_len, words, Scan,
};
use crate::text::{is_white_space, lemma_dark_start_stays, trim_end_of, trim_start_of, trimmed};
use crate::text_laws::{
    is_blank, law_first_segment_is_split_off, law_trimming_finds_the_text, lemma_trim_start_skips,
};

verus! {

// ---------------------------------------------------------------------------
// Names
// ---------------------------------------------------------------------------
/// A name of the language: letters, numbers and underscores.
pub open spec fn is_name(n: Seq<char>) -> bool {
    &&& n.len() > 0
    &&& forall|i: int| 0 <= i < n.len() ==> is_name_char(#[trigger] n[i])
    &&& is_dark(n)
    &&& n.last() != '>'
}

/// There is no white space in the text.
pub open spec fn is_dark(n: Seq<char>) -> bool {
    forall|i: int| 0 <= i < n.len() ==> !is_white_space(#[trigger] n[i])
}

/// A text begins with the name behind which the first other character stands.
pub proof fn law_names_end_at_other_characters(name: Seq<char>, tail: Seq<char>)
    requires
        forall|i: int| 0 <= i < name.len() ==> is_name_char(#[trigger] name[i]),
        tail.len() > 0 ==> !is_name_char(tail[0]),
    ensures
        leading_name(name + tail) == name,
    decreases name.len(),
{
    if name.len() == 0 {
        assert(name + tail =~= tail);
        assert(name =~= Seq::<char>::empty());
    } else {
        let rest = name.drop_first();
        assert forall|i: int| 0 <= i < rest.len() implies is_name_char(#[trigger] rest[i]) by {
            assert(is_name_char(name[i + 1]));
        }
        law_names_end_at_other_characters(rest, tail);
        assert((name + tail).drop_first() =~= rest + tail);
        assert((name + tail)[0] == name[0]);
        assert(seq![name[0]] + rest =~= name);
    }
}

/// A text ends with the name before which the last other character stands.
pub proof fn law_names_begin_behind_other_characters(before: Seq<char>, name: Seq<char>)
    requires
        forall|i: int| 0 <= i < name.len() ==> is_name_char(#[trigger] name[i]),
        before.len() > 0 ==> !is_name_char(before.last()),
    ensures
        trailing_name(before + name) == name,
    decreases name.len(),
{
    if name.len() == 0 {
        assert(before + name =~= before);
        assert(name =~= Seq::<char>::empty());
    } else {
        let rest = name.drop_last();
        assert forall|i: int| 0 <= i < rest.len() implies is_name_char(#[trigger] rest[i]) by {
            assert(is_name_char(name[i]));
        }
        law_names_begin_behind_other_characters(before, rest);
        assert((before + name).drop_last() =~= before + rest);
        assert((before + name).last() == name.last());
        assert(rest.push(name.last()) =~= name);
    }
}

// ---------------------------------------------------------------------------
// Attributes
// ---------------------------------------------------------------------------
/// The attributes of the test frameworks mark a test, with arguments or without.
pub proof fn law_framework_attributes_mark_tests(name: Seq<char>, tail: Seq<char>)
    requires
        seq![
            "Test"@,
            "TestCase"@,
            "TestCaseSource"@,
            "Fact"@,
            "Theory"@,
            "TestMethod"@,
            "DataTestMethod"@,
        ].contains(name),
        forall|i: int| 0 <= i < name.len() ==> is_name_char(#[trigger] name[i]),
        tail.len() > 0 ==> !is_name_char(tail[0]),
    ensures
        test_attribute(seq!['['] + name + tail),
{
    law_names_end_at_other_characters(name, tail);
    assert((seq!['['] + name + tail).skip(1) =~= name + tail);
}

proof fn lemma_bracket_closes(inner: Seq<char>, rest: Seq<char>, depth: int)
    requires
        depth >= 1,
        !inner.contains('['),
        !inner.contains(']'),
    ensures
        depth == 1 ==> bracket_end(inner + seq![']'] + rest, depth) == inner.len() + 1,
    decreases inner.len(),
{
    let s = inner + seq![']'] + rest;
    if inner.len() > 0 {
        let less = inner.drop_first();
        assert(inner.contains(inner[0]));
        assert forall|c: char| less.contains(c) implies inner.contains(c) by {
            let i = less.index_of(c);
            assert(inner[i + 1] == c);
        }
        lemma_bracket_closes(less, rest, depth);
        assert(s.drop_first() =~= less + seq![']'] + rest);
        assert(s[0] == inner[0]);
    } else {
        assert(s[0] == ']');
    }
}

/// An attribute reaches up to its closing bracket: what stands behind it is read
/// as if it stood alone, and the attribute is one more that may mark a test.
pub proof fn law_attributes_end_at_their_bracket(inner: Seq<char>, rest: Seq<char>)
    requires
        !inner.contains('['),
        !inner.contains(']'),
    ensures
        behind_attributes(seq!['['] + inner + seq![']'] + rest) == behind_attributes(
            trimmed(rest),
        ),
        has_test_attribute(seq!['['] + inner + seq![']'] + rest) <==> test_attribute(
            seq!['['] + inner + seq![']'] + rest,
        ) || has_test_attribute(trimmed(rest)),
{
    let s = seq!['['] + inner + seq![']'] + rest;
    lemma_bracket_closes(inner, rest, 1);
    assert(s[0] == '[');
    assert(s.drop_first() =~= inner + seq![']'] + rest);
    assert(s.skip(inner.len() as int + 2) =~= rest);
}

/// Where no bracket opens, no attribute stands.
pub proof fn law_other_texts_have_no_attributes(t: Seq<char>)
    requires
        t.len() > 0 ==> t[0] != '[',
    ensures
        behind_attributes(t) == t,
        !has_test_attribute(t),
{
}

// ---------------------------------------------------------------------------
// Methods
// ---------------------------------------------------------------------------
proof fn lemma_blank_is_trimmed_away(s: Seq<char>, i: int)
    requires
        0 <= i < s.len(),
        !is_white_space(s[i]),
    ensures
        trimmed(s).len() > 0,
    decreases s.len(),
{
    if is_white_space(s[0]) {
        assert(s.drop_first()[i - 1] == s[i]);
        lemma_blank_is_trimmed_away(s.drop_first(), i - 1);
    } else {
        lemma_dark_start_stays(s);
    }
}

proof fn lemma_ends_dark(s: Seq<char>)
    requires
        s.len() > 0,
        !is_white_space(s.last()),
    ensures
        trim_end_of(s) == s,
{
}

/// The method of a line is the name before the first bracket, if something else
/// stands before it and the name is none of the language's own words.
pub proof fn law_methods_are_named_before_the_bracket(
    before: Seq<char>,
    name: Seq<char>,
    rest: Seq<char>,
    i: int,
)
    requires
        is_name(name),
        before.len() > 0,
        is_white_space(before.last()),
        !is_name_char(before.last()),
        0 <= i < before.len(),
        !is_white_space(before[i]),
        !(before + name).contains('('),
    ensures
        method_name(before + name + seq!['('] + rest) == if is_keyword(name) {
            None
        } else {
            Some(name)
        },
{
    let head = before + name;
    let line = head + seq!['('] + rest;
    law_first_segment_is_split_off(head, '(', rest);
    assert(line[head.len() as int] == '(');
    assert(head.last() == name.last());
    lemma_ends_dark(head);
    law_names_begin_behind_other_characters(before, name);
    assert(head.take(head.len() - name.len()) =~= before);
    lemma_blank_is_trimmed_away(before, i);
}

proof fn lemma_before_last(a: Seq<char>, c: char, b: Seq<char>)
    requires
        !b.contains(c),
    ensures
        before_last(a + seq![c] + b, c) == a,
    decreases b.len(),
{
    let s = a + seq![c] + b;
    if b.len() == 0 {
        assert(s.last() == c);
        assert(s.drop_last() =~= a);
    } else {
        let less = b.drop_last();
        assert(b.contains(b[b.len() - 1]));
        assert forall|x: char| less.contains(x) implies b.contains(x) by {
            let i = less.index_of(x);
            assert(b[i] == x);
        }
        lemma_before_last(a, c, less);
        assert(s.drop_last() =~= a + seq![c] + less);
        assert(s.last() == b.last());
    }
}

/// Type parameters between the name and the bracket are no part of the name.
pub proof fn law_type_parameters_are_passed_over(
    before: Seq<char>,
    name: Seq<char>,
    parameters: Seq<char>,
    rest: Seq<char>,
    i: int,
)
    requires
        is_name(name),
        before.len() > 0,
        is_white_space(before.last()),
        !is_name_char(before.last()),
        0 <= i < before.len(),
        !is_white_space(before[i]),
        !(before + name).contains('('),
        !parameters.contains('('),
        !parameters.contains('<'),
    ensures
        method_name(before + name + seq!['<'] + parameters + seq!['>'] + seq!['('] + rest)
            == if is_keyword(name) {
            None
        } else {
            Some(name)
        },
{
    let head = before + name;
    let full = head + seq!['<'] + parameters + seq!['>'];
    let line = full + seq!['('] + rest;
    assert(!full.contains('(')) by {
        if full.contains('(') {
            let k = full.index_of('(');
            assert(full[k] == '(');
            if k < head.len() {
                assert(head[k] == '(');
            } else if head.len() < k < head.len() + 1 + parameters.len() {
                assert(parameters[k - head.len() - 1] == '(');
            }
        }
    }
    law_first_segment_is_split_off(full, '(', rest);
    assert(line[full.len() as int] == '(');
    assert(full.last() == '>');
    lemma_ends_dark(full);
    let b = parameters + seq!['>'];
    assert(!b.contains('<')) by {
        if b.contains('<') {
            let k = b.index_of('<');
            assert(b[k] == '<');
            if k < parameters.len() {
                assert(parameters[k] == '<');
            }
        }
    }
    assert(full =~= head + seq!['<'] + b);
    lemma_before_last(head, '<', b);
    assert(head.last() == name.last());
    lemma_ends_dark(head);
    law_names_begin_behind_other_characters(before, name);
    assert(head.take(head.len() - name.len()) =~= before);
    lemma_blank_is_trimmed_away(before, i);
}

/// A line without a bracket declares no method, nor does one on which nothing
/// stands before the name.
pub proof fn law_calls_declare_no_method(name: Seq<char>, rest: Seq<char>)
    requires
        is_name(name),
        !name.contains('('),
    ensures
        method_name(name) is None,
        method_name(name + seq!['('] + rest) is None,
{
    law_first_segment_is_split_off(name, '(', rest);
    lemma_ends_dark(name);
    let none = Seq::<char>::empty();
    law_names_begin_behind_other_characters(none, name);
    assert(none + name =~= name);
    assert(name.take(0) =~= none);
}

// ---------------------------------------------------------------------------
// Classes
// ---------------------------------------------------------------------------
proof fn lemma_word_len_of(w: Seq<char>, rest: Seq<char>)
    requires
        is_dark(w),
        rest.len() > 0 ==> is_white_space(rest[0]),
    ensures
        word_len(w + rest) == w.len(),
    decreases w.len(),
{
    if w.len() == 0 {
        assert(w + rest =~= rest);
    } else {
        let less = w.drop_first();
        assert forall|i: int| 0 <= i < less.len() implies !is_white_space(#[trigger] less[i]) by {
            assert(!is_white_space(w[i + 1]));
        }
        lemma_word_len_of(less, rest);
        assert((w + rest).drop_first() =~= less + rest);
        assert((w + rest)[0] == w[0]);
    }
}

/// The words of a text are the pieces between its white space.
pub proof fn law_white_space_parts_words(w: Seq<char>, rest: Seq<char>)
    requires
        w.len() > 0,
        is_dark(w),
        rest.len() > 0 ==> is_white_space(rest[0]),
    ensures
        words(w + rest) == seq![w] + words(rest),
{
    let s = w + rest;
    lemma_word_len_of(w, rest);
    assert(s[0] == w[0]);
    assert(trim_start_of(s) == s);
    assert(s.take(w.len() as int) =~= w);
    assert(s.skip(w.len() as int) =~= rest);
}

/// White space before a text adds no word.
pub proof fn law_white_space_is_no_word(a: Seq<char>, s: Seq<char>)
    requires
        is_blank(a),
    ensures
        words(a + s) == words(s),
        words(a) == Seq::<Seq<char>>::empty(),
{
    lemma_trim_start_skips(a, s);
    let none = Seq::<char>::empty();
    lemma_trim_start_skips(a, none);
    assert(a + none =~= a);
}

/// The class is named behind the word `class`, whatever names stand before it and
/// whatever follows.
pub proof fn law_classes_are_named_behind_the_word(
    modifiers: Seq<Seq<char>>,
    name: Seq<char>,
    tail: Seq<char>,
    rest: Seq<Seq<char>>,
)
    requires
        forall|i: int| 0 <= i < modifiers.len() ==> is_name(#[trigger] modifiers[i]),
        is_name(name),
        tail.len() > 0 ==> !is_name_char(tail[0]),
        !modifiers.contains("class"@),
    ensures
        class_in(modifiers + seq!["class"@, name + tail] + rest) == Some(name),
    decreases modifiers.len(),
{
    let all = modifiers + seq!["class"@, name + tail] + rest;
    if modifiers.len() == 0 {
        assert(all[0] == "class"@);
        assert(all[1] == name + tail);
        law_names_end_at_other_characters(name, tail);
    } else {
        let less = modifiers.drop_first();
        assert forall|i: int| 0 <= i < less.len() implies is_name(#[trigger] less[i]) by {
            assert(is_name(modifiers[i + 1]));
        }
        assert(modifiers.contains(modifiers[0]));
        assert(!less.contains("class"@)) by {
            if less.contains("class"@) {
                let i = less.index_of("class"@);
                assert(modifiers[i + 1] == "class"@);
            }
        }
        law_classes_are_named_behind_the_word(less, name, tail, rest);
        assert(all.drop_first() =~= less + seq!["class"@, name + tail] + rest);
        assert(all[0] == modifiers[0]);
        assert(is_name(modifiers[0]));
        let none = Seq::<char>::empty();
        law_names_end_at_other_characters(modifiers[0], none);
        assert(modifiers[0] + none =~= modifiers[0]);
        assert(all_name_chars(all[0]));
    }
}

/// Where the word `class` does not occur, no class is declared.
pub proof fn law_other_words_declare_no_class(ws: Seq<Seq<char>>)
    requires
        !ws.contains("class"@),
    ensures
        class_in(ws) is None,
    decreases ws.len(),
{
    if ws.len() >= 2 {
        assert(ws.contains(ws[0]));
        let less = ws.drop_first();
        assert(!less.contains("class"@)) by {
            if less.contains("class"@) {
                let i = less.index_of("class"@);
                assert(ws[i + 1] == "class"@);
            }
        }
        law_other_words_declare_no_class(less);
    }
}

// ---------------------------------------------------------------------------
// Files
// ---------------------------------------------------------------------------
/// A line that begins neither with white space nor with an attribute, and that is
/// no comment.
pub open spec fn is_code(t: Seq<char>) -> bool {
    &&& t.len() > 0
    &&& trimmed(t) == t
    &&& t[0] != '['
    &&& !is_comment(t)
}

/// A method is a test of the class that was declared last if a line with a
/// marking attribute stands above it. The mark is then used up.
pub proof fn law_marked_methods_are_tests(
    s: Scan,
    mark: Seq<char>,
    line: Seq<char>,
    name: Seq<char>,
    folder: Seq<char>,
)
    requires
        !mark.contains('['),
        !mark.contains(']'),
        test_attribute(seq!['['] + mark + seq![']']),
        is_code(line),
        class_name(line) is None,
        method_name(line) == Some(name),
    ensures
        ({
            let after = scanned(scanned(s, seq!['['] + mark + seq![']'], folder), line, folder);
            &&& after.methods == s.methods.insert(name, (folder, s.class))
            &&& after.classes == s.classes
            &&& after.class == s.class
            &&& !after.pending
        }),
{
    let a = seq!['['] + mark + seq![']'];
    let none = Seq::<char>::empty();
    assert(none + a + none =~= a);
    assert(a[0] == '[' && a.last() == ']');
    law_trimming_finds_the_text(none, a, none);
    assert(a + none =~= a);
    law_attributes_end_at_their_bracket(mark, none);
    law_trimming_finds_the_text(none, none, none);
    assert(none + none + none =~= none);
    law_other_texts_have_no_attributes(none);
    law_other_texts_have_no_attributes(line);
}

/// A method above which no marking attribute stands is no test.
pub proof fn law_unmarked_methods_are_no_tests(s: Scan, line: Seq<char>, folder: Seq<char>)
    requires
        !s.pending,
        is_code(line),
    ensures
        scanned(s, line, folder).methods == s.methods,
        !scanned(s, line, folder).pending,
{
    law_other_texts_have_no_attributes(line);
}

/// Comments and empty lines change nothing, between an attribute and its method
/// too.
pub proof fn law_comments_are_passed_over(s: Scan, line: Seq<char>, folder: Seq<char>)
    requires
        is_blank(line) || (trimmed(line).len() >= 2 && trimmed(line)[0] == '/' && trimmed(line)[1]
            == '/'),
    ensures
        scanned(s, line, folder) == s,
{
    reveal_strlit("//");
    if is_blank(line) {
        let none = Seq::<char>::empty();
        law_trimming_finds_the_text(line, none, none);
        assert(line + none + none =~= line);
        law_other_texts_have_no_attributes(none);
    } else {
        assert("//"@ =~= trimmed(line).take(2));
        law_other_texts_have_no_attributes(trimmed(line));
    }
    assert(scanned(s, line, folder) =~= s);
}

/// A class is known by its folder from the line that declares it, and the methods
/// that follow are its own.
pub proof fn law_declared_classes_are_known(
    s: Scan,
    line: Seq<char>,
    name: Seq<char>,
    folder: Seq<char>,
)
    requires
        is_code(line),
        class_name(line) == Some(name),
    ensures
        scanned(s, line, folder).classes == s.classes.insert(name, folder),
        scanned(s, line, folder).class == name,
        scanned(s, line, folder).methods == s.methods,
        !scanned(s, line, folder).pending,
{
    law_other_texts_have_no_attributes(line);
}

} // verus!
