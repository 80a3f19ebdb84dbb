//! Decimal numerals: writing numbers as text and reading them back.

use vstd::prelude::*;

use crate::text::{chars_of, is_digit};

verus! {

pub open spec fn digit(d: nat) -> char {
    (48 + d) as char
}

/// `n` in decimal, without leading zeros.
pub open spec fn decimal(n: nat) -> Seq<char>
    decreases n,
{
    if n < 10 {
        seq![digit(n)]
    } else {
        decimal(n / 10).push(digit(n % 10))
    }
}

/// `n` in decimal, with a `-` in front of a negative number.
pub open spec fn signed_decimal(n: int) -> Seq<char> {
    if n < 0 {
        seq!['-'] + decimal((-n) as nat)
    } else {
        decimal(n as nat)
    }
}

pub fn decimal_of(n: u128) -> (r: String)
    ensures
        r@ == decimal(n as nat),
    decreases n,
{
    let last: char = (48u8 + (n % 10) as u8) as char;
    let mut s = if n < 10 {
        String::new()
    } else {
        decimal_of(n / 10)
    };
    s.push(last);
    s
}

pub fn count_text(n: usize) -> (r: String)
    ensures
        r@ == decimal(n as nat),
{
    decimal_of(n as u128)
}

pub fn signed_text(n: i32) -> (r: String)
    ensures
        r@ == signed_decimal(n as int),
{
    if n < 0 {
        let mut s = String::new();
        s.push('-');
        let magnitude: u128 = (-(n as i64)) as u128;
        let digits = decimal_of(magnitude);
        s.append(digits.as_str());
        assert(s@ =~= seq!['-'] + digits@);
        s
    } else {
        decimal_of(n as u128)
    }
}

/// The number that a sequence of digits denotes.
pub open spec fn digits_value(s: Seq<char>) -> nat
    decreases s.len(),
{
    if s.len() == 0 {
        0
    } else {
        digits_value(s.drop_last()) * 10 + (s.last() as u32 - 48) as nat
    }
}

pub open spec fn all_digits(s: Seq<char>) -> bool {
    forall|i: int| 0 <= i < s.len() ==> is_digit(#[trigger] s[i])
}

/// `s` without the `+` that it may start with.
pub open spec fn without_plus(s: Seq<char>) -> Seq<char> {
    if s.len() > 0 && s[0] == '+' {
        s.skip(1)
    } else {
        s
    }
}

/// An optional `+`, then at least one digit and nothing else, of a value that
/// is at most `max`.
pub open spec fn numeral_value(s: Seq<char>, max: nat) -> Option<nat> {
    let body = without_plus(s);
    if body.len() > 0 && all_digits(body) && digits_value(body) <= max {
        Some(digits_value(body))
    } else {
        None
    }
}

proof fn lemma_prefix_value(s: Seq<char>, k: int)
    requires
        all_digits(s),
        0 <= k <= s.len(),
    ensures
        digits_value(s.take(k)) <= digits_value(s),
    decreases s.len(),
{
    if k == s.len() {
        assert(s.take(k) =~= s);
    } else {
        assert(s.drop_last().take(k) =~= s.take(k));
        assert(all_digits(s.drop_last()));
        lemma_prefix_value(s.drop_last(), k);
    }
}

/// The optional number that `r` holds, as a natural number.
pub open spec fn opt_nat(r: Option<usize>) -> Option<nat> {
    match r {
        Some(n) => Some(n as nat),
        None => None,
    }
}

pub fn parse_count(s: &str) -> (r: Option<usize>)
    ensures
        opt_nat(r) == numeral_value(s@, usize::MAX as nat),
{
    let v = chars_of(s);
    let start: usize = if v.len() > 0 && v[0] == '+' {
        1
    } else {
        0
    };
    let ghost body = without_plus(s@);
    assert(body =~= s@.skip(start as int));
    if start == v.len() {
        return None;
    }
    let mut value: usize = 0;
    let mut i: usize = start;
    while i < v.len()
        invariant
            v@ == s@,
            start <= i <= v@.len(),
            body == without_plus(s@),
            body == s@.skip(start as int),
            all_digits(body.take(i - start)),
            value == digits_value(body.take(i - start)),
        decreases v@.len() - i,
    {
        let c: char = v[i];
        assert(body[i - start] == c);
        if !('0' <= c && c <= '9') {
            assert(!is_digit(body[i - start]));
            return None;
        }
        let d: usize = (c as u32 - 48) as usize;
        let ghost next = body.take(i + 1 - start);
        assert(next.drop_last() =~= body.take(i - start));
        assert(next.last() == c);
        assert(digits_value(next) == value * 10 + d);
        if value > usize::MAX / 10 || value * 10 > usize::MAX - d {
            assert(digits_value(next) > usize::MAX);
            proof {
                if all_digits(body) {
                    lemma_prefix_value(body, i + 1 - start);
                }
            }
            return None;
        }
        value = value * 10 + d;
        assert(all_digits(next)) by {
            assert forall|k: int| 0 <= k < next.len() implies is_digit(#[trigger] next[k]) by {
                if k < i - start {
                    assert(next[k] == body.take(i - start)[k]);
                }
            }
        }
        i += 1;
    }
    assert(body.take(i - start) =~= body);
    Some(value)
}

pub proof fn lemma_decimal_digits(n: nat)
    ensures
        decimal(n).len() > 0,
        all_digits(decimal(n)),
        digits_value(decimal(n)) == n,
    decreases n,
{
    if n < 10 {
        let s = decimal(n);
        assert(s.drop_last() =~= Seq::<char>::empty());
        assert(digits_value(s.drop_last()) == 0);
    } else {
        lemma_decimal_digits(n / 10);
        let s = decimal(n);
        assert(s.drop_last() =~= decimal(n / 10));
    }
}

/// Reading a written number gives the number back.
pub proof fn law_numeral_round_trip(n: nat, max: nat)
    requires
        n <= max,
    ensures
        numeral_value(decimal(n), max) == Some(n),
{
    lemma_decimal_digits(n);
    assert(is_digit(decimal(n)[0]));
}

} // verus!
