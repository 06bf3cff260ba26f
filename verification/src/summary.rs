//! The match-count summary line.
//!
//! A pure presentation formatter, decoupled from scanning: it renders the
//! number of accepted matches as a pluralization-correct line, or the
//! "no matches" line when the pattern is empty or nothing was accepted.

use vstd::prelude::*;

use crate::text::string_from_chars;

verus! {

/// The decimal digit character for `d`.
pub open spec fn digit_char(d: int) -> char {
    if d == 0 {
        '0'
    } else if d == 1 {
        '1'
    } else if d == 2 {
        '2'
    } else if d == 3 {
        '3'
    } else if d == 4 {
        '4'
    } else if d == 5 {
        '5'
    } else if d == 6 {
        '6'
    } else if d == 7 {
        '7'
    } else if d == 8 {
        '8'
    } else {
        '9'
    }
}

/// The decimal digit characters of `n`, most significant first.
pub open spec fn dec_digits(n: int) -> Seq<char>
    decreases n,
{
    if n < 10 {
        seq![digit_char(n)]
    } else {
        dec_digits(n / 10).push(digit_char(n % 10))
    }
}

/// The summary line for `count` accepted matches: the "no matches" line when
/// the pattern is empty or the count is zero, otherwise the literal count
/// followed by the singular or plural noun.
pub open spec fn summary_model(count: int, pattern_is_empty: bool) -> Seq<char> {
    if pattern_is_empty || count == 0 {
        "no matches"@
    } else if count == 1 {
        dec_digits(count) + " match"@
    } else {
        dec_digits(count) + " matches"@
    }
}

/// The case split of the summary line: zero or an empty pattern give the
/// "no matches" line, one accepted match the singular noun, two or more the
/// plural noun with the literal count substituted.
pub proof fn lemma_summary_cases(count: int, pattern_is_empty: bool)
    requires
        count >= 0,
    ensures
        (pattern_is_empty || count == 0) ==> summary_model(count, pattern_is_empty)
            == "no matches"@,
        (!pattern_is_empty && count == 1) ==> summary_model(count, pattern_is_empty) == seq!['1']
            + " match"@,
        (!pattern_is_empty && count >= 2) ==> summary_model(count, pattern_is_empty) == dec_digits(
            count,
        ) + " matches"@,
{
    if !pattern_is_empty && count == 1 {
        assert(dec_digits(1) =~= seq!['1']);
    }
}

/// The decimal digit character for `d`.
fn digit_char_of(d: usize) -> (c: char)
    requires
        d < 10,
    ensures
        c == digit_char(d as int),
{
    if d == 0 {
        '0'
    } else if d == 1 {
        '1'
    } else if d == 2 {
        '2'
    } else if d == 3 {
        '3'
    } else if d == 4 {
        '4'
    } else if d == 5 {
        '5'
    } else if d == 6 {
        '6'
    } else if d == 7 {
        '7'
    } else if d == 8 {
        '8'
    } else {
        '9'
    }
}

/// The decimal digit characters of `n`, most significant first.
pub fn to_decimal(n: usize) -> (r: Vec<char>)
    ensures
        r@ == dec_digits(n as int),
{
    let mut digits: Vec<char> = Vec::new();
    let mut m: usize = n;
    proof {
        assert(dec_digits(n as int) =~= dec_digits(n as int) + digits@);
    }
    while m >= 10
        invariant
            dec_digits(n as int) == dec_digits(m as int) + digits@,
        decreases m,
    {
        let ghost m0 = m as int;
        let d = m % 10;
        digits.insert(0, digit_char_of(d));
        m = m / 10;
        proof {
            assert(dec_digits(m0) =~= dec_digits(m0 / 10) + seq![digit_char(m0 % 10)]);
            assert(dec_digits(n as int) =~= dec_digits(m as int) + digits@);
        }
    }
    digits.insert(0, digit_char_of(m));
    proof {
        assert(dec_digits(m as int) =~= seq![digit_char(m as int)]);
        assert(dec_digits(n as int) =~= digits@);
    }
    digits
}

/// Renders the summary line for `count` accepted matches.
pub fn format_summary(count: usize, pattern_is_empty: bool) -> (r: String)
    ensures
        r@ == summary_model(count as int, pattern_is_empty),
{
    if pattern_is_empty || count == 0 {
        return "no matches".to_owned();
    }
    let mut chars = to_decimal(count);
    chars.push(' ');
    chars.push('m');
    chars.push('a');
    chars.push('t');
    chars.push('c');
    chars.push('h');
    if count != 1 {
        chars.push('e');
        chars.push('s');
        proof {
            reveal_strlit(" matches");
            assert(chars@ =~= dec_digits(count as int) + " matches"@);
        }
    } else {
        proof {
            reveal_strlit(" match");
            assert(chars@ =~= dec_digits(count as int) + " match"@);
        }
    }
    string_from_chars(&chars)
}

} // verus!
