//! Which texts read as an `f32`. The library holds no floating-point values, but it
//! decides which texts stand for one: the grammar that `str::parse::<f32>` accepts,
//! checked character by character.
use vstd::prelude::*;

use crate::text::{
    all_digits, ascii_lower, chars_of, find_char, first_char_index, is_digit, is_white_space,
    lemma_first_char_index,
};

verus! {

/// An exponent mark, `e` in either case.
pub open spec fn is_exp_mark(c: char) -> bool {
    c == 'e' || c == 'E'
}

/// `s` without one leading sign (`+` or `-`).
pub open spec fn unsigned_part(s: Seq<char>) -> Seq<char> {
    if s.len() > 0 && (s[0] == '+' || s[0] == '-') {
        s.skip(1)
    } else {
        s
    }
}

/// The digits of a number with at most one `.` and at least one digit:
/// `Digit+`, `Digit+ '.' Digit*` or `Digit* '.' Digit+`.
pub open spec fn is_mantissa(m: Seq<char>) -> bool {
    match first_char_index(m, '.') {
        None => m.len() > 0 && all_digits(m),
        Some(d) => all_digits(m.take(d)) && all_digits(m.skip(d + 1)) && m.len() > 1,
    }
}

/// What follows an exponent mark: an optional sign, then one or more digits.
pub open spec fn is_exponent(e: Seq<char>) -> bool {
    unsigned_part(e).len() > 0 && all_digits(unsigned_part(e))
}

/// A mantissa, optionally followed by an exponent mark and an exponent.
pub open spec fn is_decimal_number(s: Seq<char>) -> bool {
    ||| (forall|i: int| 0 <= i < s.len() ==> !is_exp_mark(#[trigger] s[i])) && is_mantissa(s)
    ||| exists|k: int|
        0 <= k < s.len() && is_exp_mark(#[trigger] s[k]) && is_mantissa(s.take(k))
            && is_exponent(s.skip(k + 1))
}

/// `inf`, `infinity` or `nan`, in any mix of cases.
pub open spec fn is_float_word(s: Seq<char>) -> bool {
    let lower = s.map_values(|c: char| ascii_lower(c));
    lower == "inf"@ || lower == "infinity"@ || lower == "nan"@
}

/// Whether `str::parse::<f32>` reads `s`: an optional sign, then `inf`, `infinity`,
/// `nan` (any case) or a decimal number with an optional exponent.
pub open spec fn is_float_text(s: Seq<char>) -> bool {
    is_float_word(unsigned_part(s)) || is_decimal_number(unsigned_part(s))
}

/// The characters `v[from..to]`.
fn sub_chars(v: &Vec<char>, from: usize, to: usize) -> (r: Vec<char>)
    requires
        from <= to <= v.len(),
    ensures
        r@ == v@.subrange(from as int, to as int),
{
    let mut r: Vec<char> = Vec::new();
    let mut i: usize = from;
    while i < to
        invariant
            from <= i <= to <= v.len(),
            r@ == v@.subrange(from as int, i as int),
        decreases to - i,
    {
        r.push(v[i]);
        assert(v@.subrange(from as int, i + 1) == v@.subrange(from as int, i as int).push(v@[i as int]));
        i += 1;
    }
    r
}

/// Whether every character of `v` is a decimal digit.
fn digits_only(v: &Vec<char>) -> (r: bool)
    ensures
        r == all_digits(v@),
{
    let mut i: usize = 0;
    while i < v.len()
        invariant
            i <= v.len(),
            forall|j: int| 0 <= j < i ==> is_digit(#[trigger] v@[j]),
        decreases v.len() - i,
    {
        if !('0' <= v[i] && v[i] <= '9') {
            return false;
        }
        i += 1;
    }
    true
}

/// Whether `v`, lower-cased letter by letter, is `word`.
fn lower_equals(v: &Vec<char>, word: &str) -> (r: bool)
    ensures
        r == (v@.map_values(|c: char| ascii_lower(c)) == word@),
{
    let w = chars_of(word);
    if v.len() != w.len() {
        assert(v@.map_values(|c: char| ascii_lower(c)).len() != word@.len());
        return false;
    }
    let mut i: usize = 0;
    while i < v.len()
        invariant
            i <= v.len(),
            v.len() == w.len(),
            w@ == word@,
            forall|j: int| 0 <= j < i ==> ascii_lower(#[trigger] v@[j]) == w@[j],
        decreases v.len() - i,
    {
        let c = v[i];
        let lower = if 'A' <= c && c <= 'Z' {
            ((c as u32) + 32) as u8 as char
        } else {
            c
        };
        assert(lower == ascii_lower(c)) by {
            if 'A' <= c && c <= 'Z' {
                assert((c as u32) + 32 < 256);
            }
        }
        if lower != w[i] {
            assert(v@.map_values(|c: char| ascii_lower(c))[i as int] != word@[i as int]);
            return false;
        }
        i += 1;
    }
    assert(v@.map_values(|c: char| ascii_lower(c)) =~= word@);
    true
}

/// Every character of a mantissa is a digit or `.`.
pub proof fn lemma_mantissa_chars(m: Seq<char>)
    requires
        is_mantissa(m),
    ensures
        forall|i: int| 0 <= i < m.len() ==> is_digit(#[trigger] m[i]) || m[i] == '.',
{
    match first_char_index(m, '.') {
        None => {},
        Some(d) => {
            lemma_first_char_index(m, '.');
            assert forall|i: int| 0 <= i < m.len() implies is_digit(#[trigger] m[i]) || m[i]
                == '.' by {
                if i < d {
                    assert(m.take(d)[i] == m[i]);
                } else if i > d {
                    assert(m.skip(d + 1)[i - d - 1] == m[i]);
                }
            }
        },
    }
}

/// Whether the characters `v` form a mantissa.
fn mantissa_ok(v: &Vec<char>) -> (r: bool)
    ensures
        r == is_mantissa(v@),
{
    match find_char(v, '.') {
        None => v.len() > 0 && digits_only(v),
        Some(d) => {
            let before = sub_chars(v, 0, d);
            let after = sub_chars(v, d + 1, v.len());
            assert(before@ =~= v@.take(d as int));
            assert(after@ =~= v@.skip(d + 1));
            digits_only(&before) && digits_only(&after) && v.len() > 1
        },
    }
}

/// Whether the characters `v` form an exponent (what follows the mark).
fn exponent_ok(v: &Vec<char>) -> (r: bool)
    ensures
        r == is_exponent(v@),
{
    if v.len() > 0 && (v[0] == '+' || v[0] == '-') {
        let body = sub_chars(v, 1, v.len());
        assert(body@ =~= v@.skip(1));
        body.len() > 0 && digits_only(&body)
    } else {
        v.len() > 0 && digits_only(v)
    }
}

/// Whether the characters `v` form a decimal number with an optional exponent.
fn decimal_number_ok(v: &Vec<char>) -> (r: bool)
    ensures
        r == is_decimal_number(v@),
{
    let mut k: usize = 0;
    while k < v.len() && !(v[k] == 'e' || v[k] == 'E')
        invariant
            k <= v.len(),
            forall|j: int| 0 <= j < k ==> !is_exp_mark(#[trigger] v@[j]),
        decreases v.len() - k,
    {
        k += 1;
    }
    if k == v.len() {
        let r = mantissa_ok(v);
        proof {
            if !r {
                assert forall|j: int| 0 <= j < v.len() && is_exp_mark(#[trigger] v@[j]) implies !(
                is_mantissa(v@.take(j)) && is_exponent(v@.skip(j + 1))) by {}
            }
        }
        r
    } else {
        let mantissa = sub_chars(v, 0, k);
        let exponent = sub_chars(v, k + 1, v.len());
        assert(mantissa@ =~= v@.take(k as int));
        assert(exponent@ =~= v@.skip(k + 1));
        let r = mantissa_ok(&mantissa) && exponent_ok(&exponent);
        proof {
            assert(is_exp_mark(v@[k as int]));
            if !r {
                assert forall|j: int| 0 <= j < v.len() && is_exp_mark(#[trigger] v@[j]) implies !(
                is_mantissa(v@.take(j)) && is_exponent(v@.skip(j + 1))) by {
                    if j > k && is_mantissa(v@.take(j)) {
                        lemma_mantissa_chars(v@.take(j));
                        assert(v@.take(j)[k as int] == v@[k as int]);
                    }
                }
            }
        }
        r
    }
}

/// A character whose ASCII lower case is a lower-case letter is no white space.
proof fn lemma_letter_is_no_space(c: char)
    requires
        'a' <= ascii_lower(c) <= 'z',
    ensures
        !is_white_space(c),
{
}

proof fn lemma_word_has_no_space(u: Seq<char>)
    requires
        is_float_word(u),
    ensures
        u.len() > 0,
        forall|i: int| 0 <= i < u.len() ==> !is_white_space(#[trigger] u[i]),
{
    reveal_strlit("inf");
    reveal_strlit("infinity");
    reveal_strlit("nan");
    let lower = u.map_values(|c: char| ascii_lower(c));
    assert(lower.len() == u.len());
    let word = if lower == "inf"@ {
        "inf"@
    } else if lower == "infinity"@ {
        "infinity"@
    } else {
        "nan"@
    };
    assert(lower == word);
    assert forall|i: int| 0 <= i < word.len() implies 'a' <= #[trigger] word[i] <= 'z' by {}
    assert forall|i: int| 0 <= i < u.len() implies !is_white_space(#[trigger] u[i]) by {
        assert(lower[i] == ascii_lower(u[i]));
        assert(lower[i] == word[i]);
        lemma_letter_is_no_space(u[i]);
    }
}

/// A character that may appear in a decimal number: a digit, `.`, a sign or a mark.
spec fn is_numeral_char(c: char) -> bool {
    is_digit(c) || c == '.' || c == '+' || c == '-' || is_exp_mark(c)
}

proof fn lemma_numeral_is_no_space(c: char)
    requires
        is_numeral_char(c),
    ensures
        !is_white_space(c),
{
}

proof fn lemma_exponent_chars(e: Seq<char>)
    requires
        is_exponent(e),
    ensures
        forall|j: int| 0 <= j < e.len() ==> is_numeral_char(#[trigger] e[j]),
{
    let body = unsigned_part(e);
    assert forall|j: int| 0 <= j < e.len() implies is_numeral_char(#[trigger] e[j]) by {
        if e[0] == '+' || e[0] == '-' {
            if j > 0 {
                assert(body[j - 1] == e[j]);
                assert(is_digit(body[j - 1]));
            }
        } else {
            assert(body[j] == e[j]);
            assert(is_digit(body[j]));
        }
    }
}

proof fn lemma_mantissa_numerals(m: Seq<char>)
    requires
        is_mantissa(m),
    ensures
        m.len() > 0,
        forall|j: int| 0 <= j < m.len() ==> is_numeral_char(#[trigger] m[j]),
{
    lemma_mantissa_chars(m);
    assert forall|j: int| 0 <= j < m.len() implies is_numeral_char(#[trigger] m[j]) by {
        assert(is_digit(m[j]) || m[j] == '.');
    }
}

proof fn lemma_marked_number_chars(u: Seq<char>, k: int)
    requires
        0 <= k < u.len(),
        is_exp_mark(u[k]),
        is_mantissa(u.take(k)),
        is_exponent(u.skip(k + 1)),
    ensures
        forall|i: int| 0 <= i < u.len() ==> is_numeral_char(#[trigger] u[i]),
{
    let m = u.take(k);
    let e = u.skip(k + 1);
    lemma_mantissa_numerals(m);
    lemma_exponent_chars(e);
    assert forall|i: int| 0 <= i < u.len() implies is_numeral_char(#[trigger] u[i]) by {
        if i < k {
            assert(m[i] == u[i]);
        } else if i > k {
            assert(e[i - k - 1] == u[i]);
        }
    }
}

proof fn lemma_number_chars(u: Seq<char>)
    requires
        is_decimal_number(u),
    ensures
        u.len() > 0,
        forall|i: int| 0 <= i < u.len() ==> is_numeral_char(#[trigger] u[i]),
{
    if exists|k: int|
        0 <= k < u.len() && is_exp_mark(#[trigger] u[k]) && is_mantissa(u.take(k))
            && is_exponent(u.skip(k + 1)) {
        let k = choose|k: int|
            0 <= k < u.len() && is_exp_mark(#[trigger] u[k]) && is_mantissa(u.take(k))
                && is_exponent(u.skip(k + 1));
        lemma_marked_number_chars(u, k);
    } else {
        lemma_mantissa_numerals(u);
    }
}

/// A text that reads as an `f32` is not empty and holds no white space.
pub proof fn lemma_float_text_has_no_space(s: Seq<char>)
    requires
        is_float_text(s),
    ensures
        s.len() > 0,
        forall|i: int| 0 <= i < s.len() ==> !is_white_space(#[trigger] s[i]),
{
    let u = unsigned_part(s);
    if is_float_word(u) {
        lemma_word_has_no_space(u);
    } else {
        lemma_number_chars(u);
        assert forall|i: int| 0 <= i < u.len() implies !is_white_space(#[trigger] u[i]) by {
            lemma_numeral_is_no_space(u[i]);
        }
    }
    let signed = s.len() > 0 && (s[0] == '+' || s[0] == '-');
    assert forall|i: int| 0 <= i < s.len() implies !is_white_space(#[trigger] s[i]) by {
        if signed {
            if i > 0 {
                assert(u[i - 1] == s[i]);
            }
        } else {
            assert(u[i] == s[i]);
        }
    }
}

/// Whether `s` reads as an `f32`, as `str::parse::<f32>` decides it.
pub fn is_float(s: &str) -> (r: bool)
    ensures
        r == is_float_text(s@),
{
    let v = chars_of(s);
    let rest = if v.len() > 0 && (v[0] == '+' || v[0] == '-') {
        sub_chars(&v, 1, v.len())
    } else {
        sub_chars(&v, 0, v.len())
    };
    assert(rest@ =~= unsigned_part(s@));
    lower_equals(&rest, "inf") || lower_equals(&rest, "infinity") || lower_equals(&rest, "nan")
        || decimal_number_ok(&rest)
}

} // verus!
