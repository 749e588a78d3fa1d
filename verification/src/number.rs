//! The syntax of floating-point literals, as the standard library's
//! float parser defines it:
//!
//! ```text
//! Float  ::= Sign? ( 'inf' | 'infinity' | 'nan' | Number )
//! Number ::= Count '.'? Count? Exp? | '.' Count Exp?
//! Exp    ::= ('e' | 'E') Sign? Count
//! Sign   ::= '+' | '-'
//! Count  ::= Digit+
//! ```
//!
//! with `inf`, `infinity` and `nan` matched case-insensitively. A numeric
//! override is validated against this grammar and then stored verbatim; the
//! value is never computed.

use vstd::prelude::*;

use crate::text::{find_char, is_digit, lemma_find_char_bounds, to_lower};

verus! {

/// Every character is a decimal digit (true of the empty sequence).
pub open spec fn all_digits(s: Seq<char>) -> bool {
    forall|i: int| 0 <= i < s.len() ==> is_digit(#[trigger] s[i])
}

/// One or more decimal digits.
pub open spec fn digits1(s: Seq<char>) -> bool {
    s.len() > 0 && all_digits(s)
}

/// The sequence with one leading sign removed, if there is one.
pub open spec fn strip_sign(s: Seq<char>) -> Seq<char> {
    if s.len() > 0 && (s[0] == '+' || s[0] == '-') {
        s.skip(1)
    } else {
        s
    }
}

/// A case-insensitive infinity or not-a-number token.
pub open spec fn is_special(t: Seq<char>) -> bool {
    let l = t.map_values(|c: char| to_lower(c));
    l == seq!['i', 'n', 'f'] || l == seq!['i', 'n', 'f', 'i', 'n', 'i', 't', 'y'] || l == seq![
        'n',
        'a',
        'n',
    ]
}

/// Digits with at most one decimal point: `Count '.'? Count?` or
/// `'.' Count`.
pub open spec fn is_mantissa(m: Seq<char>) -> bool {
    let d = find_char(m, 0, '.');
    if d == m.len() {
        digits1(m)
    } else if d == 0 {
        digits1(m.skip(1))
    } else {
        digits1(m.take(d)) && all_digits(m.skip(d + 1))
    }
}

/// An exponent body: an optional sign followed by one or more digits.
pub open spec fn is_exp_part(e: Seq<char>) -> bool {
    digits1(strip_sign(e))
}

/// First index of an exponent marker (`s.len()` if there is none).
pub open spec fn find_exp(t: Seq<char>) -> int {
    let a = find_char(t, 0, 'e');
    let b = find_char(t, 0, 'E');
    if a <= b {
        a
    } else {
        b
    }
}

/// The whole floating-point literal grammar.
pub open spec fn is_float_literal(s: Seq<char>) -> bool {
    let t = strip_sign(s);
    if is_special(t) {
        true
    } else {
        let e = find_exp(t);
        if e == t.len() {
            is_mantissa(t)
        } else {
            is_mantissa(t.take(e)) && is_exp_part(t.skip(e + 1))
        }
    }
}

/// Checks that the range `[from, to)` of `v` is all digits.
fn digits_range(v: &Vec<char>, from: usize, to: usize) -> (r: bool)
    requires
        from <= to <= v@.len(),
    ensures
        r == all_digits(v@.subrange(from as int, to as int)),
{
    let ghost s = v@.subrange(from as int, to as int);
    let mut i: usize = from;
    while i < to
        invariant
            from <= i <= to <= v@.len(),
            s == v@.subrange(from as int, to as int),
            forall|j: int| 0 <= j < i - from ==> is_digit(#[trigger] s[j]),
        decreases to - i,
    {
        let c = v[i];
        proof {
            assert(s[i - from] == v@[i as int]);
        }
        if !('0' <= c && c <= '9') {
            return false;
        }
        i = i + 1;
    }
    true
}

/// Checks `Count` (one or more digits) on the range `[from, to)`.
fn count_range(v: &Vec<char>, from: usize, to: usize) -> (r: bool)
    requires
        from <= to <= v@.len(),
    ensures
        r == digits1(v@.subrange(from as int, to as int)),
{
    if from == to {
        return false;
    }
    digits_range(v, from, to)
}

/// Checks the mantissa grammar on the whole of `m`.
fn mantissa_ok(m: &Vec<char>) -> (r: bool)
    ensures
        r == is_mantissa(m@),
{
    let n = m.len();
    let d = crate::text::find_char_from(m, 0, '.');
    proof {
        lemma_find_char_bounds(m@, 0, '.');
    }
    if d == n {
        proof {
            assert(m@.subrange(0, n as int) =~= m@);
        }
        count_range(m, 0, n)
    } else if d == 0 {
        proof {
            assert(m@.subrange(1, n as int) =~= m@.skip(1));
        }
        count_range(m, 1, n)
    } else {
        proof {
            assert(m@.subrange(0, d as int) =~= m@.take(d as int));
            assert(m@.subrange(d + 1 as int, n as int) =~= m@.skip(d + 1));
        }
        let head = count_range(m, 0, d);
        if !head {
            return false;
        }
        digits_range(m, d + 1, n)
    }
}

/// Checks an exponent body (optional sign, then digits) on `e`.
fn exp_part_ok(e: &Vec<char>) -> (r: bool)
    ensures
        r == is_exp_part(e@),
{
    let n = e.len();
    let start: usize = if n > 0 && (e[0] == '+' || e[0] == '-') {
        1
    } else {
        0
    };
    proof {
        if n > 0 && (e@[0] == '+' || e@[0] == '-') {
            assert(e@.subrange(1, n as int) =~= strip_sign(e@));
        } else {
            assert(e@.subrange(0, n as int) =~= strip_sign(e@));
        }
    }
    count_range(e, start, n)
}

/// Whether `v` is a floating-point literal: the test that a `Number`
/// override must pass before it is stored.
pub fn number_literal_ok(v: &Vec<char>) -> (r: bool)
    ensures
        r == is_float_literal(v@),
{
    let n = v.len();
    let start: usize = if n > 0 && (v[0] == '+' || v[0] == '-') {
        1
    } else {
        0
    };
    let t = crate::text::sub_chars(v, start, n);
    proof {
        if start == 1 {
            assert(t@ =~= strip_sign(v@));
        } else {
            assert(t@ =~= strip_sign(v@));
        }
    }
    let lower = crate::text::lower_chars(&t);
    let inf: Vec<char> = vec!['i', 'n', 'f'];
    let infinity: Vec<char> = vec!['i', 'n', 'f', 'i', 'n', 'i', 't', 'y'];
    let nan: Vec<char> = vec!['n', 'a', 'n'];
    proof {
        assert(inf@ =~= seq!['i', 'n', 'f']);
        assert(infinity@ =~= seq!['i', 'n', 'f', 'i', 'n', 'i', 't', 'y']);
        assert(nan@ =~= seq!['n', 'a', 'n']);
    }
    if crate::text::chars_eq(&lower, &inf) || crate::text::chars_eq(&lower, &infinity)
        || crate::text::chars_eq(&lower, &nan) {
        return true;
    }
    let tn = t.len();
    let ea = crate::text::find_char_from(&t, 0, 'e');
    let eb = crate::text::find_char_from(&t, 0, 'E');
    let e: usize = if ea <= eb {
        ea
    } else {
        eb
    };
    proof {
        lemma_find_char_bounds(t@, 0, 'e');
        lemma_find_char_bounds(t@, 0, 'E');
    }
    if e == tn {
        proof {
            assert(t@.take(tn as int) =~= t@);
        }
        mantissa_ok(&t)
    } else {
        let mant = crate::text::sub_chars(&t, 0, e);
        let expv = crate::text::sub_chars(&t, e + 1, tn);
        proof {
            assert(mant@ =~= t@.take(e as int));
            assert(expv@ =~= t@.skip(e + 1));
        }
        let head = mantissa_ok(&mant);
        if !head {
            return false;
        }
        exp_part_ok(&expv)
    }
}

} // verus!
