//! Character-level definitions shared by the scanner and the parameter
//! engine: ASCII character classes, case mapping, and conversions between
//! `&str` and `Vec<char>`.

use vstd::prelude::*;

verus! {

/// ASCII upper-case letter.
pub open spec fn is_upper(c: char) -> bool {
    'A' <= c && c <= 'Z'
}

/// ASCII lower-case letter.
pub open spec fn is_lower(c: char) -> bool {
    'a' <= c && c <= 'z'
}

/// ASCII decimal digit.
pub open spec fn is_digit(c: char) -> bool {
    '0' <= c && c <= '9'
}

/// ASCII letter or digit.
pub open spec fn is_alnum(c: char) -> bool {
    is_upper(c) || is_lower(c) || is_digit(c)
}

/// ASCII case folding to upper case; every other character is unchanged.
pub open spec fn to_upper(c: char) -> char {
    if is_lower(c) {
        ((c as u32) - 32) as char
    } else {
        c
    }
}

/// ASCII case folding to lower case; every other character is unchanged.
pub open spec fn to_lower(c: char) -> char {
    if is_upper(c) {
        ((c as u32) + 32) as char
    } else {
        c
    }
}

/// Upper-cases one character (ASCII only, like the mapping convention for
/// external field names).
pub fn upper_char(c: char) -> (r: char)
    ensures
        r == to_upper(c),
{
    let u = c as u32;
    if 97 <= u && u <= 122 {
        ((u - 32) as u8) as char
    } else {
        c
    }
}

/// Collects the characters of a string slice.
pub fn str_to_chars(s: &str) -> (r: Vec<char>)
    ensures
        r@ == s@,
{
    let n = s.unicode_len();
    let mut r: Vec<char> = Vec::new();
    let mut i: usize = 0;
    while i < n
        invariant
            n == s@.len(),
            i <= n,
            r@ == s@.subrange(0, i as int),
        decreases n - i,
    {
        r.push(s.get_char(i));
        proof {
            assert(r@ =~= s@.subrange(0, i + 1 as int));
        }
        i = i + 1;
    }
    proof {
        assert(r@ =~= s@);
    }
    r
}

/// Builds a `String` from a character sequence.
///
/// Relies on `String: FromIterator<char>`: collecting characters yields the
/// string with exactly those characters in order.
#[verifier::external_body]
pub fn chars_to_string(v: &Vec<char>) -> (s: String)
    ensures
        s@ == v@,
{
    v.iter().collect()
}

/// Whether a character outside the ASCII range has the Unicode
/// `White_Space` property. Only the trusted whitespace test below gives
/// this name meaning.
pub uninterp spec fn is_unicode_space(c: char) -> bool;

/// Whitespace as the scanner understands it: the Unicode `White_Space`
/// property, which on ASCII is exactly space, tab, line feed, vertical tab,
/// form feed and carriage return.
pub open spec fn is_space(c: char) -> bool {
    if (c as u32) < 128 {
        c == ' ' || c == '\t' || c == '\n' || c == '\u{b}' || c == '\u{c}' || c == '\r'
    } else {
        is_unicode_space(c)
    }
}

/// Relies on `char::is_whitespace`: true exactly for characters with the
/// Unicode `White_Space` property; on ASCII these are space, tab, line
/// feed, vertical tab, form feed and carriage return.
#[verifier::external_body]
pub fn space_char(c: char) -> (r: bool)
    ensures
        r == is_space(c),
        (c as u32) >= 128 ==> r == is_unicode_space(c),
{
    c.is_whitespace()
}

/// First index at or after `i` holding a non-whitespace character
/// (`s.len()` if there is none).
pub open spec fn skip_ws(s: Seq<char>, i: int) -> int
    decreases s.len() - i,
{
    if 0 <= i && i < s.len() && is_space(s[i]) {
        skip_ws(s, i + 1)
    } else {
        i
    }
}

pub proof fn lemma_skip_ws_bounds(s: Seq<char>, i: int)
    requires
        0 <= i <= s.len(),
    ensures
        i <= skip_ws(s, i) <= s.len(),
        forall|j: int| i <= j < skip_ws(s, i) ==> is_space(s[j]),
        skip_ws(s, i) < s.len() ==> !is_space(s[skip_ws(s, i)]),
    decreases s.len() - i,
{
    if i < s.len() && is_space(s[i]) {
        lemma_skip_ws_bounds(s, i + 1);
    }
}

/// Index just after the last non-whitespace character before `j`
/// (0 if all of `s.take(j)` is whitespace).
pub open spec fn rskip_ws(s: Seq<char>, j: int) -> int
    decreases j,
{
    if 0 < j && j <= s.len() && is_space(s[j - 1]) {
        rskip_ws(s, j - 1)
    } else {
        j
    }
}

pub proof fn lemma_rskip_ws_bounds(s: Seq<char>, j: int)
    requires
        0 <= j <= s.len(),
    ensures
        0 <= rskip_ws(s, j) <= j,
        forall|k: int| rskip_ws(s, j) <= k < j ==> is_space(s[k]),
        rskip_ws(s, j) > 0 ==> !is_space(s[rskip_ws(s, j) - 1]),
    decreases j,
{
    if 0 < j && is_space(s[j - 1]) {
        lemma_rskip_ws_bounds(s, j - 1);
    }
}

/// The sequence with leading and trailing whitespace removed.
pub open spec fn trim(s: Seq<char>) -> Seq<char> {
    let a = skip_ws(s, 0);
    let b = rskip_ws(s, s.len() as int);
    if a <= b {
        s.subrange(a, b)
    } else {
        Seq::empty()
    }
}

/// Every character is whitespace (true of the empty sequence).
pub open spec fn all_space(s: Seq<char>) -> bool {
    forall|i: int| 0 <= i < s.len() ==> is_space(#[trigger] s[i])
}

/// The external-to-internal name convention: upper-case every character.
pub open spec fn spec_upper_name(s: Seq<char>) -> Seq<char> {
    s.map_values(|c: char| to_upper(c))
}

/// Maps an external field name to its candidate internal declaration name.
pub fn field_to_scad_name(field: &str) -> (r: String)
    ensures
        r@ == spec_upper_name(field@),
{
    let chars = str_to_chars(field);
    let n = chars.len();
    let mut out: Vec<char> = Vec::new();
    let mut i: usize = 0;
    while i < n
        invariant
            n == chars@.len(),
            chars@ == field@,
            i <= n,
            out@ == spec_upper_name(field@).subrange(0, i as int),
        decreases n - i,
    {
        out.push(upper_char(chars[i]));
        proof {
            assert(out@ =~= spec_upper_name(field@).subrange(0, i + 1 as int));
        }
        i = i + 1;
    }
    proof {
        assert(out@ =~= spec_upper_name(field@));
    }
    chars_to_string(&out)
}

/// Copies the characters of `v` between `from` and `to`.
pub fn sub_chars(v: &Vec<char>, from: usize, to: usize) -> (r: Vec<char>)
    requires
        from <= to <= v@.len(),
    ensures
        r@ == v@.subrange(from as int, to as int),
{
    let mut r: Vec<char> = Vec::new();
    let mut i: usize = from;
    while i < to
        invariant
            from <= i <= to <= v@.len(),
            r@ == v@.subrange(from as int, i as int),
        decreases to - i,
    {
        r.push(v[i]);
        proof {
            assert(r@ =~= v@.subrange(from as int, i + 1 as int));
        }
        i = i + 1;
    }
    r
}

/// Trims whitespace from both ends of the range `[from, to)` of `v`,
/// returning the trimmed copy.
pub fn trim_range(v: &Vec<char>, from: usize, to: usize) -> (r: Vec<char>)
    requires
        from <= to <= v@.len(),
    ensures
        r@ == trim(v@.subrange(from as int, to as int)),
{
    let ghost s = v@.subrange(from as int, to as int);
    let mut a: usize = from;
    while a < to && space_char(v[a])
        invariant
            from <= a <= to <= v@.len(),
            s == v@.subrange(from as int, to as int),
            skip_ws(s, 0) == skip_ws(s, a - from),
        decreases to - a,
    {
        proof {
            assert(s[a - from] == v@[a as int]);
            assert(skip_ws(s, a - from) == skip_ws(s, a - from + 1));
        }
        a = a + 1;
    }
    proof {
        assert(skip_ws(s, a - from) == a - from);
        assert(skip_ws(s, 0) == a - from);
    }
    let mut b: usize = to;
    while b > a && space_char(v[b - 1])
        invariant
            from <= a <= b <= to <= v@.len(),
            s == v@.subrange(from as int, to as int),
            skip_ws(s, 0) == a - from,
            rskip_ws(s, s.len() as int) == rskip_ws(s, b - from),
            forall|k: int| b - from <= k < s.len() ==> is_space(#[trigger] s[k]),
        decreases b,
    {
        proof {
            assert(s[b - from - 1] == v@[b - 1]);
            assert(rskip_ws(s, b - from) == rskip_ws(s, b - from - 1));
        }
        b = b - 1;
    }
    proof {
        if b > a {
            assert(s[b - from - 1] == v@[b - 1]);
            assert(rskip_ws(s, b - from) == b - from);
            assert(trim(s) == s.subrange(a - from, b - from));
            assert(s.subrange(a - from, b - from) =~= v@.subrange(a as int, b as int));
        } else {
            // the whole range is whitespace: both trims come up empty
            lemma_skip_ws_bounds(s, 0);
            if s.len() > 0 {
                assert(forall|k: int| 0 <= k < s.len() ==> is_space(s[k]));
                lemma_rskip_ws_bounds(s, s.len() as int);
                if rskip_ws(s, s.len() as int) > 0 {
                    assert(!is_space(s[rskip_ws(s, s.len() as int) - 1]));
                }
                assert(rskip_ws(s, s.len() as int) == 0);
                assert(skip_ws(s, 0) == a - from);
                assert(a == to);
                assert(trim(s) =~= v@.subrange(a as int, b as int));
            } else {
                assert(trim(s) =~= v@.subrange(a as int, b as int));
            }
        }
    }
    sub_chars(v, a, b)
}

/// True when the range `[from, to)` of `v` is nothing but whitespace.
pub fn blank_range(v: &Vec<char>, from: usize, to: usize) -> (r: bool)
    requires
        from <= to <= v@.len(),
    ensures
        r == all_space(v@.subrange(from as int, to as int)),
{
    let ghost s = v@.subrange(from as int, to as int);
    let mut i: usize = from;
    while i < to
        invariant
            from <= i <= to <= v@.len(),
            s == v@.subrange(from as int, to as int),
            forall|j: int| 0 <= j < i - from ==> is_space(#[trigger] s[j]),
        decreases to - i,
    {
        let sp = space_char(v[i]);
        proof {
            assert(s[i - from] == v@[i as int]);
        }
        if !sp {
            return false;
        }
        i = i + 1;
    }
    true
}

/// First index at or after `from` where `c` occurs (`s.len()` if none).
pub open spec fn find_char(s: Seq<char>, from: int, c: char) -> int
    decreases s.len() - from,
{
    if !(0 <= from && from < s.len()) {
        s.len() as int
    } else if s[from] == c {
        from
    } else {
        find_char(s, from + 1, c)
    }
}

pub proof fn lemma_find_char_bounds(s: Seq<char>, from: int, c: char)
    requires
        0 <= from <= s.len(),
    ensures
        from <= find_char(s, from, c) <= s.len(),
        forall|j: int| from <= j < find_char(s, from, c) ==> s[j] != c,
        find_char(s, from, c) < s.len() ==> s[find_char(s, from, c)] == c,
    decreases s.len() - from,
{
    if from < s.len() && s[from] != c {
        lemma_find_char_bounds(s, from + 1, c);
    }
}

/// Searching from `i` in `s` is searching from `i - j` in `s.skip(j)`.
pub proof fn lemma_find_char_offset(s: Seq<char>, j: int, i: int, c: char)
    requires
        0 <= j <= i <= s.len(),
    ensures
        find_char(s, i, c) == j + find_char(s.skip(j), i - j, c),
    decreases s.len() - i,
{
    if i < s.len() {
        assert(s.skip(j)[i - j] == s[i]);
        if s[i] != c {
            lemma_find_char_offset(s, j, i + 1, c);
        }
    }
}

/// Finds the first occurrence of `c` in `[from, v.len())`.
pub fn find_char_from(v: &Vec<char>, from: usize, c: char) -> (r: usize)
    requires
        from <= v@.len(),
    ensures
        r == find_char(v@, from as int, c),
{
    let n = v.len();
    let mut i: usize = from;
    while i < n
        invariant
            from <= i <= n == v@.len(),
            find_char(v@, from as int, c) == find_char(v@, i as int, c),
        decreases n - i,
    {
        if v[i] == c {
            return i;
        }
        i = i + 1;
    }
    n
}

/// The pattern `pat` occurs in `s` starting at `i`.
pub open spec fn match_at(s: Seq<char>, pat: Seq<char>, i: int) -> bool {
    0 <= i && i + pat.len() <= s.len() && s.subrange(i, i + pat.len()) == pat
}

/// First index at or after `from` where `pat` occurs (`s.len()` if none;
/// meaningful for non-empty patterns).
pub open spec fn find_sub(s: Seq<char>, pat: Seq<char>, from: int) -> int
    decreases s.len() - from,
{
    if !(0 <= from && from < s.len()) {
        s.len() as int
    } else if match_at(s, pat, from) {
        from
    } else {
        find_sub(s, pat, from + 1)
    }
}

pub proof fn lemma_find_sub_bounds(s: Seq<char>, pat: Seq<char>, from: int)
    requires
        0 <= from <= s.len(),
    ensures
        from <= find_sub(s, pat, from) <= s.len(),
        forall|j: int| from <= j < find_sub(s, pat, from) ==> !match_at(s, pat, j),
        find_sub(s, pat, from) < s.len() ==> match_at(s, pat, find_sub(s, pat, from)),
    decreases s.len() - from,
{
    if from < s.len() && !match_at(s, pat, from) {
        lemma_find_sub_bounds(s, pat, from + 1);
    }
}

/// The pattern occurs somewhere in `s`.
pub open spec fn contains_sub(s: Seq<char>, pat: Seq<char>) -> bool {
    exists|i: int| match_at(s, pat, i)
}

pub proof fn lemma_find_sub_contains(s: Seq<char>, pat: Seq<char>)
    requires
        pat.len() > 0,
    ensures
        contains_sub(s, pat) <==> find_sub(s, pat, 0) < s.len(),
{
    lemma_find_sub_bounds(s, pat, 0);
    if contains_sub(s, pat) {
        let i = choose|i: int| match_at(s, pat, i);
        assert(i < s.len());
        if find_sub(s, pat, 0) == s.len() {
            assert(!match_at(s, pat, i));
        }
    }
}

/// Whether `pat` occurs in `v` at `i`.
pub fn match_range(v: &Vec<char>, pat: &Vec<char>, i: usize) -> (r: bool)
    requires
        i + pat@.len() <= v@.len(),
    ensures
        r == match_at(v@, pat@, i as int),
{
    let m = pat.len();
    let n = v.len();
    let mut k: usize = 0;
    while k < m
        invariant
            i + m <= n,
            n == v@.len(),
            m == pat@.len(),
            k <= m,
            forall|j: int| 0 <= j < k ==> v@[i + j] == pat@[j],
        decreases m - k,
    {
        if v[i + k] != pat[k] {
            assert(v@.subrange(i as int, i + m) != pat@) by {
                assert(v@.subrange(i as int, i + m)[k as int] != pat@[k as int]);
            }
            return false;
        }
        k = k + 1;
    }
    proof {
        assert(v@.subrange(i as int, i + m) =~= pat@);
    }
    true
}

/// Finds the first occurrence of `pat` in `v` at or after `from`
/// (`v.len()` if none).
pub fn find_pattern(v: &Vec<char>, pat: &Vec<char>, from: usize) -> (r: usize)
    requires
        from <= v@.len(),
        pat@.len() > 0,
    ensures
        r == find_sub(v@, pat@, from as int),
{
    let n = v.len();
    let m = pat.len();
    let mut i: usize = from;
    while i < n
        invariant
            from <= i <= n == v@.len(),
            m == pat@.len(),
            m > 0,
            find_sub(v@, pat@, from as int) == find_sub(v@, pat@, i as int),
        decreases n - i,
    {
        if m <= n - i {
            if match_range(v, pat, i) {
                return i;
            }
        }
        proof {
            assert(!match_at(v@, pat@, i as int));
        }
        i = i + 1;
    }
    n
}

/// Strict lexicographic order on character sequences, by scalar value.
pub open spec fn chars_lt(a: Seq<char>, b: Seq<char>) -> bool
    decreases a.len(),
{
    if b.len() == 0 {
        false
    } else if a.len() == 0 {
        true
    } else if a[0] == b[0] {
        chars_lt(a.skip(1), b.skip(1))
    } else {
        a[0] < b[0]
    }
}

/// The order is trichotomous: of two sequences, exactly one of
/// `a < b`, `a == b`, `b < a` holds.
pub proof fn lemma_chars_lt_trichotomy(a: Seq<char>, b: Seq<char>)
    ensures
        chars_lt(a, b) || chars_lt(b, a) || a == b,
        chars_lt(a, b) ==> !chars_lt(b, a) && a != b,
        chars_lt(b, a) ==> !chars_lt(a, b) && a != b,
    decreases a.len(),
{
    if a.len() == 0 && b.len() == 0 {
        assert(a =~= b);
    } else if a.len() > 0 && b.len() > 0 && a[0] == b[0] {
        lemma_chars_lt_trichotomy(a.skip(1), b.skip(1));
        assert(chars_lt(a, b) == chars_lt(a.skip(1), b.skip(1)));
        assert(chars_lt(b, a) == chars_lt(b.skip(1), a.skip(1)));
        if a.skip(1) == b.skip(1) {
            assert forall|j: int| 0 <= j < a.len() implies a[j] == b[j] by {
                if j > 0 {
                    assert(a[j] == a.skip(1)[j - 1]);
                    assert(b[j] == b.skip(1)[j - 1]);
                }
            }
            assert(a =~= b);
        }
        if a == b {
            assert(a.skip(1) =~= b.skip(1));
        }
    } else if a.len() > 0 && b.len() > 0 {
        assert(a[0] < b[0] || b[0] < a[0]);
    } else {
        assert(a.len() != b.len());
    }
}

/// The order is transitive.
pub proof fn lemma_chars_lt_trans(a: Seq<char>, b: Seq<char>, c: Seq<char>)
    requires
        chars_lt(a, b),
        chars_lt(b, c),
    ensures
        chars_lt(a, c),
    decreases a.len(),
{
    if a.len() > 0 && b.len() > 0 && c.len() > 0 {
        if a[0] == b[0] && b[0] == c[0] {
            lemma_chars_lt_trans(a.skip(1), b.skip(1), c.skip(1));
        }
    }
}

/// Compares two strings in the lexicographic order.
pub fn str_lt(a: &str, b: &str) -> (r: bool)
    ensures
        r == chars_lt(a@, b@),
{
    let an = a.unicode_len();
    let bn = b.unicode_len();
    let mut i: usize = 0;
    proof {
        assert(a@.skip(0) =~= a@);
        assert(b@.skip(0) =~= b@);
    }
    loop
        invariant
            an == a@.len(),
            bn == b@.len(),
            i <= an,
            i <= bn,
            chars_lt(a@, b@) == chars_lt(a@.skip(i as int), b@.skip(i as int)),
        decreases an - i,
    {
        if i >= bn {
            assert(b@.skip(i as int).len() == 0);
            return false;
        }
        if i >= an {
            assert(a@.skip(i as int).len() == 0);
            return true;
        }
        let ca = a.get_char(i);
        let cb = b.get_char(i);
        if ca != cb {
            assert(a@.skip(i as int)[0] == ca && b@.skip(i as int)[0] == cb);
            return ca < cb;
        }
        proof {
            assert(a@.skip(i as int)[0] == b@.skip(i as int)[0]);
            assert(a@.skip(i as int).skip(1) =~= a@.skip(i + 1 as int));
            assert(b@.skip(i as int).skip(1) =~= b@.skip(i + 1 as int));
        }
        i = i + 1;
    }
}

/// Compares two string slices for equality of their characters.
pub fn str_eq(a: &str, b: &str) -> (r: bool)
    ensures
        r == (a@ == b@),
{
    let an = a.unicode_len();
    let bn = b.unicode_len();
    if an != bn {
        return false;
    }
    let mut i: usize = 0;
    while i < an
        invariant
            an == a@.len(),
            bn == b@.len(),
            an == bn,
            i <= an,
            forall|j: int| 0 <= j < i ==> a@[j] == b@[j],
        decreases an - i,
    {
        if a.get_char(i) != b.get_char(i) {
            return false;
        }
        i = i + 1;
    }
    proof {
        assert(a@ =~= b@);
    }
    true
}

/// Compares two character vectors for equality of their contents.
pub fn chars_eq(a: &Vec<char>, b: &Vec<char>) -> (r: bool)
    ensures
        r == (a@ == b@),
{
    if a.len() != b.len() {
        return false;
    }
    let n = a.len();
    let mut i: usize = 0;
    while i < n
        invariant
            n == a@.len() == b@.len(),
            i <= n,
            forall|j: int| 0 <= j < i ==> a@[j] == b@[j],
        decreases n - i,
    {
        if a[i] != b[i] {
            return false;
        }
        i = i + 1;
    }
    proof {
        assert(a@ =~= b@);
    }
    true
}

/// Lower-cases a character vector (ASCII case folding).
pub fn lower_chars(v: &Vec<char>) -> (r: Vec<char>)
    ensures
        r@ == v@.map_values(|c: char| to_lower(c)),
{
    let n = v.len();
    let mut out: Vec<char> = Vec::new();
    let mut i: usize = 0;
    while i < n
        invariant
            n == v@.len(),
            i <= n,
            out@ == v@.map_values(|c: char| to_lower(c)).subrange(0, i as int),
        decreases n - i,
    {
        let c = v[i];
        let u = c as u32;
        let lc: char = if 65 <= u && u <= 90 {
            ((u + 32) as u8) as char
        } else {
            c
        };
        out.push(lc);
        proof {
            assert(out@ =~= v@.map_values(|c: char| to_lower(c)).subrange(0, i + 1 as int));
        }
        i = i + 1;
    }
    proof {
        assert(out@ =~= v@.map_values(|c: char| to_lower(c)));
    }
    out
}

} // verus!
