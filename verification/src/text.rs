//! Character-level helpers shared by the label, command-line and
//! configuration code: trimming, case mapping and string building.

use vstd::prelude::*;

verus! {

/// What `char::to_uppercase` yields for a character (Unicode case mapping;
/// one character may map to several).
pub uninterp spec fn upper_chars(c: char) -> Seq<char>;

/// The ASCII upper case of a character: 'a'..='z' become 'A'..='Z', every
/// other character stays.
pub open spec fn ascii_upper(c: char) -> char {
    if 'a' <= c <= 'z' {
        ((c as u32) - 32) as char
    } else {
        c
    }
}

/// Whether a character is ASCII.
pub open spec fn is_ascii_char(c: char) -> bool {
    (c as u32) < 128
}

/// What `char::to_uppercase` yields, with the ASCII case written out: an
/// ASCII character maps to its ASCII upper case alone.
pub open spec fn upper_of(c: char) -> Seq<char> {
    if is_ascii_char(c) {
        seq![ascii_upper(c)]
    } else {
        upper_chars(c)
    }
}

/// Whether a character has the Unicode `White_Space` property, which is
/// what `char::is_whitespace` tests: U+0009..=U+000D, U+0020, U+0085,
/// U+00A0, U+1680, U+2000..=U+200A, U+2028, U+2029, U+202F, U+205F and
/// U+3000.
pub open spec fn is_whitespace_char(c: char) -> bool {
    let v = c as u32;
    ||| 0x09 <= v <= 0x0D
    ||| v == 0x20
    ||| v == 0x85
    ||| v == 0xA0
    ||| v == 0x1680
    ||| 0x2000 <= v <= 0x200A
    ||| v == 0x2028
    ||| v == 0x2029
    ||| v == 0x202F
    ||| v == 0x205F
    ||| v == 0x3000
}

/// Calls `char::to_uppercase` and collects what it yields. The result is
/// named `upper_chars(c)`: std's case tables decide it. std documents that
/// it yields one or more characters, that a character with a one-to-one
/// mapping yields that character and that one without a mapping yields
/// itself, so an ASCII character yields its ASCII upper case alone.
#[verifier::external_body]
pub fn char_to_uppercase(c: char) -> (up: Vec<char>)
    ensures
        up@ == upper_chars(c),
        up@.len() >= 1,
        is_ascii_char(c) ==> up@ == seq![ascii_upper(c)],
{
    c.to_uppercase().collect()
}

/// `char::is_whitespace`: the Unicode `White_Space` property.
pub fn char_is_whitespace(c: char) -> (b: bool)
    ensures
        b == is_whitespace_char(c),
{
    let v = c as u32;
    (0x09 <= v && v <= 0x0D) || v == 0x20 || v == 0x85 || v == 0xA0 || v == 0x1680 || (0x2000 <= v && v
        <= 0x200A) || v == 0x2028 || v == 0x2029 || v == 0x202F || v == 0x205F || v == 0x3000
}

/// Calls `String::push`: appends one character.
#[verifier::external_body]
pub fn string_push(s: &mut String, c: char)
    ensures
        final(s)@ == old(s)@.push(c),
{
    s.push(c);
}

/// `s` without its leading whitespace.
pub open spec fn trim_start_chars(s: Seq<char>) -> Seq<char>
    decreases s.len(),
{
    if s.len() > 0 && is_whitespace_char(s[0]) {
        trim_start_chars(s.drop_first())
    } else {
        s
    }
}

/// `s` without its trailing whitespace.
pub open spec fn trim_end_chars(s: Seq<char>) -> Seq<char>
    decreases s.len(),
{
    if s.len() > 0 && is_whitespace_char(s.last()) {
        trim_end_chars(s.drop_last())
    } else {
        s
    }
}

/// What `str::trim` leaves of `s`: no leading or trailing whitespace.
pub open spec fn trim_chars(s: Seq<char>) -> Seq<char> {
    trim_end_chars(trim_start_chars(s))
}

proof fn lemma_trim_start_first(s: Seq<char>)
    ensures
        trim_start_chars(s).len() == 0 || !is_whitespace_char(trim_start_chars(s)[0]),
    decreases s.len(),
{
    if s.len() > 0 && is_whitespace_char(s[0]) {
        lemma_trim_start_first(s.drop_first());
    }
}

pub proof fn lemma_trim_end_prefix(s: Seq<char>)
    ensures
        trim_end_chars(s).len() <= s.len(),
        trim_end_chars(s) == s.subrange(0, trim_end_chars(s).len() as int),
        trim_end_chars(s).len() == 0 || !is_whitespace_char(trim_end_chars(s).last()),
    decreases s.len(),
{
    if s.len() > 0 && is_whitespace_char(s.last()) {
        lemma_trim_end_prefix(s.drop_last());
        let t = trim_end_chars(s.drop_last());
        assert(s.drop_last().subrange(0, t.len() as int) =~= s.subrange(0, t.len() as int));
    } else {
        assert(s.subrange(0, s.len() as int) =~= s);
    }
}

/// A trimmed string neither starts nor ends with whitespace.
pub proof fn lemma_trimmed_ends(s: Seq<char>)
    ensures
        trim_chars(s).len() > 0 ==> !is_whitespace_char(trim_chars(s)[0])
            && !is_whitespace_char(trim_chars(s).last()),
{
    lemma_trim_start_first(s);
    let t = trim_start_chars(s);
    lemma_trim_end_prefix(t);
    if trim_chars(s).len() > 0 {
        assert(trim_chars(s)[0] == t[0]);
    }
}

/// Bounds `[a, b)` of the trimmed part of `s`: everything before `a` and
/// from `b` on is whitespace.
pub fn trim_bounds(s: &Vec<char>) -> (r: (usize, usize))
    ensures
        r.0 <= r.1 <= s.len(),
        trim_chars(s@) == s@.subrange(r.0 as int, r.1 as int),
{
    let ghost o = s@;
    let m = s.len();
    let mut a: usize = 0;
    assert(o.subrange(0, m as int) =~= o);
    while a < m && char_is_whitespace(s[a])
        invariant
            o == s@,
            m == o.len(),
            a <= m,
            trim_start_chars(o) == trim_start_chars(o.subrange(a as int, m as int)),
        decreases m - a,
    {
        assert(o.subrange(a as int, m as int).drop_first() =~= o.subrange(a + 1, m as int));
        a = a + 1;
    }
    let ghost t1 = o.subrange(a as int, m as int);
    assert(trim_start_chars(o) == t1);
    let mut b: usize = m;
    assert(o.subrange(a as int, b as int) =~= t1);
    while b > a && char_is_whitespace(s[b - 1])
        invariant
            o == s@,
            m == o.len(),
            a <= b <= m,
            trim_end_chars(t1) == trim_end_chars(o.subrange(a as int, b as int)),
        decreases b - a,
    {
        assert(o.subrange(a as int, b as int).drop_last() =~= o.subrange(a as int, b - 1));
        b = b - 1;
    }
    (a, b)
}

/// Builds a `String` from `s[a..b]`.
pub fn string_from_range(s: &Vec<char>, a: usize, b: usize) -> (r: String)
    requires
        a <= b <= s.len(),
    ensures
        r@ == s@.subrange(a as int, b as int),
{
    let mut r = String::new();
    let mut k = a;
    while k < b
        invariant
            a <= k <= b <= s.len(),
            r@ == s@.subrange(a as int, k as int),
        decreases b - k,
    {
        string_push(&mut r, s[k]);
        assert(s@.subrange(a as int, k + 1) =~= s@.subrange(a as int, k as int).push(s@[k as int]));
        k = k + 1;
    }
    r
}

/// The characters of a string slice, in order.
pub fn str_chars(s: &str) -> (r: Vec<char>)
    ensures
        r@ == s@,
{
    let n = s.unicode_len();
    let mut r: Vec<char> = Vec::new();
    let mut i: usize = 0;
    while i < n
        invariant
            n == s@.len(),
            i <= n,
            r@ == s@.subrange(0, i as int),
        decreases n - i,
    {
        let c = s.get_char(i);
        r.push(c);
        assert(s@.subrange(0, i + 1) =~= s@.subrange(0, i as int).push(c));
        i = i + 1;
    }
    assert(s@.subrange(0, n as int) =~= s@);
    r
}

/// What `str::trim` returns, as an owned string.
pub fn trim_string(s: &str) -> (r: String)
    ensures
        r@ == trim_chars(s@),
{
    let cs = str_chars(s);
    let (a, b) = trim_bounds(&cs);
    string_from_range(&cs, a, b)
}

} // verus!
