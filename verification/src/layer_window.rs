//! Layer-shell surfaces promoted to field nodes ("layer windows"): which
//! surfaces are promoted and to which node, the label a
//! promoted surface gets, the click-shield heuristic, and the content region
//! of a surface whose input region is smaller than its buffer.

use vstd::prelude::*;
use std::collections::HashMap;
use crate::text::{
    char_to_uppercase, is_whitespace_char, lemma_trimmed_ends, str_chars, string_from_range, trim_bounds,
    trim_chars, upper_of, ascii_upper, is_ascii_char, trim_start_chars, trim_end_chars, lemma_trim_end_prefix,
};

verus! {

broadcast use vstd::std_specs::hash::group_hash_axioms;

/// The part of `s` after its last '.', or all of `s` when it has none (what
/// `rsplit('.').next()` yields).
pub open spec fn after_last_dot(s: Seq<char>) -> Seq<char>
    decreases s.len(),
{
    if s.len() == 0 {
        s
    } else if s.last() == '.' {
        Seq::empty()
    } else {
        after_last_dot(s.drop_last()).push(s.last())
    }
}

/// Whether a character separates words of a namespace.
pub open spec fn is_word_separator(c: char) -> bool {
    c == '-' || c == '_' || c == '.'
}

/// One step of the title-casing scan: a separator becomes a single space and
/// capitalises the next character; the first character of a word is mapped
/// through `char::to_uppercase` (`upper_of`); others are kept.
pub open spec fn label_step(state: (Seq<char>, bool), c: char) -> (Seq<char>, bool) {
    let (out, upper_next) = state;
    if is_word_separator(c) {
        (if out.len() > 0 && out.last() == ' ' { out } else { out.push(' ') }, true)
    } else if upper_next {
        (out + upper_of(c), false)
    } else {
        (out.push(c), false)
    }
}

/// The title-casing scan over all of `s`, from the start state (nothing
/// written, next character capitalised).
pub open spec fn label_scan(s: Seq<char>) -> (Seq<char>, bool)
    decreases s.len(),
{
    if s.len() == 0 {
        (Seq::empty(), true)
    } else {
        label_step(label_scan(s.drop_last()), s.last())
    }
}

/// The label of a layer namespace: the last dot-separated component,
/// title-cased with separators turned into single spaces and trimmed;
/// `None` when the component or the trimmed label is empty.
pub open spec fn namespace_label(namespace: Seq<char>) -> Option<Seq<char>> {
    let tail = after_last_dot(namespace);
    if tail.len() == 0 {
        None
    } else {
        let label = trim_chars(label_scan(tail).0);
        if label.len() == 0 {
            None
        } else {
            Some(label)
        }
    }
}

/// A label is never blank and never starts or ends with whitespace.
pub proof fn lemma_label_is_trimmed(namespace: Seq<char>)
    ensures
        namespace_label(namespace) matches Some(l) ==> l.len() > 0 && !is_whitespace_char(l[0])
            && !is_whitespace_char(l.last()),
{
    lemma_trimmed_ends(label_scan(after_last_dot(namespace)).0);
}

/// The part after the last '.' is a suffix without dots.
proof fn lemma_after_last_dot_suffix(s: Seq<char>)
    ensures
        after_last_dot(s).len() <= s.len(),
        after_last_dot(s) == s.subrange(s.len() - after_last_dot(s).len(), s.len() as int),
        forall|i: int| 0 <= i < after_last_dot(s).len() ==> #[trigger] after_last_dot(s)[i] != '.',
    decreases s.len(),
{
    if s.len() == 0 {
        assert(s.subrange(0, 0) =~= s);
    } else if s.last() == '.' {
        assert(s.subrange(s.len() as int, s.len() as int) =~= Seq::<char>::empty());
    } else {
        lemma_after_last_dot_suffix(s.drop_last());
        let t = after_last_dot(s.drop_last());
        let k = s.len() - 1 - t.len();
        assert(after_last_dot(s) =~= s.subrange(k, s.len() as int));
    }
}

/// A string without dots is its own last component.
proof fn lemma_after_last_dot_no_dot(s: Seq<char>)
    requires
        forall|i: int| 0 <= i < s.len() ==> #[trigger] s[i] != '.',
    ensures
        after_last_dot(s) == s,
    decreases s.len(),
{
    if s.len() > 0 {
        lemma_after_last_dot_no_dot(s.drop_last());
        assert(s.drop_last().push(s.last()) =~= s);
    }
}

/// A plain ASCII character (not whitespace) is neither whitespace nor a
/// separator once upper-cased, and upper-casing it again changes nothing.
proof fn lemma_ascii_upper_char(c: char)
    requires
        is_ascii_char(c),
        !is_whitespace_char(c),
    ensures
        is_ascii_char(ascii_upper(c)),
        !is_whitespace_char(ascii_upper(c)),
        is_word_separator(ascii_upper(c)) == is_word_separator(c),
        ascii_upper(ascii_upper(c)) == ascii_upper(c),
        ascii_upper(c) != ' ',
{
    if 'a' <= c <= 'z' {
        let u = ((c as u32) - 32) as char;
        assert(u as u32 == (c as u32) - 32);
        assert('A' <= u <= 'Z');
    }
}

/// What the title-casing scan writes for plain ASCII input: ASCII
/// characters that are single spaces or non-separators; a space at the end
/// exactly when the next character is capitalised; and every character
/// that starts a word is its own upper case.
proof fn lemma_label_scan_shape(s: Seq<char>)
    requires
        forall|i: int| 0 <= i < s.len() ==> is_ascii_char(#[trigger] s[i]) && !is_whitespace_char(s[i]),
    ensures
        ({
            let (o, u) = label_scan(s);
            &&& forall|i: int|
                0 <= i < o.len() ==> is_ascii_char(#[trigger] o[i]) && (o[i] == ' ' || (!is_whitespace_char(o[i])
                    && !is_word_separator(o[i])))
            &&& u ==> (o.len() == 0 || o.last() == ' ')
            &&& !u ==> (o.len() > 0 && o.last() != ' ')
            &&& forall|i: int|
                0 <= i < o.len() && #[trigger] o[i] != ' ' && (i == 0 || o[i - 1] == ' ') ==> ascii_upper(o[i]) == o[i]
            &&& forall|i: int| 0 < i < o.len() && #[trigger] o[i] == ' ' ==> o[i - 1] != ' '
        }),
    decreases s.len(),
{
    if s.len() > 0 {
        let p = s.drop_last();
        assert forall|i: int| 0 <= i < p.len() implies is_ascii_char(#[trigger] p[i]) && !is_whitespace_char(p[i]) by {
            assert(p[i] == s[i]);
        }
        lemma_label_scan_shape(p);
        let c = s.last();
        let (o0, u0) = label_scan(p);
        let (o, u) = label_scan(s);
        assert(is_ascii_char(c) && !is_whitespace_char(c));
        lemma_ascii_upper_char(c);
        if is_word_separator(c) {
            if !(o0.len() > 0 && o0.last() == ' ') {
                assert(o == o0.push(' '));
                assert forall|i: int|
                    0 <= i < o.len() && #[trigger] o[i] != ' ' && (i == 0 || o[i - 1] == ' ') implies ascii_upper(o[i]) == o[i] by {
                    assert(i < o0.len());
                    assert(o[i] == o0[i]);
                    if i > 0 {
                        assert(o[i - 1] == o0[i - 1]);
                    }
                }
                assert forall|i: int| 0 <= i < o.len() implies is_ascii_char(#[trigger] o[i]) && (o[i] == ' ' || (
                    !is_whitespace_char(o[i]) && !is_word_separator(o[i]))) by {
                    if i < o0.len() {
                        assert(o[i] == o0[i]);
                    }
                }
                assert forall|i: int| 0 < i < o.len() && #[trigger] o[i] == ' ' implies o[i - 1] != ' ' by {
                    assert(o[i - 1] == o0[i - 1]);
                    if i < o0.len() {
                        assert(o[i] == o0[i]);
                    }
                }
            } else {
                assert(o == o0);
            }
        } else if u0 {
            assert(upper_of(c) == seq![ascii_upper(c)]);
            assert(o == o0.push(ascii_upper(c)));
            assert forall|i: int| 0 < i < o.len() && #[trigger] o[i] == ' ' implies o[i - 1] != ' ' by {
                assert(i < o0.len());
                assert(o[i] == o0[i] && o[i - 1] == o0[i - 1]);
            }
            assert forall|i: int|
                0 <= i < o.len() && #[trigger] o[i] != ' ' && (i == 0 || o[i - 1] == ' ') implies ascii_upper(o[i]) == o[i] by {
                if i < o0.len() {
                    assert(o[i] == o0[i]);
                    if i > 0 {
                        assert(o[i - 1] == o0[i - 1]);
                    }
                }
            }
            assert forall|i: int| 0 <= i < o.len() implies is_ascii_char(#[trigger] o[i]) && (o[i] == ' ' || (
                !is_whitespace_char(o[i]) && !is_word_separator(o[i]))) by {
                if i < o0.len() {
                    assert(o[i] == o0[i]);
                }
            }
        } else {
            assert(o == o0.push(c));
            assert(c != ' ');
            assert forall|i: int| 0 < i < o.len() && #[trigger] o[i] == ' ' implies o[i - 1] != ' ' by {
                assert(i < o0.len());
                assert(o[i] == o0[i] && o[i - 1] == o0[i - 1]);
            }
            assert forall|i: int|
                0 <= i < o.len() && #[trigger] o[i] != ' ' && (i == 0 || o[i - 1] == ' ') implies ascii_upper(o[i]) == o[i] by {
                if i < o0.len() {
                    assert(o[i] == o0[i]);
                    if i > 0 {
                        assert(o[i - 1] == o0[i - 1]);
                    }
                } else {
                    assert(o[i - 1] == o0.last());
                }
            }
            assert forall|i: int| 0 <= i < o.len() implies is_ascii_char(#[trigger] o[i]) && (o[i] == ' ' || (
                !is_whitespace_char(o[i]) && !is_word_separator(o[i]))) by {
                if i < o0.len() {
                    assert(o[i] == o0[i]);
                }
            }
        }
    }
}

/// The scan of a non-empty ASCII string without separators capitalises its
/// first character and keeps the rest.
proof fn lemma_label_scan_plain(s: Seq<char>)
    requires
        s.len() > 0,
        forall|i: int| 0 <= i < s.len() ==> is_ascii_char(#[trigger] s[i]) && !is_word_separator(s[i]),
    ensures
        label_scan(s) == (seq![ascii_upper(s[0])] + s.subrange(1, s.len() as int), false),
    decreases s.len(),
{
    if s.len() == 1 {
        assert(s.drop_last().len() == 0);
        assert(label_scan(s.drop_last()) == (Seq::<char>::empty(), true));
        assert(s.last() == s[0]);
        assert(!is_word_separator(s[0]));
        assert(upper_of(s[0]) == seq![ascii_upper(s[0])]);
        assert(Seq::<char>::empty() + seq![ascii_upper(s[0])] =~= seq![ascii_upper(s[0])] + s.subrange(1, 1));
        assert(label_scan(s) == label_step(label_scan(s.drop_last()), s.last()));
    } else {
        let p = s.drop_last();
        assert forall|i: int| 0 <= i < p.len() implies is_ascii_char(#[trigger] p[i]) && !is_word_separator(p[i]) by {
            assert(p[i] == s[i]);
        }
        lemma_label_scan_plain(p);
        assert(p[0] == s[0]);
        assert(!is_word_separator(s.last()));
        assert(label_scan(s) == label_step(label_scan(p), s.last()));
        assert((seq![ascii_upper(s[0])] + p.subrange(1, p.len() as int)).push(s.last()) =~= seq![ascii_upper(s[0])]
            + s.subrange(1, s.len() as int));
    }
}

/// `trim_start_chars` drops a whitespace prefix.
proof fn lemma_trim_start_suffix(s: Seq<char>) -> (a: int)
    ensures
        0 <= a <= s.len(),
        trim_start_chars(s) == s.subrange(a, s.len() as int),
        forall|j: int| 0 <= j < a ==> is_whitespace_char(#[trigger] s[j]),
    decreases s.len(),
{
    if s.len() > 0 && is_whitespace_char(s[0]) {
        let a0 = lemma_trim_start_suffix(s.drop_first());
        assert(s.drop_first().subrange(a0, s.len() - 1) =~= s.subrange(a0 + 1, s.len() as int));
        assert forall|j: int| 0 <= j < a0 + 1 implies is_whitespace_char(#[trigger] s[j]) by {
            if j > 0 {
                assert(s[j] == s.drop_first()[j - 1]);
            }
        }
        a0 + 1
    } else {
        assert(s.subrange(0, s.len() as int) =~= s);
        0
    }
}

/// A label is a fixed point: for a namespace of ASCII characters without
/// whitespace, relabelling its label gives the label back (it has no
/// separators left and starts with an upper-case character).
pub proof fn lemma_label_fixed_point(namespace: Seq<char>)
    requires
        forall|i: int|
            0 <= i < namespace.len() ==> is_ascii_char(#[trigger] namespace[i]) && !is_whitespace_char(namespace[i]),
    ensures
        namespace_label(namespace) matches Some(l) ==> namespace_label(l) == Some(l),
{
    let t = after_last_dot(namespace);
    lemma_after_last_dot_suffix(namespace);
    let k = namespace.len() - t.len();
    assert forall|i: int| 0 <= i < t.len() implies is_ascii_char(#[trigger] t[i]) && !is_whitespace_char(t[i]) by {
        assert(t[i] == namespace[k + i]);
    }
    if t.len() > 0 {
        lemma_label_scan_shape(t);
        let o = label_scan(t).0;
        let l = trim_chars(o);
        if l.len() > 0 {
            let a = lemma_trim_start_suffix(o);
            let ts = trim_start_chars(o);
            lemma_trim_end_prefix(ts);
            let m = trim_end_chars(ts).len();
            assert(l =~= o.subrange(a, a + m)) by {
                assert(ts.subrange(0, m as int) =~= o.subrange(a, a + m));
            }
            lemma_trimmed_ends(o);
            assert(l[0] == o[a]);
            assert(o[a] != ' ');
            if a > 0 {
                assert(is_whitespace_char(o[a - 1]));
                assert(o[a - 1] == ' ');
            }
            assert(ascii_upper(l[0]) == l[0]);
            assert forall|i: int| 0 <= i < l.len() implies is_ascii_char(#[trigger] l[i]) && !is_word_separator(l[i]) by {
                assert(l[i] == o[a + i]);
            }
            assert forall|i: int| 0 <= i < l.len() implies #[trigger] l[i] != '.' by {
                assert(!is_word_separator(l[i]));
            }
            lemma_after_last_dot_no_dot(l);
            lemma_label_scan_plain(l);
            assert(seq![ascii_upper(l[0])] + l.subrange(1, l.len() as int) =~= l);
            assert(trim_start_chars(l) == l);
            assert(trim_end_chars(l) == l);
        }
    }
}

/// The shape of a label of a namespace of ASCII characters without
/// whitespace: no separators ('-', '_', '.') are left, words are separated
/// by single spaces, it neither starts nor ends with a space, and every
/// word starts with a character that is its own upper case.
pub proof fn lemma_label_shape(namespace: Seq<char>)
    requires
        forall|i: int|
            0 <= i < namespace.len() ==> is_ascii_char(#[trigger] namespace[i]) && !is_whitespace_char(namespace[i]),
    ensures
        namespace_label(namespace) matches Some(l) ==> {
            &&& l.len() > 0
            &&& l[0] != ' ' && l.last() != ' '
            &&& forall|i: int| 0 <= i < l.len() ==> !is_word_separator(#[trigger] l[i])
            &&& forall|i: int| 0 < i < l.len() && #[trigger] l[i] == ' ' ==> l[i - 1] != ' '
            &&& forall|i: int|
                0 <= i < l.len() && #[trigger] l[i] != ' ' && (i == 0 || l[i - 1] == ' ') ==> ascii_upper(l[i]) == l[i]
        },
{
    let t = after_last_dot(namespace);
    lemma_after_last_dot_suffix(namespace);
    let k = namespace.len() - t.len();
    assert forall|i: int| 0 <= i < t.len() implies is_ascii_char(#[trigger] t[i]) && !is_whitespace_char(t[i]) by {
        assert(t[i] == namespace[k + i]);
    }
    if t.len() > 0 {
        lemma_label_scan_shape(t);
        let o = label_scan(t).0;
        let l = trim_chars(o);
        if l.len() > 0 {
            let a = lemma_trim_start_suffix(o);
            let ts = trim_start_chars(o);
            lemma_trim_end_prefix(ts);
            let m = trim_end_chars(ts).len();
            assert(l =~= o.subrange(a, a + m)) by {
                assert(ts.subrange(0, m as int) =~= o.subrange(a, a + m));
            }
            lemma_trimmed_ends(o);
            assert(l[0] != ' ' && l.last() != ' ');
            if a > 0 {
                assert(is_whitespace_char(o[a - 1]));
                assert(o[a - 1] == ' ');
            }
            assert forall|i: int| 0 <= i < l.len() implies !is_word_separator(#[trigger] l[i]) by {
                assert(l[i] == o[a + i]);
            }
            assert forall|i: int| 0 < i < l.len() && #[trigger] l[i] == ' ' implies l[i - 1] != ' ' by {
                assert(l[i] == o[a + i] && l[i - 1] == o[a + i - 1]);
            }
            assert forall|i: int|
                0 <= i < l.len() && #[trigger] l[i] != ' ' && (i == 0 || l[i - 1] == ' ') implies ascii_upper(l[i]) == l[i] by {
                assert(l[i] == o[a + i]);
                if i > 0 {
                    assert(l[i - 1] == o[a + i - 1]);
                }
            }
        }
    }
}

/// Index where the part after the last '.' starts.
fn last_component_start(s: &Vec<char>) -> (j: usize)
    ensures
        j <= s.len(),
        after_last_dot(s@) == s@.subrange(j as int, s.len() as int),
{
    let ghost o = s@;
    let n = s.len();
    let mut j = n;
    assert(o.subrange(0, n as int) =~= o);
    assert(o.subrange(n as int, n as int) =~= Seq::<char>::empty());
    while j > 0 && s[j - 1] != '.'
        invariant
            o == s@,
            n == o.len(),
            j <= n,
            after_last_dot(o) == after_last_dot(o.subrange(0, j as int)) + o.subrange(
                j as int,
                n as int,
            ),
        decreases j,
    {
        let ghost pre = o.subrange(0, j as int);
        assert(pre.drop_last() =~= o.subrange(0, j - 1));
        assert(after_last_dot(pre) == after_last_dot(o.subrange(0, j - 1)).push(o[j - 1]));
        assert(o.subrange(j - 1, n as int) =~= seq![o[j - 1]] + o.subrange(j as int, n as int));
        assert(after_last_dot(o.subrange(0, j - 1)).push(o[j - 1]) + o.subrange(j as int, n as int)
            =~= after_last_dot(o.subrange(0, j - 1)) + o.subrange(j - 1, n as int));
        j = j - 1;
    }
    assert(after_last_dot(o.subrange(0, j as int)) =~= Seq::<char>::empty());
    assert(Seq::<char>::empty() + o.subrange(j as int, n as int) =~= o.subrange(j as int, n as int));
    j
}

/// Title-cased label for a layer namespace: "noctalia-osd" becomes
/// "Noctalia Osd"; only the part after the last '.' is used. Returns `None`
/// for an empty namespace component or an empty label.
pub fn compact_namespace_label(namespace: &str) -> (label: Option<String>)
    ensures
        label matches Some(s) ==> namespace_label(namespace@) == Some(s@),
        label is None ==> namespace_label(namespace@) is None,
{
    let chars = str_chars(namespace);
    let start = last_component_start(&chars);
    let n = chars.len();
    let ghost tail = chars@.subrange(start as int, n as int);
    if start == n {
        return None;
    }
    let mut out: Vec<char> = Vec::new();
    let mut upper_next = true;
    let mut i = start;
    assert(tail.subrange(0, 0) =~= Seq::<char>::empty());
    while i < n
        invariant
            start <= i <= n,
            n == chars.len(),
            tail == chars@.subrange(start as int, n as int),
            (out@, upper_next) == label_scan(tail.subrange(0, i - start)),
        decreases n - i,
    {
        let ch = chars[i];
        let ghost prev = (out@, upper_next);
        proof {
            let pre = tail.subrange(0, i - start + 1);
            assert(pre.drop_last() =~= tail.subrange(0, i - start));
            assert(pre.last() == ch);
        }
        if ch == '-' || ch == '_' || ch == '.' {
            let len = out.len();
            if !(len > 0 && out[len - 1] == ' ') {
                out.push(' ');
            }
            upper_next = true;
        } else if upper_next {
            let up = char_to_uppercase(ch);
            assert(up@ == upper_of(ch));
            let mut k: usize = 0;
            let ghost base = out@;
            while k < up.len()
                invariant
                    k <= up.len(),
                    up@ == upper_of(ch),
                    out@ == base + up@.subrange(0, k as int),
                decreases up.len() - k,
            {
                out.push(up[k]);
                assert(up@.subrange(0, k + 1) =~= up@.subrange(0, k as int).push(up@[k as int]));
                k = k + 1;
            }
            assert(up@.subrange(0, up.len() as int) =~= up@);
            upper_next = false;
        } else {
            out.push(ch);
            upper_next = false;
        }
        assert((out@, upper_next) == label_step(prev, ch));
        i = i + 1;
    }
    assert(tail.subrange(0, n - start) =~= tail);
    let (a, b) = trim_bounds(&out);
    if a == b {
        return None;
    }
    Some(string_from_range(&out, a, b))
}


// ---------------------------------------------------------------------------
// Geometry
// ---------------------------------------------------------------------------

/// Layer-shell layers, bottom to top.
#[derive(Clone, Copy, Debug, PartialEq, Eq, Structural)]
pub enum Layer {
    Background,
    Bottom,
    Top,
    Overlay,
}

/// A rectangle in logical coordinates: origin and size.
#[derive(Clone, Copy, Debug, PartialEq, Eq, Structural)]
pub struct Rectangle {
    pub x: i32,
    pub y: i32,
    pub w: i32,
    pub h: i32,
}

/// Whether a rectangle of an input region adds to or cuts from it.
#[derive(Clone, Copy, Debug, PartialEq, Eq, Structural)]
pub enum RectangleKind {
    Add,
    Subtract,
}

/// Heuristic for a "shield": a Top or Overlay layer that covers at least
/// 85% of its output (shells use such invisible full-output layers as
/// click-shields and backdrops to close their popups on an outside click).
pub open spec fn resembles_shield(layer: Layer, w: i32, h: i32, ws_w: i32, ws_h: i32) -> bool {
    let area = (if w > 0 { w as int } else { 0 }) * (if h > 0 { h as int } else { 0 });
    (layer == Layer::Top || layer == Layer::Overlay) && area >= output_area(ws_w, ws_h) * 85 / 100
}

/// Area of an output, each side taken as at least 1.
pub open spec fn output_area(ws_w: i32, ws_h: i32) -> int {
    (if ws_w > 1 { ws_w as int } else { 1 }) * (if ws_h > 1 { ws_h as int } else { 1 })
}

/// Only Top and Overlay layers can be shields; one that covers its whole
/// output is one, and one with no area never is (on an output of at least
/// two pixels).
pub proof fn lemma_shield_laws(layer: Layer, w: i32, h: i32, ws_w: i32, ws_h: i32)
    ensures
        layer == Layer::Background || layer == Layer::Bottom ==> !resembles_shield(layer, w, h, ws_w, ws_h),
        (layer == Layer::Top || layer == Layer::Overlay) && 1 <= ws_w <= w && 1 <= ws_h <= h ==> resembles_shield(
            layer,
            w,
            h,
            ws_w,
            ws_h,
        ),
        (w <= 0 || h <= 0) && output_area(ws_w, ws_h) >= 2 ==> !resembles_shield(layer, w, h, ws_w, ws_h),
{
    let out = output_area(ws_w, ws_h);
    assert(out >= 1) by (nonlinear_arith)
        requires
            out == (if ws_w > 1 { ws_w as int } else { 1 }) * (if ws_h > 1 { ws_h as int } else { 1 }),
    ;
    if 1 <= ws_w <= w && 1 <= ws_h <= h {
        let ww = w as int;
        let hh = h as int;
        assert(ww * hh >= (ws_w as int) * (ws_h as int)) by (nonlinear_arith)
            requires
                1 <= ws_w <= ww,
                1 <= ws_h <= hh,
        ;
        assert(out == (ws_w as int) * (ws_h as int));
        assert(out * 85 / 100 <= out);
    }
}

pub fn layer_resembles_shield(layer: Layer, size: (i32, i32), ws_w: i32, ws_h: i32) -> (b: bool)
    requires
        output_area(ws_w, ws_h) * 85 <= i64::MAX,
    ensures
        b == resembles_shield(layer, size.0, size.1, ws_w, ws_h),
{
    if !(layer == Layer::Top || layer == Layer::Overlay) {
        return false;
    }
    let w: i64 = if size.0 > 0 { size.0 as i64 } else { 0 };
    let h: i64 = if size.1 > 0 { size.1 as i64 } else { 0 };
    let ow: i64 = if ws_w > 1 { ws_w as i64 } else { 1 };
    let oh: i64 = if ws_h > 1 { ws_h as i64 } else { 1 };
    assert(0 <= w * h <= 0x7fff_ffff * 0x7fff_ffff) by (nonlinear_arith)
        requires
            0 <= w <= 0x7fff_ffff,
            0 <= h <= 0x7fff_ffff;
    assert(0 <= ow * oh <= 0x7fff_ffff * 0x7fff_ffff) by (nonlinear_arith)
        requires
            1 <= ow <= 0x7fff_ffff,
            1 <= oh <= 0x7fff_ffff;
    let area = w * h;
    let output = ow * oh;
    area >= output * 85 / 100
}

/// Whether a layer placement should be click-through because a layer of
/// the same client is promoted to a node: only Top/Overlay layers that
/// cover (almost) the whole output, of a client (`client`, absent for a
/// surface whose client is gone) that owns a promoted layer
/// (`promoted_clients` lists the clients of all promoted layer surfaces).
pub fn layer_shielded_by_promotion(
    client: Option<u64>,
    promoted_clients: &[Option<u64>],
    layer: Layer,
    size: (i32, i32),
    ws_w: i32,
    ws_h: i32,
) -> (b: bool)
    requires
        output_area(ws_w, ws_h) * 85 <= i64::MAX,
    ensures
        b == (resembles_shield(layer, size.0, size.1, ws_w, ws_h) && client is Some && exists|i: int|
            0 <= i < promoted_clients.len() && #[trigger] promoted_clients@[i] == client),
{
    if !layer_resembles_shield(layer, size, ws_w, ws_h) {
        return false;
    }
    let Some(c) = client else {
        return false;
    };
    let mut i: usize = 0;
    while i < promoted_clients.len()
        invariant
            i <= promoted_clients.len(),
            client == Some(c),
            resembles_shield(layer, size.0, size.1, ws_w, ws_h),
            forall|k: int| 0 <= k < i ==> #[trigger] promoted_clients@[k] != client,
        decreases promoted_clients.len() - i,
    {
        if let Some(p) = promoted_clients[i] {
            if p == c {
                assert(promoted_clients@[i as int] == client);
                return true;
            }
        }
        i = i + 1;
    }
    false
}

/// A layer-shell placement on a monitor: the surface (by id), its layer and
/// its size.
#[derive(Clone, Copy, Debug, PartialEq, Eq, Structural)]
pub struct LayerPlacement {
    pub surface: u64,
    pub layer: Layer,
    pub width: i32,
    pub height: i32,
}

/// Whether the layer surface whose surface tree has the root `root` looks
/// like a shield: one of the placements of its monitor (`placements`, on an
/// output of `ws_w` x `ws_h`) is that root and resembles a shield.
pub fn layer_resembles_fullscreen_shield(placements: &[LayerPlacement], root: u64, ws_w: i32, ws_h: i32) -> (b: bool)
    requires
        output_area(ws_w, ws_h) * 85 <= i64::MAX,
    ensures
        b == exists|i: int|
            0 <= i < placements.len() && (#[trigger] placements@[i]).surface == root && resembles_shield(
                placements@[i].layer,
                placements@[i].width,
                placements@[i].height,
                ws_w,
                ws_h,
            ),
{
    let mut i: usize = 0;
    while i < placements.len()
        invariant
            i <= placements.len(),
            output_area(ws_w, ws_h) * 85 <= i64::MAX,
            forall|k: int|
                0 <= k < i ==> !((#[trigger] placements@[k]).surface == root && resembles_shield(
                    placements@[k].layer,
                    placements@[k].width,
                    placements@[k].height,
                    ws_w,
                    ws_h,
                )),
        decreases placements.len() - i,
    {
        let p = placements[i];
        if p.surface == root && layer_resembles_shield(p.layer, (p.width, p.height), ws_w, ws_h) {
            assert(placements@[i as int] == p);
            return true;
        }
        i = i + 1;
    }
    false
}

pub open spec fn sat_i32(v: int) -> int {
    if v < i32::MIN {
        i32::MIN as int
    } else if v > i32::MAX {
        i32::MAX as int
    } else {
        v
    }
}

pub open spec fn min_int(a: int, b: int) -> int {
    if a <= b { a } else { b }
}

pub open spec fn max_int(a: int, b: int) -> int {
    if a >= b { a } else { b }
}

/// Whether two rectangles overlap (touching edges do not count), with the
/// far edges computed with saturating addition.
pub open spec fn rects_overlap(a: Rectangle, b: Rectangle) -> bool {
    &&& a.x < sat_i32(b.x + b.w)
    &&& b.x < sat_i32(a.x + a.w)
    &&& a.y < sat_i32(b.y + b.h)
    &&& b.y < sat_i32(a.y + a.h)
}

/// The overlapping area of two rectangles (as `Rectangle::intersection`
/// computes it), `None` when they do not overlap.
pub open spec fn rect_intersection(a: Rectangle, b: Rectangle) -> Option<Rectangle> {
    if !rects_overlap(a, b) {
        None
    } else {
        let x = max_int(a.x as int, b.x as int);
        let y = max_int(a.y as int, b.y as int);
        let right = min_int(sat_i32(a.x + a.w), sat_i32(b.x + b.w));
        let bottom = min_int(sat_i32(a.y + a.h), sat_i32(b.y + b.h));
        Some(
            Rectangle {
                x: x as i32,
                y: y as i32,
                w: sat_i32(right - x) as i32,
                h: sat_i32(bottom - y) as i32,
            },
        )
    }
}

/// The intersection does not depend on the order of the two rectangles,
/// exists exactly when they overlap (touching edges do not count), and
/// lies inside both.
pub proof fn lemma_intersection_laws(a: Rectangle, b: Rectangle)
    requires
        a.w >= 0 && a.h >= 0,
        b.w >= 0 && b.h >= 0,
        a.x + a.w <= i32::MAX && a.y + a.h <= i32::MAX,
        b.x + b.w <= i32::MAX && b.y + b.h <= i32::MAX,
    ensures
        rect_intersection(a, b) == rect_intersection(b, a),
        rect_intersection(a, b) is Some <==> (a.x < b.x + b.w && b.x < a.x + a.w && a.y < b.y + b.h && b.y < a.y + a.h),
        rect_intersection(a, b) matches Some(c) ==> {
            &&& a.x <= c.x && b.x <= c.x && a.y <= c.y && b.y <= c.y
            &&& c.w >= 0 && c.h >= 0
            &&& c.x + c.w <= a.x + a.w && c.x + c.w <= b.x + b.w
            &&& c.y + c.h <= a.y + a.h && c.y + c.h <= b.y + b.h
        },
{
    if rects_overlap(a, b) {
        let x = max_int(a.x as int, b.x as int);
        let y = max_int(a.y as int, b.y as int);
        let right = min_int(sat_i32(a.x + a.w), sat_i32(b.x + b.w));
        let bottom = min_int(sat_i32(a.y + a.h), sat_i32(b.y + b.h));
        assert(right == min_int(a.x + a.w, b.x + b.w));
        assert(bottom == min_int(a.y + a.h, b.y + b.h));
        assert(0 <= right - x);
        assert(0 <= bottom - y);
        assert(0 <= sat_i32(right - x) <= right - x);
        assert(0 <= sat_i32(bottom - y) <= bottom - y);
        let c = rect_intersection(a, b).unwrap();
        assert(c.x == x && c.y == y);
        assert(c.w == sat_i32(right - x) && c.h == sat_i32(bottom - y));
    }
}

fn sat_add(a: i32, b: i32) -> (r: i32)
    ensures
        r == sat_i32(a + b),
{
    let v = a as i64 + b as i64;
    if v < i32::MIN as i64 {
        i32::MIN
    } else if v > i32::MAX as i64 {
        i32::MAX
    } else {
        v as i32
    }
}

fn sat_sub(a: i32, b: i32) -> (r: i32)
    ensures
        r == sat_i32(a - b),
{
    let v = a as i64 - b as i64;
    if v < i32::MIN as i64 {
        i32::MIN
    } else if v > i32::MAX as i64 {
        i32::MAX
    } else {
        v as i32
    }
}

/// The overlapping area of two rectangles with non-negative sizes.
pub fn intersection(a: Rectangle, b: Rectangle) -> (r: Option<Rectangle>)
    requires
        a.w >= 0 && a.h >= 0,
        b.w >= 0 && b.h >= 0,
    ensures
        r == rect_intersection(a, b),
        r matches Some(i) ==> i.w >= 0 && i.h >= 0,
{
    let a_right = sat_add(a.x, a.w);
    let a_bottom = sat_add(a.y, a.h);
    let b_right = sat_add(b.x, b.w);
    let b_bottom = sat_add(b.y, b.h);
    if !(a.x < b_right && b.x < a_right && a.y < b_bottom && b.y < a_bottom) {
        return None;
    }
    let x = if a.x >= b.x { a.x } else { b.x };
    let y = if a.y >= b.y { a.y } else { b.y };
    let right = if a_right <= b_right { a_right } else { b_right };
    let bottom = if a_bottom <= b_bottom { a_bottom } else { b_bottom };
    Some(Rectangle { x, y, w: sat_sub(right, x), h: sat_sub(bottom, y) })
}

/// Bounds `(min_x, min_y, max_x, max_y)` of the `Add` rectangles among the
/// first `n` of `rects`, starting from the empty bounds
/// `(i32::MAX, i32::MAX, i32::MIN, i32::MIN)`.
pub open spec fn add_extent(rects: Seq<(RectangleKind, Rectangle)>, n: int) -> (int, int, int, int)
    decreases n,
{
    if n <= 0 || n > rects.len() {
        (i32::MAX as int, i32::MAX as int, i32::MIN as int, i32::MIN as int)
    } else {
        let e = add_extent(rects, n - 1);
        let (kind, r) = rects[n - 1];
        if kind == RectangleKind::Add {
            (
                min_int(e.0, r.x as int),
                min_int(e.1, r.y as int),
                max_int(e.2, r.x + r.w),
                max_int(e.3, r.y + r.h),
            )
        } else {
            e
        }
    }
}

/// The computation of the content region stays inside `i32`: each added
/// rectangle's far edges, the extent of the added rectangles, and the
/// difference between the surface's size and that extent.
pub open spec fn content_region_fits(rects: Seq<(RectangleKind, Rectangle)>, bbox: Rectangle) -> bool {
    let e = add_extent(rects, rects.len() as int);
    &&& forall|i: int|
        0 <= i < rects.len() && (#[trigger] rects[i]).0 == RectangleKind::Add ==> i32::MIN
            <= rects[i].1.x + rects[i].1.w <= i32::MAX && i32::MIN <= rects[i].1.y + rects[i].1.h
            <= i32::MAX
    &&& (e.0 <= e.2 && e.1 <= e.3) ==> {
        &&& e.2 - e.0 <= i32::MAX
        &&& e.3 - e.1 <= i32::MAX
        &&& i32::MIN <= bbox.w - (e.2 - e.0)
        &&& i32::MIN <= bbox.h - (e.3 - e.1)
    }
}

/// Content region of a layer: the bounding box of its input region's added
/// rectangles, clipped to the surface's bounding box. `None` without an
/// input region, when nothing is added, or when the region covers the
/// buffer to within 2 px on both axes.
pub open spec fn content_region(
    region: Option<Seq<(RectangleKind, Rectangle)>>,
    bbox: Rectangle,
) -> Option<Rectangle> {
    match region {
        None => None,
        Some(rects) => {
            let e = add_extent(rects, rects.len() as int);
            if e.0 > e.2 || e.1 > e.3 {
                None
            } else if !(bbox.w - (e.2 - e.0) >= 2 || bbox.h - (e.3 - e.1) >= 2) {
                None
            } else {
                rect_intersection(
                    Rectangle {
                        x: e.0 as i32,
                        y: e.1 as i32,
                        w: (e.2 - e.0) as i32,
                        h: (e.3 - e.1) as i32,
                    },
                    bbox,
                )
            }
        },
    }
}

/// The content region lies inside the surface's bounding box.
pub proof fn lemma_content_region_inside(
    region: Option<Seq<(RectangleKind, Rectangle)>>,
    bbox: Rectangle,
)
    requires
        bbox.w >= 0 && bbox.h >= 0,
        region matches Some(rects) ==> content_region_fits(rects, bbox),
    ensures
        content_region(region, bbox) matches Some(c) ==> {
            &&& bbox.x <= c.x
            &&& bbox.y <= c.y
            &&& c.w >= 0 && c.h >= 0
            &&& c.x + c.w <= sat_i32(bbox.x + bbox.w)
            &&& c.y + c.h <= sat_i32(bbox.y + bbox.h)
        },
{
    if let Some(rects) = region {
        lemma_add_extent_bounds(rects, rects.len() as int);
    }
}

// ---------------------------------------------------------------------------
// Promotion
// ---------------------------------------------------------------------------


/// Where a promoted layer starts: its layer-shell placement, or, before it
/// has one, a box at the output's origin of the output's size limited to
/// 480x360 and at least 64x64.
pub open spec fn promoted_placement_spec(placement: Option<Rectangle>, output_w: i32, output_h: i32) -> Rectangle {
    match placement {
        Some(p) => p,
        None => Rectangle {
            x: 0,
            y: 0,
            w: max_int(min_int(output_w as int, 480), 64) as i32,
            h: max_int(min_int(output_h as int, 360), 64) as i32,
        },
    }
}

/// A placed layer keeps its placement. An unplaced one gets a box at the
/// output's origin as wide as the output but at most 480 px and as tall
/// as the output but at most 360 px, and at least 64 px each way.
pub proof fn lemma_promoted_placement(placement: Option<Rectangle>, output_w: i32, output_h: i32)
    ensures
        placement matches Some(p) ==> promoted_placement_spec(placement, output_w, output_h) == p,
        placement is None ==> {
            let r = promoted_placement_spec(placement, output_w, output_h);
            &&& r.x == 0 && r.y == 0
            &&& 64 <= output_w <= 480 ==> r.w == output_w
            &&& output_w > 480 ==> r.w == 480
            &&& output_w < 64 ==> r.w == 64
            &&& 64 <= output_h <= 360 ==> r.h == output_h
            &&& output_h > 360 ==> r.h == 360
            &&& output_h < 64 ==> r.h == 64
        },
{
}

/// A promoted node is at least 64 px each way, and otherwise as large as
/// the layer's content region, or its placement when it has none.
pub proof fn lemma_promoted_intrinsic(placement: Rectangle, content: Option<Rectangle>)
    ensures
        ({
            let (w, h) = promoted_intrinsic_spec(placement, content);
            let (cw, ch) = match content {
                Some(c) => (c.w, c.h),
                None => (placement.w, placement.h),
            };
            &&& w >= 64 && h >= 64
            &&& cw >= 64 ==> w == cw
            &&& ch >= 64 ==> h == ch
            &&& cw < 64 ==> w == 64
            &&& ch < 64 ==> h == 64
        }),
{
}

pub fn promoted_placement(placement: Option<Rectangle>, output_w: i32, output_h: i32) -> (r: Rectangle)
    ensures
        r == promoted_placement_spec(placement, output_w, output_h),
{
    match placement {
        Some(p) => p,
        None => {
            let w = if output_w < 480 { output_w } else { 480 };
            let h = if output_h < 360 { output_h } else { 360 };
            Rectangle { x: 0, y: 0, w: if w > 64 { w } else { 64 }, h: if h > 64 { h } else { 64 } }
        },
    }
}

/// Nominal size of a promoted layer's node: the content region's size when
/// the layer has one, else the placement's size; at least 64 each way.
pub open spec fn promoted_intrinsic_spec(placement: Rectangle, content: Option<Rectangle>) -> (i32, i32) {
    let (w, h) = match content {
        Some(c) => (c.w, c.h),
        None => (placement.w, placement.h),
    };
    (max_int(w as int, 64) as i32, max_int(h as int, 64) as i32)
}

pub fn promoted_intrinsic_size(placement: Rectangle, content: Option<Rectangle>) -> (r: (i32, i32))
    ensures
        r == promoted_intrinsic_spec(placement, content),
{
    let (w, h) = match content {
        Some(c) => (c.w, c.h),
        None => (placement.w, placement.h),
    };
    (if w > 64 { w } else { 64 }, if h > 64 { h } else { 64 })
}

/// Screen position of the middle of a promoted layer's content: the
/// placement's origin plus the content's origin plus half its size
/// (rounded down).
pub fn promoted_content_center(placement: Rectangle, content: Rectangle) -> (c: (i32, i32))
    requires
        content.w >= 0,
        content.h >= 0,
        i32::MIN <= placement.x + content.x <= i32::MAX,
        i32::MIN <= placement.y + content.y <= i32::MAX,
        i32::MIN <= placement.x + content.x + content.w / 2 <= i32::MAX,
        i32::MIN <= placement.y + content.y + content.h / 2 <= i32::MAX,
    ensures
        c.0 == placement.x + content.x + content.w / 2,
        c.1 == placement.y + content.y + content.h / 2,
{
    (placement.x + content.x + content.w / 2, placement.y + content.y + content.h / 2)
}

/// Label of a promoted layer's node: the compact label of its namespace,
/// or "Layer Window" when it has no namespace or the label is empty.
pub fn promoted_node_label(namespace: Option<&str>) -> (label: String)
    ensures
        label@ == match namespace {
            Some(n) => match namespace_label(n@) {
                Some(l) => l,
                None => "Layer Window"@,
            },
            None => "Layer Window"@,
        },
{
    let compact = match namespace {
        Some(n) => compact_namespace_label(n),
        None => None,
    };
    match compact {
        Some(l) => l,
        None => String::from_str("Layer Window"),
    }
}

/// Node identity of a promoted layer (label and app id, both from the
/// namespace); `None` for a surface with no recorded namespace.
pub fn layer_surface_identity(namespace: Option<&String>) -> (id: Option<(Option<String>, Option<String>)>)
    ensures
        namespace is None ==> id is None,
        namespace matches Some(n) ==> (id matches Some((label, app_id)) && (app_id matches Some(a) && a@ == n@)
            && match label {
            Some(l) => namespace_label(n@) == Some(l@),
            None => namespace_label(n@) is None,
        }),
{
    let n = namespace?;
    let label = compact_namespace_label(n.as_str());
    Some((label, Some(n.clone())))
}

/// The node of each layer surface promoted to a node, by surface id.
pub struct PromotedLayers {
    nodes: HashMap<u64, u64>,
}

impl View for PromotedLayers {
    type V = Map<u64, u64>;

    closed spec fn view(&self) -> Map<u64, u64> {
        self.nodes@
    }
}

/// Registry after promoting `surface` with `fresh` as the node a new
/// promotion would get, and the node the surface ends up with: promoting an
/// already promoted surface changes nothing and gives its node back.
pub open spec fn promote_spec(m: Map<u64, u64>, surface: u64, fresh: u64) -> (Map<u64, u64>, u64) {
    if m.contains_key(surface) {
        (m, m[surface])
    } else {
        (m.insert(surface, fresh), fresh)
    }
}

/// Registry after demoting `surface`, and the node it had, if any.
pub open spec fn demote_spec(m: Map<u64, u64>, surface: u64) -> (Map<u64, u64>, Option<u64>) {
    if m.contains_key(surface) {
        (m.remove(surface), Some(m[surface]))
    } else {
        (m, None)
    }
}

impl PromotedLayers {
    pub fn new() -> (r: Self)
        ensures
            r@ == Map::<u64, u64>::empty(),
    {
        PromotedLayers { nodes: HashMap::new() }
    }

    /// The node of `surface`, if it is promoted.
    pub fn node_of(&self, surface: u64) -> (r: Option<u64>)
        ensures
            r == (if self@.contains_key(surface) {
                Some(self@[surface])
            } else {
                None
            }),
    {
        match self.nodes.get(&surface) {
            Some(n) => Some(*n),
            None => None,
        }
    }

    /// Records the promotion of `surface` to the node `fresh`, unless it is
    /// promoted already; returns the surface's node either way.
    pub fn promote(&mut self, surface: u64, fresh: u64) -> (node: u64)
        ensures
            (final(self)@, node) == promote_spec(old(self)@, surface, fresh),
    {
        match self.nodes.get(&surface) {
            Some(n) => *n,
            None => {
                self.nodes.insert(surface, fresh);
                fresh
            },
        }
    }

    /// Forgets the promotion of `surface`; returns the node it had, or
    /// `None` when it was not promoted.
    pub fn demote(&mut self, surface: u64) -> (node: Option<u64>)
        ensures
            (final(self)@, node) == demote_spec(old(self)@, surface),
    {
        let r = self.nodes.remove(&surface);
        proof {
            if !old(self)@.contains_key(surface) {
                assert(old(self)@.remove(surface) =~= old(self)@);
            }
        }
        r
    }

    /// Whether a surface, or the root of its surface tree, is a promoted
    /// layer.
    pub fn is_promoted_layer_surface(&self, surface: u64, root: u64) -> (b: bool)
        ensures
            b == (self@.contains_key(surface) || self@.contains_key(root)),
    {
        self.nodes.contains_key(&surface) || self.nodes.contains_key(&root)
    }
}

/// Promotion is idempotent: promoting a surface again gives back the node
/// it got the first time and leaves the registry as it was.
pub proof fn lemma_promote_idempotent(m: Map<u64, u64>, surface: u64, fresh: u64, again: u64)
    ensures
        promote_spec(promote_spec(m, surface, fresh).0, surface, again) == promote_spec(m, surface, fresh),
{
}

/// Demoting a promoted surface gives back its node and leaves it
/// unpromoted; demoting it again finds nothing.
pub proof fn lemma_demote_after_promote(m: Map<u64, u64>, surface: u64, fresh: u64)
    ensures
        demote_spec(promote_spec(m, surface, fresh).0, surface).1 == Some(promote_spec(m, surface, fresh).1),
        !demote_spec(promote_spec(m, surface, fresh).0, surface).0.contains_key(surface),
        demote_spec(demote_spec(promote_spec(m, surface, fresh).0, surface).0, surface).1 is None,
{
}

proof fn lemma_add_extent_bounds(rects: Seq<(RectangleKind, Rectangle)>, n: int)
    requires
        0 <= n <= rects.len(),
        forall|i: int|
            0 <= i < rects.len() && (#[trigger] rects[i]).0 == RectangleKind::Add ==> i32::MIN
                <= rects[i].1.x + rects[i].1.w <= i32::MAX && i32::MIN <= rects[i].1.y
                + rects[i].1.h <= i32::MAX,
    ensures
        i32::MIN <= add_extent(rects, n).0 <= i32::MAX,
        i32::MIN <= add_extent(rects, n).1 <= i32::MAX,
        i32::MIN <= add_extent(rects, n).2 <= i32::MAX,
        i32::MIN <= add_extent(rects, n).3 <= i32::MAX,
    decreases n,
{
    if n > 0 {
        lemma_add_extent_bounds(rects, n - 1);
    }
}

/// Whether `rects[i]` adds to the region.
pub open spec fn is_added(rects: Seq<(RectangleKind, Rectangle)>, i: int) -> bool {
    0 <= i < rects.len() && rects[i].0 == RectangleKind::Add
}

/// The extent of the added rectangles among the first `n` bounds each of
/// them, and each of its four edges is an edge of one of them; with no
/// added rectangle it is empty.
proof fn lemma_add_extent_edges(rects: Seq<(RectangleKind, Rectangle)>, n: int)
    requires
        0 <= n <= rects.len(),
        forall|i: int|
            0 <= i < rects.len() && (#[trigger] rects[i]).0 == RectangleKind::Add ==> i32::MIN
                <= rects[i].1.x + rects[i].1.w <= i32::MAX && i32::MIN <= rects[i].1.y
                + rects[i].1.h <= i32::MAX,
    ensures
        ({
            let e = add_extent(rects, n);
            &&& forall|i: int|
                0 <= i < n && #[trigger] is_added(rects, i) ==> e.0 <= rects[i].1.x && e.1 <= rects[i].1.y
                    && rects[i].1.x + rects[i].1.w <= e.2 && rects[i].1.y + rects[i].1.h <= e.3
            &&& (forall|i: int| 0 <= i < n ==> !#[trigger] is_added(rects, i)) ==> e == (
                i32::MAX as int,
                i32::MAX as int,
                i32::MIN as int,
                i32::MIN as int,
            )
            &&& (exists|i: int| 0 <= i < n && #[trigger] is_added(rects, i)) ==> {
                &&& exists|i: int| 0 <= i < n && #[trigger] is_added(rects, i) && e.0 == rects[i].1.x
                &&& exists|i: int| 0 <= i < n && #[trigger] is_added(rects, i) && e.1 == rects[i].1.y
                &&& exists|i: int| 0 <= i < n && #[trigger] is_added(rects, i) && e.2 == rects[i].1.x + rects[i].1.w
                &&& exists|i: int| 0 <= i < n && #[trigger] is_added(rects, i) && e.3 == rects[i].1.y + rects[i].1.h
            }
        }),
    decreases n,
{
    if n > 0 {
        lemma_add_extent_edges(rects, n - 1);
        let e0 = add_extent(rects, n - 1);
        let e = add_extent(rects, n);
        let m = n - 1;
        if is_added(rects, m) {
            let r = rects[m].1;
            let had = exists|i: int| 0 <= i < m && #[trigger] is_added(rects, i);
            if had {
                if r.x <= e0.0 {
                    assert(is_added(rects, m) && e.0 == rects[m].1.x);
                } else {
                    let i = choose|i: int| 0 <= i < m && #[trigger] is_added(rects, i) && e0.0 == rects[i].1.x;
                    assert(is_added(rects, i) && e.0 == rects[i].1.x);
                }
                if r.y <= e0.1 {
                    assert(is_added(rects, m) && e.1 == rects[m].1.y);
                } else {
                    let i = choose|i: int| 0 <= i < m && #[trigger] is_added(rects, i) && e0.1 == rects[i].1.y;
                    assert(is_added(rects, i) && e.1 == rects[i].1.y);
                }
                if r.x + r.w >= e0.2 {
                    assert(is_added(rects, m) && e.2 == rects[m].1.x + rects[m].1.w);
                } else {
                    let i = choose|i: int| 0 <= i < m && #[trigger] is_added(rects, i) && e0.2 == rects[i].1.x + rects[i].1.w;
                    assert(is_added(rects, i) && e.2 == rects[i].1.x + rects[i].1.w);
                }
                if r.y + r.h >= e0.3 {
                    assert(is_added(rects, m) && e.3 == rects[m].1.y + rects[m].1.h);
                } else {
                    let i = choose|i: int| 0 <= i < m && #[trigger] is_added(rects, i) && e0.3 == rects[i].1.y + rects[i].1.h;
                    assert(is_added(rects, i) && e.3 == rects[i].1.y + rects[i].1.h);
                }
            } else {
                assert forall|i: int| 0 <= i < m implies !#[trigger] is_added(rects, i) by {}
                assert(rects[m].0 == RectangleKind::Add);
                assert(e == (r.x as int, r.y as int, r.x + r.w, r.y + r.h));
                assert(is_added(rects, m) && e.0 == rects[m].1.x);
                assert(is_added(rects, m) && e.1 == rects[m].1.y);
                assert(is_added(rects, m) && e.2 == rects[m].1.x + rects[m].1.w);
                assert(is_added(rects, m) && e.3 == rects[m].1.y + rects[m].1.h);
            }
        } else {
            assert(e == e0);
            assert forall|i: int| 0 <= i < n && #[trigger] is_added(rects, i) implies 0 <= i < m by {}
        }
    }
}

/// The content region is the bounding box of the added rectangles clipped
/// to the surface: when that box (`x0..x1` by `y0..y1`: every added
/// rectangle lies inside it and each of its edges is an edge of an added
/// rectangle) overlaps the surface and the surface is at least 2 px wider
/// or at least 2 px taller than it, the content region is the box clipped
/// to the surface. When the surface is less than 2 px larger on both axes
/// there is no content region.
pub proof fn lemma_content_region_is_clipped_extent(
    rects: Seq<(RectangleKind, Rectangle)>,
    bbox: Rectangle,
    x0: int,
    y0: int,
    x1: int,
    y1: int,
)
    requires
        bbox.w >= 0 && bbox.h >= 0,
        bbox.x + bbox.w <= i32::MAX && bbox.y + bbox.h <= i32::MAX,
        content_region_fits(rects, bbox),
        forall|i: int|
            #[trigger] is_added(rects, i) ==> x0 <= rects[i].1.x && y0 <= rects[i].1.y && rects[i].1.x
                + rects[i].1.w <= x1 && rects[i].1.y + rects[i].1.h <= y1,
        exists|i: int| #[trigger] is_added(rects, i) && rects[i].1.x == x0,
        exists|i: int| #[trigger] is_added(rects, i) && rects[i].1.y == y0,
        exists|i: int| #[trigger] is_added(rects, i) && rects[i].1.x + rects[i].1.w == x1,
        exists|i: int| #[trigger] is_added(rects, i) && rects[i].1.y + rects[i].1.h == y1,
    ensures
        x0 <= x1 && y0 <= y1 && (bbox.w - (x1 - x0) >= 2 || bbox.h - (y1 - y0) >= 2) && x0 < bbox.x + bbox.w
            && bbox.x < x1 && y0 < bbox.y + bbox.h && bbox.y < y1 ==> content_region(Some(rects), bbox) == Some(
            Rectangle {
                x: max_int(x0, bbox.x as int) as i32,
                y: max_int(y0, bbox.y as int) as i32,
                w: (min_int(x1, bbox.x + bbox.w) - max_int(x0, bbox.x as int)) as i32,
                h: (min_int(y1, bbox.y + bbox.h) - max_int(y0, bbox.y as int)) as i32,
            },
        ),
        x0 <= x1 && y0 <= y1 && bbox.w - (x1 - x0) < 2 && bbox.h - (y1 - y0) < 2 ==> content_region(
            Some(rects),
            bbox,
        ) is None,
{
    let n = rects.len() as int;
    lemma_add_extent_edges(rects, n);
    lemma_add_extent_bounds(rects, n);
    let e = add_extent(rects, n);
    let a = choose|i: int| #[trigger] is_added(rects, i) && rects[i].1.x == x0;
    let b = choose|i: int| #[trigger] is_added(rects, i) && rects[i].1.y == y0;
    let c = choose|i: int| #[trigger] is_added(rects, i) && rects[i].1.x + rects[i].1.w == x1;
    let d = choose|i: int| #[trigger] is_added(rects, i) && rects[i].1.y + rects[i].1.h == y1;
    assert(0 <= a < n && is_added(rects, a));
    let i0 = choose|i: int| 0 <= i < n && #[trigger] is_added(rects, i) && e.0 == rects[i].1.x;
    let i1 = choose|i: int| 0 <= i < n && #[trigger] is_added(rects, i) && e.1 == rects[i].1.y;
    let i2 = choose|i: int| 0 <= i < n && #[trigger] is_added(rects, i) && e.2 == rects[i].1.x + rects[i].1.w;
    let i3 = choose|i: int| 0 <= i < n && #[trigger] is_added(rects, i) && e.3 == rects[i].1.y + rects[i].1.h;
    assert(is_added(rects, i0) && is_added(rects, i1) && is_added(rects, i2) && is_added(rects, i3));
    assert(is_added(rects, b) && is_added(rects, c) && is_added(rects, d));
    assert(e == (x0, y0, x1, y1));
}

/// An input region that adds nothing gives no content region.
pub proof fn lemma_content_region_needs_added_rect(rects: Seq<(RectangleKind, Rectangle)>, bbox: Rectangle)
    requires
        content_region_fits(rects, bbox),
        forall|i: int| !#[trigger] is_added(rects, i),
    ensures
        content_region(Some(rects), bbox) is None,
{
    lemma_add_extent_edges(rects, rects.len() as int);
}

/// The part of a layer surface that holds content, from its input region
/// (`region`, `None` when the surface has none) and its bounding box.
/// Shells draw a panel's shadow inside the buffer and cut the input region
/// down to the visible content; the node then hugs the content.
pub fn layer_surface_content_region(
    region: Option<&[(RectangleKind, Rectangle)]>,
    surface_bbox: Rectangle,
) -> (r: Option<Rectangle>)
    requires
        surface_bbox.w >= 0 && surface_bbox.h >= 0,
        region matches Some(rects) ==> content_region_fits(rects@, surface_bbox),
    ensures
        r == content_region(
            match region {
                Some(rects) => Some(rects@),
                None => None,
            },
            surface_bbox,
        ),
{
    let rects = match region {
        Some(r) => r,
        None => return None,
    };
    let ghost rs = rects@;
    let mut min_x = i32::MAX;
    let mut min_y = i32::MAX;
    let mut max_x = i32::MIN;
    let mut max_y = i32::MIN;
    let mut i: usize = 0;
    while i < rects.len()
        invariant
            rs == rects@,
            i <= rects.len(),
            content_region_fits(rs, surface_bbox),
            (min_x as int, min_y as int, max_x as int, max_y as int) == add_extent(rs, i as int),
        decreases rects.len() - i,
    {
        let (kind, rect) = rects[i];
        if kind == RectangleKind::Add {
            assert(rs[i as int].0 == RectangleKind::Add);
            if rect.x < min_x {
                min_x = rect.x;
            }
            if rect.y < min_y {
                min_y = rect.y;
            }
            let right = rect.x + rect.w;
            let bottom = rect.y + rect.h;
            if right > max_x {
                max_x = right;
            }
            if bottom > max_y {
                max_y = bottom;
            }
        }
        i = i + 1;
    }
    if min_x > max_x || min_y > max_y {
        return None;
    }
    let span_w = max_x - min_x;
    let span_h = max_y - min_y;
    let shrunk = surface_bbox.w - span_w >= 2 || surface_bbox.h - span_h >= 2;
    if !shrunk {
        return None;
    }
    let region_bbox = Rectangle { x: min_x, y: min_y, w: span_w, h: span_h };
    intersection(region_bbox, surface_bbox)
}

} // verus!
