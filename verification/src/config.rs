//! The `cursor:` section of the configuration: its model, its defaults, and
//! the rules that turn configured values into cursor settings.
//!
//! Floating-point tuning knobs of the dynamic cursor (angles, speeds, zoom
//! factors) are not modelled here; everything else of the section is.

use vstd::prelude::*;
use crate::text::{str_chars, trim_bounds, trim_chars, string_from_range, trim_start_chars, trim_end_chars, is_whitespace_char};

verus! {

/// How the dynamic cursor reacts to pointer motion.
#[derive(Clone, Copy, Debug, PartialEq, Eq, Structural)]
pub enum DynamicCursorMode {
    /// No mode effect (`none` in the configuration).
    Off,
    Rotate,
    Tilt,
    Stretch,
}

/// Response curve mapping pointer speed to effect strength.
#[derive(Clone, Copy, Debug, PartialEq, Eq, Structural)]
pub enum CursorActivation {
    Linear,
    Quadratic,
    NegativeQuadratic,
}

#[derive(Clone, Copy, Debug, PartialEq, Eq, Structural)]
pub struct TiltConfig {
    pub activation: CursorActivation,
    /// Length of the speed-sampling window, milliseconds.
    pub window_ms: u64,
}

#[derive(Clone, Copy, Debug, PartialEq, Eq, Structural)]
pub struct StretchConfig {
    pub activation: CursorActivation,
    /// Length of the speed-sampling window, milliseconds.
    pub window_ms: u64,
}

#[derive(Clone, Copy, Debug, PartialEq, Eq, Structural)]
pub struct ShakeConfig {
    /// Shake-to-find magnification on or off.
    pub enabled: bool,
    /// How long the magnification lasts after shaking stops, milliseconds.
    pub timeout_ms: u64,
    /// Keep the mode effect while magnified.
    pub effects: bool,
    /// Nearest-neighbour sampling: 0 never, 1 while magnified, 2 always.
    pub nearest: u8,
}

#[derive(Clone, Copy, Debug, PartialEq, Eq, Structural)]
pub struct DynamicCursorConfig {
    pub enabled: bool,
    pub mode: DynamicCursorMode,
    pub ignore_warps: bool,
    pub tilt: TiltConfig,
    pub stretch: StretchConfig,
    pub shake: ShakeConfig,
}

#[derive(Debug)]
pub struct CursorConfig {
    /// XCursor theme name.
    pub theme: String,
    /// Requested cursor size, pixels.
    pub size: u32,
    pub hide_while_typing: bool,
    /// Hide the cursor after this long without pointer activity (0: never).
    pub hide_after_ms: u64,
    pub hide_on_keyboard_nav: bool,
    pub dynamic: DynamicCursorConfig,
}

#[derive(Debug)]
pub struct RuntimeTuning {
    pub cursor: CursorConfig,
}

pub open spec fn default_dynamic_cursor_config() -> DynamicCursorConfig {
    DynamicCursorConfig {
        enabled: false,
        mode: DynamicCursorMode::Tilt,
        ignore_warps: true,
        tilt: TiltConfig { activation: CursorActivation::NegativeQuadratic, window_ms: 100 },
        stretch: StretchConfig { activation: CursorActivation::Quadratic, window_ms: 100 },
        shake: ShakeConfig { enabled: true, timeout_ms: 2000, effects: false, nearest: 1 },
    }
}

impl Default for DynamicCursorConfig {
    /// Dynamic cursor off; tilt mode when it is turned on; shake-to-find on.
    fn default() -> (d: Self)
        ensures
            d == default_dynamic_cursor_config(),
    {
        DynamicCursorConfig {
            enabled: false,
            mode: DynamicCursorMode::Tilt,
            ignore_warps: true,
            tilt: TiltConfig { activation: CursorActivation::NegativeQuadratic, window_ms: 100 },
            stretch: StretchConfig { activation: CursorActivation::Quadratic, window_ms: 100 },
            shake: ShakeConfig { enabled: true, timeout_ms: 2000, effects: false, nearest: 1 },
        }
    }
}

impl Default for CursorConfig {
    /// Adwaita at 24px, hidden while typing and on keyboard navigation,
    /// never hidden for inactivity.
    fn default() -> (c: Self)
        ensures
            c.theme@ == "Adwaita"@,
            c.size == 24,
            c.hide_while_typing,
            c.hide_after_ms == 0,
            c.hide_on_keyboard_nav,
            c.dynamic == default_dynamic_cursor_config(),
    {
        CursorConfig {
            theme: String::from_str("Adwaita"),
            size: 24,
            hide_while_typing: true,
            hide_after_ms: 0,
            hide_on_keyboard_nav: true,
            dynamic: DynamicCursorConfig::default(),
        }
    }
}

impl Default for RuntimeTuning {
    fn default() -> (t: Self)
        ensures
            t.cursor.theme@ == "Adwaita"@,
            t.cursor.size == 24,
            t.cursor.hide_while_typing,
            t.cursor.hide_after_ms == 0,
            t.cursor.hide_on_keyboard_nav,
            t.cursor.dynamic == default_dynamic_cursor_config(),
    {
        RuntimeTuning { cursor: CursorConfig::default() }
    }
}

// ---------------------------------------------------------------------------
// Keyword values
// ---------------------------------------------------------------------------

/// `s` without leading and trailing '"' characters (`trim_matches('"')`).
pub open spec fn strip_quotes(s: Seq<char>) -> Seq<char>
    decreases s.len(),
{
    if s.len() > 0 && s[0] == '"' {
        strip_quotes(s.drop_first())
    } else if s.len() > 0 && s.last() == '"' {
        strip_quotes(s.drop_last())
    } else {
        s
    }
}

pub open spec fn ascii_lower(c: char) -> char {
    if 'A' <= c <= 'Z' {
        ((c as u32) + 32) as char
    } else {
        c
    }
}

/// `to_ascii_lowercase`: ASCII capitals lowered, every other character kept.
pub open spec fn ascii_lowercase(s: Seq<char>) -> Seq<char> {
    s.map_values(|c: char| ascii_lower(c))
}

/// The keyword a configured value stands for: trimmed, unquoted, lowered.
pub open spec fn keyword_of(raw: Seq<char>) -> Seq<char> {
    ascii_lowercase(strip_quotes(trim_chars(raw)))
}

/// Lowered keyword of a raw configured value.
pub fn normalize_keyword(raw: &str) -> (k: Vec<char>)
    ensures
        k@ == keyword_of(raw@),
{
    let cs = str_chars(raw);
    let (a, b) = trim_bounds(&cs);
    let ghost t = cs@.subrange(a as int, b as int);
    // strip quotes from the start, then from the end
    let mut lo = a;
    let mut hi = b;
    while lo < hi && cs[lo] == '"'
        invariant
            a <= lo <= hi <= b <= cs.len(),
            t == cs@.subrange(a as int, b as int),
            hi == b,
            strip_quotes(t) == strip_quotes(cs@.subrange(lo as int, hi as int)),
        decreases hi - lo,
    {
        assert(cs@.subrange(lo as int, hi as int).drop_first() =~= cs@.subrange(lo + 1, hi as int));
        lo = lo + 1;
    }
    while lo < hi && cs[hi - 1] == '"'
        invariant
            a <= lo <= hi <= b <= cs.len(),
            lo == hi || cs@[lo as int] != '"',
            strip_quotes(t) == strip_quotes(cs@.subrange(lo as int, hi as int)),
        decreases hi - lo,
    {
        let ghost cur = cs@.subrange(lo as int, hi as int);
        assert(cur.drop_last() =~= cs@.subrange(lo as int, hi - 1));
        assert(cur[0] == cs@[lo as int]);
        hi = hi - 1;
    }
    proof {
        let cur = cs@.subrange(lo as int, hi as int);
        if cur.len() > 0 {
            assert(cur[0] == cs@[lo as int]);
            assert(cur.last() == cs@[hi - 1]);
        }
        assert(strip_quotes(cur) == cur);
    }
    let mut k: Vec<char> = Vec::new();
    let mut i = lo;
    while i < hi
        invariant
            lo <= i <= hi <= cs.len(),
            k@ == ascii_lowercase(cs@.subrange(lo as int, i as int)),
        decreases hi - i,
    {
        let c = cs[i];
        let l = if 'A' <= c && c <= 'Z' {
            char_from_ascii_shift(c)
        } else {
            c
        };
        k.push(l);
        assert(ascii_lowercase(cs@.subrange(lo as int, i + 1)) =~= ascii_lowercase(
            cs@.subrange(lo as int, i as int),
        ).push(ascii_lower(c)));
        i = i + 1;
    }
    k
}

/// Lowers an ASCII capital letter.
fn char_from_ascii_shift(c: char) -> (l: char)
    requires
        'A' <= c <= 'Z',
    ensures
        l == ascii_lower(c),
{
    let v: u8 = c as u8 + 32;
    let l = v as char;
    assert(v as u32 == (c as u32) + 32);
    l
}

pub fn keyword_is(k: &Vec<char>, lit: &str) -> (b: bool)
    ensures
        b == (k@ == lit@),
{
    let l = str_chars(lit);
    if l.len() != k.len() {
        return false;
    }
    let mut i: usize = 0;
    while i < k.len()
        invariant
            l@ == lit@,
            l.len() == k.len(),
            i <= k.len(),
            forall|j: int| 0 <= j < i ==> k@[j] == l@[j],
        decreases k.len() - i,
    {
        if k[i] != l[i] {
            return false;
        }
        i = i + 1;
    }
    assert(k@ =~= l@);
    true
}

/// The mode a configured keyword names, or `default` for an unknown one.
pub open spec fn mode_for_keyword(k: Seq<char>, default: DynamicCursorMode) -> DynamicCursorMode {
    if k == "none"@ {
        DynamicCursorMode::Off
    } else if k == "rotate"@ || k == "stick"@ {
        DynamicCursorMode::Rotate
    } else if k == "tilt"@ {
        DynamicCursorMode::Tilt
    } else if k == "stretch"@ {
        DynamicCursorMode::Stretch
    } else {
        default
    }
}

/// The activation a configured keyword names, or `default` for an unknown one.
pub open spec fn activation_for_keyword(k: Seq<char>, default: CursorActivation) -> CursorActivation {
    if k == "linear"@ {
        CursorActivation::Linear
    } else if k == "quadratic"@ {
        CursorActivation::Quadratic
    } else if k == "negative-quadratic"@ || k == "negative_quadratic"@ {
        CursorActivation::NegativeQuadratic
    } else {
        default
    }
}

/// A configured value that is already a bare lowercase word (no
/// surrounding whitespace or quotes, no ASCII capitals) is its own keyword,
/// so `mode "tilt"` selects the mode the keyword "tilt" names.
pub proof fn lemma_keyword_of_plain(raw: Seq<char>)
    requires
        raw.len() > 0,
        !is_whitespace_char(raw[0]) && !is_whitespace_char(raw.last()),
        raw[0] != '"' && raw.last() != '"',
        forall|i: int| 0 <= i < raw.len() ==> !('A' <= #[trigger] raw[i] <= 'Z'),
    ensures
        keyword_of(raw) == raw,
{
    assert(trim_start_chars(raw) == raw);
    assert(trim_end_chars(raw) == raw);
    assert(strip_quotes(raw) == raw);
    assert(ascii_lowercase(raw) =~= raw);
}

/// Each mode keyword names its own mode, whatever the current mode, and
/// every other keyword keeps the current mode: "none" turns the dynamic
/// cursor's effect off, "rotate" and "stick" rotate, "tilt" tilts and
/// "stretch" stretches.
pub proof fn lemma_mode_keywords(k: Seq<char>, current: DynamicCursorMode)
    ensures
        k == "none"@ ==> mode_for_keyword(k, current) == DynamicCursorMode::Off,
        k == "rotate"@ ==> mode_for_keyword(k, current) == DynamicCursorMode::Rotate,
        k == "stick"@ ==> mode_for_keyword(k, current) == DynamicCursorMode::Rotate,
        k == "tilt"@ ==> mode_for_keyword(k, current) == DynamicCursorMode::Tilt,
        k == "stretch"@ ==> mode_for_keyword(k, current) == DynamicCursorMode::Stretch,
        k != "none"@ && k != "rotate"@ && k != "stick"@ && k != "tilt"@ && k != "stretch"@ ==> mode_for_keyword(
            k,
            current,
        ) == current,
{
    reveal_strlit("none");
    reveal_strlit("rotate");
    reveal_strlit("stick");
    reveal_strlit("tilt");
    reveal_strlit("stretch");
    assert("none"@[0] != "tilt"@[0]);
    assert("none"@ != "tilt"@);
    assert("none"@.len() != "rotate"@.len() && "none"@.len() != "stick"@.len() && "none"@.len() != "stretch"@.len());
    assert("rotate"@.len() != "stick"@.len() && "rotate"@.len() != "tilt"@.len() && "rotate"@.len() != "stretch"@.len());
    assert("stick"@.len() != "tilt"@.len() && "stick"@.len() != "stretch"@.len());
    assert("tilt"@.len() != "stretch"@.len());
}

/// Each activation keyword names its own function, whatever the current
/// one, and every other keyword keeps the current one.
pub proof fn lemma_activation_keywords(k: Seq<char>, current: CursorActivation)
    ensures
        k == "linear"@ ==> activation_for_keyword(k, current) == CursorActivation::Linear,
        k == "quadratic"@ ==> activation_for_keyword(k, current) == CursorActivation::Quadratic,
        k == "negative-quadratic"@ ==> activation_for_keyword(k, current) == CursorActivation::NegativeQuadratic,
        k == "negative_quadratic"@ ==> activation_for_keyword(k, current) == CursorActivation::NegativeQuadratic,
        k != "linear"@ && k != "quadratic"@ && k != "negative-quadratic"@ && k != "negative_quadratic"@
            ==> activation_for_keyword(k, current) == current,
{
    reveal_strlit("linear");
    reveal_strlit("quadratic");
    reveal_strlit("negative-quadratic");
    reveal_strlit("negative_quadratic");
    assert("linear"@.len() != "quadratic"@.len() && "linear"@.len() != "negative-quadratic"@.len()
        && "linear"@.len() != "negative_quadratic"@.len());
    assert("quadratic"@.len() != "negative-quadratic"@.len() && "quadratic"@.len() != "negative_quadratic"@.len());
    assert("negative-quadratic"@[8] != "negative_quadratic"@[8]);
    assert("negative-quadratic"@ != "negative_quadratic"@);
}

/// The dynamic-cursor mode for a configured value (`None` when the key is
/// absent): keyword matching ignores surrounding whitespace, quotes and
/// ASCII case; absent or unknown values keep `default`.
pub fn pick_dynamic_mode(raw: Option<&str>, default: DynamicCursorMode) -> (m: DynamicCursorMode)
    ensures
        m == match raw {
            Some(r) => mode_for_keyword(keyword_of(r@), default),
            None => default,
        },
{
    let Some(raw) = raw else {
        return default;
    };
    let k = normalize_keyword(raw);
    if keyword_is(&k, "none") {
        DynamicCursorMode::Off
    } else if keyword_is(&k, "rotate") || keyword_is(&k, "stick") {
        DynamicCursorMode::Rotate
    } else if keyword_is(&k, "tilt") {
        DynamicCursorMode::Tilt
    } else if keyword_is(&k, "stretch") {
        DynamicCursorMode::Stretch
    } else {
        default
    }
}

/// The activation function for a configured value, matched like
/// [`pick_dynamic_mode`].
pub fn pick_activation(raw: Option<&str>, default: CursorActivation) -> (a: CursorActivation)
    ensures
        a == match raw {
            Some(r) => activation_for_keyword(keyword_of(r@), default),
            None => default,
        },
{
    let Some(raw) = raw else {
        return default;
    };
    let k = normalize_keyword(raw);
    if keyword_is(&k, "linear") {
        CursorActivation::Linear
    } else if keyword_is(&k, "quadratic") {
        CursorActivation::Quadratic
    } else if keyword_is(&k, "negative-quadratic") || keyword_is(&k, "negative_quadratic") {
        CursorActivation::NegativeQuadratic
    } else {
        default
    }
}


// ---------------------------------------------------------------------------
// Applying the section
// ---------------------------------------------------------------------------

/// Keys of the `cursor:` section that the loader reads.
#[derive(Clone, Copy, Debug, PartialEq, Eq, Structural)]
pub enum CursorKey {
    Theme,
    Size,
    HideWhileTyping,
    HideAfterMs,
    HideOnKeyboardNav,
    DynamicEnabled,
    DynamicMode,
    DynamicIgnoreWarps,
    TiltActivation,
    TiltWindow,
    StretchActivation,
    StretchWindow,
    ShakeEnabled,
    ShakeTimeout,
    ShakeEffects,
    ShakeNearest,
    Threshold,
    RotateLength,
    RotateOffset,
    TiltLimit,
    TiltFull,
    StretchLimit,
    ShakeThreshold,
    ShakeBase,
    ShakeSpeed,
    ShakeInfluence,
    ShakeLimit,
}

/// Configuration paths read for a key, in order of preference: the first
/// one present wins.
pub open spec fn key_paths_spec(key: CursorKey) -> Seq<Seq<char>> {
    match key {
        CursorKey::Theme => seq!["cursor.theme"@],
        CursorKey::Size => seq!["cursor.size"@],
        CursorKey::HideWhileTyping => seq![
            "cursor.hide-while-typing"@,
            "cursor.hide-when-typing"@,
            "cursor.hide_while_typing"@,
            "cursor.hide_when_typing"@,
        ],
        CursorKey::HideAfterMs => seq![
            "cursor.hide-after-ms"@,
            "cursor.hide-after-inactive-ms"@,
            "cursor.hide_after_ms"@,
            "cursor.hide_after_inactive_ms"@,
        ],
        CursorKey::HideOnKeyboardNav => seq![
            "cursor.hide-on-keyboard-nav"@,
            "cursor.hide_on_keyboard_nav"@,
        ],
        CursorKey::DynamicEnabled => seq!["cursor.dynamic.enabled"@],
        CursorKey::DynamicMode => seq!["cursor.dynamic.mode"@],
        CursorKey::DynamicIgnoreWarps => seq![
            "cursor.dynamic.ignore-warps"@,
            "cursor.dynamic.ignore_warps"@,
        ],
        CursorKey::TiltActivation => seq![
            "cursor.dynamic.tilt.activation"@,
            "cursor.dynamic.tilt.function"@,
        ],
        CursorKey::TiltWindow => seq!["cursor.dynamic.tilt.window"@, "cursor.dynamic.tilt_window"@],
        CursorKey::StretchActivation => seq![
            "cursor.dynamic.stretch.activation"@,
            "cursor.dynamic.stretch.function"@,
        ],
        CursorKey::StretchWindow => seq![
            "cursor.dynamic.stretch.window"@,
            "cursor.dynamic.stretch_window"@,
        ],
        CursorKey::ShakeEnabled => seq!["cursor.dynamic.shake.enabled"@],
        CursorKey::ShakeTimeout => seq![
            "cursor.dynamic.shake.timeout"@,
            "cursor.dynamic.shake.timeout-ms"@,
        ],
        CursorKey::ShakeEffects => seq!["cursor.dynamic.shake.effects"@],
        CursorKey::ShakeNearest => seq!["cursor.dynamic.shake.nearest"@],
        CursorKey::Threshold => seq!["cursor.dynamic.threshold"@],
        CursorKey::RotateLength => seq!["cursor.dynamic.rotate.length"@, "cursor.dynamic.rotate_length"@],
        CursorKey::RotateOffset => seq!["cursor.dynamic.rotate.offset"@, "cursor.dynamic.rotate_offset"@],
        CursorKey::TiltLimit => seq!["cursor.dynamic.tilt.limit"@, "cursor.dynamic.tilt_limit"@],
        CursorKey::TiltFull => seq!["cursor.dynamic.tilt.full"@, "cursor.dynamic.tilt_full"@],
        CursorKey::StretchLimit => seq!["cursor.dynamic.stretch.limit"@, "cursor.dynamic.stretch_limit"@],
        CursorKey::ShakeThreshold => seq!["cursor.dynamic.shake.threshold"@],
        CursorKey::ShakeBase => seq!["cursor.dynamic.shake.base"@],
        CursorKey::ShakeSpeed => seq!["cursor.dynamic.shake.speed"@],
        CursorKey::ShakeInfluence => seq!["cursor.dynamic.shake.influence"@],
        CursorKey::ShakeLimit => seq!["cursor.dynamic.shake.limit"@],
    }
}

fn push_path(v: &mut Vec<String>, p: &str)
    ensures
        final(v)@.map_values(|s: String| s@) == old(v)@.map_values(|s: String| s@).push(p@),
{
    v.push(String::from_str(p));
    assert(final(v)@.map_values(|s: String| s@) =~= old(v)@.map_values(|s: String| s@).push(p@));
}

/// The configuration paths read for `key`, in order of preference.
pub fn key_paths(key: CursorKey) -> (paths: Vec<String>)
    ensures
        paths@.map_values(|s: String| s@) == key_paths_spec(key),
{
    let mut v: Vec<String> = Vec::new();
    match key {
        CursorKey::Theme => push_path(&mut v, "cursor.theme"),
        CursorKey::Size => push_path(&mut v, "cursor.size"),
        CursorKey::HideWhileTyping => {
            push_path(&mut v, "cursor.hide-while-typing");
            push_path(&mut v, "cursor.hide-when-typing");
            push_path(&mut v, "cursor.hide_while_typing");
            push_path(&mut v, "cursor.hide_when_typing");
        },
        CursorKey::HideAfterMs => {
            push_path(&mut v, "cursor.hide-after-ms");
            push_path(&mut v, "cursor.hide-after-inactive-ms");
            push_path(&mut v, "cursor.hide_after_ms");
            push_path(&mut v, "cursor.hide_after_inactive_ms");
        },
        CursorKey::HideOnKeyboardNav => {
            push_path(&mut v, "cursor.hide-on-keyboard-nav");
            push_path(&mut v, "cursor.hide_on_keyboard_nav");
        },
        CursorKey::DynamicEnabled => push_path(&mut v, "cursor.dynamic.enabled"),
        CursorKey::DynamicMode => push_path(&mut v, "cursor.dynamic.mode"),
        CursorKey::DynamicIgnoreWarps => {
            push_path(&mut v, "cursor.dynamic.ignore-warps");
            push_path(&mut v, "cursor.dynamic.ignore_warps");
        },
        CursorKey::TiltActivation => {
            push_path(&mut v, "cursor.dynamic.tilt.activation");
            push_path(&mut v, "cursor.dynamic.tilt.function");
        },
        CursorKey::TiltWindow => {
            push_path(&mut v, "cursor.dynamic.tilt.window");
            push_path(&mut v, "cursor.dynamic.tilt_window");
        },
        CursorKey::StretchActivation => {
            push_path(&mut v, "cursor.dynamic.stretch.activation");
            push_path(&mut v, "cursor.dynamic.stretch.function");
        },
        CursorKey::StretchWindow => {
            push_path(&mut v, "cursor.dynamic.stretch.window");
            push_path(&mut v, "cursor.dynamic.stretch_window");
        },
        CursorKey::ShakeEnabled => push_path(&mut v, "cursor.dynamic.shake.enabled"),
        CursorKey::ShakeTimeout => {
            push_path(&mut v, "cursor.dynamic.shake.timeout");
            push_path(&mut v, "cursor.dynamic.shake.timeout-ms");
        },
        CursorKey::ShakeEffects => push_path(&mut v, "cursor.dynamic.shake.effects"),
        CursorKey::ShakeNearest => push_path(&mut v, "cursor.dynamic.shake.nearest"),
        CursorKey::Threshold => push_path(&mut v, "cursor.dynamic.threshold"),
        CursorKey::RotateLength => {
            push_path(&mut v, "cursor.dynamic.rotate.length");
            push_path(&mut v, "cursor.dynamic.rotate_length");
        },
        CursorKey::RotateOffset => {
            push_path(&mut v, "cursor.dynamic.rotate.offset");
            push_path(&mut v, "cursor.dynamic.rotate_offset");
        },
        CursorKey::TiltLimit => {
            push_path(&mut v, "cursor.dynamic.tilt.limit");
            push_path(&mut v, "cursor.dynamic.tilt_limit");
        },
        CursorKey::TiltFull => {
            push_path(&mut v, "cursor.dynamic.tilt.full");
            push_path(&mut v, "cursor.dynamic.tilt_full");
        },
        CursorKey::StretchLimit => {
            push_path(&mut v, "cursor.dynamic.stretch.limit");
            push_path(&mut v, "cursor.dynamic.stretch_limit");
        },
        CursorKey::ShakeThreshold => push_path(&mut v, "cursor.dynamic.shake.threshold"),
        CursorKey::ShakeBase => push_path(&mut v, "cursor.dynamic.shake.base"),
        CursorKey::ShakeSpeed => push_path(&mut v, "cursor.dynamic.shake.speed"),
        CursorKey::ShakeInfluence => push_path(&mut v, "cursor.dynamic.shake.influence"),
        CursorKey::ShakeLimit => push_path(&mut v, "cursor.dynamic.shake.limit"),
    }
    v
}

/// The value of the first path of a key that the configuration sets.
pub open spec fn first_some<T>(values: Seq<Option<T>>) -> Option<T>
    decreases values.len(),
{
    if values.len() == 0 {
        None
    } else if values[0] is Some {
        values[0]
    } else {
        first_some(values.drop_first())
    }
}

/// Picks a key's value from what each of its paths holds (`values`, in the
/// order of `key_paths`): the first path that is set wins.
pub fn first_set<T>(values: Vec<Option<T>>) -> (r: Option<T>)
    ensures
        r == first_some(values@),
{
    let mut rest = values;
    while rest.len() > 0
        invariant
            first_some(values@) == first_some(rest@),
        decreases rest.len(),
    {
        let ghost before = rest@;
        let v = rest.remove(0);
        assert(rest@ =~= before.drop_first());
        if v.is_some() {
            return v;
        }
    }
    None
}

/// Values the `cursor.dynamic` section sets; `None` where it sets nothing.
#[derive(Debug)]
pub struct DynamicCursorSection {
    pub enabled: Option<bool>,
    pub mode: Option<String>,
    pub ignore_warps: Option<bool>,
    pub tilt_activation: Option<String>,
    pub tilt_window_ms: Option<u64>,
    pub stretch_activation: Option<String>,
    pub stretch_window_ms: Option<u64>,
    pub shake_enabled: Option<bool>,
    pub shake_timeout_ms: Option<u64>,
    pub shake_effects: Option<bool>,
    pub shake_nearest: Option<u8>,
}

/// Values the `cursor:` section sets; `None` where it sets nothing.
#[derive(Debug)]
pub struct CursorSection {
    pub theme: Option<String>,
    pub size: Option<u32>,
    pub hide_while_typing: Option<bool>,
    pub hide_after_ms: Option<u64>,
    pub hide_on_keyboard_nav: Option<bool>,
    pub dynamic: DynamicCursorSection,
}

pub open spec fn or_keep<T>(v: Option<T>, old: T) -> T {
    match v {
        Some(x) => x,
        None => old,
    }
}

pub open spec fn keyword_view(v: Option<String>) -> Option<Seq<char>> {
    match v {
        Some(s) => Some(s@),
        None => None,
    }
}

pub open spec fn mode_setting(v: Option<Seq<char>>, old: DynamicCursorMode) -> DynamicCursorMode {
    match v {
        Some(r) => mode_for_keyword(keyword_of(r), old),
        None => old,
    }
}

pub open spec fn activation_setting(v: Option<Seq<char>>, old: CursorActivation) -> CursorActivation {
    match v {
        Some(r) => activation_for_keyword(keyword_of(r), old),
        None => old,
    }
}

/// The dynamic-cursor settings after applying a section to `old`.
pub open spec fn applied_dynamic(s: DynamicCursorSection, old: DynamicCursorConfig) -> DynamicCursorConfig {
    DynamicCursorConfig {
        enabled: or_keep(s.enabled, old.enabled),
        mode: mode_setting(keyword_view(s.mode), old.mode),
        ignore_warps: or_keep(s.ignore_warps, old.ignore_warps),
        tilt: TiltConfig {
            activation: activation_setting(keyword_view(s.tilt_activation), old.tilt.activation),
            window_ms: or_keep(s.tilt_window_ms, old.tilt.window_ms),
        },
        stretch: StretchConfig {
            activation: activation_setting(keyword_view(s.stretch_activation), old.stretch.activation),
            window_ms: or_keep(s.stretch_window_ms, old.stretch.window_ms),
        },
        shake: ShakeConfig {
            enabled: or_keep(s.shake_enabled, old.shake.enabled),
            timeout_ms: or_keep(s.shake_timeout_ms, old.shake.timeout_ms),
            effects: or_keep(s.shake_effects, old.shake.effects),
            nearest: or_keep(s.shake_nearest, old.shake.nearest),
        },
    }
}

/// A section that sets nothing leaves the dynamic-cursor settings as they
/// were.
pub proof fn lemma_empty_dynamic_section_keeps(s: DynamicCursorSection, old: DynamicCursorConfig)
    requires
        s.enabled is None,
        s.mode is None,
        s.ignore_warps is None,
        s.tilt_activation is None,
        s.tilt_window_ms is None,
        s.stretch_activation is None,
        s.stretch_window_ms is None,
        s.shake_enabled is None,
        s.shake_timeout_ms is None,
        s.shake_effects is None,
        s.shake_nearest is None,
    ensures
        applied_dynamic(s, old) == old,
{
}

/// Each value a section sets lands in its own setting and nowhere else:
/// a set value replaces that setting, an unset one keeps it, and keywords
/// set the mode and the activations through the keyword laws.
pub proof fn lemma_dynamic_section_fields(s: DynamicCursorSection, old: DynamicCursorConfig)
    ensures
        ({
            let d = applied_dynamic(s, old);
            &&& d.enabled == (if let Some(v) = s.enabled { v } else { old.enabled })
            &&& d.ignore_warps == (if let Some(v) = s.ignore_warps { v } else { old.ignore_warps })
            &&& d.tilt.window_ms == (if let Some(v) = s.tilt_window_ms { v } else { old.tilt.window_ms })
            &&& d.stretch.window_ms == (if let Some(v) = s.stretch_window_ms { v } else { old.stretch.window_ms })
            &&& d.shake.enabled == (if let Some(v) = s.shake_enabled { v } else { old.shake.enabled })
            &&& d.shake.timeout_ms == (if let Some(v) = s.shake_timeout_ms { v } else { old.shake.timeout_ms })
            &&& d.shake.effects == (if let Some(v) = s.shake_effects { v } else { old.shake.effects })
            &&& d.shake.nearest == (if let Some(v) = s.shake_nearest { v } else { old.shake.nearest })
            &&& s.mode is None ==> d.mode == old.mode
            &&& s.mode matches Some(m) ==> d.mode == mode_for_keyword(keyword_of(m@), old.mode)
            &&& s.tilt_activation is None ==> d.tilt.activation == old.tilt.activation
            &&& s.tilt_activation matches Some(a) ==> d.tilt.activation == activation_for_keyword(
                keyword_of(a@),
                old.tilt.activation,
            )
            &&& s.stretch_activation is None ==> d.stretch.activation == old.stretch.activation
            &&& s.stretch_activation matches Some(a) ==> d.stretch.activation == activation_for_keyword(
                keyword_of(a@),
                old.stretch.activation,
            )
        }),
{
}

/// Applying the same section twice gives what applying it once gives.
pub proof fn lemma_dynamic_section_idempotent(s: DynamicCursorSection, old: DynamicCursorConfig)
    ensures
        applied_dynamic(s, applied_dynamic(s, old)) == applied_dynamic(s, old),
{
}

fn keyword_ref(v: &Option<String>) -> (r: Option<&str>)
    ensures
        match (v, r) {
            (Some(s), Some(t)) => t@ == s@,
            (None, None) => true,
            _ => false,
        },
{
    match v {
        Some(s) => Some(s.as_str()),
        None => None,
    }
}

fn keep_or<T: Copy>(v: Option<T>, old: T) -> (r: T)
    ensures
        r == or_keep(v, old),
{
    match v {
        Some(x) => x,
        None => old,
    }
}

/// Applies the `cursor.dynamic` values of a section: each value set
/// replaces the current one, keywords that name no mode or activation keep
/// the current one, and what the section leaves unset stays.
pub fn load_dynamic_cursor_section(section: &DynamicCursorSection, out: &mut DynamicCursorConfig)
    ensures
        *final(out) == applied_dynamic(*section, *old(out)),
{
    out.enabled = keep_or(section.enabled, out.enabled);
    out.mode = pick_dynamic_mode(keyword_ref(&section.mode), out.mode);
    out.ignore_warps = keep_or(section.ignore_warps, out.ignore_warps);
    out.tilt.activation = pick_activation(keyword_ref(&section.tilt_activation), out.tilt.activation);
    out.tilt.window_ms = keep_or(section.tilt_window_ms, out.tilt.window_ms);
    out.stretch.activation = pick_activation(
        keyword_ref(&section.stretch_activation),
        out.stretch.activation,
    );
    out.stretch.window_ms = keep_or(section.stretch_window_ms, out.stretch.window_ms);
    out.shake.enabled = keep_or(section.shake_enabled, out.shake.enabled);
    out.shake.timeout_ms = keep_or(section.shake_timeout_ms, out.shake.timeout_ms);
    out.shake.effects = keep_or(section.shake_effects, out.shake.effects);
    out.shake.nearest = keep_or(section.shake_nearest, out.shake.nearest);
}

/// The theme after applying a configured value: the value trimmed, unless
/// trimming leaves nothing.
pub open spec fn theme_setting(v: Option<Seq<char>>, old: Seq<char>) -> Seq<char> {
    match v {
        Some(t) => if trim_chars(t).len() > 0 {
            trim_chars(t)
        } else {
            old
        },
        None => old,
    }
}

/// Applies the `cursor:` values of a section to `out`: each value set
/// replaces the current one (a theme only when it is not blank, and
/// trimmed); what the section leaves unset stays.
pub fn load_cursor_section(section: &CursorSection, out: &mut RuntimeTuning)
    ensures
        final(out).cursor.theme@ == theme_setting(keyword_view(section.theme), old(out).cursor.theme@),
        final(out).cursor.size == or_keep(section.size, old(out).cursor.size),
        final(out).cursor.hide_while_typing == or_keep(
            section.hide_while_typing,
            old(out).cursor.hide_while_typing,
        ),
        final(out).cursor.hide_after_ms == or_keep(section.hide_after_ms, old(out).cursor.hide_after_ms),
        final(out).cursor.hide_on_keyboard_nav == or_keep(
            section.hide_on_keyboard_nav,
            old(out).cursor.hide_on_keyboard_nav,
        ),
        final(out).cursor.dynamic == applied_dynamic(section.dynamic, old(out).cursor.dynamic),
{
    if let Some(theme) = &section.theme {
        let cs = str_chars(theme.as_str());
        let (a, b) = trim_bounds(&cs);
        if a < b {
            out.cursor.theme = string_from_range(&cs, a, b);
        }
    }
    out.cursor.size = keep_or(section.size, out.cursor.size);
    out.cursor.hide_while_typing = keep_or(section.hide_while_typing, out.cursor.hide_while_typing);
    out.cursor.hide_after_ms = keep_or(section.hide_after_ms, out.cursor.hide_after_ms);
    out.cursor.hide_on_keyboard_nav = keep_or(
        section.hide_on_keyboard_nav,
        out.cursor.hide_on_keyboard_nav,
    );
    load_dynamic_cursor_section(&section.dynamic, &mut out.cursor.dynamic);
}

} // verus!
