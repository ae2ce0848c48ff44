use halley::config::{
    first_set, key_paths, load_cursor_section, pick_activation, pick_dynamic_mode, CursorActivation,
    CursorKey, CursorSection, DynamicCursorMode, DynamicCursorSection, RuntimeTuning,
};
use rune_cfg::RuneConfig;

/// Reads what the `cursor:` section of a configuration sets, the first
/// configured path of each key winning.
fn read_section(cfg: &RuneConfig) -> CursorSection {
    fn first<T>(cfg: &RuneConfig, key: CursorKey, get: impl Fn(&RuneConfig, &str) -> Option<T>) -> Option<T> {
        first_set(key_paths(key).iter().map(|p| get(cfg, p)).collect())
    }
    let string = |c: &RuneConfig, p: &str| c.get_optional::<String>(p).ok().flatten();
    let boolean = |c: &RuneConfig, p: &str| c.get_optional::<bool>(p).ok().flatten();
    let long = |c: &RuneConfig, p: &str| c.get_optional::<u64>(p).ok().flatten();
    CursorSection {
        theme: first(cfg, CursorKey::Theme, string),
        size: first(cfg, CursorKey::Size, |c: &RuneConfig, p: &str| c.get_optional::<u32>(p).ok().flatten()),
        hide_while_typing: first(cfg, CursorKey::HideWhileTyping, boolean),
        hide_after_ms: first(cfg, CursorKey::HideAfterMs, long),
        hide_on_keyboard_nav: first(cfg, CursorKey::HideOnKeyboardNav, boolean),
        dynamic: DynamicCursorSection {
            enabled: first(cfg, CursorKey::DynamicEnabled, boolean),
            mode: first(cfg, CursorKey::DynamicMode, string),
            ignore_warps: first(cfg, CursorKey::DynamicIgnoreWarps, boolean),
            tilt_activation: first(cfg, CursorKey::TiltActivation, string),
            tilt_window_ms: first(cfg, CursorKey::TiltWindow, long),
            stretch_activation: first(cfg, CursorKey::StretchActivation, string),
            stretch_window_ms: first(cfg, CursorKey::StretchWindow, long),
            shake_enabled: first(cfg, CursorKey::ShakeEnabled, boolean),
            shake_timeout_ms: first(cfg, CursorKey::ShakeTimeout, long),
            shake_effects: first(cfg, CursorKey::ShakeEffects, boolean),
            shake_nearest: first(cfg, CursorKey::ShakeNearest, |c: &RuneConfig, p: &str| {
                c.get_optional::<u8>(p).ok().flatten()
            }),
        },
    }
}

/// The floating-point value a configuration sets for a key.
fn float(cfg: &RuneConfig, key: CursorKey) -> Option<f32> {
    first_set(key_paths(key).iter().map(|p| cfg.get_optional::<f32>(p).ok().flatten()).collect())
}

fn empty_section() -> CursorSection {
    CursorSection {
        theme: None,
        size: None,
        hide_while_typing: None,
        hide_after_ms: None,
        hide_on_keyboard_nav: None,
        dynamic: DynamicCursorSection {
            enabled: None,
            mode: None,
            ignore_warps: None,
            tilt_activation: None,
            tilt_window_ms: None,
            stretch_activation: None,
            stretch_window_ms: None,
            shake_enabled: None,
            shake_timeout_ms: None,
            shake_effects: None,
            shake_nearest: None,
        },
    }
}

#[test]
fn cursor_section_accepts_niri_style_hide_keys() {
    let cfg = RuneConfig::from_str(
        r#"
cursor:
  hide-when-typing false
  hide-after-inactive-ms 1500
end
"#,
    )
    .expect("cursor config should parse");

    let mut out = RuntimeTuning::default();
    load_cursor_section(&read_section(&cfg), &mut out);

    assert!(!out.cursor.hide_while_typing);
    assert_eq!(out.cursor.hide_after_ms, 1500);
}

#[test]
fn cursor_defaults_do_not_idle_hide() {
    assert_eq!(RuntimeTuning::default().cursor.hide_after_ms, 0);
}

#[test]
fn cursor_hide_on_keyboard_nav_defaults_on_and_is_toggllable() {
    assert!(RuntimeTuning::default().cursor.hide_on_keyboard_nav);

    let cfg = RuneConfig::from_str(
        r#"
cursor:
  hide-on-keyboard-nav false
end
"#,
    )
    .expect("cursor config should parse");

    let mut out = RuntimeTuning::default();
    load_cursor_section(&read_section(&cfg), &mut out);
    assert!(!out.cursor.hide_on_keyboard_nav);
}

#[test]
fn dynamic_cursor_defaults_to_disabled() {
    let tuning = RuntimeTuning::default();
    assert!(!tuning.cursor.dynamic.enabled);
    assert_eq!(tuning.cursor.dynamic.mode, DynamicCursorMode::Tilt);
    assert!(tuning.cursor.dynamic.shake.enabled);
}

#[test]
fn dynamic_cursor_section_parses_all_keys() {
    let cfg = RuneConfig::from_str(
        r#"
cursor:
  theme "Bibata"
  dynamic:
    enabled true
    mode "rotate"
    threshold 5
    ignore-warps false
    rotate:
      length 32
      offset 10.5
    end
    tilt:
      activation "quadratic"
      limit 2500
      window 150
      full 45
    end
    stretch:
      activation "linear"
      limit 1500
      window 80
    end
    shake:
      enabled false
      threshold 4.5
      base 3.0
      speed 6.0
      influence 1.5
      limit 8.0
      timeout 1500
      effects true
      nearest 2
    end
  end
end
"#,
    )
    .expect("dynamic cursor config should parse");

    let mut out = RuntimeTuning::default();
    load_cursor_section(&read_section(&cfg), &mut out);

    let d = &out.cursor.dynamic;
    assert!(d.enabled);
    assert_eq!(d.mode, DynamicCursorMode::Rotate);
    assert_eq!(float(&cfg, CursorKey::Threshold), Some(5.0));
    assert!(!d.ignore_warps);
    assert_eq!(float(&cfg, CursorKey::RotateLength), Some(32.0));
    assert_eq!(float(&cfg, CursorKey::RotateOffset), Some(10.5));
    assert_eq!(d.tilt.activation, CursorActivation::Quadratic);
    assert_eq!(float(&cfg, CursorKey::TiltLimit), Some(2500.0));
    assert_eq!(d.tilt.window_ms, 150);
    assert_eq!(float(&cfg, CursorKey::TiltFull), Some(45.0));
    assert_eq!(d.stretch.activation, CursorActivation::Linear);
    assert_eq!(float(&cfg, CursorKey::StretchLimit), Some(1500.0));
    assert_eq!(d.stretch.window_ms, 80);
    assert!(!d.shake.enabled);
    assert_eq!(float(&cfg, CursorKey::ShakeThreshold), Some(4.5));
    assert_eq!(float(&cfg, CursorKey::ShakeBase), Some(3.0));
    assert_eq!(float(&cfg, CursorKey::ShakeSpeed), Some(6.0));
    assert_eq!(float(&cfg, CursorKey::ShakeInfluence), Some(1.5));
    assert_eq!(float(&cfg, CursorKey::ShakeLimit), Some(8.0));
    assert_eq!(d.shake.timeout_ms, 1500);
    assert!(d.shake.effects);
    assert_eq!(d.shake.nearest, 2);
    assert_eq!(out.cursor.theme, "Bibata");
}

#[test]
fn dynamic_cursor_ignores_unknown_mode_value() {
    let cfg = RuneConfig::from_str(
        r#"
cursor:
  dynamic:
    enabled true
    mode "wobble"
  end
end
"#,
    )
    .expect("dynamic cursor config should parse");

    let mut out = RuntimeTuning::default();
    load_cursor_section(&read_section(&cfg), &mut out);
    assert_eq!(out.cursor.dynamic.mode, DynamicCursorMode::Tilt);
}

#[test]
fn mode_keywords_ignore_case_quotes_and_whitespace() {
    assert_eq!(pick_dynamic_mode(Some("  \"ROTATE\" "), DynamicCursorMode::Tilt), DynamicCursorMode::Rotate);
    assert_eq!(pick_dynamic_mode(Some("stick"), DynamicCursorMode::Tilt), DynamicCursorMode::Rotate);
    assert_eq!(pick_dynamic_mode(Some("none"), DynamicCursorMode::Tilt), DynamicCursorMode::Off);
    assert_eq!(pick_dynamic_mode(Some("Stretch"), DynamicCursorMode::Tilt), DynamicCursorMode::Stretch);
    assert_eq!(pick_dynamic_mode(Some("wobble"), DynamicCursorMode::Stretch), DynamicCursorMode::Stretch);
    assert_eq!(pick_dynamic_mode(None, DynamicCursorMode::Rotate), DynamicCursorMode::Rotate);
}

#[test]
fn activation_keywords_accept_both_spellings() {
    assert_eq!(
        pick_activation(Some("negative-quadratic"), CursorActivation::Linear),
        CursorActivation::NegativeQuadratic
    );
    assert_eq!(
        pick_activation(Some("Negative_Quadratic"), CursorActivation::Linear),
        CursorActivation::NegativeQuadratic
    );
    assert_eq!(pick_activation(Some("cubic"), CursorActivation::Quadratic), CursorActivation::Quadratic);
}

#[test]
fn blank_theme_keeps_current_theme() {
    let mut out = RuntimeTuning::default();
    let mut section = empty_section();
    section.theme = Some("   ".to_string());
    load_cursor_section(&section, &mut out);
    assert_eq!(out.cursor.theme, "Adwaita");
    section.theme = Some("  Bibata-Modern ".to_string());
    load_cursor_section(&section, &mut out);
    assert_eq!(out.cursor.theme, "Bibata-Modern");
}

#[test]
fn empty_section_changes_nothing() {
    let mut out = RuntimeTuning::default();
    load_cursor_section(&empty_section(), &mut out);
    let d = RuntimeTuning::default();
    assert_eq!(out.cursor.theme, d.cursor.theme);
    assert_eq!(out.cursor.size, d.cursor.size);
    assert_eq!(out.cursor.dynamic, d.cursor.dynamic);
}

#[test]
fn key_paths_list_aliases_in_order() {
    assert_eq!(
        key_paths(CursorKey::HideWhileTyping),
        vec![
            "cursor.hide-while-typing",
            "cursor.hide-when-typing",
            "cursor.hide_while_typing",
            "cursor.hide_when_typing"
        ]
    );
    assert_eq!(key_paths(CursorKey::ShakeTimeout), vec!["cursor.dynamic.shake.timeout", "cursor.dynamic.shake.timeout-ms"]);
}

#[test]
fn first_set_path_wins() {
    assert_eq!(first_set(vec![None, Some(3u64), Some(4)]), Some(3));
    assert_eq!(first_set::<u64>(vec![None, None]), None);
    assert_eq!(first_set::<u64>(vec![]), None);
    assert_eq!(
        key_paths(CursorKey::RotateLength),
        vec!["cursor.dynamic.rotate.length", "cursor.dynamic.rotate_length"]
    );
}
