use halley::cursor_manager::{sprite_cycle_ms, CursorImageStatus, CursorManager};
use halley::cursor_sprite::{cursor_sprite_runs, frame_pixel_runs, FrameData, PixelRun, SoftwareCursorSprite};
use halley::cursor_theme::{
    icons_to_try, pick_best_size_frames, sprite_from_images, sprite_from_xcursor, sprite_key, themes_to_try,
    CursorImage, CursorSpriteCache,
};
use std::sync::Arc;

fn sprite(delays: &[u32]) -> SoftwareCursorSprite {
    SoftwareCursorSprite {
        width: 1,
        height: 1,
        hotspot_x: 0,
        hotspot_y: 0,
        frames: delays
            .iter()
            .enumerate()
            .map(|(i, d)| FrameData { pixels_bgra: vec![i as u8, 0, 0, 255], delay_ms: *d })
            .collect(),
    }
}

#[test]
fn static_sprite_always_shows_first_frame() {
    let s = sprite(&[0]);
    assert_eq!(s.frame_at(0).pixels_bgra[0], 0);
    assert_eq!(s.frame_at(123456).pixels_bgra[0], 0);
    assert_eq!(s.first_frame().pixels_bgra[0], 0);
}

#[test]
fn animated_sprite_walks_cumulative_delays() {
    let s = sprite(&[100, 50, 200]);
    let idx = |ms: u64| s.frame_at(ms).pixels_bgra[0];
    assert_eq!(idx(0), 0);
    assert_eq!(idx(99), 0);
    assert_eq!(idx(100), 1);
    assert_eq!(idx(149), 1);
    assert_eq!(idx(150), 2);
    assert_eq!(idx(349), 2);
    // periodic with the 350ms cycle
    assert_eq!(idx(350), 0);
    assert_eq!(idx(350 + 120), 1);
}

#[test]
fn zero_length_cycle_shows_first_frame() {
    let s = sprite(&[0, 0, 0]);
    assert_eq!(s.frame_at(77).pixels_bgra[0], 0);
}

#[test]
fn cycle_length_is_zero_for_static_sprites() {
    assert_eq!(sprite_cycle_ms(&sprite(&[40])), 0);
    assert_eq!(sprite_cycle_ms(&sprite(&[40, 60])), 100);
}

fn image(size: u32, width: u32, delay: u32, tag: u8) -> CursorImage {
    CursorImage { size, width, height: width, xhot: 1, yhot: 1, delay, pixels_rgba: vec![tag; 4] }
}

#[test]
fn best_size_prefers_nominal_then_width_then_delay() {
    let images = vec![image(32, 32, 10, 1), image(24, 24, 50, 2), image(24, 24, 20, 3), image(48, 48, 5, 4)];
    let frames = pick_best_size_frames(&images, 24);
    let tags: Vec<u8> = frames.iter().map(|f| f.pixels_rgba[0]).collect();
    assert_eq!(tags, vec![2, 3]);
    let frames = pick_best_size_frames(&images, 40);
    // 32 and 48 are both 8 away: 48 has the smaller delay and wins.
    assert_eq!(frames.iter().map(|f| f.pixels_rgba[0]).collect::<Vec<_>>(), vec![4]);
    assert!(pick_best_size_frames(&[], 24).is_empty());
    // a nominal size whose width differs yields no frames
    assert!(pick_best_size_frames(&[image(24, 30, 0, 1)], 24).is_empty());
}

#[test]
fn sprite_from_images_clamps_hotspot() {
    let mut img = image(2, 2, 7, 9);
    img.xhot = 5;
    img.yhot = 1;
    let s = sprite_from_images(&[img], 2).expect("sprite");
    assert_eq!((s.width, s.height), (2, 2));
    assert_eq!((s.hotspot_x, s.hotspot_y), (1, 1));
    assert_eq!(s.frames.len(), 1);
    assert_eq!(s.frames[0].delay_ms, 7);
}

// A one-image XCursor file: a 4x4 image with its hotspot at (1, 1).
const XCURSOR_FILE: [u8; 128] = [
    0x58, 0x63, 0x75, 0x72, 0x10, 0x00, 0x00, 0x00, 0x00, 0x00, 0x01, 0x00, 0x01, 0x00, 0x00,
    0x00, 0x02, 0x00, 0xFD, 0xFF, 0x04, 0x00, 0x00, 0x00, 0x1C, 0x00, 0x00, 0x00, 0x24, 0x00,
    0x00, 0x00, 0x02, 0x00, 0xFD, 0xFF, 0x04, 0x00, 0x00, 0x00, 0x01, 0x00, 0x00, 0x00, 0x04,
    0x00, 0x00, 0x00, 0x04, 0x00, 0x00, 0x00, 0x01, 0x00, 0x00, 0x00, 0x01, 0x00, 0x00, 0x00,
    0x01, 0x00, 0x00, 0x00, 0x00, 0x00, 0x00, 0x80, 0x00, 0x00, 0x00, 0x80, 0x00, 0x00, 0x00,
    0x80, 0x00, 0x00, 0x00, 0x80, 0x00, 0x00, 0x00, 0x80, 0x00, 0x00, 0x00, 0x80, 0x00, 0x00,
    0x00, 0x80, 0x00, 0x00, 0x00, 0x80, 0x00, 0x00, 0x00, 0x80, 0x00, 0x00, 0x00, 0x80, 0x00,
    0x00, 0x00, 0x80, 0x00, 0x00, 0x00, 0x80, 0x00, 0x00, 0x00, 0x80, 0x00, 0x00, 0x00, 0x80,
    0x00, 0x00, 0x00, 0x80, 0x00, 0x00, 0x00, 0x80,
];

#[test]
fn sprite_from_xcursor_file() {
    let s = sprite_from_xcursor(&XCURSOR_FILE, 24).expect("sprite");
    assert_eq!((s.width, s.height), (4, 4));
    assert_eq!((s.hotspot_x, s.hotspot_y), (1, 1));
    assert_eq!(s.frames.len(), 1);
    assert_eq!(s.frames[0].delay_ms, 1);
    assert_eq!(&s.frames[0].pixels_bgra[..4], &[0, 0, 0, 0x80]);
    assert!(sprite_from_xcursor(&XCURSOR_FILE[..40], 24).is_none());
}

#[test]
fn runs_merge_identical_neighbours_and_skip_transparent() {
    let px = |b: u8, a: u8| [b, 0, 0, a];
    let row: Vec<u8> = [px(1, 255), px(1, 255), px(2, 255), px(0, 0), px(2, 255)].concat();
    let runs = frame_pixel_runs(&row, 5, 1);
    assert_eq!(
        runs,
        vec![
            PixelRun { x: 0, y: 0, len: 2, b: 1, g: 0, r: 0, a: 255 },
            PixelRun { x: 2, y: 0, len: 1, b: 2, g: 0, r: 0, a: 255 },
            PixelRun { x: 4, y: 0, len: 1, b: 2, g: 0, r: 0, a: 255 },
        ]
    );
    let s = sprite(&[10, 10]);
    let runs = cursor_sprite_runs(&s, 15);
    assert_eq!(runs, vec![PixelRun { x: 0, y: 0, len: 1, b: 1, g: 0, r: 0, a: 255 }]);
}

#[test]
fn sprite_keys_resolve_theme_and_clamp_size() {
    let k = sprite_key("  ", 4, "default");
    assert_eq!((k.theme.as_str(), k.size, k.icon.as_str()), ("Adwaita", 8, "default"));
    let k = sprite_key(" Bibata ", 400, "pointer");
    assert_eq!((k.theme.as_str(), k.size), ("Bibata", 128));
    assert_eq!(themes_to_try(&"Bibata".to_string()), vec!["Bibata", "Adwaita"]);
    assert_eq!(themes_to_try(&"Adwaita".to_string()), vec!["Adwaita"]);
}

#[test]
fn cache_reads_back_what_was_stored() {
    let mut cache = CursorSpriteCache::new();
    let key = || sprite_key("Adwaita", 24, "default");
    assert!(cache.get(&key()).is_none());
    cache.insert(key(), None);
    assert!(matches!(cache.get(&key()), Some(None)));
    let s = Arc::new(sprite(&[1]));
    cache.insert(key(), Some(s.clone()));
    match cache.get(&key()) {
        Some(Some(got)) => assert!(Arc::ptr_eq(&got, &s)),
        _ => panic!("expected the stored sprite"),
    }
    assert!(cache.get(&sprite_key("Adwaita", 32, "default")).is_none());
}

#[test]
fn animation_restarts_only_when_named_icon_changes() {
    let mut m: CursorManager<u32> = CursorManager::new();
    let anim = sprite(&[100, 100]);
    let pointer = "pointer".to_string();
    m.note_sprite_resolved(&pointer, &anim, 1000);
    assert_eq!(m.anim.started_at_ms, Some(1000));
    assert_eq!(m.anim.cycle_ms, 200);
    assert!(m.named_cursor_is_animated());
    m.note_sprite_resolved(&pointer, &anim, 5000);
    assert_eq!(m.anim.started_at_ms, Some(1000));
    assert_eq!(m.cursor_elapsed_ms(1250), 250);
    m.set_cursor_image(CursorImageStatus::Surface(3));
    assert!(!m.named_cursor_is_animated());
    m.note_sprite_resolved(&pointer, &anim, 6000);
    assert_eq!(m.anim.started_at_ms, Some(6000));
    m.set_cursor_image(CursorImageStatus::Surface(3));
    m.check_cursor_image_surface_alive(true);
    match m.cursor_image() {
        CursorImageStatus::Surface(_) => {}
        other => panic!("unexpected {other:?}"),
    }
    m.set_cursor_image(CursorImageStatus::Surface(4));
    m.check_cursor_image_surface_alive(false);
    match m.cursor_image() {
        CursorImageStatus::Named(n) => assert_eq!(n, "default"),
        other => panic!("unexpected {other:?}"),
    }
}

#[test]
fn theme_and_icon_fallback_orders() {
    assert_eq!(themes_to_try(&"Bibata".to_string()), vec!["Bibata".to_string(), "Adwaita".to_string()]);
    assert_eq!(themes_to_try(&"Adwaita".to_string()), vec!["Adwaita".to_string()]);
    assert_eq!(icons_to_try(&"pointer".to_string()), vec!["pointer".to_string(), "default".to_string()]);
    assert_eq!(icons_to_try(&"default".to_string()), vec!["default".to_string()]);
}

#[test]
fn each_frame_shows_for_its_delay() {
    let s = sprite(&[30, 0, 50, 20]);
    let mut shown = [0u64; 4];
    for p in 0..100u64 {
        let f = s.frame_at(p);
        let i = s.frames.iter().position(|g| std::ptr::eq(g, f)).unwrap();
        shown[i] += 1;
    }
    assert_eq!(shown, [30, 0, 50, 20]);
}
