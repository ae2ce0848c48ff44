use halley::layer_window::{
    compact_namespace_label, intersection, layer_resembles_shield, layer_shielded_by_promotion,
    layer_resembles_fullscreen_shield, layer_surface_content_region, Layer, LayerPlacement, Rectangle,
    RectangleKind,
};

#[test]
fn namespace_label_title_cases_kebab_namespace() {
    assert_eq!(
        compact_namespace_label("noctalia-osd").as_deref(),
        Some("Noctalia Osd")
    );
    assert_eq!(
        compact_namespace_label("noctalia-desktop-widget-clock").as_deref(),
        Some("Noctalia Desktop Widget Clock")
    );
    assert_eq!(compact_namespace_label("").as_deref(), None);
}

#[test]
fn namespace_label_uses_last_dot_component_and_collapses_separators() {
    assert_eq!(compact_namespace_label("org.kde.plasma-shell").as_deref(), Some("Plasma Shell"));
    assert_eq!(compact_namespace_label("a--b__c").as_deref(), Some("A B C"));
    assert_eq!(compact_namespace_label("-osd-").as_deref(), Some("Osd"));
    assert_eq!(compact_namespace_label("shell.").as_deref(), None);
    assert_eq!(compact_namespace_label("---").as_deref(), None);
    assert_eq!(compact_namespace_label("straße").as_deref(), Some("Straße"));
    assert_eq!(compact_namespace_label("ßig").as_deref(), Some("SSig"));
}

#[test]
fn shield_needs_top_or_overlay_covering_most_of_output() {
    assert!(layer_resembles_shield(Layer::Top, (1920, 1080), 1920, 1080));
    assert!(layer_resembles_shield(Layer::Overlay, (1800, 1000), 1920, 1080));
    assert!(!layer_resembles_shield(Layer::Overlay, (1000, 1000), 1920, 1080));
    assert!(!layer_resembles_shield(Layer::Bottom, (1920, 1080), 1920, 1080));
    assert!(!layer_resembles_shield(Layer::Background, (1920, 1080), 1920, 1080));
    // 85% exactly counts: 100x85 of 100x100.
    assert!(layer_resembles_shield(Layer::Top, (100, 85), 100, 100));
    assert!(!layer_resembles_shield(Layer::Top, (100, 84), 100, 100));
}

#[test]
fn shield_click_through_only_for_clients_with_promoted_layers() {
    let promoted = [Some(7), None];
    assert!(layer_shielded_by_promotion(Some(7), &promoted, Layer::Top, (1920, 1080), 1920, 1080));
    assert!(!layer_shielded_by_promotion(Some(8), &promoted, Layer::Top, (1920, 1080), 1920, 1080));
    assert!(!layer_shielded_by_promotion(None, &promoted, Layer::Top, (1920, 1080), 1920, 1080));
    assert!(!layer_shielded_by_promotion(Some(7), &promoted, Layer::Top, (100, 100), 1920, 1080));
}

fn rect(x: i32, y: i32, w: i32, h: i32) -> Rectangle {
    Rectangle { x, y, w, h }
}

#[test]
fn intersection_clips_and_rejects_touching() {
    assert_eq!(intersection(rect(0, 0, 10, 10), rect(5, 5, 10, 10)), Some(rect(5, 5, 5, 5)));
    assert_eq!(intersection(rect(0, 0, 10, 10), rect(10, 0, 10, 10)), None);
    assert_eq!(intersection(rect(0, 0, 10, 10), rect(2, 3, 4, 5)), Some(rect(2, 3, 4, 5)));
}

#[test]
fn content_region_hugs_the_input_region() {
    let bbox = rect(0, 0, 200, 100);
    let region = [
        (RectangleKind::Add, rect(20, 10, 100, 50)),
        (RectangleKind::Add, rect(40, 30, 120, 40)),
        (RectangleKind::Subtract, rect(0, 0, 200, 100)),
    ];
    assert_eq!(layer_surface_content_region(Some(&region), bbox), Some(rect(20, 10, 140, 60)));
}

#[test]
fn content_region_none_without_shrink_or_region() {
    let bbox = rect(0, 0, 200, 100);
    assert_eq!(layer_surface_content_region(None, bbox), None);
    let full = [(RectangleKind::Add, rect(0, 0, 199, 99))];
    assert_eq!(layer_surface_content_region(Some(&full), bbox), None);
    let only_cut = [(RectangleKind::Subtract, rect(0, 0, 10, 10))];
    assert_eq!(layer_surface_content_region(Some(&only_cut), bbox), None);
    let outside = [(RectangleKind::Add, rect(300, 300, 10, 10))];
    assert_eq!(layer_surface_content_region(Some(&outside), bbox), None);
}

#[test]
fn fullscreen_shield_is_found_by_root_surface() {
    let placements = [
        LayerPlacement { surface: 1, layer: Layer::Top, width: 1920, height: 30 },
        LayerPlacement { surface: 2, layer: Layer::Overlay, width: 1920, height: 1080 },
        LayerPlacement { surface: 3, layer: Layer::Bottom, width: 1920, height: 1080 },
    ];
    assert!(layer_resembles_fullscreen_shield(&placements, 2, 1920, 1080));
    assert!(!layer_resembles_fullscreen_shield(&placements, 1, 1920, 1080));
    assert!(!layer_resembles_fullscreen_shield(&placements, 3, 1920, 1080));
    assert!(!layer_resembles_fullscreen_shield(&placements, 9, 1920, 1080));
}

#[test]
fn labels_are_their_own_labels() {
    for ns in ["noctalia-osd", "org.example.quick_shell-bar", "a--b__c", "x-"] {
        let label = compact_namespace_label(ns).unwrap();
        assert_eq!(compact_namespace_label(&label).as_deref(), Some(label.as_str()));
    }
}

#[test]
fn non_ascii_words_are_title_cased_through_std() {
    assert_eq!(compact_namespace_label("org.émile-zola").as_deref(), Some("Émile Zola"));
    assert_eq!(compact_namespace_label("straße").as_deref(), Some("Straße"));
    assert_eq!(compact_namespace_label("ß-x").as_deref(), Some("SS X"));
}
