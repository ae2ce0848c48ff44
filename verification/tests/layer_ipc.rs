use halley::layer_cli::parse_u64;
use halley::layer_ipc::{
    anchor_edges, layer_info, layer_surface_for_handle, not_promoted_error, u64_to_decimal, ApiError,
    ExclusiveZone, KeyboardInteractivity, LayerAnchorEdge, LayerKeyboardInteractivity, LayerShellKind,
    LayerSurfaceEntry, LayerSurfaceSummary, ANCHOR_BOTTOM, ANCHOR_LEFT, ANCHOR_RIGHT, ANCHOR_TOP,
};
use halley::layer_window::Layer;

#[test]
fn anchor_edges_follow_fixed_order() {
    assert_eq!(anchor_edges(0), vec![]);
    assert_eq!(
        anchor_edges(ANCHOR_RIGHT | ANCHOR_LEFT | ANCHOR_BOTTOM | ANCHOR_TOP),
        vec![LayerAnchorEdge::Top, LayerAnchorEdge::Bottom, LayerAnchorEdge::Left, LayerAnchorEdge::Right]
    );
    assert_eq!(anchor_edges(ANCHOR_LEFT | 16), vec![LayerAnchorEdge::Left]);
}

#[test]
fn layer_info_describes_summary() {
    let info = layer_info(
        LayerSurfaceSummary {
            handle: 3,
            namespace: "waybar".to_string(),
            layer: Layer::Top,
            anchor: ANCHOR_TOP | ANCHOR_LEFT | ANCHOR_RIGHT,
            exclusive_zone: ExclusiveZone::Exclusive(30),
            keyboard_interactivity: KeyboardInteractivity::OnDemand,
            keyboard_focus: false,
            committed: true,
            promoted_node: Some(11),
            origin: (0, 0),
            size: (1920, 30),
        },
        "DP-1",
    );
    assert_eq!(info.id, 3);
    assert_eq!(info.namespace, "waybar");
    assert_eq!(info.output.as_deref(), Some("DP-1"));
    assert_eq!(info.layer, LayerShellKind::Top);
    assert_eq!(info.anchor, vec![LayerAnchorEdge::Top, LayerAnchorEdge::Left, LayerAnchorEdge::Right]);
    assert_eq!(info.exclusive_zone, Some(30));
    assert_eq!(info.keyboard_interactivity, LayerKeyboardInteractivity::OnDemand);
    assert_eq!(info.promoted_node, Some(11));
    assert_eq!((info.width, info.height), (1920, 30));
}

#[test]
fn neutral_zone_is_reported_as_none() {
    let summary = LayerSurfaceSummary {
        handle: 1,
        namespace: String::new(),
        layer: Layer::Background,
        anchor: 0,
        exclusive_zone: ExclusiveZone::Neutral,
        keyboard_interactivity: KeyboardInteractivity::NoKeyboard,
        keyboard_focus: false,
        committed: false,
        promoted_node: None,
        origin: (5, 6),
        size: (7, 8),
    };
    let info = layer_info(summary, "HDMI-A-1");
    assert_eq!(info.exclusive_zone, None);
    assert_eq!(info.layer, LayerShellKind::Background);
    assert_eq!(info.keyboard_interactivity, LayerKeyboardInteractivity::NoKeyboard);
    assert_eq!((info.pos_x, info.pos_y), (5, 6));
}

#[test]
fn handles_print_in_decimal_and_parse_back() {
    for n in [0u64, 7, 10, 99, 100, 123456789, u64::MAX] {
        let s = u64_to_decimal(n);
        assert_eq!(s, n.to_string());
        assert_eq!(parse_u64(&s), Some(n));
    }
}

#[test]
fn handle_lookup_skips_dead_surfaces() {
    let surfaces = [
        LayerSurfaceEntry { alive: false, handle: Some(5) },
        LayerSurfaceEntry { alive: true, handle: None },
        LayerSurfaceEntry { alive: true, handle: Some(5) },
    ];
    assert_eq!(layer_surface_for_handle(&surfaces, 5).unwrap(), 2);
    match layer_surface_for_handle(&surfaces, 6) {
        Err(ApiError::NotFound(m)) => assert_eq!(m, "no layer surface with handle 6"),
        other => panic!("unexpected {other:?}"),
    }
    match not_promoted_error(12) {
        ApiError::NotFound(m) => assert_eq!(m, "layer surface 12 is not promoted"),
    }
}
