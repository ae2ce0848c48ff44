use halley::layer_cli::LayerRequest;
use halley::layer_ipc::{
    demote_reply, layer_list_reply, plan_layer_request, promote_reply, ApiError, ExclusiveZone,
    KeyboardInteractivity, LayerAction, LayerSurfaceEntry, LayerSurfaceSummary, Response, ANCHOR_BOTTOM,
};
use halley::layer_window::{
    layer_surface_identity, PromotedLayers, promoted_content_center, promoted_intrinsic_size,
    promoted_node_label, promoted_placement, Layer, Rectangle,
};

fn summary(handle: u64, namespace: &str) -> LayerSurfaceSummary {
    LayerSurfaceSummary {
        handle,
        namespace: namespace.to_string(),
        layer: Layer::Bottom,
        anchor: ANCHOR_BOTTOM,
        exclusive_zone: ExclusiveZone::Neutral,
        keyboard_interactivity: KeyboardInteractivity::NoKeyboard,
        keyboard_focus: false,
        committed: true,
        promoted_node: None,
        origin: (0, 0),
        size: (10, 20),
    }
}

fn rect(x: i32, y: i32, w: i32, h: i32) -> Rectangle {
    Rectangle { x, y, w, h }
}

#[test]
fn list_requests_pass_the_output_through() {
    match plan_layer_request(LayerRequest::List { output: Some("DP-1".to_string()) }, &[]) {
        LayerAction::List { output } => assert_eq!(output.as_deref(), Some("DP-1")),
        other => panic!("unexpected {other:?}"),
    }
    match plan_layer_request(LayerRequest::List { output: None }, &[]) {
        LayerAction::List { output } => assert_eq!(output, None),
        other => panic!("unexpected {other:?}"),
    }
}

#[test]
fn promote_and_demote_resolve_live_handles() {
    let surfaces = [
        LayerSurfaceEntry { alive: false, handle: Some(4) },
        LayerSurfaceEntry { alive: true, handle: Some(4) },
        LayerSurfaceEntry { alive: true, handle: Some(9) },
    ];
    match plan_layer_request(LayerRequest::Promote { handle: 4 }, &surfaces) {
        LayerAction::Promote { surface } => assert_eq!(surface, 1),
        other => panic!("unexpected {other:?}"),
    }
    match plan_layer_request(LayerRequest::Demote { handle: 9 }, &surfaces) {
        LayerAction::Demote { surface, handle } => assert_eq!((surface, handle), (2, 9)),
        other => panic!("unexpected {other:?}"),
    }
    match plan_layer_request(LayerRequest::Promote { handle: 8 }, &surfaces) {
        LayerAction::Reply(Response::Error(ApiError::NotFound(m))) => {
            assert_eq!(m, "no layer surface with handle 8")
        }
        other => panic!("unexpected {other:?}"),
    }
    match plan_layer_request(LayerRequest::Demote { handle: 8 }, &surfaces) {
        LayerAction::Reply(Response::Error(ApiError::NotFound(m))) => {
            assert_eq!(m, "no layer surface with handle 8")
        }
        other => panic!("unexpected {other:?}"),
    }
}

#[test]
fn promote_and_demote_replies() {
    match promote_reply(42) {
        Response::LayerPromoted(p) => assert_eq!(p.node_id, 42),
        other => panic!("unexpected {other:?}"),
    }
    assert!(matches!(demote_reply(3, Some(42)), Response::Success));
    match demote_reply(3, None) {
        Response::Error(ApiError::NotFound(m)) => assert_eq!(m, "layer surface 3 is not promoted"),
        other => panic!("unexpected {other:?}"),
    }
}

#[test]
fn list_reply_keeps_outputs_and_layers_in_order() {
    let groups = vec![
        ("DP-1".to_string(), vec![summary(1, "waybar"), summary(2, "mako")]),
        ("HDMI-A-1".to_string(), vec![]),
    ];
    match layer_list_reply(groups) {
        Response::LayerList(list) => {
            assert_eq!(list.outputs.len(), 2);
            assert_eq!(list.outputs[0].output, "DP-1");
            let ids: Vec<u64> = list.outputs[0].layers.iter().map(|l| l.id).collect();
            assert_eq!(ids, vec![1, 2]);
            assert_eq!(list.outputs[0].layers[1].namespace, "mako");
            assert_eq!(list.outputs[0].layers[1].output.as_deref(), Some("DP-1"));
            assert_eq!(list.outputs[1].output, "HDMI-A-1");
            assert!(list.outputs[1].layers.is_empty());
        }
        other => panic!("unexpected {other:?}"),
    }
}

#[test]
fn promoted_node_geometry() {
    assert_eq!(promoted_placement(None, 1920, 1080), rect(0, 0, 480, 360));
    assert_eq!(promoted_placement(None, 30, 200), rect(0, 0, 64, 200));
    assert_eq!(promoted_placement(Some(rect(5, 6, 7, 8)), 1920, 1080), rect(5, 6, 7, 8));
    assert_eq!(promoted_intrinsic_size(rect(0, 0, 300, 20), None), (300, 64));
    assert_eq!(promoted_intrinsic_size(rect(0, 0, 300, 20), Some(rect(10, 10, 100, 200))), (100, 200));
    assert_eq!(promoted_content_center(rect(100, 50, 400, 300), rect(10, 20, 101, 60)), (160, 100));
}

#[test]
fn promoted_node_labels_and_identity() {
    assert_eq!(promoted_node_label(Some("quickshell-bar")), "Quickshell Bar");
    assert_eq!(promoted_node_label(Some("---")), "Layer Window");
    assert_eq!(promoted_node_label(None), "Layer Window");
    let ns = "org.example.notifications".to_string();
    let (label, app_id) = layer_surface_identity(Some(&ns)).unwrap();
    assert_eq!(label.as_deref(), Some("Notifications"));
    assert_eq!(app_id.as_deref(), Some("org.example.notifications"));
    assert!(layer_surface_identity(None).is_none());
}

#[test]
fn promoted_surface_or_its_root() {
    let mut promoted = PromotedLayers::new();
    promoted.promote(3, 30);
    promoted.promote(7, 70);
    assert!(promoted.is_promoted_layer_surface(7, 1));
    assert!(promoted.is_promoted_layer_surface(5, 3));
    assert!(!promoted.is_promoted_layer_surface(5, 6));
    assert!(!PromotedLayers::new().is_promoted_layer_surface(5, 5));
}

#[test]
fn promotion_is_idempotent_and_demotion_returns_the_node() {
    let mut promoted = PromotedLayers::new();
    assert_eq!(promoted.node_of(4), None);
    assert_eq!(promoted.promote(4, 40), 40);
    assert_eq!(promoted.promote(4, 41), 40);
    assert_eq!(promoted.node_of(4), Some(40));
    assert_eq!(promoted.demote(4), Some(40));
    assert_eq!(promoted.demote(4), None);
    assert_eq!(promoted.node_of(4), None);
}
