use halley::foreign_toplevel::{
    activated_states, is_toplevel_active, ForeignToplevelHandle, ForeignToplevelState, STATE_ACTIVATED,
};
use std::collections::HashMap;

#[test]
fn unchanged_values_are_not_resent() {
    let mut h = ForeignToplevelHandle::new("term".to_string(), "foot".to_string(), false);
    assert!(!h.send_title("term"));
    assert!(h.send_title("vim"));
    assert!(!h.send_title("vim"));
    assert!(!h.send_app_id("foot"));
    assert!(h.send_app_id("kitty"));
    assert_eq!(h.send_activated(false), None);
    assert_eq!(h.send_activated(true), Some(vec![2]));
    assert_eq!(h.send_activated(true), None);
    assert_eq!(h.send_activated(false), Some(vec![]));
}

#[test]
fn instances_get_initial_state_and_close_once() {
    let mut h = ForeignToplevelHandle::new("t".to_string(), "a".to_string(), true);
    let ev = h.init_new_instance(10);
    assert_eq!((ev.title.as_str(), ev.app_id.as_str()), ("t", "a"));
    assert_eq!(ev.states, activated_states(true));
    h.init_new_instance(11);
    h.init_new_instance(12);
    h.remove_instance(11);
    assert_eq!(h.instances, vec![10, 12]);
    assert!(!h.is_closed());
    assert_eq!(h.send_closed(), vec![10, 12]);
    assert!(h.is_closed());
    assert!(h.instances.is_empty());
    assert_eq!(h.send_closed(), Vec::<u64>::new());
}

#[test]
fn only_the_focused_node_is_active() {
    assert!(is_toplevel_active(Some(3), Some(3)));
    assert!(!is_toplevel_active(Some(3), Some(4)));
    assert!(!is_toplevel_active(None, None));
    assert!(!is_toplevel_active(Some(3), None));
}

#[test]
fn managers_are_added_and_removed() {
    let mut st = ForeignToplevelState::new();
    st.add_manager(1);
    st.add_manager(2);
    st.add_manager(1);
    assert_eq!(st.managers(), &[1, 2, 1]);
    st.remove_manager(1);
    assert_eq!(st.managers(), &[2]);
}

#[test]
fn focus_change_activates_only_the_focused_node() {
    let mut st = ForeignToplevelState::new();
    let mut a = ForeignToplevelHandle::new("a".to_string(), "app.a".to_string(), true);
    a.init_new_instance(100);
    st.insert_toplevel(10, a);
    st.insert_toplevel(20, ForeignToplevelHandle::new("b".to_string(), "app.b".to_string(), false));
    st.insert_toplevel(30, ForeignToplevelHandle::new("c".to_string(), "app.c".to_string(), false));
    let mut nodes = HashMap::new();
    nodes.insert(10u64, 1u64);
    nodes.insert(20u64, 2u64);
    let mut changes = st.focus_changed(Some(2), &nodes);
    changes.sort_by_key(|c| c.surface);
    assert_eq!(changes.len(), 2);
    assert_eq!(changes[0].surface, 10);
    assert_eq!(changes[0].instances, vec![100]);
    assert!(changes[0].states.is_empty());
    assert_eq!(changes[1].surface, 20);
    assert_eq!(changes[1].states, vec![STATE_ACTIVATED]);
    assert!(st.focus_changed(Some(2), &nodes).is_empty());
    let changes = st.focus_changed(None, &nodes);
    assert_eq!(changes.len(), 1);
    assert_eq!(changes[0].surface, 20);
}

#[test]
fn removed_toplevels_close_once_and_bind_skips_closed() {
    let mut st = ForeignToplevelState::new();
    st.insert_toplevel(10, ForeignToplevelHandle::new("a".to_string(), "app.a".to_string(), false));
    st.insert_toplevel(20, ForeignToplevelHandle::new("b".to_string(), "app.b".to_string(), false));
    let events = st.init_instance(10, 7).unwrap();
    assert_eq!((events.title.as_str(), events.app_id.as_str()), ("a", "app.a"));
    assert!(events.states.is_empty());
    assert!(st.init_instance(99, 7).is_none());
    let mut targets = st.bind_targets();
    targets.sort();
    assert_eq!(targets, vec![10, 20]);
    assert_eq!(st.remove_toplevel(10), vec![7]);
    assert!(st.remove_toplevel(10).is_empty());
    assert_eq!(st.bind_targets(), vec![20]);
    st.init_instance(20, 8);
    st.init_instance(20, 9);
    st.remove_instance(20, 8);
    assert_eq!(st.remove_toplevel(20), vec![9]);
}

#[test]
fn title_and_app_id_changes_go_to_every_instance_once() {
    let mut st = ForeignToplevelState::new();
    st.insert_toplevel(10, ForeignToplevelHandle::new("a".to_string(), "app.a".to_string(), false));
    st.init_instance(10, 1);
    st.init_instance(10, 2);
    assert_eq!(st.send_title(10, "b"), vec![1, 2]);
    assert!(st.send_title(10, "b").is_empty());
    assert_eq!(st.send_app_id(10, "app.b"), vec![1, 2]);
    assert!(st.send_app_id(10, "app.b").is_empty());
    assert!(st.send_title(11, "x").is_empty());
    let events = st.init_instance(10, 3).unwrap();
    assert_eq!((events.title.as_str(), events.app_id.as_str()), ("b", "app.b"));
}
