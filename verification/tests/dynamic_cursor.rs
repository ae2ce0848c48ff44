use halley::config::{DynamicCursorConfig, DynamicCursorMode};
use halley::dynamic_cursor::{
    animation_active, effective_mode, mode_sample_window, mode_update_for, nearest_sampling_enabled,
    shown_update, stale_sample_count, ModeUpdate, ShownUpdate, UpdateKind, SNAP_AFTER_STALLED_TICKS,
};

#[test]
fn disabled_dynamic_cursor_runs_no_mode() {
    let mut cfg = DynamicCursorConfig::default();
    cfg.mode = DynamicCursorMode::Stretch;
    cfg.enabled = false;
    assert_eq!(effective_mode(&cfg), DynamicCursorMode::Off);
    cfg.enabled = true;
    assert_eq!(effective_mode(&cfg), DynamicCursorMode::Stretch);
}

#[test]
fn rotation_follows_motion_and_tilt_stretch_follow_ticks() {
    assert_eq!(mode_update_for(DynamicCursorMode::Rotate, UpdateKind::Move), ModeUpdate::Rotate);
    assert_eq!(mode_update_for(DynamicCursorMode::Rotate, UpdateKind::Tick), ModeUpdate::Nothing);
    assert_eq!(mode_update_for(DynamicCursorMode::Tilt, UpdateKind::Tick), ModeUpdate::Tilt);
    assert_eq!(mode_update_for(DynamicCursorMode::Tilt, UpdateKind::Move), ModeUpdate::Nothing);
    assert_eq!(mode_update_for(DynamicCursorMode::Stretch, UpdateKind::Tick), ModeUpdate::Stretch);
    assert_eq!(mode_update_for(DynamicCursorMode::Off, UpdateKind::Tick), ModeUpdate::Nothing);
}

#[test]
fn sample_window_is_clamped() {
    assert_eq!(mode_sample_window(0), 16);
    assert_eq!(mode_sample_window(100), 100);
    assert_eq!(mode_sample_window(5000), 1000);
}

#[test]
fn stale_samples_expire_but_two_remain() {
    assert_eq!(stale_sample_count(&[500, 400, 50, 10], 100), 2);
    assert_eq!(stale_sample_count(&[500, 400, 300], 100), 1);
    assert_eq!(stale_sample_count(&[500, 400], 100), 0);
    assert_eq!(stale_sample_count(&[50, 400, 300, 10], 100), 0);
    assert_eq!(stale_sample_count(&[], 100), 0);
}

#[test]
fn stalled_transform_snaps_after_thirty_ticks() {
    assert_eq!(shown_update(true, false, 12), ShownUpdate { adopt: true, stalled_ticks: 0 });
    assert_eq!(shown_update(false, true, 12), ShownUpdate { adopt: false, stalled_ticks: 12 });
    let mut stalled = 0;
    let mut ticks = 0;
    loop {
        let u = shown_update(false, false, stalled);
        ticks += 1;
        if u.adopt {
            break;
        }
        stalled = u.stalled_ticks;
    }
    assert_eq!(ticks, SNAP_AFTER_STALLED_TICKS);
}

#[test]
fn nearest_sampling_settings() {
    assert!(nearest_sampling_enabled(2, false));
    assert!(nearest_sampling_enabled(1, true));
    assert!(!nearest_sampling_enabled(1, false));
    assert!(!nearest_sampling_enabled(0, true));
}

#[test]
fn redraws_continue_while_decaying_or_shaking() {
    assert!(animation_active(true, None, true));
    assert!(animation_active(false, Some(DynamicCursorMode::Tilt), false));
    assert!(animation_active(false, Some(DynamicCursorMode::Stretch), false));
    assert!(!animation_active(false, Some(DynamicCursorMode::Stretch), true));
    assert!(!animation_active(false, Some(DynamicCursorMode::Rotate), false));
    assert!(!animation_active(false, None, false));
}
