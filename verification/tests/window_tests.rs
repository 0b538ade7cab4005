use snappaste::window::{
    capture_target_window, clamp_to_work_area, is_frontend_ready, handle_main_shortcut,
    mark_frontend_ready, mark_main_window_shown, position_near_cursor,
    queue_show_near_cursor_on_ready, reset_run_state, set_frontend_ready, suspend_auto_hide,
    suspend_main_window_auto_hide, take_pending_show_near_cursor, AppState, FocusLostAction,
    MainShortcutAction,
};

#[test]
fn queued_show_is_taken_once_and_dropped_by_reset() {
    let mut s = AppState::new();
    queue_show_near_cursor_on_ready(&mut s);
    assert!(take_pending_show_near_cursor(&mut s));
    assert!(!take_pending_show_near_cursor(&mut s));
    queue_show_near_cursor_on_ready(&mut s);
    reset_run_state(&mut s);
    assert!(!take_pending_show_near_cursor(&mut s));
    assert!(!is_frontend_ready(&s));
    mark_frontend_ready(&mut s);
    assert!(is_frontend_ready(&s));
}

#[test]
fn main_shortcut_waits_for_the_front_end() {
    let mut s = AppState::new();
    assert_eq!(handle_main_shortcut(&mut s, 77), MainShortcutAction::ShowWhenReady);
    assert_eq!(s.target_hwnd, 77);
    assert!(set_frontend_ready(&mut s));
    assert!(!set_frontend_ready(&mut s));
    assert_eq!(handle_main_shortcut(&mut s, 5), MainShortcutAction::ShowNearCursor);
    assert_eq!(s.take_target_window(), 5);
    assert_eq!(s.take_target_window(), 0);
    capture_target_window(&mut s, 9);
    assert_eq!(s.target_hwnd, 9);
}

#[test]
fn auto_hide_suspension_covers_the_whole_span() {
    let mut s = AppState::new();
    suspend_main_window_auto_hide(&mut s, 10, 1000);
    assert_eq!(s.auto_hide_suspend_until_ms, 1200);
    suspend_main_window_auto_hide(&mut s, 60_000, 1000);
    assert_eq!(s.auto_hide_suspend_until_ms, 61_000);
    suspend_main_window_auto_hide(&mut s, u64::MAX, 1000);
    assert_eq!(s.auto_hide_suspend_until_ms, u64::MAX);
    assert!(s.auto_hide_is_suspended(1000 + 20_000));
    suspend_auto_hide(&mut s, None, 1000);
    assert_eq!(s.auto_hide_suspend_until_ms, 5000);
    assert!(s.auto_hide_is_suspended(4999));
    assert!(!s.auto_hide_is_suspended(5000));
    suspend_main_window_auto_hide(&mut s, 1000, u64::MAX - 5);
    assert_eq!(s.auto_hide_suspend_until_ms, u64::MAX);
}

#[test]
fn focus_loss_decisions() {
    let mut s = AppState::new();
    assert_eq!(s.on_focus_lost(false, 10_000, Some(false)), FocusLostAction::Keep);
    assert_eq!(s.on_focus_lost(true, 10_000, None), FocusLostAction::Recheck(120, 240));
    assert_eq!(s.on_focus_lost(true, 10_000, Some(false)), FocusLostAction::Hide);
    mark_main_window_shown(&mut s, 9_000);
    assert!(s.on_geometry_changed(true, 9_100));
    assert_eq!(s.last_geometry_event_ms(), 0);
    assert!(s.on_geometry_changed(true, 9_950));
    assert_eq!(s.last_geometry_event_ms(), 9_950);
    assert_eq!(s.on_focus_lost(true, 10_000, Some(false)), FocusLostAction::Recheck(86, 182));
    suspend_main_window_auto_hide(&mut s, 500, 10_000);
    assert_eq!(s.on_focus_lost(true, 10_100, Some(false)), FocusLostAction::Keep);
    assert!(!s.should_hide_on_recheck(10_100, Some(false), Some(false)));
    assert!(s.should_hide_on_recheck(20_000, None, Some(false)));
    assert!(!s.should_hide_on_recheck(20_000, Some(true), Some(false)));
    assert!(!s.should_hide_on_recheck(20_000, Some(false), None));
}

#[test]
fn windows_are_kept_in_their_work_area() {
    assert_eq!(clamp_to_work_area(10, 10, 100, 100, 0, 0, 1920, 1080), None);
    assert_eq!(clamp_to_work_area(1900, -5, 100, 100, 0, 0, 1920, 1080), Some((1820, 0)));
    // A window larger than the area is pinned to the area's corner.
    assert_eq!(clamp_to_work_area(50, 50, 3000, 100, 0, 0, 1920, 1080), Some((0, 50)));
}

#[test]
fn popup_goes_below_right_of_the_cursor_and_flips_at_the_edges() {
    assert_eq!(position_near_cursor(100, 100, 300, 400, 0, 0, 1920, 1080), (112, 116));
    // Too close to the right edge: moved left of the margin.
    assert_eq!(position_near_cursor(1800, 100, 300, 400, 0, 0, 1920, 1080), (1612, 116));
    // Too close to the bottom: flipped above the cursor.
    assert_eq!(position_near_cursor(100, 900, 300, 400, 0, 0, 1920, 1080), (112, 488));
    // Never past the top-left margin.
    assert_eq!(position_near_cursor(-50, 10, 300, 2000, 0, 0, 1920, 1080), (8, 8));
}
