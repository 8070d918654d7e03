use sukusho::hotkey::{set_hotkey_enabled, HotkeyState};
use sukusho::tray::{
    hide_window, is_window_focused, is_window_visible, set_window_hwnd, show_window,
    toggle_window, WindowAction, WindowState,
};

#[test]
fn window_without_handle_does_nothing() {
    let mut state = WindowState::new();
    assert!(is_window_visible(&state));
    assert!(!is_window_focused(&state, 7));
    assert_eq!(hide_window(&mut state), WindowAction::Nothing);
    assert!(is_window_visible(&state));
    assert_eq!(show_window(&mut state), WindowAction::Nothing);
    assert_eq!(toggle_window(&mut state, 7), WindowAction::Nothing);
}

#[test]
fn hide_and_show_track_visibility() {
    let mut state = WindowState::new();
    set_window_hwnd(&mut state, 42);
    assert_eq!(state.hwnd, Some(42));
    assert_eq!(hide_window(&mut state), WindowAction::Hide(42));
    assert!(!is_window_visible(&state));
    assert_eq!(show_window(&mut state), WindowAction::Show(42));
    assert!(is_window_visible(&state));
}

#[test]
fn toggle_hides_only_a_focused_visible_window() {
    let mut state = WindowState::new();
    set_window_hwnd(&mut state, 42);
    assert!(is_window_focused(&state, 42));
    assert!(!is_window_focused(&state, 43));
    // focused and visible: hide
    assert_eq!(toggle_window(&mut state, 42), WindowAction::Hide(42));
    assert!(!state.visible);
    // focused but hidden: show
    assert_eq!(toggle_window(&mut state, 42), WindowAction::Show(42));
    assert!(state.visible);
    // visible but another window in front: show
    assert_eq!(toggle_window(&mut state, 43), WindowAction::Show(42));
    assert!(state.visible);
}

#[test]
fn hotkey_fires_only_when_enabled_pressed_and_current() {
    let mut state = HotkeyState::new();
    state.register(9);
    assert!(state.fires(9, true));
    assert!(!state.fires(9, false));
    assert!(!state.fires(8, true));
    set_hotkey_enabled(&mut state, false);
    assert!(!state.fires(9, true));
    assert_eq!(state.current_id, 9);
    set_hotkey_enabled(&mut state, true);
    assert!(state.fires(9, true));
}
