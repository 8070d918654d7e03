//! The tray's view of the main window: shown or hidden, and what a click or
//! the hotkey does to it.

use vstd::prelude::*;

verus! {

/// What is known of the main window.
#[derive(Debug, Clone, Copy, PartialEq, Eq)]
pub struct WindowState {
    /// The window's handle, once the window exists.
    pub hwnd: Option<isize>,
    /// Whether the window was shown last, not hidden.
    pub visible: bool,
}

/// What the caller has to do to the window.
#[derive(Debug, Clone, Copy, PartialEq, Eq, Structural)]
pub enum WindowAction {
    /// Nothing: there is no window yet.
    Nothing,
    /// Hide the window with this handle.
    Hide(isize),
    /// Move the window with this handle to the cursor's monitor, restore
    /// it, show it and bring it to the foreground.
    Show(isize),
}

impl WindowState {
    /// The state before the window exists. It counts as visible.
    pub fn new() -> (state: Self)
        ensures
            state.hwnd is None,
            state.visible,
    {
        WindowState { hwnd: None, visible: true }
    }
}

/// Records the window's handle.
pub fn set_window_hwnd(state: &mut WindowState, hwnd: isize)
    ensures
        final(state).hwnd == Some(hwnd),
        final(state).visible == old(state).visible,
{
    state.hwnd = Some(hwnd);
}

/// Whether the window is the foreground window, whose handle is
/// `foreground`. Without a window the answer is no.
pub fn is_window_focused(state: &WindowState, foreground: isize) -> (focused: bool)
    ensures
        focused == (state.hwnd == Some(foreground)),
{
    match state.hwnd {
        Some(hwnd) => hwnd == foreground,
        None => false,
    }
}

/// Whether the window was shown last.
pub fn is_window_visible(state: &WindowState) -> (visible: bool)
    ensures
        visible == state.visible,
{
    state.visible
}

/// Hides the window, if there is one.
pub fn hide_window(state: &mut WindowState) -> (action: WindowAction)
    ensures
        final(state).hwnd == old(state).hwnd,
        match old(state).hwnd {
            Some(hwnd) => action == WindowAction::Hide(hwnd) && !final(state).visible,
            None => action == WindowAction::Nothing && final(state).visible == old(state).visible,
        },
{
    match state.hwnd {
        Some(hwnd) => {
            state.visible = false;
            WindowAction::Hide(hwnd)
        },
        None => WindowAction::Nothing,
    }
}

/// Shows the window, if there is one.
pub fn show_window(state: &mut WindowState) -> (action: WindowAction)
    ensures
        final(state).hwnd == old(state).hwnd,
        match old(state).hwnd {
            Some(hwnd) => action == WindowAction::Show(hwnd) && final(state).visible,
            None => action == WindowAction::Nothing && final(state).visible == old(state).visible,
        },
{
    match state.hwnd {
        Some(hwnd) => {
            state.visible = true;
            WindowAction::Show(hwnd)
        },
        None => WindowAction::Nothing,
    }
}

/// Whether a toggle hides the window: only a window that is visible and in
/// the foreground is hidden; any other is shown.
pub open spec fn toggle_hides(state: WindowState, foreground: isize) -> bool {
    state.hwnd == Some(foreground) && state.visible
}

/// Toggles the window: hides it if it is visible and in the foreground,
/// whose handle is `foreground`, and shows it otherwise.
pub fn toggle_window(state: &mut WindowState, foreground: isize) -> (action: WindowAction)
    ensures
        final(state).hwnd == old(state).hwnd,
        toggle_hides(*old(state), foreground) ==> action == WindowAction::Hide(foreground)
            && !final(state).visible,
        !toggle_hides(*old(state), foreground) ==> match old(state).hwnd {
            Some(hwnd) => action == WindowAction::Show(hwnd) && final(state).visible,
            None => action == WindowAction::Nothing && final(state).visible == old(state).visible,
        },
{
    if is_window_focused(state, foreground) && is_window_visible(state) {
        hide_window(state)
    } else {
        show_window(state)
    }
}

} // verus!
