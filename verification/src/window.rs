//! Plain-value input events, as handed over by the windowing layer.
//!
//! The window and event loop themselves live outside this crate; mouse
//! positions arrive as whole pixels.

use vstd::prelude::*;

verus! {

/// Whether a key or button went down or up.
#[derive(Copy, Clone, Debug, PartialEq, Eq, Structural)]
pub enum PressState {
    Up,
    Down,
    DownRepeat,
}

/// A mouse button.
#[derive(Copy, Clone, Debug, PartialEq, Eq, Structural)]
pub enum MouseButton {
    Left,
    Right,
    Middle,
    Button(u8),
}

/// One input event.
#[derive(Copy, Clone, Debug, PartialEq, Eq, Structural)]
pub enum InputEvent {
    KeyboardInput { keycode: char, press_state: PressState },
    MouseMove { x: u32, y: u32 },
    MouseClick { mouse_button: MouseButton, press_state: PressState },
    WindowClose,
    WindowResize { width: u16, height: u16 },
}

} // verus!
