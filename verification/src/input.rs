//! What the window hands in: raw input events and the updates they amount to.

use vstd::prelude::*;
use crate::event::Mouse;

verus! {

/// A button of the pointer.
#[derive(Clone, Copy, Debug, PartialEq, Eq, Structural)]
pub enum MouseButton {
    Left,
    Middle,
    Right,
    Other,
}

/// A key of the keyboard, as far as the layer cares.
#[derive(Clone, Copy, Debug, PartialEq, Eq, Structural)]
pub enum Key {
    Q,
    Other,
}

/// A raw event of the window.
#[derive(Clone, Copy, Debug, PartialEq, Eq, Structural)]
pub enum InputEvent {
    /// The pointer moved to `(x, y)` with these buttons held.
    MouseMotion { x: i32, y: i32, left: bool, middle: bool, right: bool },
    /// A button went down at `(x, y)`.
    MouseButtonDown { x: i32, y: i32, button: MouseButton },
    /// A button went up at `(x, y)`.
    MouseButtonUp { x: i32, y: i32, button: MouseButton },
    /// The window was asked to close.
    Quit,
    /// A key went down, with the state of the two control keys.
    KeyDown { key: Key, left_ctrl: bool, right_ctrl: bool },
    /// Anything else.
    Other,
}

/// Updates that are given to widgets by their owners.
#[derive(Clone, Copy, Debug, PartialEq, Eq, Structural)]
pub enum Update {
    Mouse(Mouse),
    Quit,
}

/// The update a raw event amounts to, if any. Motion carries the buttons
/// held; a press or release of the left button is a sample with that button
/// down or up and the others up; closing the window and control-Q quit.
pub open spec fn update_of(event: InputEvent) -> Option<Update> {
    match event {
        InputEvent::MouseMotion { x, y, left, middle, right } => Some(
            Update::Mouse(
                Mouse {
                    x,
                    y,
                    left_btn_down: left,
                    middle_btn_down: middle,
                    right_btn_down: right,
                },
            ),
        ),
        InputEvent::MouseButtonDown { x, y, button } => if button == MouseButton::Left {
            Some(
                Update::Mouse(
                    Mouse {
                        x,
                        y,
                        left_btn_down: true,
                        middle_btn_down: false,
                        right_btn_down: false,
                    },
                ),
            )
        } else {
            None
        },
        InputEvent::MouseButtonUp { x, y, button } => if button == MouseButton::Left {
            Some(
                Update::Mouse(
                    Mouse {
                        x,
                        y,
                        left_btn_down: false,
                        middle_btn_down: false,
                        right_btn_down: false,
                    },
                ),
            )
        } else {
            None
        },
        InputEvent::Quit => Some(Update::Quit),
        InputEvent::KeyDown { key, left_ctrl, right_ctrl } => if key == Key::Q && (left_ctrl
            || right_ctrl) {
            Some(Update::Quit)
        } else {
            None
        },
        InputEvent::Other => None,
    }
}

/// Maps raw events into updates.
pub fn mk_update(event: &InputEvent) -> (r: Option<Update>)
    ensures
        r == update_of(*event),
{
    match event {
        InputEvent::MouseMotion { x, y, left, middle, right } => {
            Some(
                Update::Mouse(
                    Mouse {
                        x: *x,
                        y: *y,
                        left_btn_down: *left,
                        middle_btn_down: *middle,
                        right_btn_down: *right,
                    },
                ),
            )
        },
        InputEvent::MouseButtonDown { x, y, button: MouseButton::Left } => {
            Some(
                Update::Mouse(
                    Mouse {
                        x: *x,
                        y: *y,
                        left_btn_down: true,
                        middle_btn_down: false,
                        right_btn_down: false,
                    },
                ),
            )
        },
        InputEvent::MouseButtonUp { x, y, button: MouseButton::Left } => {
            Some(
                Update::Mouse(
                    Mouse {
                        x: *x,
                        y: *y,
                        left_btn_down: false,
                        middle_btn_down: false,
                        right_btn_down: false,
                    },
                ),
            )
        },
        InputEvent::Quit => Some(Update::Quit),
        InputEvent::KeyDown { key: Key::Q, left_ctrl, right_ctrl } => {
            let ctrl_btn_down = *left_ctrl || *right_ctrl;
            if ctrl_btn_down {
                Some(Update::Quit)
            } else {
                None
            }
        },
        _ => None,
    }
}

} // verus!
