//! Input events that the platform layer hands to the game once per frame.
use vstd::prelude::*;

verus! {

/// A mouse or keyboard event; positions are in screen pixels.
#[derive(Debug, Clone, Copy, PartialEq, Eq)]
pub enum InputEvent {
    MouseMove(i32, i32),
    MouseDown { button: i8, position: (i32, i32) },
    MouseUp { button: i8, position: (i32, i32) },
    KeyDown(i32),
    KeyUp(i32),
}

} // verus!
