//! Mouse state bookkeeping: the cursor position pair and the left-button
//! edge/level flags that the interaction layer polls each frame.

use vstd::prelude::*;

use crate::position::Position;

verus! {

/// A mouse button as the windowing layer reports it.
#[derive(Clone, Copy, PartialEq, Eq, Structural, Debug)]
pub enum MouseButton {
    Left,
    Right,
    Middle,
    Other,
}

/// Whether a button event is a press or a release.
#[derive(Clone, Copy, PartialEq, Eq, Structural, Debug)]
pub enum ElementState {
    Pressed,
    Released,
}

/// The cursor position of this frame and of the frame before.
#[derive(Clone, Copy, PartialEq, Eq, Structural, Debug)]
pub struct MousePosition {
    pub position: Position,
    pub previous_position: Position,
}

impl MousePosition {
    pub fn new() -> (r: MousePosition)
        ensures
            r.position == (Position { x: 0, y: 0 }),
            r.previous_position == (Position { x: 0, y: 0 }),
    {
        MousePosition {
            position: Position { x: 0, y: 0 },
            previous_position: Position { x: 0, y: 0 },
        }
    }

    pub fn position(&self) -> (r: Position)
        ensures
            r == self.position,
    {
        self.position
    }

    pub fn previous_position(&self) -> (r: Position)
        ensures
            r == self.previous_position,
    {
        self.previous_position
    }

    /// Record a new cursor position, keeping the old one for deltas.
    pub fn update(&mut self, new_position: Position)
        ensures
            final(self).position == new_position,
            final(self).previous_position == old(self).position,
    {
        self.previous_position = self.position;
        self.position = new_position;
    }
}

/// Left-button state: `left_mouse_pressed` and `left_mouse_released` are
/// edge flags that stay up until `end_frame`; `left_mouse_down` is the
/// level of the button.
#[derive(Clone, Copy, PartialEq, Eq, Structural, Debug)]
pub struct MouseButtons {
    pub left_mouse_pressed: bool,
    pub left_mouse_down: bool,
    pub left_mouse_released: bool,
}

impl MouseButtons {
    pub fn new() -> (r: MouseButtons)
        ensures
            !r.left_mouse_pressed,
            !r.left_mouse_down,
            !r.left_mouse_released,
    {
        MouseButtons { left_mouse_pressed: false, left_mouse_down: false, left_mouse_released: false }
    }

    /// Fold one button event into the flags. Only the left button is
    /// tracked: a press raises the press edge and the level, a release
    /// raises the release edge and clears the level.
    pub fn update(&mut self, state: ElementState, button: MouseButton)
        ensures
            final(self).left_mouse_pressed == (old(self).left_mouse_pressed || (button
                == MouseButton::Left && state == ElementState::Pressed)),
            final(self).left_mouse_down == if button == MouseButton::Left {
                state == ElementState::Pressed
            } else {
                old(self).left_mouse_down
            },
            final(self).left_mouse_released == (old(self).left_mouse_released || (button
                == MouseButton::Left && state == ElementState::Released)),
    {
        if button == MouseButton::Left {
            if state == ElementState::Pressed {
                self.left_mouse_pressed = true;
                self.left_mouse_down = true;
            } else {
                self.left_mouse_down = false;
                self.left_mouse_released = true;
            }
        }
    }

    /// An edge flag is up, so the frame must be closed with `end_frame`.
    pub fn needs_end_frame(&self) -> (r: bool)
        ensures
            r == (self.left_mouse_pressed || self.left_mouse_released),
    {
        self.left_mouse_pressed || self.left_mouse_released
    }

    /// Drop the edge flags at the end of a frame; the level persists.
    pub fn end_frame(&mut self)
        ensures
            !final(self).left_mouse_pressed,
            !final(self).left_mouse_released,
            final(self).left_mouse_down == old(self).left_mouse_down,
    {
        self.left_mouse_pressed = false;
        self.left_mouse_released = false;
    }

    pub fn left_mouse_pressed(&self) -> (r: bool)
        ensures
            r == self.left_mouse_pressed,
    {
        self.left_mouse_pressed
    }

    pub fn left_mouse_down(&self) -> (r: bool)
        ensures
            r == self.left_mouse_down,
    {
        self.left_mouse_down
    }

    pub fn left_mouse_released(&self) -> (r: bool)
        ensures
            r == self.left_mouse_released,
    {
        self.left_mouse_released
    }
}

} // verus!
