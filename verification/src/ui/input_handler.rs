//! The state of mouse and keyboard, as the window's events give it.

use vstd::prelude::*;

verus! {

/// A button of the mouse.
#[derive(Debug, Clone, Copy, PartialEq, Eq, Structural)]
pub enum MouseButton {
    Left,
    Right,
    Middle,
    Back,
    Forward,
    Other(u16),
}

/// Whether a button or key went down or up.
#[derive(Debug, Clone, Copy, PartialEq, Eq, Structural)]
pub enum ElementState {
    Pressed,
    Released,
}

/// A key by its place on the keyboard.
#[derive(Debug, Clone, Copy, PartialEq, Eq, Structural)]
pub enum KeyCode {
    ShiftLeft,
    ShiftRight,
    ControlLeft,
    ControlRight,
    AltLeft,
    AltRight,
    /// Any other key
    Other,
}

/// A key as the keyboard reports it.
#[derive(Debug, Clone, Copy, PartialEq, Eq, Structural)]
pub enum PhysicalKey {
    Code(KeyCode),
    /// A key that the platform could not name
    Unidentified,
}

/// Input handler for keyboard and mouse events
pub struct InputHandler {
    /// Mouse position
    mouse_x: i64,
    mouse_y: i64,
    /// Left mouse button state
    left_button_down: bool,
    /// Modifier keys state
    shift_pressed: bool,
    ctrl_pressed: bool,
    alt_pressed: bool,
}

/// The state of mouse and keyboard as a mathematical value.
pub struct InputView {
    pub mouse: (i64, i64),
    pub left_button_down: bool,
    pub shift_pressed: bool,
    pub ctrl_pressed: bool,
    pub alt_pressed: bool,
}

impl InputView {
    /// The state after a key went down or up: the modifier that the key
    /// is follows it, and nothing else changes.
    pub open spec fn after_key(self, key: PhysicalKey, state: ElementState) -> InputView {
        let pressed = state == ElementState::Pressed;
        match key {
            PhysicalKey::Code(KeyCode::ShiftLeft) | PhysicalKey::Code(KeyCode::ShiftRight) => {
                InputView { shift_pressed: pressed, ..self }
            },
            PhysicalKey::Code(KeyCode::ControlLeft) | PhysicalKey::Code(
                KeyCode::ControlRight,
            ) => InputView { ctrl_pressed: pressed, ..self },
            PhysicalKey::Code(KeyCode::AltLeft) | PhysicalKey::Code(KeyCode::AltRight) => {
                InputView { alt_pressed: pressed, ..self }
            },
            _ => self,
        }
    }

    /// The state after a mouse button went down or up: the left button
    /// is followed, the others are not.
    pub open spec fn after_button(self, button: MouseButton, state: ElementState) -> InputView {
        if button == MouseButton::Left {
            InputView { left_button_down: state == ElementState::Pressed, ..self }
        } else {
            self
        }
    }
}

impl View for InputHandler {
    type V = InputView;

    closed spec fn view(&self) -> InputView {
        InputView {
            mouse: (self.mouse_x, self.mouse_y),
            left_button_down: self.left_button_down,
            shift_pressed: self.shift_pressed,
            ctrl_pressed: self.ctrl_pressed,
            alt_pressed: self.alt_pressed,
        }
    }
}

impl InputHandler {
    /// The state at the start: the mouse at the origin, nothing pressed.
    pub open spec fn initial() -> InputView {
        InputView {
            mouse: (0, 0),
            left_button_down: false,
            shift_pressed: false,
            ctrl_pressed: false,
            alt_pressed: false,
        }
    }

    /// Create new input handler
    pub fn new() -> (handler: Self)
        ensures
            handler@ == InputHandler::initial(),
    {
        InputHandler {
            mouse_x: 0,
            mouse_y: 0,
            left_button_down: false,
            shift_pressed: false,
            ctrl_pressed: false,
            alt_pressed: false,
        }
    }

    /// Update mouse position
    pub fn update_mouse_position(&mut self, x: i64, y: i64)
        ensures
            final(self)@ == (InputView { mouse: (x, y), ..old(self)@ }),
    {
        self.mouse_x = x;
        self.mouse_y = y;
    }

    /// Get mouse position
    pub fn mouse_position(&self) -> (position: (i64, i64))
        ensures
            position == self@.mouse,
    {
        (self.mouse_x, self.mouse_y)
    }

    /// Handle mouse button input
    pub fn handle_mouse_button(&mut self, button: MouseButton, state: ElementState)
        ensures
            final(self)@ == old(self)@.after_button(button, state),
    {
        match button {
            MouseButton::Left => {
                self.left_button_down = match state {
                    ElementState::Pressed => true,
                    ElementState::Released => false,
                };
            },
            _ => {},
        }
    }

    /// Check if left mouse button is down
    pub fn is_left_button_down(&self) -> (down: bool)
        ensures
            down == self@.left_button_down,
    {
        self.left_button_down
    }

    /// Handle keyboard input for modifier keys
    pub fn handle_keyboard(&mut self, key: PhysicalKey, state: ElementState)
        ensures
            final(self)@ == old(self)@.after_key(key, state),
    {
        let pressed = match state {
            ElementState::Pressed => true,
            ElementState::Released => false,
        };
        match key {
            PhysicalKey::Code(code) => {
                match code {
                    KeyCode::ShiftLeft | KeyCode::ShiftRight => {
                        self.shift_pressed = pressed;
                    },
                    KeyCode::ControlLeft | KeyCode::ControlRight => {
                        self.ctrl_pressed = pressed;
                    },
                    KeyCode::AltLeft | KeyCode::AltRight => {
                        self.alt_pressed = pressed;
                    },
                    KeyCode::Other => {},
                }
            },
            PhysicalKey::Unidentified => {},
        }
    }

    /// Check if Shift is pressed
    pub fn is_shift_pressed(&self) -> (pressed: bool)
        ensures
            pressed == self@.shift_pressed,
    {
        self.shift_pressed
    }

    /// Check if Ctrl is pressed
    pub fn is_ctrl_pressed(&self) -> (pressed: bool)
        ensures
            pressed == self@.ctrl_pressed,
    {
        self.ctrl_pressed
    }

    /// Check if Alt is pressed
    pub fn is_alt_pressed(&self) -> (pressed: bool)
        ensures
            pressed == self@.alt_pressed,
    {
        self.alt_pressed
    }

    /// Reset all input state: nothing is pressed; the mouse stays where
    /// it is.
    pub fn reset(&mut self)
        ensures
            final(self)@ == (InputView { mouse: old(self)@.mouse, ..InputHandler::initial() }),
    {
        self.left_button_down = false;
        self.shift_pressed = false;
        self.ctrl_pressed = false;
        self.alt_pressed = false;
    }
}

impl Default for InputHandler {
    fn default() -> (handler: Self)
        ensures
            handler@ == InputHandler::initial(),
    {
        InputHandler::new()
    }
}

} // verus!
