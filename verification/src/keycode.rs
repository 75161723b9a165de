//! Keyboard keys and modifier state.
use vstd::prelude::*;

verus! {

/// Keyboard keys: digits, letters, function keys, arrows, editing and
/// control keys, modifiers, the numeric keypad and punctuation.
#[derive(Debug, Clone, Copy, PartialEq, Eq, Structural, Hash)]
pub enum Keycode {
    Num0, Num1, Num2, Num3, Num4,
    Num5, Num6, Num7, Num8, Num9,

    A, B, C, D, E, F, G, H, I, J,
    K, L, M, N, O, P, Q, R, S, T,
    U, V, W, X, Y, Z,

    F1, F2, F3, F4, F5, F6, F7, F8, F9, F10,
    F11, F12, F13, F14, F15, F16, F17, F18, F19, F20,
    F21, F22, F23, F24,

    Up, Down, Left, Right,

    Escape, Tab, Backspace, Enter, Insert, Delete,
    Home, End, PageUp, PageDown,

    CapsLock, ScrollLock, NumLock, PrintScreen, Pause,

    LeftShift, RightShift, LeftControl, RightControl,
    LeftAlt, RightAlt, LeftSuper, RightSuper,

    Kp0, Kp1, Kp2, Kp3, Kp4, Kp5, Kp6, Kp7, Kp8, Kp9,
    KpDecimal, KpDivide, KpMultiply, KpSubtract, KpAdd,
    KpEnter, KpEqual,

    Space, Comma, Period, Slash, Semicolon, Quote,
    LeftBracket, RightBracket, Backslash, Grave,
    Minus, Equal,

    Menu, Unknown,
}

/// Keyboard modifier state.
#[derive(Debug, Clone, Copy, PartialEq, Eq, Structural, Default)]
pub struct Modifiers {
    pub shift: bool,
    pub ctrl: bool,
    pub alt: bool,
    pub super_key: bool,
}

impl Modifiers {
    /// Creates a modifier state with no modifier held.
    pub fn new() -> (m: Self)
        ensures
            !m.shift && !m.ctrl && !m.alt && !m.super_key,
    {
        Modifiers { shift: false, ctrl: false, alt: false, super_key: false }
    }

    /// Whether Shift is held.
    pub fn is_shift(&self) -> (b: bool)
        ensures
            b == self.shift,
    {
        self.shift
    }

    /// Whether Ctrl is held.
    pub fn is_ctrl(&self) -> (b: bool)
        ensures
            b == self.ctrl,
    {
        self.ctrl
    }

    /// Whether Alt is held.
    pub fn is_alt(&self) -> (b: bool)
        ensures
            b == self.alt,
    {
        self.alt
    }

    /// Whether Super is held.
    pub fn is_super(&self) -> (b: bool)
        ensures
            b == self.super_key,
    {
        self.super_key
    }

    /// Whether any modifier is held.
    pub fn any(&self) -> (b: bool)
        ensures
            b == (self.shift || self.ctrl || self.alt || self.super_key),
    {
        self.shift || self.ctrl || self.alt || self.super_key
    }
}

} // verus!
