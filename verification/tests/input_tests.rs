use spottedcat::gamepad::{GamepadAxis, GamepadButton, GamepadId};
use spottedcat::input::{ElementState, ImeEvent, InputManager, Key, MouseButton, TouchPhase};
use spottedcat::pt::Pt;

fn pt(v: f32) -> Pt {
    Pt::from_bits(v.to_bits())
}

#[test]
fn losing_focus_clears_active_touches() {
    let mut input = InputManager::new();
    input.handle_touch_raw(7, (pt(12.0), pt(24.0)), TouchPhase::Started);

    assert_eq!(input.touches().len(), 1);

    input.handle_focus(false);

    assert!(input.touches().is_empty());
}

#[test]
fn clear_transient_state_preserves_focus_flag() {
    let mut input = InputManager::new();
    input.handle_focus(true);
    input.handle_touch_raw(7, (pt(12.0), pt(24.0)), TouchPhase::Started);

    input.clear_transient_state();

    assert!(input.is_focused());
    assert!(input.touches().is_empty());
}

#[test]
fn gamepad_button_edges_and_axes_are_tracked() {
    let mut input = InputManager::new();
    let id = GamepadId(0);

    input.handle_gamepad_connected(id, "pad".to_string());
    input.handle_gamepad_button(id, GamepadButton::South, true);
    input.handle_gamepad_axis(id, GamepadAxis::LeftX, 0.75f32.to_bits());

    assert!(input.gamepad_connected(id));
    assert!(input.gamepad_button_down(id, GamepadButton::South));
    assert!(input.gamepad_button_pressed(id, GamepadButton::South));
    assert_eq!(f32::from_bits(input.gamepad_axis(id, GamepadAxis::LeftX)), 0.75);

    input.end_frame();

    assert!(input.gamepad_button_down(id, GamepadButton::South));
    assert!(!input.gamepad_button_pressed(id, GamepadButton::South));

    input.handle_gamepad_button(id, GamepadButton::South, false);

    assert!(!input.gamepad_button_down(id, GamepadButton::South));
    assert!(input.gamepad_button_released(id, GamepadButton::South));

    input.handle_gamepad_disconnected(id);

    assert!(!input.gamepad_connected(id));
    assert_eq!(f32::from_bits(input.gamepad_axis(id, GamepadAxis::LeftX)), 0.0);
}

#[test]
fn key_press_and_release_edges() {
    let mut input = InputManager::new();
    let key = Key::from_index(70).unwrap();
    input.handle_keyboard_input(ElementState::Pressed, key);
    assert!(input.key_down(key) && input.key_pressed(key) && !input.key_released(key));
    input.handle_keyboard_input(ElementState::Pressed, key);
    assert!(input.key_pressed(key));
    input.end_frame();
    assert!(input.key_down(key) && !input.key_pressed(key));
    input.handle_keyboard_input(ElementState::Released, key);
    assert!(!input.key_down(key) && input.key_released(key));
    assert!(Key::from_index(128).is_none());
}

#[test]
fn mouse_buttons_including_other_codes() {
    let mut input = InputManager::new();
    input.handle_mouse_input(ElementState::Pressed, MouseButton::Left);
    input.handle_mouse_input(ElementState::Pressed, MouseButton::Other(9));
    assert!(input.mouse_down(MouseButton::Left) && input.mouse_pressed(MouseButton::Left));
    assert!(input.mouse_down(MouseButton::Other(9)));
    assert!(!input.mouse_down(MouseButton::Right));
    input.handle_mouse_input(ElementState::Released, MouseButton::Other(9));
    assert!(!input.mouse_down(MouseButton::Other(9)) && input.mouse_released(MouseButton::Other(9)));
}

#[test]
fn text_and_ime_input() {
    let mut input = InputManager::new();
    input.set_text_input_enabled(true);
    assert!(input.text_input_enabled());
    input.handle_ime(ImeEvent::Preedit("ka".to_string()));
    assert_eq!(input.ime_preedit(), Some("ka"));
    input.handle_ime(ImeEvent::Commit("か".to_string()));
    assert_eq!(input.text_input(), "か");
    assert_eq!(input.ime_preedit(), None);
}

#[test]
fn cursor_position_follows_moves() {
    let mut input = InputManager::new();
    assert!(input.cursor_position().is_none());
    input.handle_cursor_moved(pt(3.0), pt(4.0));
    assert_eq!(input.cursor_position(), Some((pt(3.0), pt(4.0))));
}

#[test]
fn touches_end_and_move() {
    let mut input = InputManager::new();
    input.handle_touch_raw(1, (pt(1.0), pt(1.0)), TouchPhase::Started);
    input.handle_touch_raw(2, (pt(2.0), pt(2.0)), TouchPhase::Started);
    input.handle_touch_raw(1, (pt(5.0), pt(5.0)), TouchPhase::Moved);
    assert_eq!(input.touches().len(), 2);
    input.handle_touch_raw(2, (pt(2.0), pt(2.0)), TouchPhase::Ended);
    assert_eq!(input.touches().len(), 1);
    assert_eq!(input.touches()[0].id, 1);
    assert_eq!(input.touches()[0].position, (pt(5.0), pt(5.0)));
}

#[test]
fn received_control_characters_are_dropped() {
    let mut input = InputManager::new();
    input.set_text_input_enabled(true);
    input.handle_received_character('\n');
    input.handle_received_character('\u{8}');
    input.handle_received_character('\u{7f}');
    input.handle_received_character('\u{9f}');
    assert_eq!(input.text_input(), "");
    input.handle_received_character('a');
    input.handle_received_character(' ');
    input.handle_received_character('\u{a0}');
    input.handle_received_character('é');
    assert_eq!(input.text_input(), "a \u{a0}é");
}
