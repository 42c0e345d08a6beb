use jlh_maps::web_input::{
    button_state, keyboard_text, scroll_unit, text_eq, web_key_code, web_logical_key, web_mouse_button,
    ButtonState, Key, KeyCode, MouseButton, MouseScrollUnit,
};

#[test]
fn key_codes_map_to_physical_keys() {
    assert_eq!(web_key_code("KeyW"), KeyCode::KeyW);
    assert_eq!(web_key_code("ArrowUp"), KeyCode::ArrowUp);
    assert_eq!(web_key_code("F12"), KeyCode::F12);
    assert_eq!(web_key_code("MetaLeft"), KeyCode::SuperLeft);
    assert_eq!(web_key_code("MetaRight"), KeyCode::SuperRight);
    assert_eq!(web_key_code("Numpad1"), KeyCode::Unidentified);
    assert_eq!(web_key_code(""), KeyCode::Unidentified);
    assert_eq!(web_key_code("keyw"), KeyCode::Unidentified);
}

#[test]
fn key_values_map_to_named_or_character_keys() {
    assert_eq!(web_logical_key("Shift"), Key::Shift);
    assert_eq!(web_logical_key("F1"), Key::F1);
    assert_eq!(web_logical_key(""), Key::Unidentified);
    assert_eq!(web_logical_key("a"), Key::Character("a".to_string()));
    assert_eq!(web_logical_key("PageDown"), Key::Character("PageDown".to_string()));
}

#[test]
fn only_pressed_character_keys_type_text() {
    assert_eq!(keyboard_text(&Key::Character("é".to_string()), true), Some("é".to_string()));
    assert_eq!(keyboard_text(&Key::Character("a".to_string()), false), None);
    assert_eq!(keyboard_text(&Key::Enter, true), None);
}

#[test]
fn mouse_buttons_states_and_units() {
    assert_eq!(web_mouse_button(0), MouseButton::Left);
    assert_eq!(web_mouse_button(1), MouseButton::Middle);
    assert_eq!(web_mouse_button(2), MouseButton::Right);
    assert_eq!(web_mouse_button(3), MouseButton::Back);
    assert_eq!(web_mouse_button(4), MouseButton::Forward);
    assert_eq!(web_mouse_button(7), MouseButton::Other(7));
    assert_eq!(web_mouse_button(-1), MouseButton::Other(u16::MAX));
    assert_eq!(button_state(true), ButtonState::Pressed);
    assert_eq!(button_state(false), ButtonState::Released);
    assert_eq!(scroll_unit(1), MouseScrollUnit::Line);
    assert_eq!(scroll_unit(0), MouseScrollUnit::Pixel);
    assert_eq!(scroll_unit(2), MouseScrollUnit::Pixel);
}

#[test]
fn texts_compare_by_content() {
    assert!(text_eq("Tab", "Tab"));
    assert!(!text_eq("Tab", "Ta"));
    assert!(!text_eq("Tab", "tab"));
}
