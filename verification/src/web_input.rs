//! Browser input events as the map view receives them: DOM key codes and
//! key values, mouse buttons, button states and wheel units, read into the
//! library's own input types.
use vstd::prelude::*;
use vstd::string::StringSliceAdditionalSpecFns;
use vstd::utf8::encode_utf8_decode_utf8;

verus! {

/// Whether two texts are the same.
pub fn text_eq(a: &str, b: &str) -> (same: bool)
    ensures
        same == (a@ == b@),
{
    let x = a.as_bytes();
    let y = b.as_bytes();
    proof {
        encode_utf8_decode_utf8(a@);
        encode_utf8_decode_utf8(b@);
    }
    if x.len() != y.len() {
        return false;
    }
    let mut i: usize = 0;
    while i < x.len()
        invariant
            x@ == a.spec_bytes(),
            y@ == b.spec_bytes(),
            x@.len() == y@.len(),
            i <= x@.len(),
            forall|j: int| 0 <= j < i ==> x@[j] == y@[j],
        decreases x@.len() - i,
    {
        if x[i] != y[i] {
            return false;
        }
        i = i + 1;
    }
    proof {
        assert(x@ =~= y@);
    }
    true
}

/// Whether a button is down or up.
#[derive(Debug, Clone, Copy, PartialEq, Eq, Structural)]
pub enum ButtonState {
    Pressed,
    Released,
}

/// `Pressed` for a pressed button, else `Released`.
pub fn button_state(pressed: bool) -> (state: ButtonState)
    ensures
        state == (if pressed { ButtonState::Pressed } else { ButtonState::Released }),
{
    if pressed {
        ButtonState::Pressed
    } else {
        ButtonState::Released
    }
}

/// A mouse button.
#[derive(Debug, Clone, Copy, PartialEq, Eq, Structural)]
pub enum MouseButton {
    Left,
    Middle,
    Right,
    Back,
    Forward,
    Other(u16),
}

/// The button of a DOM `MouseEvent.button` number; numbers past the five
/// named buttons keep their bits as `Other`.
pub fn web_mouse_button(button: i16) -> (mouse_button: MouseButton)
    ensures
        mouse_button == match button {
            0 => MouseButton::Left,
            1 => MouseButton::Middle,
            2 => MouseButton::Right,
            3 => MouseButton::Back,
            4 => MouseButton::Forward,
            _ => MouseButton::Other(button as u16),
        },
{
    match button {
        0 => MouseButton::Left,
        1 => MouseButton::Middle,
        2 => MouseButton::Right,
        3 => MouseButton::Back,
        4 => MouseButton::Forward,
        other => MouseButton::Other(other as u16),
    }
}

/// What a wheel delta is counted in.
#[derive(Debug, Clone, Copy, PartialEq, Eq, Structural)]
pub enum MouseScrollUnit {
    Line,
    Pixel,
}

/// The unit of a DOM `WheelEvent.deltaMode`: lines for mode 1, pixels
/// otherwise.
pub fn scroll_unit(delta_mode: u32) -> (unit: MouseScrollUnit)
    ensures
        unit == (if delta_mode == 1 { MouseScrollUnit::Line } else { MouseScrollUnit::Pixel }),
{
    if delta_mode == 1 {
        MouseScrollUnit::Line
    } else {
        MouseScrollUnit::Pixel
    }
}

/// A physical key, as the map view tells keys apart.
#[derive(Debug, Clone, Copy, PartialEq, Eq, Structural)]
pub enum KeyCode {
    Backspace,
    Delete,
    Enter,
    Escape,
    F1,
    F2,
    F3,
    F4,
    F5,
    F6,
    F7,
    F8,
    F9,
    F10,
    F11,
    F12,
    KeyA,
    KeyB,
    KeyC,
    KeyD,
    KeyE,
    KeyF,
    KeyG,
    KeyH,
    KeyI,
    KeyJ,
    KeyK,
    KeyL,
    KeyM,
    KeyN,
    KeyO,
    KeyP,
    KeyQ,
    KeyR,
    KeyS,
    KeyT,
    KeyU,
    KeyV,
    KeyW,
    KeyX,
    KeyY,
    KeyZ,
    Space,
    Tab,
    ArrowDown,
    ArrowLeft,
    ArrowRight,
    ArrowUp,
    ShiftLeft,
    ShiftRight,
    ControlLeft,
    ControlRight,
    AltLeft,
    AltRight,
    SuperLeft,
    SuperRight,
    Unidentified,
}

/// The key of a DOM `KeyboardEvent.code`; codes the map view does not use
/// are `Unidentified`.
pub open spec fn web_key_code_spec(code: Seq<char>) -> KeyCode {
    if code == "Backspace"@ {
        KeyCode::Backspace
    } else if code == "Delete"@ {
        KeyCode::Delete
    } else if code == "Enter"@ {
        KeyCode::Enter
    } else if code == "Escape"@ {
        KeyCode::Escape
    } else if code == "F1"@ {
        KeyCode::F1
    } else if code == "F2"@ {
        KeyCode::F2
    } else if code == "F3"@ {
        KeyCode::F3
    } else if code == "F4"@ {
        KeyCode::F4
    } else if code == "F5"@ {
        KeyCode::F5
    } else if code == "F6"@ {
        KeyCode::F6
    } else if code == "F7"@ {
        KeyCode::F7
    } else if code == "F8"@ {
        KeyCode::F8
    } else if code == "F9"@ {
        KeyCode::F9
    } else if code == "F10"@ {
        KeyCode::F10
    } else if code == "F11"@ {
        KeyCode::F11
    } else if code == "F12"@ {
        KeyCode::F12
    } else if code == "KeyA"@ {
        KeyCode::KeyA
    } else if code == "KeyB"@ {
        KeyCode::KeyB
    } else if code == "KeyC"@ {
        KeyCode::KeyC
    } else if code == "KeyD"@ {
        KeyCode::KeyD
    } else if code == "KeyE"@ {
        KeyCode::KeyE
    } else if code == "KeyF"@ {
        KeyCode::KeyF
    } else if code == "KeyG"@ {
        KeyCode::KeyG
    } else if code == "KeyH"@ {
        KeyCode::KeyH
    } else if code == "KeyI"@ {
        KeyCode::KeyI
    } else if code == "KeyJ"@ {
        KeyCode::KeyJ
    } else if code == "KeyK"@ {
        KeyCode::KeyK
    } else if code == "KeyL"@ {
        KeyCode::KeyL
    } else if code == "KeyM"@ {
        KeyCode::KeyM
    } else if code == "KeyN"@ {
        KeyCode::KeyN
    } else if code == "KeyO"@ {
        KeyCode::KeyO
    } else if code == "KeyP"@ {
        KeyCode::KeyP
    } else if code == "KeyQ"@ {
        KeyCode::KeyQ
    } else if code == "KeyR"@ {
        KeyCode::KeyR
    } else if code == "KeyS"@ {
        KeyCode::KeyS
    } else if code == "KeyT"@ {
        KeyCode::KeyT
    } else if code == "KeyU"@ {
        KeyCode::KeyU
    } else if code == "KeyV"@ {
        KeyCode::KeyV
    } else if code == "KeyW"@ {
        KeyCode::KeyW
    } else if code == "KeyX"@ {
        KeyCode::KeyX
    } else if code == "KeyY"@ {
        KeyCode::KeyY
    } else if code == "KeyZ"@ {
        KeyCode::KeyZ
    } else if code == "Space"@ {
        KeyCode::Space
    } else if code == "Tab"@ {
        KeyCode::Tab
    } else if code == "ArrowDown"@ {
        KeyCode::ArrowDown
    } else if code == "ArrowLeft"@ {
        KeyCode::ArrowLeft
    } else if code == "ArrowRight"@ {
        KeyCode::ArrowRight
    } else if code == "ArrowUp"@ {
        KeyCode::ArrowUp
    } else if code == "ShiftLeft"@ {
        KeyCode::ShiftLeft
    } else if code == "ShiftRight"@ {
        KeyCode::ShiftRight
    } else if code == "ControlLeft"@ {
        KeyCode::ControlLeft
    } else if code == "ControlRight"@ {
        KeyCode::ControlRight
    } else if code == "AltLeft"@ {
        KeyCode::AltLeft
    } else if code == "AltRight"@ {
        KeyCode::AltRight
    } else if code == "MetaLeft"@ {
        KeyCode::SuperLeft
    } else if code == "MetaRight"@ {
        KeyCode::SuperRight
    } else {
        KeyCode::Unidentified
    }
}

/// Reads a DOM `KeyboardEvent.code`.
pub fn web_key_code(code: &str) -> (key_code: KeyCode)
    ensures
        key_code == web_key_code_spec(code@),
{
    if text_eq(code, "Backspace") {
        return KeyCode::Backspace;
    }
    if text_eq(code, "Delete") {
        return KeyCode::Delete;
    }
    if text_eq(code, "Enter") {
        return KeyCode::Enter;
    }
    if text_eq(code, "Escape") {
        return KeyCode::Escape;
    }
    if text_eq(code, "F1") {
        return KeyCode::F1;
    }
    if text_eq(code, "F2") {
        return KeyCode::F2;
    }
    if text_eq(code, "F3") {
        return KeyCode::F3;
    }
    if text_eq(code, "F4") {
        return KeyCode::F4;
    }
    if text_eq(code, "F5") {
        return KeyCode::F5;
    }
    if text_eq(code, "F6") {
        return KeyCode::F6;
    }
    if text_eq(code, "F7") {
        return KeyCode::F7;
    }
    if text_eq(code, "F8") {
        return KeyCode::F8;
    }
    if text_eq(code, "F9") {
        return KeyCode::F9;
    }
    if text_eq(code, "F10") {
        return KeyCode::F10;
    }
    if text_eq(code, "F11") {
        return KeyCode::F11;
    }
    if text_eq(code, "F12") {
        return KeyCode::F12;
    }
    if text_eq(code, "KeyA") {
        return KeyCode::KeyA;
    }
    if text_eq(code, "KeyB") {
        return KeyCode::KeyB;
    }
    if text_eq(code, "KeyC") {
        return KeyCode::KeyC;
    }
    if text_eq(code, "KeyD") {
        return KeyCode::KeyD;
    }
    if text_eq(code, "KeyE") {
        return KeyCode::KeyE;
    }
    if text_eq(code, "KeyF") {
        return KeyCode::KeyF;
    }
    if text_eq(code, "KeyG") {
        return KeyCode::KeyG;
    }
    if text_eq(code, "KeyH") {
        return KeyCode::KeyH;
    }
    if text_eq(code, "KeyI") {
        return KeyCode::KeyI;
    }
    if text_eq(code, "KeyJ") {
        return KeyCode::KeyJ;
    }
    if text_eq(code, "KeyK") {
        return KeyCode::KeyK;
    }
    if text_eq(code, "KeyL") {
        return KeyCode::KeyL;
    }
    if text_eq(code, "KeyM") {
        return KeyCode::KeyM;
    }
    if text_eq(code, "KeyN") {
        return KeyCode::KeyN;
    }
    if text_eq(code, "KeyO") {
        return KeyCode::KeyO;
    }
    if text_eq(code, "KeyP") {
        return KeyCode::KeyP;
    }
    if text_eq(code, "KeyQ") {
        return KeyCode::KeyQ;
    }
    if text_eq(code, "KeyR") {
        return KeyCode::KeyR;
    }
    if text_eq(code, "KeyS") {
        return KeyCode::KeyS;
    }
    if text_eq(code, "KeyT") {
        return KeyCode::KeyT;
    }
    if text_eq(code, "KeyU") {
        return KeyCode::KeyU;
    }
    if text_eq(code, "KeyV") {
        return KeyCode::KeyV;
    }
    if text_eq(code, "KeyW") {
        return KeyCode::KeyW;
    }
    if text_eq(code, "KeyX") {
        return KeyCode::KeyX;
    }
    if text_eq(code, "KeyY") {
        return KeyCode::KeyY;
    }
    if text_eq(code, "KeyZ") {
        return KeyCode::KeyZ;
    }
    if text_eq(code, "Space") {
        return KeyCode::Space;
    }
    if text_eq(code, "Tab") {
        return KeyCode::Tab;
    }
    if text_eq(code, "ArrowDown") {
        return KeyCode::ArrowDown;
    }
    if text_eq(code, "ArrowLeft") {
        return KeyCode::ArrowLeft;
    }
    if text_eq(code, "ArrowRight") {
        return KeyCode::ArrowRight;
    }
    if text_eq(code, "ArrowUp") {
        return KeyCode::ArrowUp;
    }
    if text_eq(code, "ShiftLeft") {
        return KeyCode::ShiftLeft;
    }
    if text_eq(code, "ShiftRight") {
        return KeyCode::ShiftRight;
    }
    if text_eq(code, "ControlLeft") {
        return KeyCode::ControlLeft;
    }
    if text_eq(code, "ControlRight") {
        return KeyCode::ControlRight;
    }
    if text_eq(code, "AltLeft") {
        return KeyCode::AltLeft;
    }
    if text_eq(code, "AltRight") {
        return KeyCode::AltRight;
    }
    if text_eq(code, "MetaLeft") {
        return KeyCode::SuperLeft;
    }
    if text_eq(code, "MetaRight") {
        return KeyCode::SuperRight;
    }
    KeyCode::Unidentified
}

/// A key by what it means: a named key, a character, or nothing known.
#[derive(Debug, Clone, PartialEq, Eq)]
pub enum Key {
    Alt,
    Backspace,
    Control,
    Delete,
    Enter,
    Escape,
    Meta,
    Shift,
    Tab,
    ArrowDown,
    ArrowLeft,
    ArrowRight,
    ArrowUp,
    F1,
    F2,
    F3,
    F4,
    F5,
    F6,
    F7,
    F8,
    F9,
    F10,
    F11,
    F12,
    Unidentified,
    Character(String),
}

/// The named key, or the unidentified one, that a DOM `KeyboardEvent.key`
/// stands for; `None` where the key value is a character.
pub open spec fn named_key(key: Seq<char>) -> Option<Key> {
    if key == "Alt"@ {
        Some(Key::Alt)
    } else if key == "Backspace"@ {
        Some(Key::Backspace)
    } else if key == "Control"@ {
        Some(Key::Control)
    } else if key == "Delete"@ {
        Some(Key::Delete)
    } else if key == "Enter"@ {
        Some(Key::Enter)
    } else if key == "Escape"@ {
        Some(Key::Escape)
    } else if key == "Meta"@ {
        Some(Key::Meta)
    } else if key == "Shift"@ {
        Some(Key::Shift)
    } else if key == "Tab"@ {
        Some(Key::Tab)
    } else if key == "ArrowDown"@ {
        Some(Key::ArrowDown)
    } else if key == "ArrowLeft"@ {
        Some(Key::ArrowLeft)
    } else if key == "ArrowRight"@ {
        Some(Key::ArrowRight)
    } else if key == "ArrowUp"@ {
        Some(Key::ArrowUp)
    } else if key == "F1"@ {
        Some(Key::F1)
    } else if key == "F2"@ {
        Some(Key::F2)
    } else if key == "F3"@ {
        Some(Key::F3)
    } else if key == "F4"@ {
        Some(Key::F4)
    } else if key == "F5"@ {
        Some(Key::F5)
    } else if key == "F6"@ {
        Some(Key::F6)
    } else if key == "F7"@ {
        Some(Key::F7)
    } else if key == "F8"@ {
        Some(Key::F8)
    } else if key == "F9"@ {
        Some(Key::F9)
    } else if key == "F10"@ {
        Some(Key::F10)
    } else if key == "F11"@ {
        Some(Key::F11)
    } else if key == "F12"@ {
        Some(Key::F12)
    } else if key.len() == 0 {
        Some(Key::Unidentified)
    } else {
        None
    }
}

/// Reads a DOM `KeyboardEvent.key`: a named key, or else the text as a
/// character key; the empty text is unidentified.
pub fn web_logical_key(key: &str) -> (logical_key: Key)
    ensures
        named_key(key@) matches Some(k) ==> logical_key == k,
        named_key(key@) is None ==> (logical_key matches Key::Character(text) && text@ == key@),
{
    if text_eq(key, "Alt") {
        return Key::Alt;
    }
    if text_eq(key, "Backspace") {
        return Key::Backspace;
    }
    if text_eq(key, "Control") {
        return Key::Control;
    }
    if text_eq(key, "Delete") {
        return Key::Delete;
    }
    if text_eq(key, "Enter") {
        return Key::Enter;
    }
    if text_eq(key, "Escape") {
        return Key::Escape;
    }
    if text_eq(key, "Meta") {
        return Key::Meta;
    }
    if text_eq(key, "Shift") {
        return Key::Shift;
    }
    if text_eq(key, "Tab") {
        return Key::Tab;
    }
    if text_eq(key, "ArrowDown") {
        return Key::ArrowDown;
    }
    if text_eq(key, "ArrowLeft") {
        return Key::ArrowLeft;
    }
    if text_eq(key, "ArrowRight") {
        return Key::ArrowRight;
    }
    if text_eq(key, "ArrowUp") {
        return Key::ArrowUp;
    }
    if text_eq(key, "F1") {
        return Key::F1;
    }
    if text_eq(key, "F2") {
        return Key::F2;
    }
    if text_eq(key, "F3") {
        return Key::F3;
    }
    if text_eq(key, "F4") {
        return Key::F4;
    }
    if text_eq(key, "F5") {
        return Key::F5;
    }
    if text_eq(key, "F6") {
        return Key::F6;
    }
    if text_eq(key, "F7") {
        return Key::F7;
    }
    if text_eq(key, "F8") {
        return Key::F8;
    }
    if text_eq(key, "F9") {
        return Key::F9;
    }
    if text_eq(key, "F10") {
        return Key::F10;
    }
    if text_eq(key, "F11") {
        return Key::F11;
    }
    if text_eq(key, "F12") {
        return Key::F12;
    }
    if key.is_empty() {
        return Key::Unidentified;
    }
    Key::Character(key.to_owned())
}

/// The text a key event types: the character of a pressed character key,
/// nothing otherwise.
pub fn keyboard_text(logical_key: &Key, pressed: bool) -> (text: Option<String>)
    ensures
        match (logical_key, pressed) {
            (Key::Character(t), true) => text matches Some(s) && s@ == t@,
            _ => text is None,
        },
{
    match (logical_key, pressed) {
        (Key::Character(t), true) => Some(t.clone()),
        _ => None,
    }
}

/// The DOM `KeyboardEvent.code` that names each key: the key's own name,
/// and `MetaLeft` / `MetaRight` for the super keys, which browsers call
/// "Meta"; no text for an unidentified key.
pub open spec fn dom_code_of(key_code: KeyCode) -> Seq<char> {
    match key_code {
        KeyCode::Backspace => "Backspace"@,
        KeyCode::Delete => "Delete"@,
        KeyCode::Enter => "Enter"@,
        KeyCode::Escape => "Escape"@,
        KeyCode::F1 => "F1"@,
        KeyCode::F2 => "F2"@,
        KeyCode::F3 => "F3"@,
        KeyCode::F4 => "F4"@,
        KeyCode::F5 => "F5"@,
        KeyCode::F6 => "F6"@,
        KeyCode::F7 => "F7"@,
        KeyCode::F8 => "F8"@,
        KeyCode::F9 => "F9"@,
        KeyCode::F10 => "F10"@,
        KeyCode::F11 => "F11"@,
        KeyCode::F12 => "F12"@,
        KeyCode::KeyA => "KeyA"@,
        KeyCode::KeyB => "KeyB"@,
        KeyCode::KeyC => "KeyC"@,
        KeyCode::KeyD => "KeyD"@,
        KeyCode::KeyE => "KeyE"@,
        KeyCode::KeyF => "KeyF"@,
        KeyCode::KeyG => "KeyG"@,
        KeyCode::KeyH => "KeyH"@,
        KeyCode::KeyI => "KeyI"@,
        KeyCode::KeyJ => "KeyJ"@,
        KeyCode::KeyK => "KeyK"@,
        KeyCode::KeyL => "KeyL"@,
        KeyCode::KeyM => "KeyM"@,
        KeyCode::KeyN => "KeyN"@,
        KeyCode::KeyO => "KeyO"@,
        KeyCode::KeyP => "KeyP"@,
        KeyCode::KeyQ => "KeyQ"@,
        KeyCode::KeyR => "KeyR"@,
        KeyCode::KeyS => "KeyS"@,
        KeyCode::KeyT => "KeyT"@,
        KeyCode::KeyU => "KeyU"@,
        KeyCode::KeyV => "KeyV"@,
        KeyCode::KeyW => "KeyW"@,
        KeyCode::KeyX => "KeyX"@,
        KeyCode::KeyY => "KeyY"@,
        KeyCode::KeyZ => "KeyZ"@,
        KeyCode::Space => "Space"@,
        KeyCode::Tab => "Tab"@,
        KeyCode::ArrowDown => "ArrowDown"@,
        KeyCode::ArrowLeft => "ArrowLeft"@,
        KeyCode::ArrowRight => "ArrowRight"@,
        KeyCode::ArrowUp => "ArrowUp"@,
        KeyCode::ShiftLeft => "ShiftLeft"@,
        KeyCode::ShiftRight => "ShiftRight"@,
        KeyCode::ControlLeft => "ControlLeft"@,
        KeyCode::ControlRight => "ControlRight"@,
        KeyCode::AltLeft => "AltLeft"@,
        KeyCode::AltRight => "AltRight"@,
        KeyCode::SuperLeft => "MetaLeft"@,
        KeyCode::SuperRight => "MetaRight"@,
        KeyCode::Unidentified => Seq::empty(),
    }
}

/// A DOM key code is read as the key it names: whenever a code is read as
/// an identified key, the code is that key's name, so distinct codes never
/// give the same key.
pub proof fn lemma_key_code_is_named_key(code: Seq<char>)
    ensures
        web_key_code_spec(code) != KeyCode::Unidentified ==> code == dom_code_of(web_key_code_spec(code)),
{
}

/// Two codes read as the same identified key are the same code.
pub proof fn lemma_key_codes_distinct(a: Seq<char>, b: Seq<char>)
    requires
        web_key_code_spec(a) != KeyCode::Unidentified,
        web_key_code_spec(a) == web_key_code_spec(b),
    ensures
        a == b,
{
    lemma_key_code_is_named_key(a);
    lemma_key_code_is_named_key(b);
}

/// Every key the map view tells apart is read from its own name.
pub proof fn lemma_every_key_code_is_read(key_code: KeyCode)
    requires
        key_code != KeyCode::Unidentified,
    ensures
        web_key_code_spec(dom_code_of(key_code)) == key_code,
{
    reveal_strlit("Backspace");
    assert("Backspace"@ =~= seq!['B', 'a', 'c', 'k', 's', 'p', 'a', 'c', 'e']);
    reveal_strlit("Delete");
    assert("Delete"@ =~= seq!['D', 'e', 'l', 'e', 't', 'e']);
    reveal_strlit("Enter");
    assert("Enter"@ =~= seq!['E', 'n', 't', 'e', 'r']);
    reveal_strlit("Escape");
    assert("Escape"@ =~= seq!['E', 's', 'c', 'a', 'p', 'e']);
    reveal_strlit("F1");
    assert("F1"@ =~= seq!['F', '1']);
    reveal_strlit("F2");
    assert("F2"@ =~= seq!['F', '2']);
    reveal_strlit("F3");
    assert("F3"@ =~= seq!['F', '3']);
    reveal_strlit("F4");
    assert("F4"@ =~= seq!['F', '4']);
    reveal_strlit("F5");
    assert("F5"@ =~= seq!['F', '5']);
    reveal_strlit("F6");
    assert("F6"@ =~= seq!['F', '6']);
    reveal_strlit("F7");
    assert("F7"@ =~= seq!['F', '7']);
    reveal_strlit("F8");
    assert("F8"@ =~= seq!['F', '8']);
    reveal_strlit("F9");
    assert("F9"@ =~= seq!['F', '9']);
    reveal_strlit("F10");
    assert("F10"@ =~= seq!['F', '1', '0']);
    reveal_strlit("F11");
    assert("F11"@ =~= seq!['F', '1', '1']);
    reveal_strlit("F12");
    assert("F12"@ =~= seq!['F', '1', '2']);
    reveal_strlit("KeyA");
    assert("KeyA"@ =~= seq!['K', 'e', 'y', 'A']);
    reveal_strlit("KeyB");
    assert("KeyB"@ =~= seq!['K', 'e', 'y', 'B']);
    reveal_strlit("KeyC");
    assert("KeyC"@ =~= seq!['K', 'e', 'y', 'C']);
    reveal_strlit("KeyD");
    assert("KeyD"@ =~= seq!['K', 'e', 'y', 'D']);
    reveal_strlit("KeyE");
    assert("KeyE"@ =~= seq!['K', 'e', 'y', 'E']);
    reveal_strlit("KeyF");
    assert("KeyF"@ =~= seq!['K', 'e', 'y', 'F']);
    reveal_strlit("KeyG");
    assert("KeyG"@ =~= seq!['K', 'e', 'y', 'G']);
    reveal_strlit("KeyH");
    assert("KeyH"@ =~= seq!['K', 'e', 'y', 'H']);
    reveal_strlit("KeyI");
    assert("KeyI"@ =~= seq!['K', 'e', 'y', 'I']);
    reveal_strlit("KeyJ");
    assert("KeyJ"@ =~= seq!['K', 'e', 'y', 'J']);
    reveal_strlit("KeyK");
    assert("KeyK"@ =~= seq!['K', 'e', 'y', 'K']);
    reveal_strlit("KeyL");
    assert("KeyL"@ =~= seq!['K', 'e', 'y', 'L']);
    reveal_strlit("KeyM");
    assert("KeyM"@ =~= seq!['K', 'e', 'y', 'M']);
    reveal_strlit("KeyN");
    assert("KeyN"@ =~= seq!['K', 'e', 'y', 'N']);
    reveal_strlit("KeyO");
    assert("KeyO"@ =~= seq!['K', 'e', 'y', 'O']);
    reveal_strlit("KeyP");
    assert("KeyP"@ =~= seq!['K', 'e', 'y', 'P']);
    reveal_strlit("KeyQ");
    assert("KeyQ"@ =~= seq!['K', 'e', 'y', 'Q']);
    reveal_strlit("KeyR");
    assert("KeyR"@ =~= seq!['K', 'e', 'y', 'R']);
    reveal_strlit("KeyS");
    assert("KeyS"@ =~= seq!['K', 'e', 'y', 'S']);
    reveal_strlit("KeyT");
    assert("KeyT"@ =~= seq!['K', 'e', 'y', 'T']);
    reveal_strlit("KeyU");
    assert("KeyU"@ =~= seq!['K', 'e', 'y', 'U']);
    reveal_strlit("KeyV");
    assert("KeyV"@ =~= seq!['K', 'e', 'y', 'V']);
    reveal_strlit("KeyW");
    assert("KeyW"@ =~= seq!['K', 'e', 'y', 'W']);
    reveal_strlit("KeyX");
    assert("KeyX"@ =~= seq!['K', 'e', 'y', 'X']);
    reveal_strlit("KeyY");
    assert("KeyY"@ =~= seq!['K', 'e', 'y', 'Y']);
    reveal_strlit("KeyZ");
    assert("KeyZ"@ =~= seq!['K', 'e', 'y', 'Z']);
    reveal_strlit("Space");
    assert("Space"@ =~= seq!['S', 'p', 'a', 'c', 'e']);
    reveal_strlit("Tab");
    assert("Tab"@ =~= seq!['T', 'a', 'b']);
    reveal_strlit("ArrowDown");
    assert("ArrowDown"@ =~= seq!['A', 'r', 'r', 'o', 'w', 'D', 'o', 'w', 'n']);
    reveal_strlit("ArrowLeft");
    assert("ArrowLeft"@ =~= seq!['A', 'r', 'r', 'o', 'w', 'L', 'e', 'f', 't']);
    reveal_strlit("ArrowRight");
    assert("ArrowRight"@ =~= seq!['A', 'r', 'r', 'o', 'w', 'R', 'i', 'g', 'h', 't']);
    reveal_strlit("ArrowUp");
    assert("ArrowUp"@ =~= seq!['A', 'r', 'r', 'o', 'w', 'U', 'p']);
    reveal_strlit("ShiftLeft");
    assert("ShiftLeft"@ =~= seq!['S', 'h', 'i', 'f', 't', 'L', 'e', 'f', 't']);
    reveal_strlit("ShiftRight");
    assert("ShiftRight"@ =~= seq!['S', 'h', 'i', 'f', 't', 'R', 'i', 'g', 'h', 't']);
    reveal_strlit("ControlLeft");
    assert("ControlLeft"@ =~= seq!['C', 'o', 'n', 't', 'r', 'o', 'l', 'L', 'e', 'f', 't']);
    reveal_strlit("ControlRight");
    assert("ControlRight"@ =~= seq!['C', 'o', 'n', 't', 'r', 'o', 'l', 'R', 'i', 'g', 'h', 't']);
    reveal_strlit("AltLeft");
    assert("AltLeft"@ =~= seq!['A', 'l', 't', 'L', 'e', 'f', 't']);
    reveal_strlit("AltRight");
    assert("AltRight"@ =~= seq!['A', 'l', 't', 'R', 'i', 'g', 'h', 't']);
    reveal_strlit("MetaLeft");
    assert("MetaLeft"@ =~= seq!['M', 'e', 't', 'a', 'L', 'e', 'f', 't']);
    reveal_strlit("MetaRight");
    assert("MetaRight"@ =~= seq!['M', 'e', 't', 'a', 'R', 'i', 'g', 'h', 't']);
}

/// The DOM `KeyboardEvent.key` text of each named key: the key's own name;
/// no text for the unidentified key and for a character key.
pub open spec fn dom_key_of(key: Key) -> Seq<char> {
    match key {
        Key::Alt => "Alt"@,
        Key::Backspace => "Backspace"@,
        Key::Control => "Control"@,
        Key::Delete => "Delete"@,
        Key::Enter => "Enter"@,
        Key::Escape => "Escape"@,
        Key::Meta => "Meta"@,
        Key::Shift => "Shift"@,
        Key::Tab => "Tab"@,
        Key::ArrowDown => "ArrowDown"@,
        Key::ArrowLeft => "ArrowLeft"@,
        Key::ArrowRight => "ArrowRight"@,
        Key::ArrowUp => "ArrowUp"@,
        Key::F1 => "F1"@,
        Key::F2 => "F2"@,
        Key::F3 => "F3"@,
        Key::F4 => "F4"@,
        Key::F5 => "F5"@,
        Key::F6 => "F6"@,
        Key::F7 => "F7"@,
        Key::F8 => "F8"@,
        Key::F9 => "F9"@,
        Key::F10 => "F10"@,
        Key::F11 => "F11"@,
        Key::F12 => "F12"@,
        Key::Unidentified => Seq::empty(),
        Key::Character(_) => Seq::empty(),
    }
}

/// A DOM key value is read as the named key of the same name, the empty
/// value as the unidentified key, and any other value as that text typed.
pub proof fn lemma_key_value_is_named_key(key: Seq<char>)
    ensures
        named_key(key) matches Some(k) ==> !(k is Character) && key == dom_key_of(k),
{
}

/// Two key values read as the same named key are the same value.
pub proof fn lemma_key_values_distinct(a: Seq<char>, b: Seq<char>)
    requires
        named_key(a) is Some,
        named_key(a) == named_key(b),
    ensures
        a == b,
{
    lemma_key_value_is_named_key(a);
    lemma_key_value_is_named_key(b);
}

/// Every named key is read from its own name.
pub proof fn lemma_every_named_key_is_read(key: Key)
    requires
        !(key is Character),
    ensures
        named_key(dom_key_of(key)) == Some(key),
{
    reveal_strlit("Alt");
    assert("Alt"@ =~= seq!['A', 'l', 't']);
    reveal_strlit("Backspace");
    assert("Backspace"@ =~= seq!['B', 'a', 'c', 'k', 's', 'p', 'a', 'c', 'e']);
    reveal_strlit("Control");
    assert("Control"@ =~= seq!['C', 'o', 'n', 't', 'r', 'o', 'l']);
    reveal_strlit("Delete");
    assert("Delete"@ =~= seq!['D', 'e', 'l', 'e', 't', 'e']);
    reveal_strlit("Enter");
    assert("Enter"@ =~= seq!['E', 'n', 't', 'e', 'r']);
    reveal_strlit("Escape");
    assert("Escape"@ =~= seq!['E', 's', 'c', 'a', 'p', 'e']);
    reveal_strlit("Meta");
    assert("Meta"@ =~= seq!['M', 'e', 't', 'a']);
    reveal_strlit("Shift");
    assert("Shift"@ =~= seq!['S', 'h', 'i', 'f', 't']);
    reveal_strlit("Tab");
    assert("Tab"@ =~= seq!['T', 'a', 'b']);
    reveal_strlit("ArrowDown");
    assert("ArrowDown"@ =~= seq!['A', 'r', 'r', 'o', 'w', 'D', 'o', 'w', 'n']);
    reveal_strlit("ArrowLeft");
    assert("ArrowLeft"@ =~= seq!['A', 'r', 'r', 'o', 'w', 'L', 'e', 'f', 't']);
    reveal_strlit("ArrowRight");
    assert("ArrowRight"@ =~= seq!['A', 'r', 'r', 'o', 'w', 'R', 'i', 'g', 'h', 't']);
    reveal_strlit("ArrowUp");
    assert("ArrowUp"@ =~= seq!['A', 'r', 'r', 'o', 'w', 'U', 'p']);
    reveal_strlit("F1");
    assert("F1"@ =~= seq!['F', '1']);
    reveal_strlit("F2");
    assert("F2"@ =~= seq!['F', '2']);
    reveal_strlit("F3");
    assert("F3"@ =~= seq!['F', '3']);
    reveal_strlit("F4");
    assert("F4"@ =~= seq!['F', '4']);
    reveal_strlit("F5");
    assert("F5"@ =~= seq!['F', '5']);
    reveal_strlit("F6");
    assert("F6"@ =~= seq!['F', '6']);
    reveal_strlit("F7");
    assert("F7"@ =~= seq!['F', '7']);
    reveal_strlit("F8");
    assert("F8"@ =~= seq!['F', '8']);
    reveal_strlit("F9");
    assert("F9"@ =~= seq!['F', '9']);
    reveal_strlit("F10");
    assert("F10"@ =~= seq!['F', '1', '0']);
    reveal_strlit("F11");
    assert("F11"@ =~= seq!['F', '1', '1']);
    reveal_strlit("F12");
    assert("F12"@ =~= seq!['F', '1', '2']);
}

} // verus!
