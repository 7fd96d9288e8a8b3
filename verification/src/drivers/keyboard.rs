use vstd::prelude::*;
use crate::interrupts::idt::{gate, InterruptDescriptorTable};
use crate::interrupts::isr::{INTERRUPT_GATE, KERNEL_CS};

verus! {

/// The keys of a keyboard, in the order of their scan codes (set 1): the
/// `n`th variant is the key whose scan code is `n`.
#[derive(Debug, Clone, Copy, PartialEq, Eq, Structural)]
pub enum KeyCode {
    /// Scan code 0.
    KeyReserved,
    /// Scan code 1.
    KeyEsc,
    /// Scan code 2.
    Key1,
    /// Scan code 3.
    Key2,
    /// Scan code 4.
    Key3,
    /// Scan code 5.
    Key4,
    /// Scan code 6.
    Key5,
    /// Scan code 7.
    Key6,
    /// Scan code 8.
    Key7,
    /// Scan code 9.
    Key8,
    /// Scan code 10.
    Key9,
    /// Scan code 11.
    Key0,
    /// Scan code 12.
    KeyMinus,
    /// Scan code 13.
    KeyEqual,
    /// Scan code 14.
    KeyBackspace,
    /// Scan code 15.
    KeyTab,
    /// Scan code 16.
    KeyQ,
    /// Scan code 17.
    KeyW,
    /// Scan code 18.
    KeyE,
    /// Scan code 19.
    KeyR,
    /// Scan code 20.
    KeyT,
    /// Scan code 21.
    KeyY,
    /// Scan code 22.
    KeyU,
    /// Scan code 23.
    KeyI,
    /// Scan code 24.
    KeyO,
    /// Scan code 25.
    KeyP,
    /// Scan code 26.
    KeyLeftBrace,
    /// Scan code 27.
    KeyRightBrace,
    /// Scan code 28.
    KeyEnter,
    /// Scan code 29.
    KeyLeftCtrl,
    /// Scan code 30.
    KeyA,
    /// Scan code 31.
    KeyS,
    /// Scan code 32.
    KeyD,
    /// Scan code 33.
    KeyF,
    /// Scan code 34.
    KeyG,
    /// Scan code 35.
    KeyH,
    /// Scan code 36.
    KeyJ,
    /// Scan code 37.
    KeyK,
    /// Scan code 38.
    KeyL,
    /// Scan code 39.
    KeySemicolon,
    /// Scan code 40.
    KeyApostrophe,
    /// Scan code 41.
    KeyGrave,
    /// Scan code 42.
    KeyLeftShift,
    /// Scan code 43.
    KeyBackslash,
    /// Scan code 44.
    KeyZ,
    /// Scan code 45.
    KeyX,
    /// Scan code 46.
    KeyC,
    /// Scan code 47.
    KeyV,
    /// Scan code 48.
    KeyB,
    /// Scan code 49.
    KeyN,
    /// Scan code 50.
    KeyM,
    /// Scan code 51.
    KeyComma,
    /// Scan code 52.
    KeyDot,
    /// Scan code 53.
    KeySlash,
    /// Scan code 54.
    KeyRightShift,
    /// Scan code 55.
    KeyKpAsterisk,
    /// Scan code 56.
    KeyLeftAlt,
    /// Scan code 57.
    KeySpace,
    /// Scan code 58.
    KeyCapsLock,
    /// Scan code 59.
    KeyF1,
    /// Scan code 60.
    KeyF2,
    /// Scan code 61.
    KeyF3,
    /// Scan code 62.
    KeyF4,
    /// Scan code 63.
    KeyF5,
    /// Scan code 64.
    KeyF6,
    /// Scan code 65.
    KeyF7,
    /// Scan code 66.
    KeyF8,
    /// Scan code 67.
    KeyF9,
    /// Scan code 68.
    KeyF10,
    /// Scan code 69.
    KeyNumLock,
    /// Scan code 70.
    KeyScrollLock,
    /// Scan code 71.
    KeyKp7,
    /// Scan code 72.
    KeyKp8,
    /// Scan code 73.
    KeyKp9,
    /// Scan code 74.
    KeyKpMinus,
    /// Scan code 75.
    KeyKp4,
    /// Scan code 76.
    KeyKp5,
    /// Scan code 77.
    KeyKp6,
    /// Scan code 78.
    KeyKpPlus,
    /// Scan code 79.
    KeyKp1,
    /// Scan code 80.
    KeyKp2,
    /// Scan code 81.
    KeyKp3,
    /// Scan code 82.
    KeyKp0,
    /// Scan code 83.
    KeyKpDot,
}

/// The scan code of a key.
pub open spec fn key_index(k: KeyCode) -> u8 {
    match k {
        KeyCode::KeyReserved => 0,
        KeyCode::KeyEsc => 1,
        KeyCode::Key1 => 2,
        KeyCode::Key2 => 3,
        KeyCode::Key3 => 4,
        KeyCode::Key4 => 5,
        KeyCode::Key5 => 6,
        KeyCode::Key6 => 7,
        KeyCode::Key7 => 8,
        KeyCode::Key8 => 9,
        KeyCode::Key9 => 10,
        KeyCode::Key0 => 11,
        KeyCode::KeyMinus => 12,
        KeyCode::KeyEqual => 13,
        KeyCode::KeyBackspace => 14,
        KeyCode::KeyTab => 15,
        KeyCode::KeyQ => 16,
        KeyCode::KeyW => 17,
        KeyCode::KeyE => 18,
        KeyCode::KeyR => 19,
        KeyCode::KeyT => 20,
        KeyCode::KeyY => 21,
        KeyCode::KeyU => 22,
        KeyCode::KeyI => 23,
        KeyCode::KeyO => 24,
        KeyCode::KeyP => 25,
        KeyCode::KeyLeftBrace => 26,
        KeyCode::KeyRightBrace => 27,
        KeyCode::KeyEnter => 28,
        KeyCode::KeyLeftCtrl => 29,
        KeyCode::KeyA => 30,
        KeyCode::KeyS => 31,
        KeyCode::KeyD => 32,
        KeyCode::KeyF => 33,
        KeyCode::KeyG => 34,
        KeyCode::KeyH => 35,
        KeyCode::KeyJ => 36,
        KeyCode::KeyK => 37,
        KeyCode::KeyL => 38,
        KeyCode::KeySemicolon => 39,
        KeyCode::KeyApostrophe => 40,
        KeyCode::KeyGrave => 41,
        KeyCode::KeyLeftShift => 42,
        KeyCode::KeyBackslash => 43,
        KeyCode::KeyZ => 44,
        KeyCode::KeyX => 45,
        KeyCode::KeyC => 46,
        KeyCode::KeyV => 47,
        KeyCode::KeyB => 48,
        KeyCode::KeyN => 49,
        KeyCode::KeyM => 50,
        KeyCode::KeyComma => 51,
        KeyCode::KeyDot => 52,
        KeyCode::KeySlash => 53,
        KeyCode::KeyRightShift => 54,
        KeyCode::KeyKpAsterisk => 55,
        KeyCode::KeyLeftAlt => 56,
        KeyCode::KeySpace => 57,
        KeyCode::KeyCapsLock => 58,
        KeyCode::KeyF1 => 59,
        KeyCode::KeyF2 => 60,
        KeyCode::KeyF3 => 61,
        KeyCode::KeyF4 => 62,
        KeyCode::KeyF5 => 63,
        KeyCode::KeyF6 => 64,
        KeyCode::KeyF7 => 65,
        KeyCode::KeyF8 => 66,
        KeyCode::KeyF9 => 67,
        KeyCode::KeyF10 => 68,
        KeyCode::KeyNumLock => 69,
        KeyCode::KeyScrollLock => 70,
        KeyCode::KeyKp7 => 71,
        KeyCode::KeyKp8 => 72,
        KeyCode::KeyKp9 => 73,
        KeyCode::KeyKpMinus => 74,
        KeyCode::KeyKp4 => 75,
        KeyCode::KeyKp5 => 76,
        KeyCode::KeyKp6 => 77,
        KeyCode::KeyKpPlus => 78,
        KeyCode::KeyKp1 => 79,
        KeyCode::KeyKp2 => 80,
        KeyCode::KeyKp3 => 81,
        KeyCode::KeyKp0 => 82,
        KeyCode::KeyKpDot => 83,
    }
}

/// The character a key types without modifiers, by scan code: `'\0'` for a
/// key that types none.
pub open spec fn scan_code_char(code: u8) -> char {
    match code {
        2 => '1',
        3 => '2',
        4 => '3',
        5 => '4',
        6 => '5',
        7 => '6',
        8 => '7',
        9 => '8',
        10 => '9',
        11 => '0',
        12 => '-',
        13 => '=',
        15 => '\t',
        16 => 'q',
        17 => 'w',
        18 => 'e',
        19 => 'r',
        20 => 't',
        21 => 'y',
        22 => 'u',
        23 => 'i',
        24 => 'o',
        25 => 'p',
        26 => '[',
        27 => ']',
        28 => '\n',
        30 => 'a',
        31 => 's',
        32 => 'd',
        33 => 'f',
        34 => 'g',
        35 => 'h',
        36 => 'j',
        37 => 'k',
        38 => 'l',
        39 => ';',
        40 => '\'',
        41 => '`',
        43 => '\\',
        44 => 'z',
        45 => 'x',
        46 => 'c',
        47 => 'v',
        48 => 'b',
        49 => 'n',
        50 => 'm',
        51 => ',',
        52 => '.',
        53 => '/',
        55 => '*',
        57 => ' ',
        71 => '7',
        72 => '8',
        73 => '9',
        74 => '-',
        75 => '4',
        76 => '5',
        77 => '6',
        78 => '+',
        79 => '1',
        80 => '2',
        81 => '3',
        82 => '0',
        83 => '.',
        _ => '\0',
    }
}

impl KeyCode {
    /// The key with scan code `code`; [`KeyCode::KeyReserved`] for a code
    /// past the last key.
    pub fn from_index(code: u8) -> (k: KeyCode)
        ensures
            code <= 83 ==> key_index(k) == code,
            code > 83 ==> k == KeyCode::KeyReserved,
    {
        match code {
            0 => KeyCode::KeyReserved,
            1 => KeyCode::KeyEsc,
            2 => KeyCode::Key1,
            3 => KeyCode::Key2,
            4 => KeyCode::Key3,
            5 => KeyCode::Key4,
            6 => KeyCode::Key5,
            7 => KeyCode::Key6,
            8 => KeyCode::Key7,
            9 => KeyCode::Key8,
            10 => KeyCode::Key9,
            11 => KeyCode::Key0,
            12 => KeyCode::KeyMinus,
            13 => KeyCode::KeyEqual,
            14 => KeyCode::KeyBackspace,
            15 => KeyCode::KeyTab,
            16 => KeyCode::KeyQ,
            17 => KeyCode::KeyW,
            18 => KeyCode::KeyE,
            19 => KeyCode::KeyR,
            20 => KeyCode::KeyT,
            21 => KeyCode::KeyY,
            22 => KeyCode::KeyU,
            23 => KeyCode::KeyI,
            24 => KeyCode::KeyO,
            25 => KeyCode::KeyP,
            26 => KeyCode::KeyLeftBrace,
            27 => KeyCode::KeyRightBrace,
            28 => KeyCode::KeyEnter,
            29 => KeyCode::KeyLeftCtrl,
            30 => KeyCode::KeyA,
            31 => KeyCode::KeyS,
            32 => KeyCode::KeyD,
            33 => KeyCode::KeyF,
            34 => KeyCode::KeyG,
            35 => KeyCode::KeyH,
            36 => KeyCode::KeyJ,
            37 => KeyCode::KeyK,
            38 => KeyCode::KeyL,
            39 => KeyCode::KeySemicolon,
            40 => KeyCode::KeyApostrophe,
            41 => KeyCode::KeyGrave,
            42 => KeyCode::KeyLeftShift,
            43 => KeyCode::KeyBackslash,
            44 => KeyCode::KeyZ,
            45 => KeyCode::KeyX,
            46 => KeyCode::KeyC,
            47 => KeyCode::KeyV,
            48 => KeyCode::KeyB,
            49 => KeyCode::KeyN,
            50 => KeyCode::KeyM,
            51 => KeyCode::KeyComma,
            52 => KeyCode::KeyDot,
            53 => KeyCode::KeySlash,
            54 => KeyCode::KeyRightShift,
            55 => KeyCode::KeyKpAsterisk,
            56 => KeyCode::KeyLeftAlt,
            57 => KeyCode::KeySpace,
            58 => KeyCode::KeyCapsLock,
            59 => KeyCode::KeyF1,
            60 => KeyCode::KeyF2,
            61 => KeyCode::KeyF3,
            62 => KeyCode::KeyF4,
            63 => KeyCode::KeyF5,
            64 => KeyCode::KeyF6,
            65 => KeyCode::KeyF7,
            66 => KeyCode::KeyF8,
            67 => KeyCode::KeyF9,
            68 => KeyCode::KeyF10,
            69 => KeyCode::KeyNumLock,
            70 => KeyCode::KeyScrollLock,
            71 => KeyCode::KeyKp7,
            72 => KeyCode::KeyKp8,
            73 => KeyCode::KeyKp9,
            74 => KeyCode::KeyKpMinus,
            75 => KeyCode::KeyKp4,
            76 => KeyCode::KeyKp5,
            77 => KeyCode::KeyKp6,
            78 => KeyCode::KeyKpPlus,
            79 => KeyCode::KeyKp1,
            80 => KeyCode::KeyKp2,
            81 => KeyCode::KeyKp3,
            82 => KeyCode::KeyKp0,
            83 => KeyCode::KeyKpDot,
            _ => KeyCode::KeyReserved,
        }
    }

    /// The character the key types without modifiers; `'\0'` for a key
    /// that types none.
    pub fn to_ascii(&self) -> (c: char)
        ensures
            c == scan_code_char(key_index(*self)),
    {
        match self {
            KeyCode::Key1 => '1',
            KeyCode::Key2 => '2',
            KeyCode::Key3 => '3',
            KeyCode::Key4 => '4',
            KeyCode::Key5 => '5',
            KeyCode::Key6 => '6',
            KeyCode::Key7 => '7',
            KeyCode::Key8 => '8',
            KeyCode::Key9 => '9',
            KeyCode::Key0 => '0',
            KeyCode::KeyMinus => '-',
            KeyCode::KeyEqual => '=',
            KeyCode::KeyTab => '\t',
            KeyCode::KeyQ => 'q',
            KeyCode::KeyW => 'w',
            KeyCode::KeyE => 'e',
            KeyCode::KeyR => 'r',
            KeyCode::KeyT => 't',
            KeyCode::KeyY => 'y',
            KeyCode::KeyU => 'u',
            KeyCode::KeyI => 'i',
            KeyCode::KeyO => 'o',
            KeyCode::KeyP => 'p',
            KeyCode::KeyLeftBrace => '[',
            KeyCode::KeyRightBrace => ']',
            KeyCode::KeyEnter => '\n',
            KeyCode::KeyA => 'a',
            KeyCode::KeyS => 's',
            KeyCode::KeyD => 'd',
            KeyCode::KeyF => 'f',
            KeyCode::KeyG => 'g',
            KeyCode::KeyH => 'h',
            KeyCode::KeyJ => 'j',
            KeyCode::KeyK => 'k',
            KeyCode::KeyL => 'l',
            KeyCode::KeySemicolon => ';',
            KeyCode::KeyApostrophe => '\'',
            KeyCode::KeyGrave => '`',
            KeyCode::KeyBackslash => '\\',
            KeyCode::KeyZ => 'z',
            KeyCode::KeyX => 'x',
            KeyCode::KeyC => 'c',
            KeyCode::KeyV => 'v',
            KeyCode::KeyB => 'b',
            KeyCode::KeyN => 'n',
            KeyCode::KeyM => 'm',
            KeyCode::KeyComma => ',',
            KeyCode::KeyDot => '.',
            KeyCode::KeySlash => '/',
            KeyCode::KeyKpAsterisk => '*',
            KeyCode::KeySpace => ' ',
            KeyCode::KeyKp7 => '7',
            KeyCode::KeyKp8 => '8',
            KeyCode::KeyKp9 => '9',
            KeyCode::KeyKpMinus => '-',
            KeyCode::KeyKp4 => '4',
            KeyCode::KeyKp5 => '5',
            KeyCode::KeyKp6 => '6',
            KeyCode::KeyKpPlus => '+',
            KeyCode::KeyKp1 => '1',
            KeyCode::KeyKp2 => '2',
            KeyCode::KeyKp3 => '3',
            KeyCode::KeyKp0 => '0',
            KeyCode::KeyKpDot => '.',
            _ => '\0',
        }
    }
}


/// The number of key events the keyboard's buffer holds.
pub const MAX_KEYB_BUFFER_SIZE: usize = 255;

/// The command that sets the keyboard's lights.
pub const KYBRD_ENC_CMD_SET_LED: u8 = 0xED;

/// The character a digit key types with shift held.
pub open spec fn shifted_digit(c: u8) -> char {
    match c {
        0x30 => ')',
        0x31 => '!',
        0x32 => '@',
        0x33 => '#',
        0x34 => '$',
        0x35 => '%',
        0x36 => '^',
        0x37 => '&',
        0x38 => '*',
        _ => '(',
    }
}

/// Whether `c` is one of the punctuation characters that shift changes.
pub open spec fn is_shift_punct(c: u8) -> bool {
    c == 0x60 || c == 0x2D || c == 0x3D || c == 0x5B || c == 0x5D || c == 0x5C || c == 0x3B || c
        == 0x27 || c == 0x2C || c == 0x2E || c == 0x2F
}

/// The character a punctuation key types with shift held.
pub open spec fn shifted_punct(c: u8) -> char {
    match c {
        0x60 => '~',
        0x2D => '_',
        0x3D => '+',
        0x5B => '{',
        0x5D => '}',
        0x5C => '|',
        0x3B => ':',
        0x27 => '"',
        0x2C => '<',
        0x2E => '>',
        _ => '?',
    }
}

/// The character typed by the key with scan code `scan_code`, with shift and
/// caps lock as given: a new line for the enter key; for a printable
/// character, a letter in upper case under shift or caps lock, and a digit or
/// punctuation character in its shifted form under shift; `'\0'` otherwise.
pub open spec fn typed_char(scan_code: u8, shift: bool, caps_lock: bool) -> char {
    let code = scan_code_char(if scan_code <= 83 { scan_code } else { 0 }) as u8;
    if code == 0x0A {
        '\n'
    } else if 0x20 <= code <= 0x7E {
        if 0x61 <= code <= 0x7A {
            if shift || caps_lock {
                (code - 32) as char
            } else {
                code as char
            }
        } else if 0x30 <= code <= 0x39 && shift {
            shifted_digit(code)
        } else if is_shift_punct(code) && shift {
            shifted_punct(code)
        } else {
            code as char
        }
    } else {
        '\0'
    }
}

/// The digit row: the keys of scan codes 2 to 11, which type '1' to '9'
/// and then '0', type the US shifted digit row '!', '@', '#', '$', '%',
/// '^', '&', '*', '(' and ')' with shift held, and their digits without,
/// whatever caps lock is. So shift with '0' types ')' and shift with '9'
/// types '(', and no two digit keys type the same character with shift.
pub proof fn lemma_shifted_digit_row(code: u8, other: u8, caps_lock: bool)
    requires
        2 <= code <= 11,
    ensures
        typed_char(code, true, caps_lock) == seq!['!', '@', '#', '$', '%', '^', '&', '*', '(', ')'][code - 2],
        typed_char(code, false, caps_lock) == seq!['1', '2', '3', '4', '5', '6', '7', '8', '9', '0'][code - 2],
        2 <= other <= 11 && other != code ==> typed_char(other, true, caps_lock) != typed_char(code, true, caps_lock),
{
    let shifted = seq!['!', '@', '#', '$', '%', '^', '&', '*', '(', ')'];
    let plain = seq!['1', '2', '3', '4', '5', '6', '7', '8', '9', '0'];
    assert(shifted[0] == '!' && shifted[1] == '@' && shifted[2] == '#' && shifted[3] == '$'
        && shifted[4] == '%' && shifted[5] == '^' && shifted[6] == '&' && shifted[7] == '*'
        && shifted[8] == '(' && shifted[9] == ')');
    assert(plain[0] == '1' && plain[1] == '2' && plain[2] == '3' && plain[3] == '4'
        && plain[4] == '5' && plain[5] == '6' && plain[6] == '7' && plain[7] == '8'
        && plain[8] == '9' && plain[9] == '0');
}

/// A key press: the scan code of the key and the state of the modifier keys.
#[derive(Debug, Clone, Copy)]
pub struct KeyEvent {
    scan_code: u8,
    shift: bool,
    caps_lock: bool,
    ctrl: bool,
    alt: bool,
}

impl KeyEvent {
    /// The scan code of the key.
    pub closed spec fn spec_scan_code(&self) -> u8 {
        self.scan_code
    }

    /// Whether shift was held.
    pub closed spec fn spec_shift(&self) -> bool {
        self.shift
    }

    /// Whether caps lock was on.
    pub closed spec fn spec_caps_lock(&self) -> bool {
        self.caps_lock
    }

    /// Whether control was held.
    pub closed spec fn spec_ctrl(&self) -> bool {
        self.ctrl
    }

    /// Whether alt was held.
    pub closed spec fn spec_alt(&self) -> bool {
        self.alt
    }

    /// An event of scan code 0 with no modifier.
    pub fn new() -> (e: KeyEvent)
        ensures
            e.spec_scan_code() == 0,
            !e.spec_shift(),
            !e.spec_caps_lock(),
            !e.spec_ctrl(),
            !e.spec_alt(),
    {
        KeyEvent { scan_code: 0, shift: false, caps_lock: false, ctrl: false, alt: false }
    }

    /// The character the event types; `'\0'` when it types none.
    pub fn to_ascii(&self) -> (c: char)
        ensures
            c == typed_char(self.spec_scan_code(), self.spec_shift(), self.spec_caps_lock()),
    {
        let code = KeyCode::from_index(self.scan_code).to_ascii() as u8;
        if code == 0x0A {
            '\n'
        } else if code >= 0x20 && code <= 0x7E {
            if code >= 0x61 && code <= 0x7A {
                if self.shift || self.caps_lock {
                    (code - 32) as char
                } else {
                    code as char
                }
            } else if code >= 0x30 && code <= 0x39 && self.shift {
                match code {
                    0x30 => ')',
                    0x31 => '!',
                    0x32 => '@',
                    0x33 => '#',
                    0x34 => '$',
                    0x35 => '%',
                    0x36 => '^',
                    0x37 => '&',
                    0x38 => '*',
                    _ => '(',
                }
            } else if (code == 0x60 || code == 0x2D || code == 0x3D || code == 0x5B || code == 0x5D
                || code == 0x5C || code == 0x3B || code == 0x27 || code == 0x2C || code == 0x2E
                || code == 0x2F) && self.shift {
                match code {
                    0x60 => '~',
                    0x2D => '_',
                    0x3D => '+',
                    0x5B => '{',
                    0x5D => '}',
                    0x5C => '|',
                    0x3B => ':',
                    0x27 => '"',
                    0x2C => '<',
                    0x2E => '>',
                    _ => '?',
                }
            } else {
                code as char
            }
        } else {
            '\0'
        }
    }
}

/// Whether the last scan code was a prefix of a longer code.
#[derive(Debug, Clone, Copy, PartialEq, Eq, Structural)]
pub enum State {
    /// The next scan code stands alone.
    Normal,
    /// The last scan code was a prefix (0xE0 or 0xE1).
    Prefix,
}

/// What the keyboard remembers: the ring of recent key events, the next
/// place in it, the prefix state and the modifier keys.
pub struct KeyboardView {
    /// The ring of key events.
    pub buffer: Seq<KeyEvent>,
    /// Where the next event goes.
    pub buffer_index: int,
    /// The prefix state.
    pub state: State,
    /// Whether shift is held.
    pub shift: bool,
    /// Whether caps lock is on.
    pub caps_lock: bool,
    /// Whether control is held.
    pub ctrl: bool,
    /// Whether alt is held.
    pub alt: bool,
}

/// What the interrupt handler does after a scan code: the character to echo
/// when a key was pressed, and the command bytes to send to the keyboard
/// when its lights change.
#[derive(Debug, Clone, Copy)]
pub struct KeyAction {
    /// The character the pressed key types, to echo.
    pub echo: Option<char>,
    /// The two bytes to send to the keyboard to set its lights.
    pub leds: Option<(u8, u8)>,
}

/// The keyboard: a ring of the last key events and the state of the modifier
/// keys.
pub struct Keyboard {
    buffer: Vec<KeyEvent>,
    buffer_index: usize,
    current_state: State,
    shift: bool,
    caps_lock: bool,
    ctrl: bool,
    alt: bool,
}

impl View for Keyboard {
    type V = KeyboardView;

    closed spec fn view(&self) -> KeyboardView {
        KeyboardView {
            buffer: self.buffer@,
            buffer_index: self.buffer_index as int,
            state: self.current_state,
            shift: self.shift,
            caps_lock: self.caps_lock,
            ctrl: self.ctrl,
            alt: self.alt,
        }
    }
}

/// The byte that sets the lights: scroll lock in bit 0, num lock in bit 1,
/// caps lock in bit 2.
pub open spec fn led_byte(num: bool, caps: bool, scroll: bool) -> u8 {
    ((if scroll { 1int } else { 0int }) + (if num { 2int } else { 0int }) + (if caps {
        4int
    } else {
        0int
    })) as u8
}

/// Whether `e` is the event of scan code `scan_code` with the modifiers of `v`.
pub open spec fn event_of(e: KeyEvent, scan_code: u8, v: KeyboardView) -> bool {
    &&& e.spec_scan_code() == scan_code
    &&& e.spec_shift() == v.shift
    &&& e.spec_caps_lock() == v.caps_lock
    &&& e.spec_ctrl() == v.ctrl
    &&& e.spec_alt() == v.alt
}

impl Keyboard {
    /// The ring holds 255 events and the next place is within it.
    pub closed spec fn wf(&self) -> bool {
        &&& self.buffer@.len() == MAX_KEYB_BUFFER_SIZE
        &&& self.buffer_index < MAX_KEYB_BUFFER_SIZE
    }

    /// A keyboard with an empty ring, no prefix and no modifier.
    pub fn new() -> (k: Keyboard)
        ensures
            k.wf(),
            k@.buffer_index == 0,
            k@.state == State::Normal,
            !k@.shift && !k@.caps_lock && !k@.ctrl && !k@.alt,
            k@.buffer.len() == MAX_KEYB_BUFFER_SIZE,
            forall|i: int| 0 <= i < MAX_KEYB_BUFFER_SIZE ==> #[trigger] k@.buffer[i].spec_scan_code() == 0,
    {
        let mut buffer: Vec<KeyEvent> = Vec::new();
        let mut i: usize = 0;
        while i < MAX_KEYB_BUFFER_SIZE
            invariant
                i <= MAX_KEYB_BUFFER_SIZE,
                buffer@.len() == i,
                forall|j: int| 0 <= j < i ==> #[trigger] buffer@[j].spec_scan_code() == 0,
            decreases MAX_KEYB_BUFFER_SIZE - i,
        {
            buffer.push(KeyEvent::new());
            i = i + 1;
        }
        Keyboard {
            buffer,
            buffer_index: 0,
            current_state: State::Normal,
            shift: false,
            caps_lock: false,
            ctrl: false,
            alt: false,
        }
    }

    /// Records a press of the key with scan code `scan_code`, with the
    /// current modifiers, at the next place of the ring, moves on (wrapping
    /// around at the end), and returns the character the event types.
    pub fn push(&mut self, scan_code: u8) -> (c: char)
        requires
            old(self).wf(),
        ensures
            final(self).wf(),
            final(self)@.buffer.len() == old(self)@.buffer.len(),
            event_of(final(self)@.buffer[old(self)@.buffer_index], scan_code, old(self)@),
            forall|i: int|
                0 <= i < MAX_KEYB_BUFFER_SIZE && i != old(self)@.buffer_index
                    ==> #[trigger] final(self)@.buffer[i] == old(self)@.buffer[i],
            final(self)@.buffer_index == (old(self)@.buffer_index + 1) % (MAX_KEYB_BUFFER_SIZE as int),
            final(self)@.state == old(self)@.state,
            final(self)@.shift == old(self)@.shift,
            final(self)@.caps_lock == old(self)@.caps_lock,
            final(self)@.ctrl == old(self)@.ctrl,
            final(self)@.alt == old(self)@.alt,
            c == typed_char(scan_code, old(self)@.shift, old(self)@.caps_lock),
    {
        let event = KeyEvent {
            scan_code,
            shift: self.shift,
            caps_lock: self.caps_lock,
            ctrl: self.ctrl,
            alt: self.alt,
        };
        self.buffer.set(self.buffer_index, event);
        let c = self.buffer[self.buffer_index].to_ascii();
        self.buffer_index = (self.buffer_index + 1) % MAX_KEYB_BUFFER_SIZE;
        c
    }

    /// The two bytes that set the keyboard's lights: the command, then the
    /// state of the lights.
    pub fn set_leds(&self, num: bool, caps: bool, scroll: bool) -> (bytes: (u8, u8))
        ensures
            bytes == (KYBRD_ENC_CMD_SET_LED, led_byte(num, caps, scroll)),
    {
        let s: u8 = if scroll { 1 } else { 0 };
        let n: u8 = if num { 2 } else { 0 };
        let c: u8 = if caps { 4 } else { 0 };
        let mut data: u8 = 0;
        data = data | s;
        data = data | n;
        data = data | c;
        proof {
            assert(((0u8 | s) | n) | c == s + n + c) by (bit_vector)
                requires
                    s == 0 || s == 1,
                    n == 0 || n == 2,
                    c == 0 || c == 4,
            ;
        }
        (KYBRD_ENC_CMD_SET_LED, data)
    }

    /// Takes one scan code read from the keyboard, as the interrupt handler
    /// does. A prefix code (0xE0, 0xE1) only sets the prefix state. Otherwise
    /// bit 7 tells a release from a press and the low bits give the key: the
    /// control, shift and alt keys set their modifier to whether they are
    /// held, a press of caps lock toggles it and asks to set the lights, a
    /// press is recorded in the ring and its character echoed, and the prefix
    /// state is cleared.
    pub fn handle_scan_code(&mut self, scan_code: u8) -> (action: KeyAction)
        requires
            old(self).wf(),
        ensures
            final(self).wf(),
            ({
                let v = old(self)@;
                let w = final(self)@;
                if scan_code == 0xE0 || scan_code == 0xE1 {
                    &&& w == KeyboardView { state: State::Prefix, ..v }
                    &&& action.echo is None
                    &&& action.leds is None
                } else {
                    let released = scan_code >= 0x80;
                    let code = (scan_code % 0x80) as u8;
                    let k = if code <= 83 { code } else { 0 };
                    let ctrl = if k == 29 { !released } else { v.ctrl };
                    let shift = if k == 42 || k == 54 { !released } else { v.shift };
                    let alt = if k == 56 { !released } else { v.alt };
                    let toggles = k == 58 && !released;
                    let caps_lock = if toggles { !v.caps_lock } else { v.caps_lock };
                    let m = KeyboardView { ctrl, shift, alt, caps_lock, ..v };
                    &&& w.state == State::Normal
                    &&& w.ctrl == ctrl && w.shift == shift && w.alt == alt && w.caps_lock == caps_lock
                    &&& action.leds == if toggles {
                        Some((KYBRD_ENC_CMD_SET_LED, led_byte(false, caps_lock, false)))
                    } else {
                        None
                    }
                    &&& if released {
                        &&& w.buffer == v.buffer
                        &&& w.buffer_index == v.buffer_index
                        &&& action.echo is None
                    } else {
                        &&& event_of(w.buffer[v.buffer_index], code, m)
                        &&& w.buffer.len() == v.buffer.len()
                        &&& forall|i: int|
                            0 <= i < MAX_KEYB_BUFFER_SIZE && i != v.buffer_index
                                ==> #[trigger] w.buffer[i] == v.buffer[i]
                        &&& w.buffer_index == (v.buffer_index + 1) % (MAX_KEYB_BUFFER_SIZE as int)
                        &&& action.echo == Some(typed_char(code, shift, caps_lock))
                    }
                }
            }),
    {
        let mut scan_code = scan_code;
        if scan_code == 0xE0 || scan_code == 0xE1 {
            self.current_state = State::Prefix;
            return KeyAction { echo: None, leds: None };
        }
        let key_released = (scan_code & 0x80) != 0;
        proof {
            assert((scan_code & 0x80 != 0) == (scan_code >= 0x80)) by (bit_vector);
            assert(scan_code & 0x7F == scan_code % 0x80) by (bit_vector);
        }
        if key_released {
            scan_code = scan_code & 0x7F;
        }
        let mut leds: Option<(u8, u8)> = None;
        let key = KeyCode::from_index(scan_code);
        match key {
            KeyCode::KeyLeftCtrl => {
                self.ctrl = !key_released;
            },
            KeyCode::KeyLeftShift | KeyCode::KeyRightShift => {
                self.shift = !key_released;
            },
            KeyCode::KeyLeftAlt => {
                self.alt = !key_released;
            },
            KeyCode::KeyCapsLock if !key_released => {
                self.caps_lock = !self.caps_lock;
                leds = Some(self.set_leds(false, self.caps_lock, false));
            },
            _ => {},
        }
        let mut echo: Option<char> = None;
        if !key_released {
            echo = Some(self.push(scan_code));
        }
        self.current_state = State::Normal;
        KeyAction { echo, leds }
    }
}

/// The interrupt vector of the keyboard.
pub const KEYBOARD_INTERRUPT_VECTOR: u8 = 0x21;

/// Installs the keyboard's interrupt handler `handler` in `idt`, as a gate of
/// level 0 at the keyboard's vector.
pub fn init_keyboard(idt: &mut InterruptDescriptorTable, handler: u64)
    requires
        old(idt).wf(),
    ensures
        final(idt).wf(),
        final(idt)@ == old(idt)@.update(
            KEYBOARD_INTERRUPT_VECTOR as int,
            gate(old(idt)@[KEYBOARD_INTERRUPT_VECTOR as int], handler, INTERRUPT_GATE, KERNEL_CS),
        ),
{
    idt.index_mut(KEYBOARD_INTERRUPT_VECTOR as usize).set_gate(handler, INTERRUPT_GATE, KERNEL_CS);
}

} // verus!
