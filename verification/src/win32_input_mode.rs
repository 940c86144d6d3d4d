//! WIN32_INPUT_MODE encoder for keys written to a Windows ConPTY child.
//!
//! Microsoft's win32-input-mode (negotiated with `ESC [ ? 9001 h`) wraps every
//! key event in `ESC [ Vk ; Sc ; Uc ; Kd ; Cs ; Rc _`. The child's ConPTY
//! decodes that into a full `INPUT_RECORD`, virtual-key code and modifiers
//! preserved, instead of guessing them from a lossy legacy byte.
use crate::keys::{BareKey, KeyModifier, KeyWithModifier};
use crate::text;
use crate::text::push_decimal;
use vstd::prelude::*;
use vstd::string::*;
use vstd::utf8::*;

pub mod laws;

verus! {

// dwControlKeyState bits of a KEY_EVENT_RECORD.
pub const LEFT_ALT_PRESSED: u32 = 0x0002;

pub const LEFT_CTRL_PRESSED: u32 = 0x0008;

pub const SHIFT_PRESSED: u32 = 0x0010;

pub const ENHANCED_KEY: u32 = 0x0100;

#[derive(Debug, Clone, Copy)]
pub struct Win32KeyRecord {
    pub vk: u16,
    pub scan: u16,
    pub unicode: u16,
    pub key_down: bool,
    pub control_key_state: u32,
    pub repeat: u16,
}

pub open spec fn is_letter(c: char) -> bool {
    ('a' <= c && c <= 'z') || ('A' <= c && c <= 'Z')
}

/// The code of the letter in upper case.
pub open spec fn upper_code(c: char) -> int {
    if 'a' <= c && c <= 'z' {
        c as int - 0x20
    } else {
        c as int
    }
}

/// The virtual-key code of a key; `None` where Windows has no such key.
/// Symbols have a layout-specific code, which is left zero: the unicode field
/// carries the literal character.
pub open spec fn vk_of(key: BareKey) -> Option<int> {
    match key {
        BareKey::Backspace => Some(0x08),
        BareKey::Tab => Some(0x09),
        BareKey::Enter => Some(0x0D),
        BareKey::Pause => Some(0x13),
        BareKey::CapsLock => Some(0x14),
        BareKey::Esc => Some(0x1B),
        BareKey::PageUp => Some(0x21),
        BareKey::PageDown => Some(0x22),
        BareKey::End => Some(0x23),
        BareKey::Home => Some(0x24),
        BareKey::Left => Some(0x25),
        BareKey::Up => Some(0x26),
        BareKey::Right => Some(0x27),
        BareKey::Down => Some(0x28),
        BareKey::PrintScreen => Some(0x2C),
        BareKey::Insert => Some(0x2D),
        BareKey::Delete => Some(0x2E),
        BareKey::Menu => Some(0x5D),
        BareKey::NumLock => Some(0x90),
        BareKey::ScrollLock => Some(0x91),
        BareKey::F(n) => if 1 <= n <= 24 {
            Some(0x70 + n - 1)
        } else {
            None
        },
        BareKey::Char(c) => if c == ' ' {
            Some(0x20)
        } else if is_letter(c) {
            Some(upper_code(c))
        } else if text::is_digit(c) {
            Some(c as int)
        } else {
            Some(0)
        },
    }
}

/// The letters of a US keyboard, row by row; each row has consecutive scan
/// codes.
pub open spec fn letter_scan(code: int) -> int {
    // q w e r t y u i o p
    if code == 0x51 {
        0x10
    } else if code == 0x57 {
        0x11
    } else if code == 0x45 {
        0x12
    } else if code == 0x52 {
        0x13
    } else if code == 0x54 {
        0x14
    } else if code == 0x59 {
        0x15
    } else if code == 0x55 {
        0x16
    } else if code == 0x49 {
        0x17
    } else if code == 0x4F {
        0x18
    } else if code == 0x50 {
        0x19
    }
    // a s d f g h j k l
     else if code == 0x41 {
        0x1E
    } else if code == 0x53 {
        0x1F
    } else if code == 0x44 {
        0x20
    } else if code == 0x46 {
        0x21
    } else if code == 0x47 {
        0x22
    } else if code == 0x48 {
        0x23
    } else if code == 0x4A {
        0x24
    } else if code == 0x4B {
        0x25
    } else if code == 0x4C {
        0x26
    }
    // z x c v b n m
     else if code == 0x5A {
        0x2C
    } else if code == 0x58 {
        0x2D
    } else if code == 0x43 {
        0x2E
    } else if code == 0x56 {
        0x2F
    } else if code == 0x42 {
        0x30
    } else if code == 0x4E {
        0x31
    } else if code == 0x4D {
        0x32
    } else {
        0
    }
}

/// The nominal scan code on a US layout, zero for keys that have none here.
pub open spec fn scan_of(key: BareKey) -> int {
    match key {
        BareKey::Esc => 0x01,
        BareKey::Backspace => 0x0E,
        BareKey::Tab => 0x0F,
        BareKey::Enter => 0x1C,
        BareKey::Home => 0x47,
        BareKey::Up => 0x48,
        BareKey::PageUp => 0x49,
        BareKey::Left => 0x4B,
        BareKey::Right => 0x4D,
        BareKey::End => 0x4F,
        BareKey::Down => 0x50,
        BareKey::PageDown => 0x51,
        BareKey::Insert => 0x52,
        BareKey::Delete => 0x53,
        BareKey::F(n) => if 1 <= n <= 10 {
            0x3A + n
        } else if n == 11 {
            0x57
        } else if n == 12 {
            0x58
        } else {
            0
        },
        BareKey::Char(c) => if c == ' ' {
            0x39
        } else if is_letter(c) {
            letter_scan(upper_code(c))
        } else if c == '0' {
            0x0B
        } else if text::is_digit(c) {
            c as int - '1' as int + 2
        } else {
            0
        },
        _ => 0,
    }
}

/// The UTF-16 code unit the key would type, the first of two where the character
/// takes two. Ctrl with a letter collapses to the control character; shift makes
/// a letter upper case.
pub open spec fn unicode_of(key: KeyWithModifier) -> int {
    match key.bare_key {
        BareKey::Char(c) => if is_letter(c) {
            if key.holds(KeyModifier::Ctrl) && !key.holds(KeyModifier::Alt) {
                upper_code(c) - 'A' as int + 1
            } else if key.holds(KeyModifier::Shift) {
                upper_code(c)
            } else {
                c as int
            }
        } else {
            text::utf16_units(c)[0] as int
        },
        BareKey::Enter => 0x0D,
        BareKey::Tab => 0x09,
        BareKey::Esc => 0x1B,
        BareKey::Backspace => 0x08,
        _ => 0,
    }
}

/// Keys outside the main typewriter block.
pub open spec fn is_enhanced(key: BareKey) -> bool {
    match key {
        BareKey::Left
        | BareKey::Right
        | BareKey::Up
        | BareKey::Down
        | BareKey::Home
        | BareKey::End
        | BareKey::PageUp
        | BareKey::PageDown
        | BareKey::Insert
        | BareKey::Delete => true,
        _ => false,
    }
}

/// The control-key state: one bit per modifier held, and one for keys outside
/// the main block.
pub open spec fn control_state_of(key: KeyWithModifier) -> int {
    let shift: int = if key.holds(KeyModifier::Shift) {
        SHIFT_PRESSED as int
    } else {
        0
    };
    let ctrl: int = if key.holds(KeyModifier::Ctrl) {
        LEFT_CTRL_PRESSED as int
    } else {
        0
    };
    let alt: int = if key.holds(KeyModifier::Alt) {
        LEFT_ALT_PRESSED as int
    } else {
        0
    };
    let enhanced: int = if is_enhanced(key.bare_key) {
        ENHANCED_KEY as int
    } else {
        0
    };
    shift + ctrl + alt + enhanced
}

/// The records of a key press: one key-down record, or none for a key Windows
/// does not have.
pub open spec fn is_record_of(rec: Win32KeyRecord, key: KeyWithModifier) -> bool {
    &&& vk_of(key.bare_key) == Some(rec.vk as int)
    &&& rec.scan == scan_of(key.bare_key)
    &&& rec.unicode == unicode_of(key)
    &&& rec.key_down
    &&& rec.control_key_state == control_state_of(key)
    &&& rec.repeat == 1
}

/// A record on the wire.
pub open spec fn wire(vk: int, scan: int, unicode: int, down: int, state: int, repeat: int) -> Seq<
    char,
> {
    seq!['\u{1b}', '['] + text::decimal(vk as nat) + seq![';'] + text::decimal(scan as nat)
        + seq![';'] + text::decimal(unicode as nat) + seq![';'] + text::decimal(down as nat)
        + seq![';'] + text::decimal(state as nat) + seq![';'] + text::decimal(repeat as nat)
        + seq!['_']
}

/// What is written to the child for a key press.
pub open spec fn encoded(key: KeyWithModifier) -> Seq<char> {
    match vk_of(key.bare_key) {
        Some(vk) => wire(
            vk,
            scan_of(key.bare_key),
            unicode_of(key),
            1,
            control_state_of(key),
            1,
        ),
        None => Seq::empty(),
    }
}

fn is_ascii_letter(c: char) -> (r: bool)
    ensures
        r == is_letter(c),
{
    ('a' <= c && c <= 'z') || ('A' <= c && c <= 'Z')
}

fn ascii_upper_code(c: char) -> (r: u16)
    requires
        is_letter(c),
    ensures
        r == upper_code(c),
{
    if 'a' <= c && c <= 'z' {
        (c as u32 - 0x20) as u16
    } else {
        c as u32 as u16
    }
}

fn keycode_to_vk(key: BareKey) -> (r: Option<u16>)
    ensures
        match r {
            Some(vk) => vk_of(key) == Some(vk as int),
            None => vk_of(key) is None,
        },
{
    match key {
        BareKey::Backspace => Some(0x08),
        BareKey::Tab => Some(0x09),
        BareKey::Enter => Some(0x0D),
        BareKey::Pause => Some(0x13),
        BareKey::CapsLock => Some(0x14),
        BareKey::Esc => Some(0x1B),
        BareKey::PageUp => Some(0x21),
        BareKey::PageDown => Some(0x22),
        BareKey::End => Some(0x23),
        BareKey::Home => Some(0x24),
        BareKey::Left => Some(0x25),
        BareKey::Up => Some(0x26),
        BareKey::Right => Some(0x27),
        BareKey::Down => Some(0x28),
        BareKey::PrintScreen => Some(0x2C),
        BareKey::Insert => Some(0x2D),
        BareKey::Delete => Some(0x2E),
        BareKey::Menu => Some(0x5D),
        BareKey::NumLock => Some(0x90),
        BareKey::ScrollLock => Some(0x91),
        BareKey::F(n) => if 1 <= n && n <= 24 {
            Some(0x70 + (n as u16 - 1))
        } else {
            None
        },
        BareKey::Char(c) => if c == ' ' {
            Some(0x20)
        } else if is_ascii_letter(c) {
            Some(ascii_upper_code(c))
        } else if '0' <= c && c <= '9' {
            Some(c as u32 as u16)
        } else {
            Some(0)
        },
    }
}

fn keycode_to_scan(key: BareKey) -> (r: u16)
    ensures
        r == scan_of(key),
{
    match key {
        BareKey::Esc => 0x01,
        BareKey::Backspace => 0x0E,
        BareKey::Tab => 0x0F,
        BareKey::Enter => 0x1C,
        BareKey::Home => 0x47,
        BareKey::Up => 0x48,
        BareKey::PageUp => 0x49,
        BareKey::Left => 0x4B,
        BareKey::Right => 0x4D,
        BareKey::End => 0x4F,
        BareKey::Down => 0x50,
        BareKey::PageDown => 0x51,
        BareKey::Insert => 0x52,
        BareKey::Delete => 0x53,
        BareKey::F(n) => if 1 <= n && n <= 10 {
            0x3A + n as u16
        } else if n == 11 {
            0x57
        } else if n == 12 {
            0x58
        } else {
            0
        },
        BareKey::Char(c) => if c == ' ' {
            0x39
        } else if is_ascii_letter(c) {
            letter_to_scan(ascii_upper_code(c))
        } else if c == '0' {
            0x0B
        } else if '1' <= c && c <= '9' {
            (c as u32 - 0x31 + 2) as u16
        } else {
            0
        },
        _ => 0,
    }
}

fn letter_to_scan(code: u16) -> (r: u16)
    ensures
        r == letter_scan(code as int),
{
    match code {
        0x51 => 0x10,
        0x57 => 0x11,
        0x45 => 0x12,
        0x52 => 0x13,
        0x54 => 0x14,
        0x59 => 0x15,
        0x55 => 0x16,
        0x49 => 0x17,
        0x4F => 0x18,
        0x50 => 0x19,
        0x41 => 0x1E,
        0x53 => 0x1F,
        0x44 => 0x20,
        0x46 => 0x21,
        0x47 => 0x22,
        0x48 => 0x23,
        0x4A => 0x24,
        0x4B => 0x25,
        0x4C => 0x26,
        0x5A => 0x2C,
        0x58 => 0x2D,
        0x43 => 0x2E,
        0x56 => 0x2F,
        0x42 => 0x30,
        0x4E => 0x31,
        0x4D => 0x32,
        _ => 0,
    }
}

fn keycode_to_unicode(key: &KeyWithModifier) -> (r: u16)
    ensures
        r == unicode_of(*key),
{
    match key.bare_key {
        BareKey::Char(c) => if is_ascii_letter(c) {
            if key.has(KeyModifier::Ctrl) && !key.has(KeyModifier::Alt) {
                ascii_upper_code(c) - 0x41 + 1
            } else if key.has(KeyModifier::Shift) {
                ascii_upper_code(c)
            } else {
                c as u32 as u16
            }
        } else {
            let n = c as u32;
            if n < 0x1_0000 {
                n as u16
            } else {
                (0xD800 + (n - 0x1_0000) / 0x400) as u16
            }
        },
        BareKey::Enter => 0x0D,
        BareKey::Tab => 0x09,
        BareKey::Esc => 0x1B,
        BareKey::Backspace => 0x08,
        _ => 0,
    }
}

fn modifiers_to_control_key_state(key: &KeyWithModifier) -> (r: u32)
    ensures
        r == control_state_of(*key),
{
    let mut state: u32 = 0;
    if key.has(KeyModifier::Shift) {
        state = state + SHIFT_PRESSED;
    }
    if key.has(KeyModifier::Ctrl) {
        state = state + LEFT_CTRL_PRESSED;
    }
    if key.has(KeyModifier::Alt) {
        state = state + LEFT_ALT_PRESSED;
    }
    let enhanced = match key.bare_key {
        BareKey::Left
        | BareKey::Right
        | BareKey::Up
        | BareKey::Down
        | BareKey::Home
        | BareKey::End
        | BareKey::PageUp
        | BareKey::PageDown
        | BareKey::Insert
        | BareKey::Delete => true,
        _ => false,
    };
    if enhanced {
        state = state + ENHANCED_KEY;
    }
    state
}

/// The records of a key press. Most consumers only react to key-down, so there
/// is no key-up record.
pub fn key_to_records(key: &KeyWithModifier) -> (r: Vec<Win32KeyRecord>)
    ensures
        match vk_of(key.bare_key) {
            Some(_) => r.len() == 1 && is_record_of(r@[0], *key),
            None => r.len() == 0,
        },
{
    let mut records: Vec<Win32KeyRecord> = Vec::new();
    if let Some(vk) = keycode_to_vk(key.bare_key) {
        records.push(
            Win32KeyRecord {
                vk,
                scan: keycode_to_scan(key.bare_key),
                unicode: keycode_to_unicode(key),
                key_down: true,
                control_key_state: modifiers_to_control_key_state(key),
                repeat: 1,
            },
        );
    }
    records
}

/// One record on the wire.
pub fn serialize_record(rec: &Win32KeyRecord) -> (r: String)
    ensures
        r@ == wire(
            rec.vk as int,
            rec.scan as int,
            rec.unicode as int,
            if rec.key_down {
                1
            } else {
                0
            },
            rec.control_key_state as int,
            rec.repeat as int,
        ),
{
    let mut out = String::new();
    out.push('\u{1b}');
    out.push('[');
    push_decimal(&mut out, rec.vk as u64);
    out.push(';');
    push_decimal(&mut out, rec.scan as u64);
    out.push(';');
    push_decimal(&mut out, rec.unicode as u64);
    out.push(';');
    push_decimal(
        &mut out,
        if rec.key_down {
            1
        } else {
            0
        },
    );
    out.push(';');
    push_decimal(&mut out, rec.control_key_state as u64);
    out.push(';');
    push_decimal(&mut out, rec.repeat as u64);
    out.push('_');
    out
}

/// The bytes to write to a ConPTY child for a key press.
pub fn encode_key_for_child(key: &KeyWithModifier) -> (r: Vec<u8>)
    ensures
        r@ == encode_utf8(encoded(*key)),
{
    let records = key_to_records(key);
    let mut out = String::new();
    if records.len() > 0 {
        out = serialize_record(&records[0]);
    }
    assert(out@ == encoded(*key));
    out.as_str().as_bytes_vec()
}

/// A run of digits ends where the first other character stands.
proof fn field_ends(a: Seq<char>, b: Seq<char>, x: Seq<char>, y: Seq<char>, sep: char)
    requires
        forall|i: int| 0 <= i < a.len() ==> text::is_digit(#[trigger] a[i]),
        forall|i: int| 0 <= i < b.len() ==> text::is_digit(#[trigger] b[i]),
        !text::is_digit(sep),
        a + (seq![sep] + x) == b + (seq![sep] + y),
    ensures
        a == b,
        x == y,
{
    let l = a + (seq![sep] + x);
    let r = b + (seq![sep] + y);
    assert(l[a.len() as int] == sep);
    assert(r[b.len() as int] == sep);
    if a.len() < b.len() {
        assert(r[a.len() as int] == b[a.len() as int]);
    }
    if b.len() < a.len() {
        assert(l[b.len() as int] == a[b.len() as int]);
    }
    assert forall|i: int| 0 <= i < a.len() implies a[i] == b[i] by {
        assert(l[i] == a[i] && r[i] == b[i]);
    }
    assert(a =~= b);
    assert(l.len() == a.len() + 1 + x.len());
    assert(r.len() == b.len() + 1 + y.len());
    assert forall|i: int| 0 <= i < x.len() implies x[i] == y[i] by {
        assert(l[a.len() + 1 + i] == x[i]);
        assert(r[a.len() + 1 + i] == y[i]);
    }
    assert(x =~= y);
}

/// One numeric field, the character that ends it, and the rest of the record.
proof fn field_reads_back(m: nat, n: nat, x: Seq<char>, y: Seq<char>, sep: char)
    requires
        !text::is_digit(sep),
        text::decimal(m) + (seq![sep] + x) == text::decimal(n) + (seq![sep] + y),
    ensures
        m == n,
        x == y,
{
    text::decimal_is_digits(m);
    text::decimal_is_digits(n);
    field_ends(text::decimal(m), text::decimal(n), x, y, sep);
    text::decimal_injective(m, n);
}

/// A record's fields written one behind the other.
spec fn fields(
    vk: nat,
    scan: nat,
    unicode: nat,
    down: nat,
    state: nat,
    repeat: nat,
) -> Seq<char> {
    let f6 = text::decimal(repeat) + (seq!['_'] + Seq::<char>::empty());
    let f5 = text::decimal(state) + (seq![';'] + f6);
    let f4 = text::decimal(down) + (seq![';'] + f5);
    let f3 = text::decimal(unicode) + (seq![';'] + f4);
    let f2 = text::decimal(scan) + (seq![';'] + f3);
    text::decimal(vk) + (seq![';'] + f2)
}

proof fn concat_right(a: Seq<char>, b: Seq<char>, c: Seq<char>)
    ensures
        a + b + c == a + (b + c),
{
    assert(a + b + c =~= a + (b + c));
}

proof fn wire_is_its_fields(
    vk: nat,
    scan: nat,
    unicode: nat,
    down: nat,
    state: nat,
    repeat: nat,
)
    ensures
        wire(
            vk as int,
            scan as int,
            unicode as int,
            down as int,
            state as int,
            repeat as int,
        ) == seq!['\u{1b}', '['] + fields(vk, scan, unicode, down, state, repeat),
{
    let s = seq![';'];
    let none = Seq::<char>::empty();
    let w0 = seq!['\u{1b}', '['];
    let w1 = w0 + text::decimal(vk) + s;
    let w2 = w1 + text::decimal(scan) + s;
    let w3 = w2 + text::decimal(unicode) + s;
    let w4 = w3 + text::decimal(down) + s;
    let w5 = w4 + text::decimal(state) + s;
    let f6 = text::decimal(repeat) + (seq!['_'] + none);
    let f5 = text::decimal(state) + (s + f6);
    let f4 = text::decimal(down) + (s + f5);
    let f3 = text::decimal(unicode) + (s + f4);
    let f2 = text::decimal(scan) + (s + f3);
    assert(seq!['_'] + none =~= seq!['_']);
    concat_right(w5, text::decimal(repeat), seq!['_']);
    concat_right(w4 + text::decimal(state), s, f6);
    concat_right(w4, text::decimal(state), s + f6);
    concat_right(w3 + text::decimal(down), s, f5);
    concat_right(w3, text::decimal(down), s + f5);
    concat_right(w2 + text::decimal(unicode), s, f4);
    concat_right(w2, text::decimal(unicode), s + f4);
    concat_right(w1 + text::decimal(scan), s, f3);
    concat_right(w1, text::decimal(scan), s + f3);
    concat_right(w0 + text::decimal(vk), s, f2);
    concat_right(w0, text::decimal(vk), s + f2);
}

/// The receiver can read every field of a record back: two records with the
/// same text have the same fields.
pub proof fn wire_reads_back(
    vk: nat,
    scan: nat,
    unicode: nat,
    down: nat,
    state: nat,
    repeat: nat,
    vk2: nat,
    scan2: nat,
    unicode2: nat,
    down2: nat,
    state2: nat,
    repeat2: nat,
)
    requires
        wire(
            vk as int,
            scan as int,
            unicode as int,
            down as int,
            state as int,
            repeat as int,
        ) == wire(
            vk2 as int,
            scan2 as int,
            unicode2 as int,
            down2 as int,
            state2 as int,
            repeat2 as int,
        ),
    ensures
        vk == vk2,
        scan == scan2,
        unicode == unicode2,
        down == down2,
        state == state2,
        repeat == repeat2,
{
    wire_is_its_fields(vk, scan, unicode, down, state, repeat);
    wire_is_its_fields(vk2, scan2, unicode2, down2, state2, repeat2);
    let head = seq!['\u{1b}', '['];
    let a = fields(vk, scan, unicode, down, state, repeat);
    let b = fields(vk2, scan2, unicode2, down2, state2, repeat2);
    assert(a == b) by {
        assert(a =~= (head + a).skip(2));
        assert(b =~= (head + b).skip(2));
    }
    let none = Seq::<char>::empty();
    let a6 = text::decimal(repeat) + (seq!['_'] + none);
    let a5 = text::decimal(state) + (seq![';'] + a6);
    let a4 = text::decimal(down) + (seq![';'] + a5);
    let a3 = text::decimal(unicode) + (seq![';'] + a4);
    let a2 = text::decimal(scan) + (seq![';'] + a3);
    let b6 = text::decimal(repeat2) + (seq!['_'] + none);
    let b5 = text::decimal(state2) + (seq![';'] + b6);
    let b4 = text::decimal(down2) + (seq![';'] + b5);
    let b3 = text::decimal(unicode2) + (seq![';'] + b4);
    let b2 = text::decimal(scan2) + (seq![';'] + b3);
    field_reads_back(vk, vk2, a2, b2, ';');
    field_reads_back(scan, scan2, a3, b3, ';');
    field_reads_back(unicode, unicode2, a4, b4, ';');
    field_reads_back(down, down2, a5, b5, ';');
    field_reads_back(state, state2, a6, b6, ';');
    field_reads_back(repeat, repeat2, none, none, '_');
}

proof fn fields_are_natural(key: KeyWithModifier)
    ensures
        vk_of(key.bare_key) matches Some(vk) ==> vk >= 0,
        scan_of(key.bare_key) >= 0,
        unicode_of(key) >= 0,
        control_state_of(key) >= 0,
{
}

/// Virtual-key code and modifiers are preserved: keys that Windows has and that
/// are written alike have the same code and scan code, type the same character,
/// and are held with the same of ctrl, alt and shift.
pub proof fn encoding_preserves_key_and_modifiers(a: KeyWithModifier, b: KeyWithModifier)
    requires
        vk_of(a.bare_key) is Some,
        vk_of(b.bare_key) is Some,
        encoded(a) == encoded(b),
    ensures
        vk_of(a.bare_key) == vk_of(b.bare_key),
        scan_of(a.bare_key) == scan_of(b.bare_key),
        unicode_of(a) == unicode_of(b),
        a.holds(KeyModifier::Ctrl) == b.holds(KeyModifier::Ctrl),
        a.holds(KeyModifier::Alt) == b.holds(KeyModifier::Alt),
        a.holds(KeyModifier::Shift) == b.holds(KeyModifier::Shift),
{
    fields_are_natural(a);
    fields_are_natural(b);
    wire_reads_back(
        vk_of(a.bare_key)->0 as nat,
        scan_of(a.bare_key) as nat,
        unicode_of(a) as nat,
        1,
        control_state_of(a) as nat,
        1,
        vk_of(b.bare_key)->0 as nat,
        scan_of(b.bare_key) as nat,
        unicode_of(b) as nat,
        1,
        control_state_of(b) as nat,
        1,
    );
}

/// A letter is never written as Enter, whatever is held with either: Ctrl+J
/// stays Ctrl+J.
pub proof fn a_letter_is_never_enter(letter: KeyWithModifier, enter: KeyWithModifier)
    requires
        letter.bare_key matches BareKey::Char(c) && is_letter(c),
        enter.bare_key == BareKey::Enter,
    ensures
        encoded(letter) != encoded(enter),
{
    if encoded(letter) == encoded(enter) {
        encoding_preserves_key_and_modifiers(letter, enter);
    }
}

/// Ctrl with a letter, and without alt, types a control character and never a
/// printable one.
pub proof fn ctrl_letter_types_a_control_character(key: KeyWithModifier)
    requires
        key.bare_key matches BareKey::Char(c) && is_letter(c),
        key.holds(KeyModifier::Ctrl),
        !key.holds(KeyModifier::Alt),
    ensures
        0x01 <= unicode_of(key) <= 0x1A,
{
}

} // verus!
