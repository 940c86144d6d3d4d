//! Which record each key is written as, by the tables of Windows and of a US
//! keyboard.
use super::{
    control_state_of, encoded, is_record_of, scan_of, unicode_of, vk_of, wire, Win32KeyRecord,
};
use crate::keys::{BareKey, KeyModifier, KeyWithModifier};
use crate::text;
use vstd::prelude::*;

verus! {

/// A named key in the tables: its virtual-key code, its scan code, the character
/// it types (zero for none), and whether it stands outside the main block.
pub ghost struct Named {
    pub key: BareKey,
    pub vk: int,
    pub scan: int,
    pub unicode: int,
    pub enhanced: bool,
}

/// The named keys, by their codes VK_BACK to VK_SCROLL.
pub open spec fn named_keys() -> Seq<Named> {
    seq![
        Named { key: BareKey::Backspace, vk: 0x08, scan: 14, unicode: 0x08, enhanced: false },
        Named { key: BareKey::Tab, vk: 0x09, scan: 15, unicode: 0x09, enhanced: false },
        Named { key: BareKey::Enter, vk: 0x0D, scan: 28, unicode: 0x0D, enhanced: false },
        Named { key: BareKey::Pause, vk: 0x13, scan: 0, unicode: 0, enhanced: false },
        Named { key: BareKey::CapsLock, vk: 0x14, scan: 0, unicode: 0, enhanced: false },
        Named { key: BareKey::Esc, vk: 0x1B, scan: 1, unicode: 0x1B, enhanced: false },
        Named { key: BareKey::PageUp, vk: 0x21, scan: 73, unicode: 0, enhanced: true },
        Named { key: BareKey::PageDown, vk: 0x22, scan: 81, unicode: 0, enhanced: true },
        Named { key: BareKey::End, vk: 0x23, scan: 79, unicode: 0, enhanced: true },
        Named { key: BareKey::Home, vk: 0x24, scan: 71, unicode: 0, enhanced: true },
        Named { key: BareKey::Left, vk: 0x25, scan: 75, unicode: 0, enhanced: true },
        Named { key: BareKey::Up, vk: 0x26, scan: 72, unicode: 0, enhanced: true },
        Named { key: BareKey::Right, vk: 0x27, scan: 77, unicode: 0, enhanced: true },
        Named { key: BareKey::Down, vk: 0x28, scan: 80, unicode: 0, enhanced: true },
        Named { key: BareKey::PrintScreen, vk: 0x2C, scan: 0, unicode: 0, enhanced: false },
        Named { key: BareKey::Insert, vk: 0x2D, scan: 82, unicode: 0, enhanced: true },
        Named { key: BareKey::Delete, vk: 0x2E, scan: 83, unicode: 0, enhanced: true },
        Named { key: BareKey::Menu, vk: 0x5D, scan: 0, unicode: 0, enhanced: false },
        Named { key: BareKey::NumLock, vk: 0x90, scan: 0, unicode: 0, enhanced: false },
        Named { key: BareKey::ScrollLock, vk: 0x91, scan: 0, unicode: 0, enhanced: false },
    ]
}

/// The text of a key-down record that is not repeated.
pub open spec fn record_text(vk: int, scan: int, unicode: int, state: int) -> Seq<char> {
    seq!['\u{1b}', '['] + text::decimal(vk as nat) + seq![';'] + text::decimal(scan as nat)
        + seq![';'] + text::decimal(unicode as nat) + seq![';', '1', ';'] + text::decimal(
        state as nat,
    ) + seq![';', '1', '_']
}

/// The bits of the modifiers held: two for alt, eight for ctrl, sixteen for shift.
pub open spec fn held_bits(key: KeyWithModifier) -> int {
    (if key.key_modifiers@.contains(KeyModifier::Alt) {
        2int
    } else {
        0
    }) + (if key.key_modifiers@.contains(KeyModifier::Ctrl) {
        8int
    } else {
        0
    }) + (if key.key_modifiers@.contains(KeyModifier::Shift) {
        16int
    } else {
        0
    })
}

proof fn written(key: KeyWithModifier, vk: int, scan: int, unicode: int, state: int)
    requires
        vk_of(key.bare_key) == Some(vk),
        scan_of(key.bare_key) == scan,
        unicode_of(key) == unicode,
        control_state_of(key) == state,
    ensures
        encoded(key) == record_text(vk, scan, unicode, state),
{
    assert(text::decimal(1) =~= seq!['1']);
    let head = seq!['\u{1b}', '['] + text::decimal(vk as nat) + seq![';'] + text::decimal(
        scan as nat,
    ) + seq![';'] + text::decimal(unicode as nat);
    assert(head + seq![';'] + seq!['1'] + seq![';'] =~= head + seq![';', '1', ';']);
    let upto = head + seq![';', '1', ';'] + text::decimal(state as nat);
    assert(upto + seq![';'] + seq!['1'] + seq!['_'] =~= upto + seq![';', '1', '_']);
}

/// Every named key is written with the codes the tables give it, and with the bits
/// of what is held, and of the block it stands in.
pub proof fn a_named_key_has_its_codes(key: KeyWithModifier, i: int)
    requires
        0 <= i < named_keys().len(),
        key.bare_key == named_keys()[i].key,
    ensures
        ({
            let n = named_keys()[i];
            encoded(key) == record_text(
                n.vk,
                n.scan,
                n.unicode,
                held_bits(key) + if n.enhanced {
                    256int
                } else {
                    0
                },
            )
        }),
{
    let n = named_keys()[i];
    written(
        key,
        n.vk,
        n.scan,
        n.unicode,
        held_bits(key) + if n.enhanced {
            256int
        } else {
            0
        },
    );
}

/// Every key is in the tables, is a function key, or types a character.
pub proof fn the_named_keys_are_all(key: BareKey)
    ensures
        key is F || key is Char || exists|i: int|
            0 <= i < named_keys().len() && (#[trigger] named_keys()[i]).key == key,
{
    let t = named_keys();
    assert(t[0].key == BareKey::Backspace && t[1].key == BareKey::Tab && t[2].key == BareKey::Enter
        && t[3].key == BareKey::Pause && t[4].key == BareKey::CapsLock && t[5].key == BareKey::Esc
        && t[6].key == BareKey::PageUp && t[7].key == BareKey::PageDown && t[8].key == BareKey::End
        && t[9].key == BareKey::Home && t[10].key == BareKey::Left && t[11].key == BareKey::Up
        && t[12].key == BareKey::Right && t[13].key == BareKey::Down && t[14].key
        == BareKey::PrintScreen && t[15].key == BareKey::Insert && t[16].key == BareKey::Delete
        && t[17].key == BareKey::Menu && t[18].key == BareKey::NumLock && t[19].key
        == BareKey::ScrollLock);
}

/// The function keys have consecutive codes from VK_F1. Their scan codes are
/// consecutive up to F10; F11 and F12 came later, and the rest have none. A
/// function key that Windows does not have is not written.
pub proof fn function_keys_are_numbered(key: KeyWithModifier, n: u8)
    requires
        key.bare_key == BareKey::F(n),
    ensures
        n == 0 || n > 24 ==> encoded(key).len() == 0,
        1 <= n <= 10 ==> encoded(key) == record_text(111 + n, 58 + n, 0, held_bits(key)),
        n == 11 ==> encoded(key) == record_text(122, 87, 0, held_bits(key)),
        n == 12 ==> encoded(key) == record_text(123, 88, 0, held_bits(key)),
        13 <= n <= 24 ==> encoded(key) == record_text(111 + n, 0, 0, held_bits(key)),
{
    if 1 <= n <= 24 {
        written(key, 111 + n, scan_of(key.bare_key), 0, held_bits(key));
    }
}

/// A row of keys on the board, left to right, and the scan code it starts with.
pub ghost struct KeyRow {
    pub keys: Seq<char>,
    pub first_scan: int,
}

/// The rows of a US keyboard.
pub open spec fn key_rows() -> Seq<KeyRow> {
    seq![
        KeyRow {
            keys: seq!['1', '2', '3', '4', '5', '6', '7', '8', '9', '0'],
            first_scan: 2,
        },
        KeyRow {
            keys: seq!['Q', 'W', 'E', 'R', 'T', 'Y', 'U', 'I', 'O', 'P'],
            first_scan: 16,
        },
        KeyRow {
            keys: seq!['A', 'S', 'D', 'F', 'G', 'H', 'J', 'K', 'L'],
            first_scan: 30,
        },
        KeyRow { keys: seq!['Z', 'X', 'C', 'V', 'B', 'N', 'M'], first_scan: 44 },
    ]
}

/// A digit key has the digit's own code and types it, whatever is held.
pub proof fn a_digit_has_its_own_code(key: KeyWithModifier, i: int)
    requires
        0 <= i < 10,
        key.bare_key == BareKey::Char(key_rows()[0].keys[i]),
    ensures
        encoded(key) == record_text(
            key_rows()[0].keys[i] as int,
            2 + i,
            key_rows()[0].keys[i] as int,
            held_bits(key),
        ),
{
    let c = key_rows()[0].keys[i];
    written(key, c as int, 2 + i, c as int, held_bits(key));
}

/// A letter key has the code of the letter in upper case, in either case, and the
/// scan code of its place in its row. What it types is the letter as it is, with
/// shift the letter in upper case, and with ctrl, unless alt is held too, the
/// letter's number in the alphabet.
pub proof fn a_letter_has_its_capitals_code(key: KeyWithModifier, row: int, i: int, c: char)
    requires
        1 <= row < 4,
        0 <= i < key_rows()[row].keys.len(),
        key.bare_key == BareKey::Char(c),
        c == key_rows()[row].keys[i] || c as int == key_rows()[row].keys[i] as int + 32,
    ensures
        ({
            let capital = key_rows()[row].keys[i] as int;
            let ctrl = key.key_modifiers@.contains(KeyModifier::Ctrl);
            let alt = key.key_modifiers@.contains(KeyModifier::Alt);
            let shift = key.key_modifiers@.contains(KeyModifier::Shift);
            encoded(key) == record_text(
                capital,
                key_rows()[row].first_scan + i,
                if ctrl && !alt {
                    capital - 64
                } else if shift {
                    capital
                } else {
                    c as int
                },
                held_bits(key),
            )
        }),
{
    let capital = key_rows()[row].keys[i] as int;
    written(
        key,
        capital,
        key_rows()[row].first_scan + i,
        unicode_of(key),
        held_bits(key),
    );
}

/// The space bar, and every other character: a symbol's code is left zero, and the
/// character carries the key.
pub proof fn a_symbol_is_carried_by_its_character(key: KeyWithModifier, c: char)
    requires
        key.bare_key == BareKey::Char(c),
        !('a' <= c && c <= 'z'),
        !('A' <= c && c <= 'Z'),
        !('0' <= c && c <= '9'),
    ensures
        c == ' ' ==> encoded(key) == record_text(32, 57, 32, held_bits(key)),
        c != ' ' && c as int <= 0xFFFF ==> encoded(key) == record_text(
            0,
            0,
            c as int,
            held_bits(key),
        ),
        c as int > 0xFFFF ==> encoded(key) == record_text(
            0,
            0,
            0xD800 + (c as int - 0x1_0000) / 0x400,
            held_bits(key),
        ),
{
    vstd::utf8::char_is_scalar(c);
    if c == ' ' {
        written(key, 32, 57, 32, held_bits(key));
    } else {
        written(key, 0, 0, unicode_of(key), held_bits(key));
    }
}

/// A record of a key press is a single key-down, and its text is what is written
/// for the key.
pub proof fn a_record_is_what_is_written(rec: Win32KeyRecord, key: KeyWithModifier)
    requires
        is_record_of(rec, key),
    ensures
        rec.key_down,
        rec.repeat == 1,
        encoded(key) == record_text(
            rec.vk as int,
            rec.scan as int,
            rec.unicode as int,
            rec.control_key_state as int,
        ),
{
    written(
        key,
        rec.vk as int,
        rec.scan as int,
        rec.unicode as int,
        rec.control_key_state as int,
    );
}

/// A record on the wire: the six fields in decimal, in this order, between the
/// escape and the underscore.
pub proof fn a_record_has_six_fields(
    vk: nat,
    scan: nat,
    unicode: nat,
    down: nat,
    state: nat,
    repeat: nat,
)
    ensures
        wire(
            vk as int,
            scan as int,
            unicode as int,
            down as int,
            state as int,
            repeat as int,
        ) == seq!['\u{1b}', '['] + (text::decimal(vk) + seq![';']) + (text::decimal(scan)
            + seq![';']) + (text::decimal(unicode) + seq![';']) + (text::decimal(down) + seq![';'])
            + (text::decimal(state) + seq![';']) + (text::decimal(repeat) + seq!['_']),
{
    let w0 = seq!['\u{1b}', '['];
    let s = seq![';'];
    let w1 = w0 + text::decimal(vk) + s;
    assert(w0 + (text::decimal(vk) + s) =~= w1);
    let w2 = w1 + text::decimal(scan) + s;
    assert(w1 + (text::decimal(scan) + s) =~= w2);
    let w3 = w2 + text::decimal(unicode) + s;
    assert(w2 + (text::decimal(unicode) + s) =~= w3);
    let w4 = w3 + text::decimal(down) + s;
    assert(w3 + (text::decimal(down) + s) =~= w4);
    let w5 = w4 + text::decimal(state) + s;
    assert(w4 + (text::decimal(state) + s) =~= w5);
    assert(w5 + (text::decimal(repeat) + seq!['_']) =~= w5 + text::decimal(repeat) + seq!['_']);
}

} // verus!
