use zellij_ext::keys::{BareKey, KeyModifier, KeyWithModifier};
use zellij_ext::win32_input_mode::{encode_key_for_child, key_to_records, serialize_record};

fn k(bare: BareKey, mods: &[KeyModifier]) -> KeyWithModifier {
    KeyWithModifier { bare_key: bare, key_modifiers: mods.to_vec() }
}

fn encoded(bare: BareKey, mods: &[KeyModifier]) -> String {
    String::from_utf8(encode_key_for_child(&k(bare, mods))).unwrap()
}

#[test]
fn ctrl_j_carries_vk_j_not_vk_return() {
    let bytes = encode_key_for_child(&k(BareKey::Char('j'), &[KeyModifier::Ctrl]));
    let s = String::from_utf8(bytes).unwrap();
    assert_eq!(s, "\u{1b}[74;36;10;1;8;1_");
}

#[test]
fn ctrl_d_unicode_is_control_char_not_printable_d() {
    let bytes = encode_key_for_child(&k(BareKey::Char('d'), &[KeyModifier::Ctrl]));
    let s = String::from_utf8(bytes).unwrap();
    assert_eq!(s, "\u{1b}[68;32;4;1;8;1_");
}

#[test]
fn ctrl_s_unicode_is_control_char() {
    let bytes = encode_key_for_child(&k(BareKey::Char('s'), &[KeyModifier::Ctrl]));
    let s = String::from_utf8(bytes).unwrap();
    assert_eq!(s, "\u{1b}[83;31;19;1;8;1_");
}

#[test]
fn plain_enter_is_distinct_from_ctrl_j() {
    let bytes = encode_key_for_child(&k(BareKey::Enter, &[]));
    let s = String::from_utf8(bytes).unwrap();
    assert_eq!(s, "\u{1b}[13;28;13;1;0;1_");
}

#[test]
fn arrow_keys_get_enhanced_bit() {
    let bytes = encode_key_for_child(&k(BareKey::Left, &[]));
    let s = String::from_utf8(bytes).unwrap();
    assert_eq!(s, "\u{1b}[37;75;0;1;256;1_");
}

#[test]
fn shift_and_alt_change_the_character_and_the_state() {
    assert_eq!(encoded(BareKey::Char('a'), &[KeyModifier::Shift]), "\u{1b}[65;30;65;1;16;1_");
    assert_eq!(
        encoded(BareKey::Char('a'), &[KeyModifier::Ctrl, KeyModifier::Alt]),
        "\u{1b}[65;30;97;1;10;1_"
    );
    assert_eq!(encoded(BareKey::Char('a'), &[KeyModifier::Super]), "\u{1b}[65;30;97;1;0;1_");
}

#[test]
fn function_keys_end_at_twenty_four() {
    assert_eq!(encoded(BareKey::F(1), &[]), "\u{1b}[112;59;0;1;0;1_");
    assert_eq!(encoded(BareKey::F(11), &[]), "\u{1b}[122;87;0;1;0;1_");
    assert_eq!(encoded(BareKey::F(24), &[]), "\u{1b}[135;0;0;1;0;1_");
    assert_eq!(encoded(BareKey::F(0), &[]), "");
    assert_eq!(encoded(BareKey::F(25), &[]), "");
    assert!(key_to_records(&k(BareKey::F(25), &[])).is_empty());
}

#[test]
fn digits_space_and_symbols() {
    assert_eq!(encoded(BareKey::Char('0'), &[]), "\u{1b}[48;11;48;1;0;1_");
    assert_eq!(encoded(BareKey::Char('9'), &[]), "\u{1b}[57;10;57;1;0;1_");
    assert_eq!(encoded(BareKey::Char(' '), &[]), "\u{1b}[32;57;32;1;0;1_");
    assert_eq!(encoded(BareKey::Char('é'), &[]), "\u{1b}[0;0;233;1;0;1_");
    assert_eq!(encoded(BareKey::Char('\u{1F600}'), &[]), "\u{1b}[0;0;55357;1;0;1_");
    assert_eq!(encoded(BareKey::Char('\u{FFFD}'), &[]), "\u{1b}[0;0;65533;1;0;1_");
    assert_eq!(encoded(BareKey::Char('\u{10FFFF}'), &[]), "\u{1b}[0;0;56319;1;0;1_");
}

#[test]
fn a_record_is_written_field_by_field() {
    let records = key_to_records(&k(BareKey::Delete, &[KeyModifier::Shift]));
    assert_eq!(records.len(), 1);
    assert_eq!(serialize_record(&records[0]), "\u{1b}[46;83;0;1;272;1_");
}
