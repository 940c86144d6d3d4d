//! Raw input bytes made readable.
use vstd::prelude::*;

verus! {

/// A digit of a hexadecimal number.
pub open spec fn hex_digit(d: nat) -> char {
    if d < 10 {
        ('0' as u32 + d) as char
    } else {
        ('a' as u32 + (d - 10)) as char
    }
}

/// One byte: itself where it is a printable character, else its escape.
pub open spec fn shown_byte(b: u8) -> Seq<char> {
    if 0x20 <= b < 0x7f {
        seq![b as char]
    } else {
        seq!['\\', 'x', hex_digit((b / 16) as nat), hex_digit((b % 16) as nat)]
    }
}

/// Bytes with a space between one and the next.
pub open spec fn shown_bytes(bytes: Seq<u8>) -> Seq<char>
    decreases bytes.len(),
{
    if bytes.len() == 0 {
        Seq::empty()
    } else if bytes.len() == 1 {
        shown_byte(bytes[0])
    } else {
        shown_bytes(bytes.drop_last()) + seq![' '] + shown_byte(bytes.last())
    }
}

fn hex_char(d: u8) -> (r: char)
    requires
        d < 16,
    ensures
        r == hex_digit(d as nat),
{
    if d < 10 {
        (0x30 + d) as char
    } else {
        (0x61 + (d - 10)) as char
    }
}

fn push_byte(out: &mut String, b: u8)
    ensures
        final(out)@ == old(out)@ + shown_byte(b),
{
    if 0x20 <= b && b < 0x7f {
        out.push(b as char);
    } else {
        out.push('\\');
        out.push('x');
        out.push(hex_char(b / 16));
        out.push(hex_char(b % 16));
    }
    assert(out@ =~= old(out)@ + shown_byte(b));
}

/// Bytes as a reader of a terminal wants to see them.
pub fn format_bytes(bytes: &[u8]) -> (r: String)
    ensures
        r@ == shown_bytes(bytes@),
{
    let mut out = String::new();
    let mut i: usize = 0;
    proof {
        assert(bytes@.take(0) =~= Seq::<u8>::empty());
        assert(out@ =~= Seq::<char>::empty());
    }
    while i < bytes.len()
        invariant
            i <= bytes.len(),
            out@ == shown_bytes(bytes@.take(i as int)),
        decreases bytes.len() - i,
    {
        assert(bytes@.take(i + 1).drop_last() =~= bytes@.take(i as int));
        let ghost before = out@;
        if i > 0 {
            out.push(' ');
        }
        push_byte(&mut out, bytes[i]);
        assert(out@ =~= (if i > 0 {
            before + seq![' '] + shown_byte(bytes@[i as int])
        } else {
            shown_byte(bytes@[i as int])
        }));
        i += 1;
    }
    assert(bytes@.take(i as int) =~= bytes@);
    out
}

/// A printable byte is shown as its character, from the blank to the tilde.
pub proof fn a_printable_byte_is_its_character(b: u8)
    requires
        ' ' as u32 <= b <= '~' as u32,
    ensures
        shown_byte(b).len() == 1,
        shown_byte(b)[0] as u32 == b,
{
}

/// Any other byte is shown by two hexadecimal digits behind a backslash and an x.
pub proof fn any_other_byte_is_its_number(b: u8)
    requires
        b < 32 || b > 126,
    ensures
        ({
            let digits = seq![
                '0', '1', '2', '3', '4', '5', '6', '7', '8', '9', 'a', 'b', 'c', 'd', 'e', 'f',
            ];
            &&& shown_byte(b).len() == 4
            &&& shown_byte(b)[0] == '\\'
            &&& shown_byte(b)[1] == 'x'
            &&& exists|hi: int, lo: int|
                0 <= hi < 16 && 0 <= lo < 16 && shown_byte(b)[2] == #[trigger] digits[hi]
                    && shown_byte(b)[3] == #[trigger] digits[lo] && 16 * hi + lo == b
        }),
{
    let digits = seq![
        '0', '1', '2', '3', '4', '5', '6', '7', '8', '9', 'a', 'b', 'c', 'd', 'e', 'f',
    ];
    let hi = (b / 16) as int;
    let lo = (b % 16) as int;
    digit_of(hi as nat);
    digit_of(lo as nat);
    assert(shown_byte(b)[2] == digits[hi]);
    assert(shown_byte(b)[3] == digits[lo]);
}

proof fn digit_of(d: nat)
    requires
        d < 16,
    ensures
        hex_digit(d) == seq![
            '0', '1', '2', '3', '4', '5', '6', '7', '8', '9', 'a', 'b', 'c', 'd', 'e', 'f',
        ][d as int],
{
}

/// Bytes are shown one behind the other, with a blank between two.
pub proof fn bytes_stand_apart(bytes: Seq<u8>, b: u8)
    ensures
        shown_bytes(Seq::empty()).len() == 0,
        shown_bytes(seq![b]) == shown_byte(b),
        bytes.len() > 0 ==> shown_bytes(bytes.push(b)) == shown_bytes(bytes) + seq![' ']
            + shown_byte(b),
{
    assert(bytes.push(b).drop_last() =~= bytes);
}

} // verus!
