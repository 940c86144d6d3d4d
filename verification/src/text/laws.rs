//! What the operations on texts are for.
use super::{decimal, digit, is_digit, is_white, left_trimmed, precedes, right_trimmed, short};
use super::{trimmed, utf16_units, utf8_len, utf8_len_grows, utf8_size};
use vstd::prelude::*;
use vstd::utf8::*;

verus! {

/// The number that a run of digits stands for.
pub open spec fn number(s: Seq<char>) -> int
    decreases s.len(),
{
    if s.len() == 0 {
        0
    } else {
        number(s.drop_last()) * 10 + (s.last() as int - 0x30)
    }
}

/// Digits read as a number give the number that was written, and it is written
/// without leading zeros.
pub proof fn a_number_reads_back(n: nat)
    ensures
        number(decimal(n)) == n,
        decimal(n).len() > 0,
        decimal(n).len() > 1 ==> decimal(n)[0] != '0',
        n > 0 ==> decimal(n)[0] != '0',
        forall|i: int| 0 <= i < decimal(n).len() ==> 0x30 <= #[trigger] decimal(n)[i] as int <= 0x39,
    decreases n,
{
    if n >= 10 {
        a_number_reads_back(n / 10);
        assert(decimal(n).drop_last() =~= decimal(n / 10));
    } else {
        assert(decimal(n).drop_last() =~= Seq::<char>::empty());
        assert(number(Seq::<char>::empty()) == 0);
        assert(decimal(n).last() == digit(n));
    }
}

/// The digits are the ten characters from '0' to '9'.
pub proof fn digits_are_the_ten(c: char)
    ensures
        is_digit(c) <==> seq!['0', '1', '2', '3', '4', '5', '6', '7', '8', '9'].contains(c),
{
    let all = seq!['0', '1', '2', '3', '4', '5', '6', '7', '8', '9'];
    if is_digit(c) {
        assert(all[c as int - 0x30] == c);
    }
}

/// White space is what Unicode calls so: tab to carriage return, the spaces and
/// the separators.
pub proof fn white_space_is_unicodes(c: char)
    ensures
        is_white(c) <==> (c == '\t' || c == '\n' || c == '\u{b}' || c == '\u{c}' || c == '\r' || c
            == ' ' || c == '\u{85}' || c == '\u{a0}' || c == '\u{1680}' || ('\u{2000}' <= c && c
            <= '\u{200a}') || c == '\u{2028}' || c == '\u{2029}' || c == '\u{202f}' || c
            == '\u{205f}' || c == '\u{3000}'),
{
}

proof fn left_trimming(s: Seq<char>) -> (i: int)
    ensures
        0 <= i <= s.len(),
        left_trimmed(s) == s.skip(i),
        forall|k: int| 0 <= k < i ==> is_white(#[trigger] s[k]),
        i < s.len() ==> !is_white(s[i]),
    decreases s.len(),
{
    if s.len() > 0 && is_white(s[0]) {
        let j = left_trimming(s.skip(1));
        assert(s.skip(1).skip(j) =~= s.skip(j + 1));
        assert forall|k: int| 0 <= k < j + 1 implies is_white(#[trigger] s[k]) by {
            if k > 0 {
                assert(s.skip(1)[k - 1] == s[k]);
            }
        }
        j + 1
    } else {
        assert(s.skip(0) =~= s);
        0
    }
}

proof fn right_trimming(s: Seq<char>) -> (j: int)
    ensures
        0 <= j <= s.len(),
        right_trimmed(s) == s.take(j),
        forall|k: int| j <= k < s.len() ==> is_white(#[trigger] s[k]),
        j > 0 ==> !is_white(s[j - 1]),
    decreases s.len(),
{
    if s.len() > 0 && is_white(s.last()) {
        let j = right_trimming(s.drop_last());
        assert(s.drop_last().take(j) =~= s.take(j));
        assert forall|k: int| j <= k < s.len() implies is_white(#[trigger] s[k]) by {
            if k < s.len() - 1 {
                assert(s.drop_last()[k] == s[k]);
            }
        }
        j
    } else {
        assert(s.take(s.len() as int) =~= s);
        s.len() as int
    }
}

/// Trimming takes white space off both ends, and nothing else: what was taken off
/// is white, and neither end of what is left is.
pub proof fn trimming_takes_only_white_space(s: Seq<char>) -> (ends: (int, int))
    ensures
        0 <= ends.0 <= ends.1 <= s.len(),
        trimmed(s) == s.subrange(ends.0, ends.1),
        forall|k: int| 0 <= k < ends.0 || ends.1 <= k < s.len() ==> is_white(#[trigger] s[k]),
        ends.0 < ends.1 ==> !is_white(s[ends.0]) && !is_white(s[ends.1 - 1]),
{
    let i = left_trimming(s);
    let l = s.skip(i);
    let j = right_trimming(l);
    assert(l.take(j) =~= s.subrange(i, i + j));
    assert forall|k: int| 0 <= k < i || i + j <= k < s.len() implies is_white(#[trigger] s[k]) by {
        if k >= i {
            assert(l[k - i] == s[k]);
        }
    }
    if 0 < j {
        assert(l[0] == s[i]);
        assert(l[j - 1] == s[i + j - 1]);
    }
    (i, i + j)
}

/// One text stands before another exactly where, behind what they begin with in
/// common, it ends first or goes on with the smaller character.
pub proof fn order_is_that_of_the_first_difference(a: Seq<char>, b: Seq<char>, k: int)
    requires
        0 <= k <= a.len(),
        k <= b.len(),
        a.take(k) == b.take(k),
        k == a.len() || k == b.len() || a[k] != b[k],
    ensures
        precedes(a, b) <==> k < b.len() && (k == a.len() || a[k] < b[k]),
    decreases k,
{
    if k > 0 {
        assert(a.take(k)[0] == a[0]);
        assert(b.take(k)[0] == b[0]);
        assert(a.skip(1).take(k - 1) =~= a.take(k).skip(1));
        assert(b.skip(1).take(k - 1) =~= b.take(k).skip(1));
        order_is_that_of_the_first_difference(a.skip(1), b.skip(1), k - 1);
    }
}

proof fn encoded_concat(a: Seq<char>, b: Seq<char>)
    ensures
        encode_utf8(a + b).len() == encode_utf8(a).len() + encode_utf8(b).len(),
    decreases a.len(),
{
    if a.len() == 0 {
        assert(a + b =~= b);
    } else {
        assert((a + b).drop_first() =~= a.drop_first() + b);
        encoded_concat(a.drop_first(), b);
    }
}

/// The length of a text in bytes is that of its UTF-8.
pub proof fn length_is_that_of_the_utf8(s: Seq<char>)
    ensures
        utf8_len(s) == encode_utf8(s).len(),
    decreases s.len(),
{
    if s.len() > 0 {
        let c = s.last();
        length_is_that_of_the_utf8(s.drop_last());
        assert(s =~= s.drop_last() + seq![c]);
        encoded_concat(s.drop_last(), seq![c]);
        assert(seq![c].drop_first() =~= Seq::<char>::empty());
        assert(encode_utf8(seq![c]) =~= encode_scalar(c as u32) + encode_utf8(Seq::<char>::empty()));
        char_is_scalar(c);
        assert(encode_scalar(c as u32).len() == utf8_size(c));
    }
}

/// A label is a beginning of the text: its first eight bytes, where a character
/// ends there, and else the whole text.
pub proof fn a_label_is_eight_bytes(s: Seq<char>, n: int)
    requires
        0 <= n <= s.len(),
    ensures
        encode_utf8(s.take(n)).len() == 8 ==> short(s) == s.take(n),
        encode_utf8(short(s)).len() != 8 ==> short(s) == s,
        short(s).is_prefix_of(s),
{
    length_is_that_of_the_utf8(s.take(n));
    length_is_that_of_the_utf8(short(s));
    if exists|m: int| 0 <= m <= s.len() && utf8_len(#[trigger] s.take(m)) == 8 {
        let m = choose|m: int| 0 <= m <= s.len() && utf8_len(#[trigger] s.take(m)) == 8;
        if utf8_len(s.take(n)) == 8 {
            if m < n {
                utf8_len_grows(s, m, n);
            }
            if n < m {
                utf8_len_grows(s, n, m);
            }
        }
    }
}

/// The UTF-16 of a character: itself where it fits a unit, else a high and a low
/// surrogate that stand for it.
pub proof fn surrogates_stand_for_their_character(c: char)
    ensures
        c as int <= 0xFFFF ==> utf16_units(c) == seq![c as u16],
        c as int > 0xFFFF ==> ({
            let u = utf16_units(c);
            &&& u.len() == 2
            &&& 0xD800 <= u[0] < 0xDC00
            &&& 0xDC00 <= u[1] < 0xE000
            &&& 0x1_0000 + (u[0] - 0xD800) * 0x400 + (u[1] - 0xDC00) == c as int
        }),
{
    char_is_scalar(c);
}

} // verus!
