//! Bytes written as numerals: two hexadecimal digits, or decimal digits.

use vstd::prelude::*;
use vstd::string::StringExecFns;

verus! {

/// The character that writes the digit `n`: `0` to `9`, then `a` to `f`.
pub open spec fn digit_char(n: int) -> char
    recommends
        0 <= n < 16,
{
    if n < 10 {
        ('0' as int + n) as char
    } else {
        ('a' as int + n - 10) as char
    }
}

/// The digit that `c` writes in base 16, in either case of the letters.
pub open spec fn hex_value(c: char) -> Option<int> {
    if '0' <= c <= '9' {
        Some(c as int - '0' as int)
    } else if 'a' <= c <= 'f' {
        Some(c as int - 'a' as int + 10)
    } else if 'A' <= c <= 'F' {
        Some(c as int - 'A' as int + 10)
    } else {
        None
    }
}

/// `byte` as two hexadecimal digits, the letters in lower case.
pub open spec fn hex_pair(byte: u8) -> Seq<char> {
    seq![digit_char(byte as int / 16), digit_char(byte as int % 16)]
}

/// The byte that `token` writes as exactly two hexadecimal digits.
pub open spec fn hex_byte(token: Seq<char>) -> Option<u8> {
    if token.len() == 2 && hex_value(token[0]) is Some && hex_value(token[1]) is Some {
        Some((16 * hex_value(token[0])->0 + hex_value(token[1])->0) as u8)
    } else {
        None
    }
}

/// `n` in decimal digits, without leading zeros.
pub open spec fn dec_text(n: nat) -> Seq<char>
    decreases n,
{
    if n < 10 {
        seq![digit_char(n as int)]
    } else {
        dec_text(n / 10).push(digit_char(n as int % 10))
    }
}

/// Whether `text` holds decimal digits only.
pub open spec fn is_digits(text: Seq<char>) -> bool {
    forall|i: int| 0 <= i < text.len() ==> '0' <= #[trigger] text[i] <= '9'
}

/// The number that the decimal digits `digits` write.
pub open spec fn dec_value(digits: Seq<char>) -> nat
    decreases digits.len(),
{
    if digits.len() == 0 {
        0
    } else {
        (10 * dec_value(digits.drop_last()) + (digits.last() as int - '0' as int)) as nat
    }
}

/// The digits of a decimal token: what follows its `+` sign, if it has one.
pub open spec fn unsigned_part(token: Seq<char>) -> Seq<char> {
    if token.len() > 0 && token[0] == '+' {
        token.drop_first()
    } else {
        token
    }
}

/// The byte that `token` writes in decimal: an optional `+`, then one or more
/// digits whose value is at most 255. Leading zeros are accepted.
pub open spec fn dec_byte(token: Seq<char>) -> Option<u8> {
    let digits = unsigned_part(token);
    if digits.len() > 0 && is_digits(digits) && dec_value(digits) <= 255 {
        Some(dec_value(digits) as u8)
    } else {
        None
    }
}

/// Reading a byte's two hexadecimal digits gives the byte back.
pub proof fn lemma_hex_round_trip(byte: u8)
    ensures
        hex_byte(hex_pair(byte)) == Some(byte),
        !hex_pair(byte).contains(':'),
{
    let high = byte as int / 16;
    let low = byte as int % 16;
    assert(hex_value(digit_char(high)) == Some(high));
    assert(hex_value(digit_char(low)) == Some(low));
    let pair = hex_pair(byte);
    assert(pair[0] == digit_char(high) && pair[1] == digit_char(low));
    assert(pair[0] != ':' && pair[1] != ':');
}

/// The decimal digits of a number are digits, at least one, and write that
/// number.
pub proof fn lemma_dec_text_value(n: nat)
    ensures
        dec_text(n).len() > 0,
        is_digits(dec_text(n)),
        dec_value(dec_text(n)) == n,
    decreases n,
{
    if n < 10 {
        let text = dec_text(n);
        assert(text.drop_last() == Seq::<char>::empty());
        assert(text.last() == digit_char(n as int));
        assert(dec_value(text.drop_last()) == 0);
    } else {
        lemma_dec_text_value(n / 10);
        let front = dec_text(n / 10);
        let text = dec_text(n);
        assert(text.drop_last() == front);
        assert(text.last() == digit_char(n as int % 10));
    }
}

/// Reading a byte's decimal digits gives the byte back.
pub proof fn lemma_dec_round_trip(byte: u8)
    ensures
        dec_byte(dec_text(byte as nat)) == Some(byte),
        !dec_text(byte as nat).contains('.'),
{
    let text = dec_text(byte as nat);
    lemma_dec_text_value(byte as nat);
    assert(text[0] != '+');
    assert(unsigned_part(text) == text);
}

/// The digit that `c` writes in base 16, if it writes one.
fn hex_digit_value(c: char) -> (value: Option<u8>)
    ensures
        match value {
            Some(v) => hex_value(c) == Some(v as int),
            None => hex_value(c) is None,
        },
{
    if c >= '0' && c <= '9' {
        Some(c as u8 - 48)
    } else if c >= 'a' && c <= 'f' {
        Some(c as u8 - 87)
    } else if c >= 'A' && c <= 'F' {
        Some(c as u8 - 55)
    } else {
        None
    }
}

/// Reads `token` as a byte of exactly two hexadecimal digits.
pub fn parse_hex_byte(token: &Vec<char>) -> (byte: Option<u8>)
    ensures
        byte == hex_byte(token@),
{
    if token.len() != 2 {
        return None;
    }
    match (hex_digit_value(token[0]), hex_digit_value(token[1])) {
        (Some(high), Some(low)) => Some(16 * high + low),
        _ => None,
    }
}

/// Reads `token` as a byte in decimal: an optional `+`, then digits.
pub fn parse_dec_byte(token: &Vec<char>) -> (byte: Option<u8>)
    ensures
        byte == dec_byte(token@),
{
    let start: usize = if token.len() > 0 && token[0] == '+' {
        1
    } else {
        0
    };
    let ghost digits = unsigned_part(token@);
    assert(digits == token@.subrange(start as int, token@.len() as int));
    if start == token.len() {
        return None;
    }
    // `value` follows the digits read so far and stops growing at 256.
    let mut value: u16 = 0;
    let mut at: usize = start;
    while at < token.len()
        invariant
            start <= at <= token.len(),
            digits == unsigned_part(token@),
            digits == token@.subrange(start as int, token@.len() as int),
            is_digits(digits.take(at - start)),
            value <= 256,
            value == if dec_value(digits.take(at - start)) < 256 {
                dec_value(digits.take(at - start))
            } else {
                256
            },
        decreases token.len() - at,
    {
        let c = token[at];
        let ghost read = digits.take(at - start);
        let ghost longer = digits.take(at - start + 1);
        proof {
            assert(digits[at - start] == c);
            assert(longer.drop_last() == read);
            assert(longer.last() == c);
        }
        if !(c >= '0' && c <= '9') {
            assert(!is_digits(digits)) by {
                assert(!('0' <= digits[at - start] <= '9'));
            }
            return None;
        }
        let next: u16 = 10 * value + (c as u8 - 48) as u16;
        value = if next < 256 {
            next
        } else {
            256
        };
        at += 1;
    }
    assert(digits.take(at - start) == digits);
    if value < 256 {
        Some(value as u8)
    } else {
        None
    }
}

/// The digit `n` as a text of one character.
fn digit_str(n: u8) -> (text: &'static str)
    requires
        n < 16,
    ensures
        text@ == seq![digit_char(n as int)],
{
    proof {
        reveal_strlit("0");
        reveal_strlit("1");
        reveal_strlit("2");
        reveal_strlit("3");
        reveal_strlit("4");
        reveal_strlit("5");
        reveal_strlit("6");
        reveal_strlit("7");
        reveal_strlit("8");
        reveal_strlit("9");
        reveal_strlit("a");
        reveal_strlit("b");
        reveal_strlit("c");
        reveal_strlit("d");
        reveal_strlit("e");
        reveal_strlit("f");
    }
    let text = match n {
        0 => "0",
        1 => "1",
        2 => "2",
        3 => "3",
        4 => "4",
        5 => "5",
        6 => "6",
        7 => "7",
        8 => "8",
        9 => "9",
        10 => "a",
        11 => "b",
        12 => "c",
        13 => "d",
        14 => "e",
        _ => "f",
    };
    assert(text@ =~= seq![digit_char(n as int)]);
    text
}

/// Adds `byte` to `out` as two hexadecimal digits, the letters in lower case.
pub fn append_hex_pair(out: &mut String, byte: u8)
    ensures
        final(out)@ == old(out)@ + hex_pair(byte),
{
    out.append(digit_str(byte / 16));
    out.append(digit_str(byte % 16));
    assert(out@ =~= old(out)@ + hex_pair(byte));
}

/// Adds `byte` to `out` in decimal digits, without leading zeros.
pub fn append_dec(out: &mut String, byte: u8)
    ensures
        final(out)@ == old(out)@ + dec_text(byte as nat),
{
    proof {
        reveal_with_fuel(dec_text, 3);
    }
    if byte >= 100 {
        out.append(digit_str(byte / 100));
    }
    if byte >= 10 {
        out.append(digit_str(byte / 10 % 10));
    }
    out.append(digit_str(byte % 10));
    assert(out@ =~= old(out)@ + dec_text(byte as nat));
}

} // verus!
