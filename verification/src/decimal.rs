//! Decimal numbers as they appear in header values: reading a length from
//! the bytes of a field, and writing an offset as text.

use vstd::prelude::*;
use vstd::string::StringExecFns;

verus! {

/// Whether `byte` is one of the ASCII digits `0` to `9`.
pub open spec fn is_digit(byte: u8) -> bool {
    0x30 <= byte <= 0x39
}

/// Whether every byte of `text` is an ASCII digit.
pub open spec fn all_digits(text: Seq<u8>) -> bool {
    forall|i: int| 0 <= i < text.len() ==> is_digit(#[trigger] text[i])
}

/// The number that a run of ASCII digits denotes in base ten; the empty run
/// denotes zero.
pub open spec fn digits_value(text: Seq<u8>) -> nat
    decreases text.len(),
{
    if text.len() == 0 {
        0
    } else {
        digits_value(text.drop_last()) * 10 + (text.last() - 0x30) as nat
    }
}

/// `text` without the one `+` sign that may stand in front of the digits.
pub open spec fn unsigned_part(text: Seq<u8>) -> Seq<u8> {
    if text.len() > 0 && text[0] == 0x2b {
        text.drop_first()
    } else {
        text
    }
}

/// The number that `text` denotes: an optional `+`, then one or more ASCII
/// digits and nothing else, with a value that fits in 64 bits. Any other
/// text denotes no number.
pub open spec fn parse_decimal(text: Seq<u8>) -> Option<u64> {
    let digits = unsigned_part(text);
    if digits.len() > 0 && all_digits(digits) && digits_value(digits) <= u64::MAX {
        Some(digits_value(digits) as u64)
    } else {
        None
    }
}

/// A run of digits denotes at least as much as any of its prefixes.
proof fn lemma_prefix_value(text: Seq<u8>, k: int)
    requires
        all_digits(text),
        0 <= k <= text.len(),
    ensures
        digits_value(text.take(k)) <= digits_value(text),
    decreases text.len(),
{
    if k == text.len() {
        assert(text.take(k) =~= text);
    } else {
        lemma_prefix_value(text.drop_last(), k);
        assert(text.drop_last().take(k) =~= text.take(k));
        assert(is_digit(text.last()));
    }
}

/// Reads an unsigned decimal number from the bytes of a header value.
pub fn parse_u64(text: &[u8]) -> (number: Option<u64>)
    ensures
        number == parse_decimal(text@),
{
    let n: usize = text.len();
    let first: usize = if n > 0 && text[0] == 0x2b { 1 } else { 0 };
    if first == n {
        return None;
    }
    let ghost digits = unsigned_part(text@);
    assert(digits =~= text@.subrange(first as int, n as int));
    let mut value: u64 = 0;
    let mut i: usize = first;
    assert(digits.take(0) =~= Seq::<u8>::empty());
    while i < n
        invariant
            first <= i <= n,
            n == text@.len(),
            digits == unsigned_part(text@),
            digits == text@.subrange(first as int, n as int),
            all_digits(digits.take(i - first)),
            value == digits_value(digits.take(i - first)),
        decreases n - i,
    {
        let byte: u8 = text[i];
        assert(digits[i - first] == byte);
        if byte < 0x30 || byte > 0x39 {
            assert(!is_digit(digits[i - first]));
            return None;
        }
        let digit: u64 = (byte - 0x30) as u64;
        let ghost longer = digits.take(i - first + 1);
        assert(longer.drop_last() =~= digits.take(i - first));
        assert(longer.last() == byte);
        assert(all_digits(longer));
        if value > (u64::MAX - digit) / 10 {
            proof {
                if all_digits(digits) {
                    lemma_prefix_value(digits, i - first + 1);
                }
            }
            return None;
        }
        value = value * 10 + digit;
        i += 1;
    }
    assert(digits.take(n - first) =~= digits);
    Some(value)
}

/// The character that stands for a single decimal digit.
pub open spec fn digit_char(digit: nat) -> char {
    if digit == 0 {
        '0'
    } else if digit == 1 {
        '1'
    } else if digit == 2 {
        '2'
    } else if digit == 3 {
        '3'
    } else if digit == 4 {
        '4'
    } else if digit == 5 {
        '5'
    } else if digit == 6 {
        '6'
    } else if digit == 7 {
        '7'
    } else if digit == 8 {
        '8'
    } else {
        '9'
    }
}

/// `number` written in base ten, without sign and without leading zeros.
pub open spec fn decimal_text(number: nat) -> Seq<char>
    decreases number,
{
    if number < 10 {
        seq![digit_char(number)]
    } else {
        decimal_text(number / 10).push(digit_char(number % 10))
    }
}

/// The text of one decimal digit.
fn digit_text(digit: u64) -> (text: &'static str)
    requires
        digit < 10,
    ensures
        text@ == seq![digit_char(digit as nat)],
{
    proof {
        reveal_strlit("0");
        reveal_strlit("1");
        reveal_strlit("2");
        reveal_strlit("3");
        reveal_strlit("4");
        reveal_strlit("5");
        reveal_strlit("6");
        reveal_strlit("7");
        reveal_strlit("8");
        reveal_strlit("9");
    }
    let text: &'static str = if digit == 0 {
        "0"
    } else if digit == 1 {
        "1"
    } else if digit == 2 {
        "2"
    } else if digit == 3 {
        "3"
    } else if digit == 4 {
        "4"
    } else if digit == 5 {
        "5"
    } else if digit == 6 {
        "6"
    } else if digit == 7 {
        "7"
    } else if digit == 8 {
        "8"
    } else {
        "9"
    };
    assert(text@ =~= seq![digit_char(digit as nat)]);
    text
}

/// Appends `number`, written in base ten, to `out`.
pub fn push_decimal(out: &mut String, number: u64)
    ensures
        final(out)@ == old(out)@ + decimal_text(number as nat),
    decreases number,
{
    if number >= 10 {
        push_decimal(out, number / 10);
    }
    let ghost before = out@;
    out.append(digit_text(number % 10));
    assert(out@ =~= old(out)@ + decimal_text(number as nat));
}

/// The bytes of a text, one for each character; meant for ASCII text.
pub open spec fn ascii_bytes(text: Seq<char>) -> Seq<u8> {
    text.map_values(|c: char| c as u8)
}

/// What is written for a number is a run of digits that denotes the number.
proof fn lemma_text_is_digits(number: nat)
    ensures
        ascii_bytes(decimal_text(number)).len() > 0,
        all_digits(ascii_bytes(decimal_text(number))),
        digits_value(ascii_bytes(decimal_text(number))) == number,
    decreases number,
{
    let bytes = ascii_bytes(decimal_text(number));
    if number < 10 {
        assert(bytes =~= seq![(0x30 + number) as u8]);
        assert(bytes.drop_last() =~= Seq::<u8>::empty());
        reveal_with_fuel(digits_value, 2);
    } else {
        let shorter = ascii_bytes(decimal_text(number / 10));
        lemma_text_is_digits(number / 10);
        assert(bytes =~= shorter.push((0x30 + number % 10) as u8));
        assert(bytes.drop_last() =~= shorter);
    }
}

/// A number that is written as text and read again is the same number.
pub proof fn lemma_text_reads_back(number: u64)
    ensures
        parse_decimal(ascii_bytes(decimal_text(number as nat))) == Some(number),
{
    lemma_text_is_digits(number as nat);
}

} // verus!
