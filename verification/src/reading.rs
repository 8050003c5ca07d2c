//! What written texts say: the numbers, quoted texts and cut texts that a reader gets back.

use vstd::prelude::*;
use vstd::utf8::encode_utf8;

use crate::json;
use crate::text;

verus! {

/// The number that digits say, the first being the highest.
pub open spec fn number_said(digits: Seq<char>) -> int
    decreases digits.len(),
{
    if digits.len() == 0 {
        0
    } else {
        number_said(digits.drop_last()) * 10 + (digits.last() as int - 48)
    }
}

/// Whether a text is a number as it is commonly written: digits, and no zero before others.
pub open spec fn is_number(digits: Seq<char>) -> bool {
    &&& digits.len() > 0
    &&& forall|i: int| 0 <= i < digits.len() ==> 48 <= (#[trigger] digits[i]) as int <= 57
    &&& digits.len() > 1 ==> digits[0] != '0'
}

/// A number is written in digits that say it, with no zero before others.
pub proof fn lemma_decimal_says_number(n: nat)
    ensures
        is_number(text::decimal(n)),
        number_said(text::decimal(n)) == n,
        n > 0 ==> text::decimal(n)[0] != '0',
    decreases n,
{
    reveal_with_fuel(number_said, 2);
    let written = text::decimal(n);
    if n < 10 {
        assert(written.drop_last() =~= Seq::<char>::empty());
    } else {
        let rest = text::decimal(n / 10);
        lemma_decimal_says_number(n / 10);
        assert(written.drop_last() =~= rest);
        assert(written.last() == text::digit_char(n % 10));
        assert(written.last() as int - 48 == n % 10);
        assert(n == (n / 10) * 10 + n % 10);
        assert forall|i: int| 0 <= i < written.len() implies 48 <= (#[trigger] written[i]) as int
            <= 57 by {
            if i < rest.len() {
                assert(written[i] == rest[i]);
            }
        }
        assert(written[0] == rest[0]);
    }
}

/// A number below zero is written as its distance from zero behind a sign, another as it is.
pub proof fn lemma_signed_decimal_says_number(n: int)
    ensures
        n >= 0 ==> number_said(text::signed_decimal(n)) == n,
        n < 0 ==> text::signed_decimal(n)[0] == '-' && number_said(
            text::signed_decimal(n).drop_first(),
        ) == -n,
{
    reveal_strlit("-");
    if n < 0 {
        lemma_decimal_says_number((-n) as nat);
        assert(text::signed_decimal(n).drop_first() =~= text::decimal((-n) as nat));
    } else {
        lemma_decimal_says_number(n as nat);
    }
}

proof fn lemma_digits_say(digits: Seq<char>)
    requires
        text::all_digits(digits),
    ensures
        number_said(digits) == text::digits_value(digits),
        number_said(digits) >= 0,
    decreases digits.len(),
{
    if digits.len() > 0 {
        let rest = digits.drop_last();
        assert forall|i: int| 0 <= i < rest.len() implies text::is_digit(#[trigger] rest[i]) by {
            assert(rest[i] == digits[i]);
        }
        lemma_digits_say(rest);
        assert(text::is_digit(digits[digits.len() - 1]));
    }
}

/// A text without the sign `+` that it may begin with.
pub open spec fn unsigned(given: Seq<char>) -> Seq<char> {
    if given.len() > 0 && given[0] == '+' {
        given.drop_first()
    } else {
        given
    }
}

/// Whether a text has a digit and nothing but digits.
pub open spec fn only_digits(digits: Seq<char>) -> bool {
    digits.len() > 0 && forall|i: int|
        0 <= i < digits.len() ==> 48 <= (#[trigger] digits[i]) as int <= 57
}

/// A text is read as a number exactly where it has a digit and nothing but digits, after one sign
/// `+` at most; the number is the one that the digits say.
pub proof fn lemma_number_read(given: Seq<char>)
    ensures
        text::unsigned_value(given) is Some <==> only_digits(unsigned(given)),
        text::unsigned_value(given) matches Some(value) ==> value == number_said(unsigned(given)),
{
    let digits = unsigned(given);
    if text::all_digits(digits) {
        assert forall|i: int| 0 <= i < digits.len() implies 48 <= (#[trigger] digits[i]) as int
            <= 57 by {
            assert(text::is_digit(digits[i]));
        }
        lemma_digits_say(digits);
    }
    if only_digits(digits) {
        assert(text::all_digits(digits));
    }
}

/// A number that was written is read back.
pub proof fn lemma_written_number_read_back(n: nat)
    ensures
        text::unsigned_value(text::decimal(n)) == Some(n),
{
    lemma_decimal_says_number(n);
    lemma_number_read(text::decimal(n));
    assert(text::decimal(n)[0] != '+');
}

/// The value of a digit of a number to the base of sixteen.
pub open spec fn hex_value(digit: u8) -> Option<int> {
    if 48 <= digit <= 57 {
        Some(digit - 48)
    } else if 97 <= digit <= 102 {
        Some(digit - 87)
    } else {
        None
    }
}

/// The byte that a letter behind a backslash stands for.
pub open spec fn escape_value(letter: u8) -> Option<u8> {
    if letter == 34 || letter == 92 || letter == 47 {
        Some(letter)
    } else if letter == 98 {
        Some(8u8)
    } else if letter == 102 {
        Some(12u8)
    } else if letter == 110 {
        Some(10u8)
    } else if letter == 114 {
        Some(13u8)
    } else if letter == 116 {
        Some(9u8)
    } else {
        None
    }
}

/// What the bytes between the quotes of a JSON string say, if they may stand there; of the escapes
/// by number, those below 256 alone.
pub open spec fn content_said(given: Seq<u8>) -> Option<Seq<u8>>
    decreases given.len(),
{
    if given.len() == 0 {
        Some(Seq::empty())
    } else if given[0] == 34 || given[0] < 32 {
        None
    } else if given[0] != 92 {
        match content_said(given.skip(1)) {
            Some(rest) => Some(seq![given[0]] + rest),
            None => None,
        }
    } else if given.len() >= 2 && escape_value(given[1]) is Some {
        match content_said(given.skip(2)) {
            Some(rest) => Some(seq![escape_value(given[1])->0] + rest),
            None => None,
        }
    } else if given.len() >= 6 && given[1] == 117 && given[2] == 48 && given[3] == 48 && hex_value(
        given[4],
    ) is Some && hex_value(given[5]) is Some {
        match content_said(given.skip(6)) {
            Some(rest) => Some(
                seq![(hex_value(given[4])->0 * 16 + hex_value(given[5])->0) as u8] + rest,
            ),
            None => None,
        }
    } else {
        None
    }
}

/// How many bytes a byte takes between the quotes of a JSON string: two where it has an escape of
/// its own, six where it is another control, else one.
pub open spec fn content_width(byte: u8) -> nat {
    if byte == 34 || byte == 92 || byte == 8 || byte == 9 || byte == 10 || byte == 12 || byte
        == 13 {
        2
    } else if byte < 32 {
        6
    } else {
        1
    }
}

/// A byte that is written between the quotes of a JSON string is read back, and takes no more bytes
/// than it needs.
proof fn lemma_byte_read_back(byte: u8, rest: Seq<u8>)
    ensures
        json::written_byte(byte).len() == content_width(byte),
        content_said(json::written_byte(byte) + rest) == match content_said(rest) {
            Some(said) => Some(seq![byte] + said),
            None => None,
        },
{
    let whole = json::written_byte(byte) + rest;
    assert(whole.skip(json::written_byte(byte).len() as int) =~= rest);
    if byte < 32 {
        let high = byte as int / 16;
        let low = byte as int % 16;
        assert(high * 16 + low == byte);
        assert(hex_value(json::hex_digit(high)) == Some(high));
        assert(hex_value(json::hex_digit(low)) == Some(low));
    }
}

proof fn lemma_bytes_read_back(bytes: Seq<u8>)
    ensures
        content_said(json::written_bytes(bytes)) == Some(bytes),
    decreases bytes.len(),
{
    if bytes.len() > 0 {
        lemma_bytes_read_back(bytes.drop_first());
        lemma_byte_read_back(bytes[0], json::written_bytes(bytes.drop_first()));
        assert(seq![bytes[0]] + bytes.drop_first() =~= bytes);
    } else {
        assert(json::written_bytes(bytes) =~= Seq::empty());
        assert(bytes =~= Seq::empty());
    }
}

/// A text is written as a JSON string from which it is read back: between two quotes, what is said
/// is the bytes of the text.
pub proof fn lemma_json_text_read_back(value: Seq<char>)
    ensures
        ({
            let written = json::json_text(value);
            &&& written.len() >= 2
            &&& written[0] == 34
            &&& written.last() == 34
            &&& content_said(written.subrange(1, written.len() - 1)) == Some(encode_utf8(value))
        }),
{
    let written = json::json_text(value);
    lemma_bytes_read_back(encode_utf8(value));
    assert(written.subrange(1, written.len() - 1) =~= json::written_bytes(encode_utf8(value)));
}

/// Texts one behind the other with a comma between each two.
pub open spec fn with_commas(parts: Seq<Seq<u8>>) -> Seq<u8>
    decreases parts.len(),
{
    if parts.len() == 0 {
        Seq::empty()
    } else if parts.len() == 1 {
        parts[0]
    } else {
        with_commas(parts.drop_last()) + json::bytes_of(","@) + parts.last()
    }
}

/// A text cut to a number of bytes begins as the text does, takes no more than that number, and
/// is the whole text or lacks a character that would not fit.
pub proof fn lemma_cut_text_is_longest(given: Seq<char>, max: nat)
    ensures
        ({
            let cut = text::clipped(given, max);
            &&& cut.len() <= given.len()
            &&& cut == given.take(cut.len() as int)
            &&& encode_utf8(cut).len() <= max
            &&& cut.len() < given.len() ==> encode_utf8(given.take(cut.len() as int + 1)).len() > max
        }),
    decreases given.len(),
{
    let cut = text::clipped(given, max);
    if given.len() == 0 {
        assert(encode_utf8(given).len() == 0);
        assert(given.take(0) =~= given);
    } else if text::utf8_len(given) <= max {
        assert(given.take(given.len() as int) =~= given);
    } else {
        let rest = given.drop_last();
        lemma_cut_text_is_longest(rest, max);
        assert(rest.take(cut.len() as int) =~= given.take(cut.len() as int));
        if cut.len() < rest.len() {
            assert(rest.take(cut.len() as int + 1) =~= given.take(cut.len() as int + 1));
        } else {
            assert(given.take(cut.len() as int + 1) =~= given);
        }
    }
}

/// Whether two characters are the same but for the case of a letter of the Latin alphabet.
pub open spec fn same_letter(a: char, b: char) -> bool {
    ||| a == b
    ||| 65 <= a as int <= 90 && b as int == a as int + 32
    ||| 65 <= b as int <= 90 && a as int == b as int + 32
}

/// Texts are the same but for case where they are as long and have the same letters in each place.
pub proof fn lemma_same_but_case(a: Seq<char>, b: Seq<char>)
    ensures
        text::same_but_ascii_case(a, b) <==> a.len() == b.len() && forall|i: int|
            0 <= i < a.len() ==> same_letter(#[trigger] a[i], b[i]),
{
    if a.len() == b.len() {
        assert forall|i: int| 0 <= i < a.len() implies same_letter(#[trigger] a[i], b[i]) == (
        text::ascii_small(a[i]) == text::ascii_small(b[i])) by {
        }
        if text::same_but_ascii_case(a, b) {
            assert forall|i: int| 0 <= i < a.len() implies same_letter(#[trigger] a[i], b[i]) by {
                assert(text::ascii_small(a[i]) == text::ascii_small(b[i]));
            }
        }
    }
}

} // verus!
