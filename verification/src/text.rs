//! Text helpers: byte lengths, byte order, trimming, decimal numbers.

use vstd::prelude::*;
use vstd::string::*;
use vstd::utf8::*;

verus! {

/// Whether a character has the Unicode property `White_Space`.
pub open spec fn char_whitespace(c: char) -> bool {
    let code = c as int;
    ||| 9 <= code <= 13
    ||| code == 0x20 || code == 0x85 || code == 0xa0 || code == 0x1680
    ||| 0x2000 <= code <= 0x200a
    ||| code == 0x2028 || code == 0x2029 || code == 0x202f || code == 0x205f || code == 0x3000
}

/// Whether a character is in the Unicode general category of control codes.
pub open spec fn char_control(c: char) -> bool {
    c as int <= 0x1f || 0x7f <= c as int <= 0x9f
}

/// Calls `char::is_whitespace`, which says whether a character has the Unicode property
/// `White_Space`.
#[verifier::external_body]
fn is_whitespace(c: char) -> (answer: bool)
    ensures
        answer == char_whitespace(c),
{
    c.is_whitespace()
}

/// Calls `char::is_control`, which says whether a character is in the Unicode general category of
/// control codes.
#[verifier::external_body]
fn is_control(c: char) -> (answer: bool)
    ensures
        answer == char_control(c),
{
    c.is_control()
}

/// The number of bytes that a text takes in UTF-8.
pub open spec fn utf8_len(text: Seq<char>) -> nat {
    encode_utf8(text).len()
}

/// The text without its leading white space.
pub open spec fn trim_start(text: Seq<char>) -> Seq<char>
    decreases text.len(),
{
    if text.len() > 0 && char_whitespace(text[0]) {
        trim_start(text.subrange(1, text.len() as int))
    } else {
        text
    }
}

/// The text without its trailing white space.
pub open spec fn trim_end(text: Seq<char>) -> Seq<char>
    decreases text.len(),
{
    if text.len() > 0 && char_whitespace(text[text.len() - 1]) {
        trim_end(text.subrange(0, text.len() - 1))
    } else {
        text
    }
}

/// The text without the white space around it.
pub open spec fn trimmed(text: Seq<char>) -> Seq<char> {
    trim_end(trim_start(text))
}

/// Whether a text holds a control character.
pub open spec fn has_control(text: Seq<char>) -> bool {
    exists|i: int| 0 <= i < text.len() && char_control(#[trigger] text[i])
}

/// Byte-wise lexicographic order, which is the order of `str`.
pub open spec fn bytes_less(a: Seq<u8>, b: Seq<u8>) -> bool
    decreases a.len(),
{
    if b.len() == 0 {
        false
    } else if a.len() == 0 {
        true
    } else if a[0] != b[0] {
        a[0] < b[0]
    } else {
        bytes_less(a.subrange(1, a.len() as int), b.subrange(1, b.len() as int))
    }
}

/// The order of texts: that of their UTF-8 bytes.
pub open spec fn text_less(a: Seq<char>, b: Seq<char>) -> bool {
    bytes_less(encode_utf8(a), encode_utf8(b))
}

/// The digit `d` as a character.
pub open spec fn digit_char(d: nat) -> char {
    if d == 0 { '0' }
    else if d == 1 { '1' }
    else if d == 2 { '2' }
    else if d == 3 { '3' }
    else if d == 4 { '4' }
    else if d == 5 { '5' }
    else if d == 6 { '6' }
    else if d == 7 { '7' }
    else if d == 8 { '8' }
    else { '9' }
}

/// A number written in decimal, without leading zeros.
pub open spec fn decimal(n: nat) -> Seq<char>
    decreases n,
{
    if n < 10 {
        seq![digit_char(n)]
    } else {
        decimal(n / 10).push(digit_char(n % 10))
    }
}

/// A signed number written in decimal.
pub open spec fn signed_decimal(n: int) -> Seq<char> {
    if n < 0 {
        "-"@ + decimal((-n) as nat)
    } else {
        decimal(n as nat)
    }
}

/// An optional text.
pub open spec fn opt_text(value: Option<String>) -> Option<Seq<char>> {
    match value {
        Some(text) => Some(text@),
        None => None,
    }
}

/// The longest beginning of a text that takes at most a number of bytes.
pub open spec fn clipped(text: Seq<char>, max: nat) -> Seq<char>
    decreases text.len(),
{
    if text.len() == 0 || utf8_len(text) <= max {
        text
    } else {
        clipped(text.drop_last(), max)
    }
}

/// A character with an ASCII capital made small.
pub open spec fn ascii_small(c: char) -> char {
    if 'A' <= c && c <= 'Z' {
        ((c as u32 + 32) as u32) as char
    } else {
        c
    }
}

/// Whether two texts are the same but for the case of ASCII letters.
pub open spec fn same_but_ascii_case(a: Seq<char>, b: Seq<char>) -> bool {
    a.len() == b.len() && forall|i: int|
        0 <= i < a.len() ==> #[trigger] ascii_small(a[i]) == ascii_small(b[i])
}

/// The length of a text in bytes.
pub fn byte_len(text: &str) -> (len: usize)
    ensures
        len == utf8_len(text@),
{
    text.as_bytes().len()
}

/// A text that is not empty takes at least one byte.
pub proof fn lemma_utf8_len_positive(text: Seq<char>)
    requires
        text.len() > 0,
    ensures
        utf8_len(text) > 0,
{
    encode_utf8_decode_utf8(text);
    if encode_utf8(text).len() == 0 {
        assert(decode_utf8(encode_utf8(text)).len() == 0);
    }
}

/// A text of ASCII characters takes one byte for each.
pub proof fn lemma_ascii_len(text: Seq<char>)
    requires
        is_ascii_chars(text),
    ensures
        utf8_len(text) == text.len(),
{
    is_ascii_chars_encode_utf8(text);
}

/// The number that is one followed by so many zeros.
pub open spec fn power_of_ten(zeros: nat) -> nat
    decreases zeros,
{
    if zeros == 0 {
        1
    } else {
        10 * power_of_ten((zeros - 1) as nat)
    }
}

/// A number takes one byte for each digit, and no more digits than a power of ten above it has
/// zeros.
pub proof fn lemma_decimal_len(n: nat, digits: nat)
    requires
        0 < digits,
        n < power_of_ten(digits),
    ensures
        decimal(n).len() <= digits,
        utf8_len(decimal(n)) == decimal(n).len(),
        is_ascii_chars(decimal(n)),
    decreases n,
{
    if n < 10 {
        assert(is_ascii_chars(decimal(n)));
    } else {
        if digits == 1 {
            assert(power_of_ten(1) == 10 * power_of_ten(0));
        }
        assert(n / 10 < power_of_ten((digits - 1) as nat));
        lemma_decimal_len(n / 10, (digits - 1) as nat);
        let rest = decimal(n / 10);
        assert forall|i: int| 0 <= i < decimal(n).len() implies '\0' <= #[trigger] decimal(n)[i]
            <= '\u{7f}' by {
            if i < rest.len() {
                assert(decimal(n)[i] == rest[i]);
            }
        }
    }
    lemma_ascii_len(decimal(n));
}

/// The bytes of two texts, one behind the other, are those of both.
pub proof fn lemma_utf8_len_joined(a: Seq<char>, b: Seq<char>)
    ensures
        utf8_len(a + b) == utf8_len(a) + utf8_len(b),
    decreases a.len(),
{
    if a.len() == 0 {
        assert(a + b =~= b);
    } else {
        assert((a + b).drop_first() =~= a.drop_first() + b);
        assert((a + b)[0] == a[0]);
        lemma_utf8_len_joined(a.drop_first(), b);
    }
}

/// A copy of a text that owns its bytes.
pub fn owned(text: &str) -> (copy: String)
    ensures
        copy@ == text@,
{
    text.to_owned()
}

/// A copy of an optional text.
pub fn owned_opt(value: &Option<String>) -> (copy: Option<String>)
    ensures
        opt_text(copy) == opt_text(*value),
        copy is Some == value is Some,
{
    match value {
        Some(text) => Some(text.clone()),
        None => None,
    }
}

/// Two texts one after the other.
pub fn text2(a: &str, b: &str) -> (joined: String)
    ensures
        joined@ == a@ + b@,
{
    let mut joined = a.to_owned();
    joined.append(b);
    joined
}

/// Three texts one after the other.
pub fn text3(a: &str, b: &str, c: &str) -> (joined: String)
    ensures
        joined@ == a@ + b@ + c@,
{
    let mut joined = text2(a, b);
    joined.append(c);
    joined
}

/// Four texts one after the other.
pub fn text4(a: &str, b: &str, c: &str, d: &str) -> (joined: String)
    ensures
        joined@ == a@ + b@ + c@ + d@,
{
    let mut joined = text3(a, b, c);
    joined.append(d);
    joined
}

/// Five texts one after the other.
pub fn text5(a: &str, b: &str, c: &str, d: &str, e: &str) -> (joined: String)
    ensures
        joined@ == a@ + b@ + c@ + d@ + e@,
{
    let mut joined = text4(a, b, c, d);
    joined.append(e);
    joined
}

/// The characters of a text.
pub fn chars_of(text: &str) -> (chars: Vec<char>)
    ensures
        chars@ == text@,
{
    let mut chars: Vec<char> = Vec::new();
    for c in iter: text.chars()
        invariant
            iter.seq() == text@,
            chars@ == text@.subrange(0, iter.index() as int),
    {
        chars.push(c);
        assert(chars@ =~= text@.subrange(0, iter.index() as int + 1));
    }
    assert(chars@ =~= text@);
    chars
}

proof fn lemma_trim_start_skips(text: Seq<char>, i: int)
    requires
        0 <= i <= text.len(),
        forall|k: int| 0 <= k < i ==> char_whitespace(#[trigger] text[k]),
    ensures
        trim_start(text) == trim_start(text.subrange(i, text.len() as int)),
    decreases i,
{
    if i == 0 {
        assert(text.subrange(0, text.len() as int) =~= text);
    } else {
        let rest = text.subrange(1, text.len() as int);
        assert(char_whitespace(text[0]));
        assert forall|k: int| 0 <= k < i - 1 implies char_whitespace(#[trigger] rest[k]) by {
            assert(rest[k] == text[k + 1]);
        }
        lemma_trim_start_skips(rest, i - 1);
        assert(rest.subrange(i - 1, rest.len() as int) =~= text.subrange(i, text.len() as int));
    }
}

proof fn lemma_trim_end_skips(text: Seq<char>, j: int)
    requires
        0 <= j <= text.len(),
        forall|k: int| j <= k < text.len() ==> char_whitespace(#[trigger] text[k]),
    ensures
        trim_end(text) == trim_end(text.subrange(0, j)),
    decreases text.len(),
{
    if j == text.len() {
        assert(text.subrange(0, j) =~= text);
    } else {
        let rest = text.subrange(0, text.len() - 1);
        assert(char_whitespace(text[text.len() - 1]));
        assert forall|k: int| j <= k < rest.len() implies char_whitespace(#[trigger] rest[k]) by {
            assert(rest[k] == text[k]);
        }
        lemma_trim_end_skips(rest, j);
        assert(rest.subrange(0, j) =~= text.subrange(0, j));
    }
}

/// The text without the white space around it, as `str::trim` gives it.
pub fn trim(text: &str) -> (inner: &str)
    ensures
        inner@ == trimmed(text@),
{
    let chars = chars_of(text);
    let mut start: usize = 0;
    while start < chars.len() && is_whitespace(chars[start])
        invariant
            start <= chars.len(),
            chars@ == text@,
            forall|k: int| 0 <= k < start ==> char_whitespace(#[trigger] text@[k]),
        ensures
            start <= chars.len(),
            forall|k: int| 0 <= k < start ==> char_whitespace(#[trigger] text@[k]),
            start < chars.len() ==> !char_whitespace(text@[start as int]),
        decreases chars.len() - start,
    {
        start = start + 1;
    }
    let ghost rest = text@.subrange(start as int, text@.len() as int);
    proof {
        lemma_trim_start_skips(text@, start as int);
        if start < chars.len() {
            assert(rest[0] == text@[start as int]);
        }
        assert(trim_start(text@) == rest);
    }
    let mut end: usize = chars.len();
    while end > start && is_whitespace(chars[end - 1])
        invariant
            start <= end <= chars.len(),
            chars@ == text@,
            forall|k: int| end <= k < text@.len() ==> char_whitespace(#[trigger] text@[k]),
        ensures
            start <= end <= chars.len(),
            forall|k: int| end <= k < text@.len() ==> char_whitespace(#[trigger] text@[k]),
            end > start ==> !char_whitespace(text@[end - 1]),
        decreases end,
    {
        end = end - 1;
    }
    proof {
        assert forall|k: int| end - start <= k < rest.len() implies char_whitespace(
            #[trigger] rest[k],
        ) by {
            assert(rest[k] == text@[k + start]);
        }
        lemma_trim_end_skips(rest, end - start);
        let inner = rest.subrange(0, end - start);
        assert(inner =~= text@.subrange(start as int, end as int));
        if end > start {
            assert(inner[inner.len() - 1] == text@[end - 1]);
        }
    }
    text.substring_char(start, end)
}

/// Whether a text holds a control character.
pub fn contains_control(text: &str) -> (found: bool)
    ensures
        found == has_control(text@),
{
    let chars = chars_of(text);
    let mut i: usize = 0;
    while i < chars.len()
        invariant
            i <= chars.len(),
            chars@ == text@,
            forall|k: int| 0 <= k < i ==> !char_control(#[trigger] text@[k]),
        decreases chars.len() - i,
    {
        if is_control(chars[i]) {
            assert(char_control(text@[i as int]));
            return true;
        }
        i = i + 1;
    }
    false
}

/// The longest beginning of a text that takes at most a number of bytes.
pub fn clip(text: &str, max: usize) -> (head: String)
    ensures
        head@ == clipped(text@, max as nat),
{
    if byte_len(text) <= max {
        return owned(text);
    }
    let mut n: usize = text.unicode_len();
    assert(text@.subrange(0, n as int) =~= text@);
    while n > 0
        invariant
            n <= text@.len(),
            clipped(text@.subrange(0, n as int), max as nat) == clipped(text@, max as nat),
        decreases n,
    {
        let head = text.substring_char(0, n);
        if byte_len(head) <= max {
            return owned(head);
        }
        n = n - 1;
        assert(text@.subrange(0, n as int + 1).drop_last() =~= text@.subrange(0, n as int));
    }
    assert(text@.subrange(0, 0) =~= Seq::<char>::empty());
    proof {
        reveal_strlit("");
        assert(""@ =~= Seq::<char>::empty());
    }
    owned("")
}

fn small(c: char) -> (made: char)
    ensures
        made == ascii_small(c),
{
    if 'A' <= c && c <= 'Z' {
        ((c as u8) + 32) as char
    } else {
        c
    }
}

/// Whether two texts are the same but for the case of ASCII letters.
pub fn same_ignoring_ascii_case(a: &str, b: &str) -> (same: bool)
    ensures
        same == same_but_ascii_case(a@, b@),
{
    let left = chars_of(a);
    let right = chars_of(b);
    if left.len() != right.len() {
        return false;
    }
    let mut i: usize = 0;
    while i < left.len()
        invariant
            i <= left@.len(),
            left@ == a@,
            right@ == b@,
            left@.len() == right@.len(),
            forall|k: int| 0 <= k < i ==> #[trigger] ascii_small(a@[k]) == ascii_small(b@[k]),
        decreases left@.len() - i,
    {
        if small(left[i]) != small(right[i]) {
            assert(ascii_small(a@[i as int]) != ascii_small(b@[i as int]));
            return false;
        }
        i = i + 1;
    }
    true
}

/// Whether a character is a decimal digit.
pub open spec fn is_digit(c: char) -> bool {
    '0' <= c && c <= '9'
}

/// Whether a text is made of decimal digits alone.
pub open spec fn all_digits(text: Seq<char>) -> bool {
    forall|i: int| 0 <= i < text.len() ==> is_digit(#[trigger] text[i])
}

/// The number that decimal digits stand for.
pub open spec fn digits_value(digits: Seq<char>) -> nat
    decreases digits.len(),
{
    if digits.len() == 0 {
        0
    } else {
        digits_value(digits.drop_last()) * 10 + (digits.last() as u32 - '0' as u32) as nat
    }
}

/// The number that a text stands for: decimal digits, at least one, behind a plus sign or none.
pub open spec fn unsigned_value(text: Seq<char>) -> Option<nat> {
    let digits = if text.len() > 0 && text[0] == '+' {
        text.drop_first()
    } else {
        text
    };
    if digits.len() > 0 && all_digits(digits) {
        Some(digits_value(digits))
    } else {
        None
    }
}

/// The number that a text stands for, where it fits in 64 bits.
pub fn parse_u64(text: &str) -> (parsed: Option<u64>)
    ensures
        match unsigned_value(text@) {
            Some(value) => if value <= u64::MAX {
                parsed == Some(value as u64)
            } else {
                parsed is None
            },
            None => parsed is None,
        },
{
    let chars = chars_of(text);
    let start: usize = if chars.len() > 0 && chars[0] == '+' {
        1
    } else {
        0
    };
    let ghost digits = text@.subrange(start as int, text@.len() as int);
    proof {
        if start == 0 {
            assert(digits =~= text@);
        } else {
            assert(digits =~= text@.drop_first());
        }
        assert(unsigned_value(text@) == if digits.len() > 0 && all_digits(digits) {
            Some(digits_value(digits))
        } else {
            None
        });
    }
    if start == chars.len() {
        return None;
    }
    let mut value: u64 = 0;
    let mut fits: bool = true;
    let mut i: usize = start;
    assert(digits.subrange(0, 0) =~= Seq::<char>::empty());
    while i < chars.len()
        invariant
            start <= i <= chars@.len(),
            chars@ == text@,
            digits == text@.subrange(start as int, text@.len() as int),
            unsigned_value(text@) == if digits.len() > 0 && all_digits(digits) {
                Some(digits_value(digits))
            } else {
                None
            },
            forall|k: int| 0 <= k < i - start ==> is_digit(#[trigger] digits[k]),
            fits ==> value == digits_value(digits.subrange(0, i - start)),
            !fits ==> digits_value(digits.subrange(0, i - start)) > u64::MAX,
        decreases chars@.len() - i,
    {
        let c = chars[i];
        if !('0' <= c && c <= '9') {
            assert(digits[i - start] == c);
            assert(!is_digit(digits[i - start]));
            assert(!all_digits(digits));
            return None;
        }
        let digit: u64 = (c as u32 - '0' as u32) as u64;
        proof {
            assert(digits[i - start] == c);
            let longer = digits.subrange(0, i - start + 1);
            assert(longer.drop_last() =~= digits.subrange(0, i - start));
            assert(longer.last() == c);
        }
        if fits {
            match value.checked_mul(10) {
                Some(shifted) => match shifted.checked_add(digit) {
                    Some(next) => {
                        value = next;
                    },
                    None => {
                        fits = false;
                    },
                },
                None => {
                    fits = false;
                },
            }
        }
        i = i + 1;
    }
    proof {
        assert(digits.subrange(0, i - start) =~= digits);
        assert(all_digits(digits));
    }
    if fits {
        Some(value)
    } else {
        None
    }
}

/// The number that a text stands for, where it fits in a machine word.
pub fn parse_usize(text: &str) -> (parsed: Option<usize>)
    ensures
        match unsigned_value(text@) {
            Some(value) => if value <= usize::MAX {
                parsed == Some(value as usize)
            } else {
                parsed is None
            },
            None => parsed is None,
        },
{
    match parse_u64(text) {
        Some(value) => if value <= usize::MAX as u64 {
            Some(value as usize)
        } else {
            None
        },
        None => None,
    }
}

fn digit_text(d: u64) -> (digit: &'static str)
    requires
        d < 10,
    ensures
        digit@ == seq![digit_char(d as nat)],
{
    proof {
        reveal_strlit("0");
        reveal_strlit("1");
        reveal_strlit("2");
        reveal_strlit("3");
        reveal_strlit("4");
        reveal_strlit("5");
        reveal_strlit("6");
        reveal_strlit("7");
        reveal_strlit("8");
        reveal_strlit("9");
    }
    let digit = if d == 0 { "0" }
        else if d == 1 { "1" }
        else if d == 2 { "2" }
        else if d == 3 { "3" }
        else if d == 4 { "4" }
        else if d == 5 { "5" }
        else if d == 6 { "6" }
        else if d == 7 { "7" }
        else if d == 8 { "8" }
        else { "9" };
    assert(digit@ =~= seq![digit_char(d as nat)]);
    digit
}

/// A number written in decimal.
pub fn format_u64(n: u64) -> (written: String)
    ensures
        written@ == decimal(n as nat),
    decreases n,
{
    if n < 10 {
        digit_text(n).to_owned()
    } else {
        let mut written = format_u64(n / 10);
        written.append(digit_text(n % 10));
        assert(written@ =~= decimal((n / 10) as nat).push(digit_char((n % 10) as nat)));
        written
    }
}

/// A number written in decimal.
pub fn format_usize(n: usize) -> (written: String)
    ensures
        written@ == decimal(n as nat),
{
    format_u64(n as u64)
}

/// A signed number written in decimal.
pub fn format_i64(n: i64) -> (written: String)
    ensures
        written@ == signed_decimal(n as int),
{
    if n >= 0 {
        format_u64(n as u64)
    } else if n == i64::MIN {
        text2("-", format_u64(9223372036854775808).as_str())
    } else {
        text2("-", format_u64((-n) as u64).as_str())
    }
}

} // verus!
