//! What a rule is recognised by: that it tells every two definitions apart but for the hash.

use vstd::prelude::*;
use vstd::utf8::encode_utf8;
use vstd::utf8::encode_utf8_decode_utf8;
use vstd::utf8::is_ascii_chars;
use vstd::utf8::is_ascii_chars_encode_utf8;

use crate::json;
use crate::json::bytes_of;
use crate::json::json_text;
use crate::ordered;
use crate::reading;
use crate::rules::acceptance;
use crate::rules::fingerprint;
use crate::rules::fingerprint::group_json;
use crate::rules::fingerprint::number_json;
use crate::rules::fingerprint::pairs_json;
use crate::rules::fingerprint::rule_json;
use crate::rules::fingerprint::rules_json;
use crate::rules::fingerprint::texts_json;
use crate::rules::types::AlertRuleView;
use crate::rules::types::RecordingRuleView;
use crate::rules::types::RuleGroupView;
use crate::rules::types::RuleView;
use crate::rules::types::TextsView;
use crate::text;

verus! {

/// A hash of bytes: from a start, each byte is mixed into it and what comes of that multiplied, in
/// the lowest 64 bits.
pub proof fn lemma_hash_is_fnv(hash: u64, bytes: Seq<u8>)
    ensures
        fingerprint::fnv(hash, bytes) == bytes.fold_left(
            hash,
            |so_far: u64, byte: u8|
                (((so_far ^ (byte as u64)) * 0x100000001b3) % 0x1_0000_0000_0000_0000) as u64,
        ),
    decreases bytes.len(),
{
    if bytes.len() > 0 {
        lemma_hash_is_fnv(hash, bytes.drop_last());
    }
}

proof fn lemma_same_head(head: Seq<u8>, x: Seq<u8>, y: Seq<u8>)
    requires
        head + x == head + y,
    ensures
        x == y,
{
    assert((head + x).skip(head.len() as int) =~= x);
    assert((head + y).skip(head.len() as int) =~= y);
}

/// How three parts are put together does not matter.
proof fn lemma_assoc(a: Seq<u8>, b: Seq<u8>, c: Seq<u8>)
    ensures
        (a + b) + c == a + (b + c),
{
    assert((a + b) + c =~= a + (b + c));
}

/// Nothing before a part leaves the part.
proof fn lemma_nothing_before(a: Seq<u8>)
    ensures
        Seq::<u8>::empty() + a == a,
{
    assert(Seq::<u8>::empty() + a =~= a);
}

/// What begins is what stands first.
proof fn lemma_first(a: Seq<u8>, b: Seq<u8>)
    requires
        a.len() > 0,
    ensures
        (a + b).len() > 0,
        (a + b)[0] == a[0],
{
}

/// Parts one behind the other, however they are put together.
proof fn lemma_five(p0: Seq<u8>, p1: Seq<u8>, p2: Seq<u8>, p3: Seq<u8>, x: Seq<u8>)
    ensures
        p0 + p1 + p2 + p3 + x == p0 + (p1 + (p2 + (p3 + x))),
{
    lemma_assoc(p0 + p1 + p2, p3, x);
    lemma_assoc(p0 + p1, p2, p3 + x);
    lemma_assoc(p0, p1, p2 + (p3 + x));
}

/// Parts one behind the other, however they are put together.
proof fn lemma_nine(
    p0: Seq<u8>,
    p1: Seq<u8>,
    p2: Seq<u8>,
    p3: Seq<u8>,
    p4: Seq<u8>,
    p5: Seq<u8>,
    p6: Seq<u8>,
    p7: Seq<u8>,
    p8: Seq<u8>,
    x: Seq<u8>,
)
    ensures
        p0 + p1 + p2 + p3 + p4 + p5 + p6 + p7 + p8 + x == p0 + (p1 + (p2 + (p3 + (p4 + (p5 + (p6 + (p7 + (p8 + x)))))))),
{
    lemma_assoc(p0 + p1 + p2 + p3 + p4 + p5 + p6 + p7, p8, x);
    lemma_assoc(p0 + p1 + p2 + p3 + p4 + p5 + p6, p7, p8 + x);
    lemma_assoc(p0 + p1 + p2 + p3 + p4 + p5, p6, p7 + (p8 + x));
    lemma_assoc(p0 + p1 + p2 + p3 + p4, p5, p6 + (p7 + (p8 + x)));
    lemma_assoc(p0 + p1 + p2 + p3, p4, p5 + (p6 + (p7 + (p8 + x))));
    lemma_assoc(p0 + p1 + p2, p3, p4 + (p5 + (p6 + (p7 + (p8 + x)))));
    lemma_assoc(p0 + p1, p2, p3 + (p4 + (p5 + (p6 + (p7 + (p8 + x))))));
    lemma_assoc(p0, p1, p2 + (p3 + (p4 + (p5 + (p6 + (p7 + (p8 + x)))))));
}

/// Parts one behind the other, however they are put together.
proof fn lemma_thirteen(
    p0: Seq<u8>,
    p1: Seq<u8>,
    p2: Seq<u8>,
    p3: Seq<u8>,
    p4: Seq<u8>,
    p5: Seq<u8>,
    p6: Seq<u8>,
    p7: Seq<u8>,
    p8: Seq<u8>,
    p9: Seq<u8>,
    p10: Seq<u8>,
    p11: Seq<u8>,
    p12: Seq<u8>,
    x: Seq<u8>,
)
    ensures
        p0 + p1 + p2 + p3 + p4 + p5 + p6 + p7 + p8 + p9 + p10 + p11 + p12 + x == p0 + (p1 + (p2 + (p3 + (p4 + (p5 + (p6 + (p7 + (p8 + (p9 + (p10 + (p11 + (p12 + x)))))))))))),
{
    lemma_assoc(p0 + p1 + p2 + p3 + p4 + p5 + p6 + p7 + p8 + p9 + p10 + p11, p12, x);
    lemma_assoc(p0 + p1 + p2 + p3 + p4 + p5 + p6 + p7 + p8 + p9 + p10, p11, p12 + x);
    lemma_assoc(p0 + p1 + p2 + p3 + p4 + p5 + p6 + p7 + p8 + p9, p10, p11 + (p12 + x));
    lemma_assoc(p0 + p1 + p2 + p3 + p4 + p5 + p6 + p7 + p8, p9, p10 + (p11 + (p12 + x)));
    lemma_assoc(p0 + p1 + p2 + p3 + p4 + p5 + p6 + p7, p8, p9 + (p10 + (p11 + (p12 + x))));
    lemma_assoc(p0 + p1 + p2 + p3 + p4 + p5 + p6, p7, p8 + (p9 + (p10 + (p11 + (p12 + x)))));
    lemma_assoc(p0 + p1 + p2 + p3 + p4 + p5, p6, p7 + (p8 + (p9 + (p10 + (p11 + (p12 + x))))));
    lemma_assoc(p0 + p1 + p2 + p3 + p4, p5, p6 + (p7 + (p8 + (p9 + (p10 + (p11 + (p12 + x)))))));
    lemma_assoc(p0 + p1 + p2 + p3, p4, p5 + (p6 + (p7 + (p8 + (p9 + (p10 + (p11 + (p12 + x))))))));
    lemma_assoc(p0 + p1 + p2, p3, p4 + (p5 + (p6 + (p7 + (p8 + (p9 + (p10 + (p11 + (p12 + x)))))))));
    lemma_assoc(p0 + p1, p2, p3 + (p4 + (p5 + (p6 + (p7 + (p8 + (p9 + (p10 + (p11 + (p12 + x))))))))));
    lemma_assoc(p0, p1, p2 + (p3 + (p4 + (p5 + (p6 + (p7 + (p8 + (p9 + (p10 + (p11 + (p12 + x)))))))))));
}

/// Parts one behind the other, however they are put together.
proof fn lemma_eleven(
    p0: Seq<u8>,
    p1: Seq<u8>,
    p2: Seq<u8>,
    p3: Seq<u8>,
    p4: Seq<u8>,
    p5: Seq<u8>,
    p6: Seq<u8>,
    p7: Seq<u8>,
    p8: Seq<u8>,
    p9: Seq<u8>,
    p10: Seq<u8>,
    x: Seq<u8>,
)
    ensures
        p0 + p1 + p2 + p3 + p4 + p5 + p6 + p7 + p8 + p9 + p10 + x == p0 + (p1 + (p2 + (p3 + (p4 + (p5 + (p6 + (p7 + (p8 + (p9 + (p10 + x)))))))))),
{
    lemma_assoc(p0 + p1 + p2 + p3 + p4 + p5 + p6 + p7 + p8 + p9, p10, x);
    lemma_assoc(p0 + p1 + p2 + p3 + p4 + p5 + p6 + p7 + p8, p9, p10 + x);
    lemma_assoc(p0 + p1 + p2 + p3 + p4 + p5 + p6 + p7, p8, p9 + (p10 + x));
    lemma_assoc(p0 + p1 + p2 + p3 + p4 + p5 + p6, p7, p8 + (p9 + (p10 + x)));
    lemma_assoc(p0 + p1 + p2 + p3 + p4 + p5, p6, p7 + (p8 + (p9 + (p10 + x))));
    lemma_assoc(p0 + p1 + p2 + p3 + p4, p5, p6 + (p7 + (p8 + (p9 + (p10 + x)))));
    lemma_assoc(p0 + p1 + p2 + p3, p4, p5 + (p6 + (p7 + (p8 + (p9 + (p10 + x))))));
    lemma_assoc(p0 + p1 + p2, p3, p4 + (p5 + (p6 + (p7 + (p8 + (p9 + (p10 + x)))))));
    lemma_assoc(p0 + p1, p2, p3 + (p4 + (p5 + (p6 + (p7 + (p8 + (p9 + (p10 + x))))))));
    lemma_assoc(p0, p1, p2 + (p3 + (p4 + (p5 + (p6 + (p7 + (p8 + (p9 + (p10 + x)))))))));
}

/// The bytes of a text of ASCII characters are the characters.
proof fn lemma_ascii(value: Seq<char>)
    requires
        is_ascii_chars(value),
    ensures
        bytes_of(value).len() == value.len(),
        forall|i: int| 0 <= i < value.len() ==> #[trigger] bytes_of(value)[i] == value[i] as u8,
{
    is_ascii_chars_encode_utf8(value);
}

proof fn lemma_byte_split(c: u8, d: u8, x: Seq<u8>, y: Seq<u8>)
    requires
        json::written_byte(c) + x == json::written_byte(d) + y,
    ensures
        c == d,
        x == y,
{
    let a = json::written_byte(c) + x;
    let b = json::written_byte(d) + y;
    assert(a[0] == b[0]);
    if json::written_byte(c).len() >= 2 {
        assert(a[0] == 92);
        assert(a[1] == json::written_byte(c)[1]);
    } else {
        assert(a[0] == c);
    }
    if json::written_byte(d).len() >= 2 {
        assert(b[0] == 92);
        assert(b[1] == json::written_byte(d)[1]);
    } else {
        assert(b[0] == d);
    }
    if json::written_byte(c).len() == 6 && json::written_byte(d).len() == 6 {
        assert(a[4] == json::written_byte(c)[4]);
        assert(a[5] == json::written_byte(c)[5]);
        assert(b[4] == json::written_byte(d)[4]);
        assert(b[5] == json::written_byte(d)[5]);
        assert(c as int == (c as int / 16) * 16 + c as int % 16);
        assert(d as int == (d as int / 16) * 16 + d as int % 16);
    }
    assert(c == d);
    lemma_same_head(json::written_byte(c), x, y);
}

proof fn lemma_bytes_split(a: Seq<u8>, b: Seq<u8>, x: Seq<u8>, y: Seq<u8>)
    requires
        json::written_bytes(a) + (seq![34u8] + x) == json::written_bytes(b) + (seq![34u8] + y),
    ensures
        a == b,
        x == y,
    decreases a.len(),
{
    let left = json::written_bytes(a) + (seq![34u8] + x);
    let right = json::written_bytes(b) + (seq![34u8] + y);
    if a.len() > 0 {
        let rest = json::written_bytes(a.drop_first()) + (seq![34u8] + x);
        assert(left =~= json::written_byte(a[0]) + rest);
        assert(left[0] == json::written_byte(a[0])[0]);
        assert(left[0] != 34);
    } else {
        assert(left =~= seq![34u8] + x);
    }
    if b.len() > 0 {
        let rest = json::written_bytes(b.drop_first()) + (seq![34u8] + y);
        assert(right =~= json::written_byte(b[0]) + rest);
        assert(right[0] == json::written_byte(b[0])[0]);
        assert(right[0] != 34);
    } else {
        assert(right =~= seq![34u8] + y);
    }
    if a.len() > 0 && b.len() > 0 {
        lemma_byte_split(
            a[0],
            b[0],
            json::written_bytes(a.drop_first()) + (seq![34u8] + x),
            json::written_bytes(b.drop_first()) + (seq![34u8] + y),
        );
        lemma_bytes_split(a.drop_first(), b.drop_first(), x, y);
        assert(a =~= seq![a[0]] + a.drop_first());
        assert(b =~= seq![b[0]] + b.drop_first());
    } else {
        assert(left[0] == right[0]);
        assert(a.len() == 0 && b.len() == 0);
        assert(a =~= b);
        lemma_same_head(seq![34u8], x, y);
    }
}

/// A quoted text ends where it ends, whatever follows.
proof fn lemma_text_split(a: Seq<char>, b: Seq<char>, x: Seq<u8>, y: Seq<u8>)
    requires
        json_text(a) + x == json_text(b) + y,
    ensures
        a == b,
        x == y,
{
    let p = json::written_bytes(encode_utf8(a)) + (seq![34u8] + x);
    let q = json::written_bytes(encode_utf8(b)) + (seq![34u8] + y);
    assert(json_text(a) + x =~= seq![34u8] + p);
    assert(json_text(b) + y =~= seq![34u8] + q);
    lemma_same_head(seq![34u8], p, q);
    lemma_bytes_split(encode_utf8(a), encode_utf8(b), x, y);
    encode_utf8_decode_utf8(a);
    encode_utf8_decode_utf8(b);
}

spec fn digit_byte(byte: u8) -> bool {
    48 <= byte <= 57
}

proof fn lemma_decimal_bytes(n: nat)
    ensures
        is_ascii_chars(text::decimal(n)),
        bytes_of(text::decimal(n)).len() == text::decimal(n).len(),
        text::decimal(n).len() > 0,
        forall|i: int|
            0 <= i < text::decimal(n).len() ==> digit_byte(
                #[trigger] bytes_of(text::decimal(n))[i],
            ) && bytes_of(text::decimal(n))[i] == text::decimal(n)[i] as u8,
{
    reading::lemma_decimal_says_number(n);
    let written = text::decimal(n);
    assert forall|i| 0 <= i < written.len() implies '\0' <= #[trigger] written[i] <= '\u{7f}' by {
        assert(48 <= written[i] as int <= 57);
    }
    lemma_ascii(written);
    assert forall|i: int| 0 <= i < written.len() implies digit_byte(#[trigger] bytes_of(written)[i])
        && bytes_of(written)[i] == written[i] as u8 by {
        assert(48 <= written[i] as int <= 57);
    }
}

proof fn lemma_decimal_split(m: nat, n: nat, x: Seq<u8>, y: Seq<u8>)
    requires
        x.len() > 0 && !digit_byte(x[0]),
        y.len() > 0 && !digit_byte(y[0]),
        bytes_of(text::decimal(m)) + x == bytes_of(text::decimal(n)) + y,
    ensures
        m == n,
        x == y,
{
    let a = bytes_of(text::decimal(m));
    let b = bytes_of(text::decimal(n));
    lemma_decimal_bytes(m);
    lemma_decimal_bytes(n);
    if a.len() < b.len() {
        assert((a + x)[a.len() as int] == x[0]);
        assert((b + y)[a.len() as int] == b[a.len() as int]);
        assert(digit_byte(b[a.len() as int]));
    } else if b.len() < a.len() {
        assert((b + y)[b.len() as int] == y[0]);
        assert((a + x)[b.len() as int] == a[b.len() as int]);
        assert(digit_byte(a[b.len() as int]));
    }
    assert forall|i: int| 0 <= i < text::decimal(m).len() implies text::decimal(m)[i]
        == text::decimal(n)[i] by {
        assert((a + x)[i] == a[i]);
        assert((b + y)[i] == b[i]);
        assert(a[i] == text::decimal(m)[i] as u8);
        assert(b[i] == text::decimal(n)[i] as u8);
        reading::lemma_decimal_says_number(m);
        reading::lemma_decimal_says_number(n);
    }
    assert(text::decimal(m) =~= text::decimal(n));
    reading::lemma_decimal_says_number(m);
    reading::lemma_decimal_says_number(n);
    lemma_same_head(a, x, y);
}

/// A number ends where its digits end, whatever follows that is no digit.
proof fn lemma_number_split(m: Option<u64>, n: Option<u64>, x: Seq<u8>, y: Seq<u8>)
    requires
        x.len() > 0 && !digit_byte(x[0]),
        y.len() > 0 && !digit_byte(y[0]),
        number_json(m) + x == number_json(n) + y,
    ensures
        m == n,
        x == y,
{
    reveal_strlit("null");
    lemma_ascii("null"@);
    let left = number_json(m) + x;
    let right = number_json(n) + y;
    if let Some(v) = m {
        lemma_decimal_bytes(v as nat);
        assert(left[0] == number_json(m)[0]);
        assert(digit_byte(bytes_of(text::decimal(v as nat))[0]));
    } else {
        assert(left[0] == 110);
    }
    if let Some(v) = n {
        lemma_decimal_bytes(v as nat);
        assert(right[0] == number_json(n)[0]);
        assert(digit_byte(bytes_of(text::decimal(v as nat))[0]));
    } else {
        assert(right[0] == 110);
    }
    match (m, n) {
        (Some(v), Some(w)) => lemma_decimal_split(v as nat, w as nat, x, y),
        (None, None) => lemma_same_head(bytes_of("null"@), x, y),
        _ => {},
    }
}

spec fn pair_json(pair: (Seq<char>, Seq<char>)) -> Seq<u8> {
    json_text(pair.0) + bytes_of(":"@) + json_text(pair.1)
}

/// What stands behind the first of some pairs.
spec fn behind_first(pairs: Seq<(Seq<char>, Seq<char>)>) -> Seq<u8> {
    if pairs.len() == 1 {
        Seq::empty()
    } else {
        bytes_of(","@) + pairs_json(pairs.drop_first())
    }
}

proof fn lemma_pairs_front(pairs: Seq<(Seq<char>, Seq<char>)>)
    requires
        pairs.len() > 0,
    ensures
        pairs_json(pairs) == pair_json(pairs[0]) + behind_first(pairs),
    decreases pairs.len(),
{
    let comma = bytes_of(","@);
    if pairs.len() == 1 {
        assert(pairs_json(pairs) =~= pair_json(pairs[0]) + Seq::<u8>::empty());
    } else {
        let rest = pairs.drop_last();
        let later = pairs.drop_first();
        let last = pair_json(pairs.last());
        lemma_pairs_front(rest);
        assert(rest[0] == pairs[0]);
        assert(later.last() == pairs.last());
        assert(pairs_json(pairs) == pairs_json(rest) + comma + last);
        if pairs.len() == 2 {
            assert(pairs_json(later) =~= last);
            assert(pairs_json(pairs) =~= pair_json(pairs[0]) + (comma + last));
        } else {
            assert(rest.drop_first() =~= later.drop_last());
            assert(pairs_json(later) == pairs_json(later.drop_last()) + comma + last);
            assert(pairs_json(pairs) =~= pair_json(pairs[0]) + (comma + pairs_json(later)));
        }
    }
}

proof fn lemma_marks()
    ensures
        bytes_of("{"@) == seq![123u8],
        bytes_of("}"@) == seq![125u8],
        bytes_of(","@) == seq![44u8],
        bytes_of(":"@) == seq![58u8],
        bytes_of("["@) == seq![91u8],
        bytes_of("]"@) == seq![93u8],
        bytes_of("]}"@) == seq![93u8, 125u8],
{
    reveal_strlit("{");
    reveal_strlit("}");
    reveal_strlit(",");
    reveal_strlit(":");
    reveal_strlit("[");
    reveal_strlit("]");
    reveal_strlit("]}");
    lemma_ascii("{"@);
    lemma_ascii("}"@);
    lemma_ascii(","@);
    lemma_ascii(":"@);
    lemma_ascii("["@);
    lemma_ascii("]"@);
    lemma_ascii("]}"@);
    assert(bytes_of("{"@) =~= seq![123u8]);
    assert(bytes_of("}"@) =~= seq![125u8]);
    assert(bytes_of(","@) =~= seq![44u8]);
    assert(bytes_of(":"@) =~= seq![58u8]);
    assert(bytes_of("["@) =~= seq![91u8]);
    assert(bytes_of("]"@) =~= seq![93u8]);
    assert(bytes_of("]}"@) =~= seq![93u8, 125u8]);
}

proof fn lemma_pairs_split(
    a: Seq<(Seq<char>, Seq<char>)>,
    b: Seq<(Seq<char>, Seq<char>)>,
    x: Seq<u8>,
    y: Seq<u8>,
)
    requires
        pairs_json(a) + (seq![125u8] + x) == pairs_json(b) + (seq![125u8] + y),
    ensures
        a == b,
        x == y,
    decreases a.len(),
{
    lemma_marks();
    let left = pairs_json(a) + (seq![125u8] + x);
    let right = pairs_json(b) + (seq![125u8] + y);
    if a.len() == 0 {
        assert(left =~= seq![125u8] + x);
    } else {
        lemma_pairs_front(a);
        assert(left[0] == 34);
    }
    if b.len() == 0 {
        assert(right =~= seq![125u8] + y);
    } else {
        lemma_pairs_front(b);
        assert(right[0] == 34);
    }
    if a.len() == 0 || b.len() == 0 {
        assert(left[0] == right[0]);
        assert(a =~= b);
        lemma_same_head(seq![125u8], x, y);
    } else {
        let p = behind_first(a) + (seq![125u8] + x);
        let q = behind_first(b) + (seq![125u8] + y);
        assert(left =~= json_text(a[0].0) + (seq![58u8] + (json_text(a[0].1) + p)));
        assert(right =~= json_text(b[0].0) + (seq![58u8] + (json_text(b[0].1) + q)));
        lemma_text_split(
            a[0].0,
            b[0].0,
            seq![58u8] + (json_text(a[0].1) + p),
            seq![58u8] + (json_text(b[0].1) + q),
        );
        lemma_same_head(seq![58u8], json_text(a[0].1) + p, json_text(b[0].1) + q);
        lemma_text_split(a[0].1, b[0].1, p, q);
        assert(p[0] == if a.len() == 1 {
            125u8
        } else {
            44u8
        });
        assert(q[0] == if b.len() == 1 {
            125u8
        } else {
            44u8
        });
        assert((a.len() == 1) == (b.len() == 1));
        if a.len() == 1 {
            assert(p =~= seq![125u8] + x);
            assert(q =~= seq![125u8] + y);
            lemma_same_head(seq![125u8], x, y);
            assert(a =~= b);
        } else {
            let u = pairs_json(a.drop_first()) + (seq![125u8] + x);
            let v = pairs_json(b.drop_first()) + (seq![125u8] + y);
            assert(p =~= seq![44u8] + u);
            assert(q =~= seq![44u8] + v);
            lemma_same_head(seq![44u8], u, v);
            lemma_pairs_split(a.drop_first(), b.drop_first(), x, y);
            assert(a =~= seq![a[0]] + a.drop_first());
            assert(b =~= seq![b[0]] + b.drop_first());
        }
    }
}

proof fn lemma_texts_split(a: TextsView, b: TextsView, x: Seq<u8>, y: Seq<u8>)
    requires
        ordered::listable::<String, Seq<char>>(a),
        ordered::listable::<String, Seq<char>>(b),
        texts_json(a) + x == texts_json(b) + y,
    ensures
        a == b,
        x == y,
{
    lemma_marks();
    let p = ordered::listing::<String, Seq<char>>(a);
    let q = ordered::listing::<String, Seq<char>>(b);
    ordered::lemma_listable::<String, Seq<char>>(a);
    ordered::lemma_listable::<String, Seq<char>>(b);
    let u = pairs_json(p) + (seq![125u8] + x);
    let v = pairs_json(q) + (seq![125u8] + y);
    assert(texts_json(a) + x =~= seq![123u8] + u);
    assert(texts_json(b) + y =~= seq![123u8] + v);
    lemma_same_head(seq![123u8], u, v);
    lemma_pairs_split(p, q, x, y);
}

proof fn lemma_kind_heads()
    ensures
        bytes_of("{\"kind\":\"recording\",\"record\":"@).len() > 9,
        bytes_of("{\"kind\":\"alert\",\"alert\":"@).len() > 9,
        bytes_of("{\"kind\":\"recording\",\"record\":"@)[9] == 114,
        bytes_of("{\"kind\":\"alert\",\"alert\":"@)[9] == 97,
        bytes_of("{\"kind\":\"recording\",\"record\":"@)[0] == 123,
        bytes_of("{\"kind\":\"alert\",\"alert\":"@)[0] == 123,
{
    reveal_strlit("{\"kind\":\"recording\",\"record\":");
    reveal_strlit("{\"kind\":\"alert\",\"alert\":");
    lemma_ascii("{\"kind\":\"recording\",\"record\":"@);
    lemma_ascii("{\"kind\":\"alert\",\"alert\":"@);
}

proof fn lemma_tails()
    ensures
        bytes_of(",\"forSecs\":"@).len() > 0,
        bytes_of(",\"forSecs\":"@)[0] == 44,
        bytes_of(",\"labels\":"@).len() > 0,
        bytes_of(",\"labels\":"@)[0] == 44,
{
    reveal_strlit(",\"forSecs\":");
    reveal_strlit(",\"labels\":");
    lemma_ascii(",\"forSecs\":"@);
    lemma_ascii(",\"labels\":"@);
}

#[verifier::rlimit(40)]
#[verifier::spinoff_prover]
proof fn lemma_recording_split(
    a: RecordingRuleView,
    b: RecordingRuleView,
    x: Seq<u8>,
    y: Seq<u8>,
)
    requires
        ordered::listable::<String, Seq<char>>(a.labels),
        ordered::listable::<String, Seq<char>>(b.labels),
        rule_json(RuleView::Recording(a)) + x == rule_json(RuleView::Recording(b)) + y,
    ensures
        a == b,
        x == y,
{
    lemma_tails();
    let head = bytes_of("{\"kind\":\"recording\",\"record\":"@);
    let expr = bytes_of(",\"expr\":"@);
    let interval = bytes_of(",\"intervalSecs\":"@);
    let labels = bytes_of(",\"labels\":"@);
    let end = bytes_of("}"@);
    let a5 = texts_json(a.labels) + (end + x);
    let b5 = texts_json(b.labels) + (end + y);
    let a4 = labels + a5;
    let b4 = labels + b5;
    let a3 = interval + (number_json(a.interval_secs) + a4);
    let b3 = interval + (number_json(b.interval_secs) + b4);
    let a2 = expr + (json_text(a.expr) + a3);
    let b2 = expr + (json_text(b.expr) + b3);
    let a1 = json_text(a.record) + a2;
    let b1 = json_text(b.record) + b2;
    lemma_nine(
        head,
        json_text(a.record),
        expr,
        json_text(a.expr),
        interval,
        number_json(a.interval_secs),
        labels,
        texts_json(a.labels),
        end,
        x,
    );
    lemma_nine(
        head,
        json_text(b.record),
        expr,
        json_text(b.expr),
        interval,
        number_json(b.interval_secs),
        labels,
        texts_json(b.labels),
        end,
        y,
    );
    assert(rule_json(RuleView::Recording(a)) + x == head + a1);
    assert(rule_json(RuleView::Recording(b)) + y == head + b1);
    lemma_same_head(head, a1, b1);
    lemma_text_split(a.record, b.record, a2, b2);
    lemma_same_head(expr, json_text(a.expr) + a3, json_text(b.expr) + b3);
    lemma_text_split(a.expr, b.expr, a3, b3);
    lemma_same_head(
        interval,
        number_json(a.interval_secs) + a4,
        number_json(b.interval_secs) + b4,
    );
    lemma_first(labels, a5);
    lemma_first(labels, b5);
    lemma_number_split(a.interval_secs, b.interval_secs, a4, b4);
    lemma_same_head(labels, a5, b5);
    lemma_texts_split(a.labels, b.labels, end + x, end + y);
    lemma_same_head(end, x, y);
}

#[verifier::rlimit(60)]
#[verifier::spinoff_prover]
proof fn lemma_alert_split(
    a: AlertRuleView,
    b: AlertRuleView,
    x: Seq<u8>,
    y: Seq<u8>,
)
    requires
        ordered::listable::<String, Seq<char>>(a.labels),
        ordered::listable::<String, Seq<char>>(b.labels),
        ordered::listable::<String, Seq<char>>(a.annotations),
        ordered::listable::<String, Seq<char>>(b.annotations),
        rule_json(RuleView::Alert(a)) + x == rule_json(RuleView::Alert(b)) + y,
    ensures
        a == b,
        x == y,
{
    lemma_tails();
    let head = bytes_of("{\"kind\":\"alert\",\"alert\":"@);
    let expr = bytes_of(",\"expr\":"@);
    let interval = bytes_of(",\"intervalSecs\":"@);
    let wait = bytes_of(",\"forSecs\":"@);
    let labels = bytes_of(",\"labels\":"@);
    let notes = bytes_of(",\"annotations\":"@);
    let end = bytes_of("}"@);
    let a6 = notes + (texts_json(a.annotations) + (end + x));
    let b6 = notes + (texts_json(b.annotations) + (end + y));
    let a5 = labels + (texts_json(a.labels) + a6);
    let b5 = labels + (texts_json(b.labels) + b6);
    let a4 = wait + (number_json(Some(a.for_secs)) + a5);
    let b4 = wait + (number_json(Some(b.for_secs)) + b5);
    let a3 = interval + (number_json(a.interval_secs) + a4);
    let b3 = interval + (number_json(b.interval_secs) + b4);
    let a2 = expr + (json_text(a.expr) + a3);
    let b2 = expr + (json_text(b.expr) + b3);
    let a1 = json_text(a.alert) + a2;
    let b1 = json_text(b.alert) + b2;
    lemma_thirteen(
        head,
        json_text(a.alert),
        expr,
        json_text(a.expr),
        interval,
        number_json(a.interval_secs),
        wait,
        number_json(Some(a.for_secs)),
        labels,
        texts_json(a.labels),
        notes,
        texts_json(a.annotations),
        end,
        x,
    );
    lemma_thirteen(
        head,
        json_text(b.alert),
        expr,
        json_text(b.expr),
        interval,
        number_json(b.interval_secs),
        wait,
        number_json(Some(b.for_secs)),
        labels,
        texts_json(b.labels),
        notes,
        texts_json(b.annotations),
        end,
        y,
    );
    assert(rule_json(RuleView::Alert(a)) + x == head + a1);
    assert(rule_json(RuleView::Alert(b)) + y == head + b1);
    lemma_same_head(head, a1, b1);
    lemma_text_split(a.alert, b.alert, a2, b2);
    lemma_same_head(expr, json_text(a.expr) + a3, json_text(b.expr) + b3);
    lemma_text_split(a.expr, b.expr, a3, b3);
    lemma_same_head(
        interval,
        number_json(a.interval_secs) + a4,
        number_json(b.interval_secs) + b4,
    );
    lemma_first(wait, number_json(Some(a.for_secs)) + a5);
    lemma_first(wait, number_json(Some(b.for_secs)) + b5);
    lemma_number_split(a.interval_secs, b.interval_secs, a4, b4);
    lemma_same_head(
        wait,
        number_json(Some(a.for_secs)) + a5,
        number_json(Some(b.for_secs)) + b5,
    );
    lemma_first(labels, texts_json(a.labels) + a6);
    lemma_first(labels, texts_json(b.labels) + b6);
    lemma_number_split(Some(a.for_secs), Some(b.for_secs), a5, b5);
    lemma_same_head(labels, texts_json(a.labels) + a6, texts_json(b.labels) + b6);
    lemma_texts_split(a.labels, b.labels, a6, b6);
    lemma_same_head(
        notes,
        texts_json(a.annotations) + (end + x),
        texts_json(b.annotations) + (end + y),
    );
    lemma_texts_split(a.annotations, b.annotations, end + x, end + y);
    lemma_same_head(end, x, y);
}

proof fn lemma_rule_head(rule: RuleView, x: Seq<u8>)
    ensures
        rule_json(rule).len() > 9,
        (rule_json(rule) + x)[0] == 123,
        (rule_json(rule) + x)[9] == if rule is Recording {
            114u8
        } else {
            97u8
        },
{
    lemma_kind_heads();
}

proof fn lemma_rule_split(a: RuleView, b: RuleView, x: Seq<u8>, y: Seq<u8>)
    requires
        acceptance::well_kept_rule(a),
        acceptance::well_kept_rule(b),
        rule_json(a) + x == rule_json(b) + y,
    ensures
        a == b,
        x == y,
{
    lemma_rule_head(a, x);
    lemma_rule_head(b, y);
    match (a, b) {
        (RuleView::Recording(p), RuleView::Recording(q)) => lemma_recording_split(p, q, x, y),
        (RuleView::Alert(p), RuleView::Alert(q)) => lemma_alert_split(p, q, x, y),
        _ => {},
    }
}

/// The texts of rules.
spec fn rule_texts(rules: Seq<RuleView>) -> Seq<Seq<u8>> {
    Seq::new(rules.len(), |i: int| rule_json(rules[i]))
}

proof fn lemma_rules_joined(rules: Seq<RuleView>)
    ensures
        rules_json(rules) == reading::with_commas(rule_texts(rules)),
    decreases rules.len(),
{
    let parts = rule_texts(rules);
    if rules.len() > 0 {
        lemma_rules_joined(rules.drop_last());
        assert(parts.drop_last() =~= rule_texts(rules.drop_last()));
        assert(parts.last() == rule_json(rules.last()));
        if rules.len() == 1 {
            assert(parts[0] == rule_json(rules.last()));
        }
    }
}

/// What stands behind the first of some texts.
spec fn behind_part(parts: Seq<Seq<u8>>) -> Seq<u8> {
    if parts.len() == 1 {
        Seq::empty()
    } else {
        bytes_of(","@) + reading::with_commas(parts.drop_first())
    }
}

proof fn lemma_parts_front(parts: Seq<Seq<u8>>)
    requires
        parts.len() > 0,
    ensures
        reading::with_commas(parts) == parts[0] + behind_part(parts),
    decreases parts.len(),
{
    let comma = bytes_of(","@);
    if parts.len() == 1 {
        assert(parts[0] + Seq::<u8>::empty() =~= parts[0]);
    } else {
        let rest = parts.drop_last();
        let later = parts.drop_first();
        let last = parts.last();
        lemma_parts_front(rest);
        assert(rest[0] == parts[0]);
        assert(later.last() == last);
        assert(reading::with_commas(parts) == reading::with_commas(rest) + comma + last);
        if parts.len() == 2 {
            assert(later[0] == last);
            assert(reading::with_commas(rest) == rest[0]);
            lemma_assoc(parts[0], comma, last);
        } else {
            let mid = reading::with_commas(later.drop_last());
            assert(rest.drop_first() =~= later.drop_last());
            assert(reading::with_commas(later) == mid + comma + last);
            lemma_assoc(parts[0], comma + mid, comma);
            lemma_assoc(parts[0], comma + mid + comma, last);
            lemma_assoc(comma, mid, comma);
            lemma_assoc(comma, mid + comma, last);
        }
    }
}

/// What stands behind the first of some rules.
spec fn behind_rule(rules: Seq<RuleView>) -> Seq<u8> {
    if rules.len() == 1 {
        Seq::empty()
    } else {
        bytes_of(","@) + rules_json(rules.drop_first())
    }
}

proof fn lemma_rules_front(rules: Seq<RuleView>)
    requires
        rules.len() > 0,
    ensures
        rules_json(rules) == rule_json(rules[0]) + behind_rule(rules),
{
    lemma_rules_joined(rules);
    lemma_parts_front(rule_texts(rules));
    lemma_rules_joined(rules.drop_first());
    assert(rule_texts(rules).drop_first() =~= rule_texts(rules.drop_first()));
}

proof fn lemma_behind_first(rules: Seq<RuleView>, x: Seq<u8>)
    ensures
        (behind_rule(rules) + (seq![93u8] + x))[0] == if rules.len() == 1 {
            93u8
        } else {
            44u8
        },
{
    lemma_marks();
    if rules.len() == 1 {
        lemma_nothing_before(seq![93u8] + x);
    } else {
        lemma_assoc(seq![44u8], rules_json(rules.drop_first()), seq![93u8] + x);
        lemma_first(seq![44u8], rules_json(rules.drop_first()) + (seq![93u8] + x));
    }
}

proof fn lemma_rules_split(a: Seq<RuleView>, b: Seq<RuleView>, x: Seq<u8>, y: Seq<u8>)
    requires
        forall|i: int| 0 <= i < a.len() ==> acceptance::well_kept_rule(#[trigger] a[i]),
        forall|i: int| 0 <= i < b.len() ==> acceptance::well_kept_rule(#[trigger] b[i]),
        rules_json(a) + (seq![93u8] + x) == rules_json(b) + (seq![93u8] + y),
    ensures
        a == b,
        x == y,
    decreases a.len(),
{
    lemma_marks();
    let left = rules_json(a) + (seq![93u8] + x);
    let right = rules_json(b) + (seq![93u8] + y);
    let p = behind_rule(a) + (seq![93u8] + x);
    let q = behind_rule(b) + (seq![93u8] + y);
    if a.len() == 0 {
        lemma_nothing_before(seq![93u8] + x);
    } else {
        lemma_rules_front(a);
        lemma_assoc(rule_json(a[0]), behind_rule(a), seq![93u8] + x);
        lemma_rule_head(a[0], p);
    }
    if b.len() == 0 {
        lemma_nothing_before(seq![93u8] + y);
    } else {
        lemma_rules_front(b);
        lemma_assoc(rule_json(b[0]), behind_rule(b), seq![93u8] + y);
        lemma_rule_head(b[0], q);
    }
    if a.len() == 0 || b.len() == 0 {
        assert(left[0] == right[0]);
        assert(a =~= b);
        lemma_same_head(seq![93u8], x, y);
    } else {
        lemma_rule_split(a[0], b[0], p, q);
        lemma_behind_first(a, x);
        lemma_behind_first(b, y);
        assert((a.len() == 1) == (b.len() == 1));
        if a.len() == 1 {
            lemma_nothing_before(seq![93u8] + x);
            lemma_nothing_before(seq![93u8] + y);
            lemma_same_head(seq![93u8], x, y);
            assert(a =~= b);
        } else {
            let u = rules_json(a.drop_first()) + (seq![93u8] + x);
            let v = rules_json(b.drop_first()) + (seq![93u8] + y);
            lemma_assoc(seq![44u8], rules_json(a.drop_first()), seq![93u8] + x);
            lemma_assoc(seq![44u8], rules_json(b.drop_first()), seq![93u8] + y);
            lemma_same_head(seq![44u8], u, v);
            assert forall|i: int| 0 <= i < a.drop_first().len() implies acceptance::well_kept_rule(
                #[trigger] a.drop_first()[i],
            ) by {
                assert(a.drop_first()[i] == a[i + 1]);
            }
            assert forall|i: int| 0 <= i < b.drop_first().len() implies acceptance::well_kept_rule(
                #[trigger] b.drop_first()[i],
            ) by {
                assert(b.drop_first()[i] == b[i + 1]);
            }
            lemma_rules_split(a.drop_first(), b.drop_first(), x, y);
            assert(a =~= seq![a[0]] + a.drop_first());
            assert(b =~= seq![b[0]] + b.drop_first());
        }
    }
}

#[verifier::rlimit(40)]
#[verifier::spinoff_prover]
proof fn lemma_group_split(a: RuleGroupView, b: RuleGroupView, x: Seq<u8>, y: Seq<u8>)
    requires
        acceptance::well_kept(seq![a]),
        acceptance::well_kept(seq![b]),
        group_json(a) + x == group_json(b) + y,
    ensures
        a == b,
        x == y,
{
    lemma_tails();
    lemma_marks();
    assert(seq![a][0] == a);
    assert(seq![b][0] == b);
    assert forall|i: int| 0 <= i < a.rules.len() implies acceptance::well_kept_rule(
        #[trigger] a.rules[i],
    ) by {
        assert(seq![a][0].rules[i] == a.rules[i]);
    }
    assert forall|i: int| 0 <= i < b.rules.len() implies acceptance::well_kept_rule(
        #[trigger] b.rules[i],
    ) by {
        assert(seq![b][0].rules[i] == b.rules[i]);
    }
    let head = bytes_of("{\"name\":"@);
    let tenant = bytes_of(",\"tenantId\":"@);
    let interval = bytes_of(",\"intervalSecs\":"@);
    let labels = bytes_of(",\"labels\":"@);
    let rules = bytes_of(",\"rules\":["@);
    let end = bytes_of("]}"@);
    assert(end =~= seq![93u8] + seq![125u8]);
    let a5 = rules + (rules_json(a.rules) + (seq![93u8] + (seq![125u8] + x)));
    let b5 = rules + (rules_json(b.rules) + (seq![93u8] + (seq![125u8] + y)));
    let a4 = labels + (texts_json(a.labels) + a5);
    let b4 = labels + (texts_json(b.labels) + b5);
    let a3 = interval + (number_json(Some(a.interval_secs)) + a4);
    let b3 = interval + (number_json(Some(b.interval_secs)) + b4);
    let a2 = tenant + (json_text(a.tenant_id) + a3);
    let b2 = tenant + (json_text(b.tenant_id) + b3);
    let a1 = json_text(a.name) + a2;
    let b1 = json_text(b.name) + b2;
    lemma_eleven(
        head,
        json_text(a.name),
        tenant,
        json_text(a.tenant_id),
        interval,
        number_json(Some(a.interval_secs)),
        labels,
        texts_json(a.labels),
        rules,
        rules_json(a.rules),
        end,
        x,
    );
    lemma_assoc(seq![93u8], seq![125u8], x);
    lemma_eleven(
        head,
        json_text(b.name),
        tenant,
        json_text(b.tenant_id),
        interval,
        number_json(Some(b.interval_secs)),
        labels,
        texts_json(b.labels),
        rules,
        rules_json(b.rules),
        end,
        y,
    );
    lemma_assoc(seq![93u8], seq![125u8], y);
    assert(group_json(a) + x == head + a1);
    assert(group_json(b) + y == head + b1);
    lemma_same_head(head, a1, b1);
    lemma_text_split(a.name, b.name, a2, b2);
    lemma_same_head(tenant, json_text(a.tenant_id) + a3, json_text(b.tenant_id) + b3);
    lemma_text_split(a.tenant_id, b.tenant_id, a3, b3);
    lemma_same_head(
        interval,
        number_json(Some(a.interval_secs)) + a4,
        number_json(Some(b.interval_secs)) + b4,
    );
    lemma_first(labels, texts_json(a.labels) + a5);
    lemma_first(labels, texts_json(b.labels) + b5);
    lemma_number_split(Some(a.interval_secs), Some(b.interval_secs), a4, b4);
    lemma_same_head(labels, texts_json(a.labels) + a5, texts_json(b.labels) + b5);
    lemma_texts_split(a.labels, b.labels, a5, b5);
    lemma_same_head(
        rules,
        rules_json(a.rules) + (seq![93u8] + (seq![125u8] + x)),
        rules_json(b.rules) + (seq![93u8] + (seq![125u8] + y)),
    );
    lemma_rules_split(a.rules, b.rules, seq![125u8] + x, seq![125u8] + y);
    lemma_same_head(seq![125u8], x, y);
}

/// The fingerprint of a rule is the hash of a text that tells every two definitions apart: whatever
/// differs in the rule or in its group, its name, expression, interval, wait, labels or annotations,
/// makes another text.
pub proof fn lemma_definitions_told_apart(
    group: RuleGroupView,
    rule: RuleView,
    other_group: RuleGroupView,
    other_rule: RuleView,
)
    requires
        acceptance::well_kept(seq![group]),
        acceptance::well_kept(seq![other_group]),
        acceptance::well_kept_rule(rule),
        acceptance::well_kept_rule(other_rule),
    ensures
        fingerprint::fingerprint_of(group, rule) == fingerprint::fnv(
            0xcbf29ce484222325,
            fingerprint::definition_json(group, rule),
        ),
        fingerprint::definition_json(group, rule) == fingerprint::definition_json(
            other_group,
            other_rule,
        ) ==> group == other_group && rule == other_rule,
{
    let open = bytes_of("["@);
    let comma = bytes_of(","@);
    let end = bytes_of("]"@);
    if fingerprint::definition_json(group, rule) == fingerprint::definition_json(
        other_group,
        other_rule,
    ) {
        let a1 = comma + (rule_json(rule) + end);
        let b1 = comma + (rule_json(other_rule) + end);
        lemma_five(open, group_json(group), comma, rule_json(rule), end);
        lemma_five(open, group_json(other_group), comma, rule_json(other_rule), end);
        lemma_same_head(open, group_json(group) + a1, group_json(other_group) + b1);
        lemma_group_split(group, other_group, a1, b1);
        lemma_same_head(comma, rule_json(rule) + end, rule_json(other_rule) + end);
        lemma_rule_split(rule, other_rule, end, end);
    }
}

} // verus!
