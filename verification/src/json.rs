//! Texts as JSON strings, and the pieces that a JSON writer writes them in.

use vstd::prelude::*;
use vstd::slice::*;
use vstd::utf8::*;

verus! {

/// Whether a byte of a text is escaped in a JSON string.
pub open spec fn escapes(byte: u8) -> bool {
    byte < 32 || byte == 34 || byte == 92
}

/// A digit of a number to the base of sixteen.
pub open spec fn hex_digit(digit: int) -> u8 {
    if digit < 10 {
        (48 + digit) as u8
    } else {
        (87 + digit) as u8
    }
}

/// What a byte of a text is written as in a JSON string.
pub open spec fn written_byte(byte: u8) -> Seq<u8> {
    if byte == 34 || byte == 92 {
        seq![92, byte]
    } else if byte == 8 {
        seq![92, 98]
    } else if byte == 9 {
        seq![92, 116]
    } else if byte == 10 {
        seq![92, 110]
    } else if byte == 12 {
        seq![92, 102]
    } else if byte == 13 {
        seq![92, 114]
    } else if byte < 32 {
        seq![92, 117, 48, 48, hex_digit(byte as int / 16), hex_digit(byte as int % 16)]
    } else {
        seq![byte]
    }
}

/// What the bytes of a text are written as in a JSON string.
pub open spec fn written_bytes(bytes: Seq<u8>) -> Seq<u8>
    decreases bytes.len(),
{
    if bytes.len() == 0 {
        Seq::empty()
    } else {
        written_byte(bytes[0]) + written_bytes(bytes.drop_first())
    }
}

/// A text as a JSON string: its bytes between quotes, with quotes, backslashes and control
/// characters escaped.
pub open spec fn json_text(value: Seq<char>) -> Seq<u8> {
    seq![34u8] + written_bytes(encode_utf8(value)) + seq![34u8]
}

/// Calls `serde_json::to_vec` on a text. Writing a text to memory does not fail, and what is
/// written is the text as a JSON string.
#[verifier::external_body]
pub(crate) fn json_string(value: &str) -> (encoded: Vec<u8>)
    ensures
        encoded@ == json_text(value@),
{
    serde_json::to_vec(value).unwrap_or_default()
}

/// The bytes of a text.
pub open spec fn bytes_of(value: Seq<char>) -> Seq<u8> {
    encode_utf8(value)
}

pub(crate) fn bytes_vec(value: &str) -> (bytes: Vec<u8>)
    ensures
        bytes@ == bytes_of(value@),
{
    slice_to_vec(value.as_bytes())
}

/// Pieces of bytes one after the other.
pub open spec fn joined(pieces: Seq<Seq<u8>>) -> Seq<u8>
    decreases pieces.len(),
{
    if pieces.len() == 0 {
        Seq::empty()
    } else {
        joined(pieces.drop_last()) + pieces.last()
    }
}

/// The contents of a list of buffers.
pub open spec fn views_of(pieces: Seq<Vec<u8>>) -> Seq<Seq<u8>> {
    Seq::new(pieces.len(), |i: int| pieces[i]@)
}

/// A run of bytes that are not escaped is one piece, unless it is empty.
pub open spec fn run_pieces(run: Seq<u8>) -> Seq<Seq<u8>> {
    if run.len() == 0 {
        Seq::empty()
    } else {
        seq![run]
    }
}

/// The pieces that the rest of a text is written in, after a run of bytes that are not escaped:
/// each run that is as long as can be is a piece, and each escape is one.
pub open spec fn content_pieces(run: Seq<u8>, rest: Seq<u8>) -> Seq<Seq<u8>>
    decreases rest.len(),
{
    if rest.len() == 0 {
        run_pieces(run)
    } else if escapes(rest[0]) {
        run_pieces(run).push(written_byte(rest[0])) + content_pieces(
            Seq::empty(),
            rest.drop_first(),
        )
    } else {
        content_pieces(run.push(rest[0]), rest.drop_first())
    }
}

/// The pieces that a text is written in as a JSON string: the quotes around it are pieces of their
/// own.
pub open spec fn text_pieces(value: Seq<char>) -> Seq<Seq<u8>> {
    seq![seq![34u8]] + content_pieces(Seq::empty(), encode_utf8(value)) + seq![seq![34u8]]
}

/// Pieces behind pieces are joined one behind the other.
pub(crate) proof fn lemma_joined_parts(first: Seq<Seq<u8>>, second: Seq<Seq<u8>>)
    ensures
        joined(first + second) == joined(first) + joined(second),
    decreases second.len(),
{
    let both = first + second;
    if second.len() == 0 {
        assert(both =~= first);
        assert(joined(first) + joined(second) =~= joined(first));
    } else {
        lemma_joined_parts(first, second.drop_last());
        assert(both.drop_last() =~= first + second.drop_last());
        assert(joined(both) =~= joined(first) + joined(second));
    }
}

/// One piece is what it joins to.
pub(crate) proof fn lemma_joined_one(piece: Seq<u8>)
    ensures
        joined(seq![piece]) == piece,
{
    reveal_with_fuel(joined, 2);
    assert(seq![piece].drop_last() =~= Seq::empty());
    assert(joined(seq![piece]) =~= piece);
}

proof fn lemma_content_joined(run: Seq<u8>, rest: Seq<u8>)
    ensures
        joined(content_pieces(run, rest)) == run + written_bytes(rest),
    decreases rest.len(),
{
    lemma_joined_one(run);
    if rest.len() == 0 {
        assert(joined(run_pieces(run)) =~= run);
        assert(run + written_bytes(rest) =~= run);
    } else if escapes(rest[0]) {
        let escape = written_byte(rest[0]);
        let more = rest.drop_first();
        let after = content_pieces(Seq::empty(), more);
        lemma_content_joined(Seq::empty(), more);
        assert(run_pieces(run).push(escape).drop_last() =~= run_pieces(run));
        lemma_joined_parts(run_pieces(run).push(escape), after);
        assert(joined(run_pieces(run)) =~= run);
        assert(joined(content_pieces(run, rest)) =~= run + (escape + written_bytes(more)));
    } else {
        let more = rest.drop_first();
        lemma_content_joined(run.push(rest[0]), more);
        assert(run.push(rest[0]) + written_bytes(more) =~= run + (seq![rest[0]] + written_bytes(
            more,
        )));
    }
}

/// The pieces that a text is written in are the text as a JSON string.
pub proof fn lemma_text_joined(value: Seq<char>)
    ensures
        joined(text_pieces(value)) == json_text(value),
{
    let content = content_pieces(Seq::empty(), encode_utf8(value));
    let quote = seq![seq![34u8]];
    lemma_content_joined(Seq::empty(), encode_utf8(value));
    lemma_joined_one(seq![34u8]);
    lemma_joined_parts(quote, content);
    lemma_joined_parts(quote + content, quote);
    assert(Seq::<u8>::empty() + written_bytes(encode_utf8(value)) =~= written_bytes(
        encode_utf8(value),
    ));
}

fn written_len(byte: u8) -> (len: usize)
    ensures
        len == written_byte(byte).len(),
{
    if byte >= 32 {
        if byte == 34 || byte == 92 {
            2
        } else {
            1
        }
    } else if byte == 8 || byte == 9 || byte == 10 || byte == 12 || byte == 13 {
        2
    } else {
        6
    }
}

fn cut(bytes: &Vec<u8>, from: usize, to: usize) -> (piece: Vec<u8>)
    requires
        from <= to <= bytes@.len(),
    ensures
        piece@ == bytes@.subrange(from as int, to as int),
{
    slice_to_vec(slice_subrange(bytes.as_slice(), from, to))
}

/// What an unescaped run and what comes behind it are written as, cut at the first byte behind the
/// run.
proof fn lemma_cut(encoded: Seq<u8>, at: int, run: Seq<u8>, rest: Seq<u8>)
    requires
        0 <= at <= encoded.len() - 1,
        encoded.subrange(at, encoded.len() - 1) == run + written_bytes(rest),
    ensures
        at + run.len() <= encoded.len() - 1,
        encoded.subrange(at, at + run.len()) == run,
        encoded.subrange(at + run.len(), encoded.len() - 1) == written_bytes(rest),
        rest.len() > 0 ==> {
            let k = written_byte(rest[0]).len();
            &&& at + run.len() + k <= encoded.len() - 1
            &&& encoded.subrange(at + run.len(), at + run.len() + k) == written_byte(rest[0])
            &&& encoded.subrange(at + run.len() + k, encoded.len() - 1) == written_bytes(
                rest.drop_first(),
            )
        },
{
    let whole = encoded.subrange(at, encoded.len() - 1);
    let n = run.len() as int;
    assert(whole.len() == n + written_bytes(rest).len());
    assert(encoded.subrange(at, at + n) =~= whole.subrange(0, n));
    assert(whole.subrange(0, n) =~= run);
    assert(encoded.subrange(at + n, encoded.len() - 1) =~= whole.subrange(n, whole.len() as int));
    assert(whole.subrange(n, whole.len() as int) =~= written_bytes(rest));
    if rest.len() > 0 {
        let first = written_byte(rest[0]);
        let more = written_bytes(rest.drop_first());
        let k = first.len() as int;
        assert(written_bytes(rest) == first + more);
        let tail = encoded.subrange(at + n, encoded.len() - 1);
        assert(encoded.subrange(at + n, at + n + k) =~= tail.subrange(0, k));
        assert(tail.subrange(0, k) =~= first);
        assert(encoded.subrange(at + n + k, encoded.len() - 1) =~= tail.subrange(
            k,
            tail.len() as int,
        ));
        assert(tail.subrange(k, tail.len() as int) =~= more);
    }
}

/// The pieces that a text is written in as a JSON string.
pub(crate) fn string_pieces(value: &str) -> (pieces: Vec<Vec<u8>>)
    ensures
        views_of(pieces@) == text_pieces(value@),
{
    let encoded = json_string(value);
    let bytes = value.as_bytes();
    let ghost all = encode_utf8(value@);
    let ghost quote = seq![seq![34u8]];
    let ghost whole = content_pieces(Seq::empty(), all);
    let mut pieces: Vec<Vec<u8>> = Vec::new();
    pieces.push(cut(&encoded, 0, 1));
    let total = encoded.len();
    let mut at: usize = 1;
    let mut start: usize = 0;
    let mut i: usize = 0;
    proof {
        assert(encoded@.subrange(0, 1) =~= seq![34u8]);
        assert(views_of(pieces@) =~= quote);
        assert(all.subrange(0, 0) =~= Seq::empty());
        assert(all.subrange(0, all.len() as int) =~= all);
        assert(encoded@.subrange(1, encoded@.len() - 1) =~= all.subrange(0, 0) + written_bytes(all));
    }
    while i < bytes.len()
        invariant
            start <= i <= bytes@.len(),
            bytes@ == all,
            total == encoded@.len(),
            encoded@.len() >= 2,
            encoded@[encoded@.len() - 1] == 34,
            1 <= at <= encoded@.len() - 1,
            encoded@.subrange(at as int, encoded@.len() - 1) == all.subrange(start as int, i as int)
                + written_bytes(all.subrange(i as int, all.len() as int)),
            views_of(pieces@) + content_pieces(
                all.subrange(start as int, i as int),
                all.subrange(i as int, all.len() as int),
            ) == quote + whole,
        decreases bytes@.len() - i,
    {
        let byte = bytes[i];
        let ghost run = all.subrange(start as int, i as int);
        let ghost rest = all.subrange(i as int, all.len() as int);
        proof {
            lemma_cut(encoded@, at as int, run, rest);
            assert(rest.drop_first() =~= all.subrange(i as int + 1, all.len() as int));
        }
        if byte < 32 || byte == 34 || byte == 92 {
            let ghost before = views_of(pieces@);
            if i > start {
                pieces.push(cut(&encoded, at, at + (i - start)));
            }
            at = at + (i - start);
            let len = written_len(byte);
            proof {
                assert(views_of(pieces@) =~= before + run_pieces(run));
            }
            pieces.push(cut(&encoded, at, at + len));
            at = at + len;
            start = i + 1;
            proof {
                let more = content_pieces(Seq::empty(), rest.drop_first());
                assert(views_of(pieces@) =~= before + run_pieces(run).push(written_byte(rest[0])));
                assert(all.subrange(start as int, i as int + 1) =~= Seq::empty());
                assert(before + (run_pieces(run).push(written_byte(rest[0])) + more)
                    =~= views_of(pieces@) + more);
                assert(Seq::<u8>::empty() + written_bytes(rest.drop_first()) =~= written_bytes(
                    rest.drop_first(),
                ));
            }
        } else {
            proof {
                assert(all.subrange(start as int, i as int + 1) =~= run.push(rest[0]));
                assert(run.push(rest[0]) + written_bytes(rest.drop_first()) =~= run + (seq![rest[0]]
                    + written_bytes(rest.drop_first())));
            }
        }
        i = i + 1;
    }
    let ghost run = all.subrange(start as int, i as int);
    let ghost before = views_of(pieces@);
    proof {
        let rest = all.subrange(i as int, all.len() as int);
        assert(rest.len() == 0);
        lemma_cut(encoded@, at as int, run, rest);
        assert(written_bytes(rest).len() == 0);
    }
    if i > start {
        pieces.push(cut(&encoded, at, at + (i - start)));
    }
    at = at + (i - start);
    proof {
        assert(at == encoded@.len() - 1);
        assert(views_of(pieces@) =~= before + run_pieces(run));
    }
    pieces.push(cut(&encoded, at, at + 1));
    proof {
        assert(encoded@.subrange(at as int, at + 1) =~= seq![34u8]);
        assert(views_of(pieces@) =~= (quote + whole).push(seq![34u8]));
        assert((quote + whole).push(seq![34u8]) =~= text_pieces(value@));
    }
    pieces
}

} // verus!
