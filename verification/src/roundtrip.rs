//! What writing and reading have to do with each other.

use crate::ascii::{COLON, CR, DOLLAR, LF, MINUS, ONE, PLUS, STAR};
use crate::decode::{
    first_crlf, is_crlf_at, lemma_first_crlf_is, parse, parse_items, parse_length, DecodeError,
    Length,
};
use crate::digits::{
    all_digits, decimal, is_digit, lemma_decimal_value, lemma_signed_decimal_value,
    signed_decimal,
};
use crate::encode::{crlf, wire, wire_all};
use crate::value::{no_crlf, Resp};
use vstd::prelude::*;

verus! {

/// A line without a terminator inside it, followed by the terminator, ends
/// at that terminator, whatever comes after.
pub proof fn lemma_line_end(line: Seq<u8>, rest: Seq<u8>)
    requires
        no_crlf(line),
    ensures
        first_crlf(line + crlf() + rest) == Some(line.len() as int),
{
    let s = line + crlf() + rest;
    let n = line.len() as int;
    assert(s[n] == CR);
    assert(s[n + 1] == LF);
    assert forall|j: int| 0 <= j < n implies !is_crlf_at(s, j) by {
        assert(s[j] == line[j]);
        if j + 1 < n {
            assert(s[j + 1] == line[j + 1]);
        }
    }
    lemma_first_crlf_is(s, n);
}

/// A run of digits has no line terminator inside it.
proof fn lemma_digits_no_crlf(s: Seq<u8>)
    requires
        all_digits(s),
    ensures
        no_crlf(s),
{
    assert forall|i: int| 0 <= i && i + 1 < s.len() implies !(s[i] == CR && #[trigger] s[i + 1]
        == LF) by {
        assert(is_digit(s[i + 1]));
    }
}

/// The text of a signed integer has no line terminator inside it.
proof fn lemma_signed_no_crlf(n: int)
    ensures
        no_crlf(signed_decimal(n)),
{
    let s = signed_decimal(n);
    if n < 0 {
        let d = decimal((-n) as nat);
        lemma_decimal_value((-n) as nat);
        assert forall|i: int| 0 <= i && i + 1 < s.len() implies !(s[i] == CR && #[trigger] s[i
            + 1] == LF) by {
            assert(s[i + 1] == d[i]);
            assert(is_digit(d[i]));
        }
    } else {
        lemma_decimal_value(n as nat);
        lemma_digits_no_crlf(s);
    }
}

/// The shortest decimal text of a 64-bit number declares that number as a
/// length.
pub proof fn lemma_length_of_decimal(n: nat)
    requires
        n <= u64::MAX,
    ensures
        parse_length(decimal(n)) == Some(Length::Of(n as u64)),
{
    lemma_decimal_value(n);
    let s = decimal(n);
    assert(is_digit(s[0]));
    assert(s != seq![MINUS, ONE]);
}

/// Where the line of a framed value ends and what follows it: for bytes
/// made of a kind byte, a line without a terminator inside, the
/// terminator, and a tail.
proof fn lemma_header(s: Seq<u8>, kind: u8, text: Seq<u8>, tail: Seq<u8>)
    requires
        no_crlf(text),
        s =~= seq![kind] + text + crlf() + tail,
    ensures
        s.len() == text.len() + 3 + tail.len(),
        s[0] == kind,
        first_crlf(s.skip(1)) == Some(text.len() as int),
        s.subrange(1, 1 + text.len() as int) == text,
        s.skip(text.len() as int + 3) == tail,
{
    lemma_line_end(text, tail);
    assert(s.skip(1) =~= text + crlf() + tail);
    assert(s.subrange(1, 1 + text.len() as int) =~= text);
    assert(s.skip(text.len() as int + 3) =~= tail);
}

/// Round trip for the values that are one line.
proof fn lemma_parse_wire_line(value: Resp, rest: Seq<u8>)
    requires
        value.well_formed(),
        !(value is Array),
        !(value is BulkString && value->BulkString_0 is Some),
    ensures
        parse(wire(value) + rest) == Ok::<_, DecodeError>((value, wire(value).len())),
{
    let s = wire(value) + rest;
    match value {
        Resp::SimpleString(text) => {
            lemma_header(s, PLUS, text, rest);
        },
        Resp::Error(text) => {
            lemma_header(s, MINUS, text, rest);
        },
        Resp::Integer(n) => {
            lemma_signed_no_crlf(n);
            lemma_signed_decimal_value(n);
            lemma_header(s, COLON, signed_decimal(n), rest);
        },
        Resp::BulkString(_) => {
            let text = seq![MINUS, ONE];
            assert(no_crlf(text));
            lemma_header(s, DOLLAR, text, rest);
        },
        _ => {
            let text = seq![MINUS, ONE];
            assert(no_crlf(text));
            lemma_header(s, STAR, text, rest);
        },
    }
}

/// Round trip for a bulk string that holds bytes.
proof fn lemma_parse_wire_bulk(bytes: Seq<u8>, rest: Seq<u8>)
    requires
        bytes.len() <= u64::MAX,
    ensures
        parse(wire(Resp::BulkString(Some(bytes))) + rest) == Ok::<_, DecodeError>(
            (Resp::BulkString(Some(bytes)), wire(Resp::BulkString(Some(bytes))).len()),
        ),
{
    let value = Resp::BulkString(Some(bytes));
    let s = wire(value) + rest;
    let text = decimal(bytes.len());
    lemma_decimal_value(bytes.len());
    lemma_digits_no_crlf(text);
    lemma_length_of_decimal(bytes.len());
    let tail = bytes + crlf() + rest;
    lemma_header(s, DOLLAR, text, tail);
    let after: int = text.len() as int + 3;
    assert(s.subrange(after, after + bytes.len()) =~= bytes);
    assert(s[after + bytes.len()] == CR);
    assert(s[after + bytes.len() + 1] == LF);
}

/// Round trip: reading the wire bytes of a well-formed value gives the
/// value back and takes exactly those bytes, whatever follows them.
pub proof fn lemma_parse_wire(value: Resp, rest: Seq<u8>)
    requires
        value.well_formed(),
    ensures
        parse(wire(value) + rest) == Ok::<_, DecodeError>((value, wire(value).len())),
    decreases value,
{
    match value {
        Resp::BulkString(Some(bytes)) => {
            lemma_parse_wire_bulk(bytes, rest);
        },
        Resp::Array(items) => {
            let s = wire(value) + rest;
            let text = decimal(items.len());
            lemma_decimal_value(items.len());
            lemma_digits_no_crlf(text);
            lemma_length_of_decimal(items.len());
            let tail = wire_all(items) + rest;
            lemma_header(s, STAR, text, tail);
            lemma_parse_wire_all(items, rest);
        },
        _ => {
            lemma_parse_wire_line(value, rest);
        },
    }
}

/// Round trip for the items of an array: reading as many values as were
/// written gives them back, in order.
pub proof fn lemma_parse_wire_all(items: Seq<Resp>, rest: Seq<u8>)
    requires
        forall|i: int| 0 <= i < items.len() ==> (#[trigger] items[i]).well_formed(),
    ensures
        parse_items(wire_all(items) + rest, items.len()) == Ok::<_, DecodeError>(
            (items, wire_all(items).len()),
        ),
    decreases items,
{
    let s = wire_all(items) + rest;
    if items.len() == 0 {
        assert(items =~= Seq::<Resp>::empty());
    } else {
        let first = items[0];
        let others = items.skip(1);
        let tail = wire_all(others) + rest;
        assert(s =~= wire(first) + tail);
        lemma_parse_wire(first, tail);
        assert(s.skip(wire(first).len() as int) =~= tail);
        assert forall|i: int| 0 <= i < others.len() implies (#[trigger] others[i]).well_formed() by {
            assert(others[i] == items[i + 1]);
        }
        lemma_parse_wire_all(others, rest);
        assert(seq![first] + others =~= items);
    }
}

/// Round trip with nothing after the value: reading the wire bytes of a
/// well-formed value gives the value and their full length.
pub proof fn lemma_decode_encode(value: Resp)
    requires
        value.well_formed(),
    ensures
        parse(wire(value)) == Ok::<_, DecodeError>((value, wire(value).len())),
{
    lemma_parse_wire(value, Seq::empty());
    assert(wire(value) + Seq::<u8>::empty() =~= wire(value));
}

/// Two well-formed values with the same wire bytes are the same value. So
/// the null bulk string and the empty one, both well formed and not the
/// same, are never written alike.
pub proof fn lemma_wire_injective(a: Resp, b: Resp)
    requires
        a.well_formed(),
        b.well_formed(),
        wire(a) == wire(b),
    ensures
        a == b,
{
    lemma_decode_encode(a);
    lemma_decode_encode(b);
}

} // verus!
