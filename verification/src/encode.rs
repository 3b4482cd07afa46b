//! Writing protocol values as their exact wire bytes.

use crate::ascii::{COLON, CR, DOLLAR, LF, MINUS, ONE, PLUS, STAR};
use crate::bytes::append;
use crate::digits::{decimal, signed_decimal, write_signed, write_unsigned};
use crate::value::{items_view, lemma_array_view, BulkEnumerator, RESPValue, Resp};
use vstd::prelude::*;

verus! {

/// The line terminator: carriage return, line feed.
pub open spec fn crlf() -> Seq<u8> {
    seq![CR, LF]
}

/// The wire form of the null bulk string, `$-1` and the terminator.
pub open spec fn null_bulk_wire() -> Seq<u8> {
    seq![DOLLAR, MINUS, ONE, CR, LF]
}

/// The wire form of the null array, `*-1` and the terminator.
pub open spec fn null_array_wire() -> Seq<u8> {
    seq![STAR, MINUS, ONE, CR, LF]
}

/// The wire bytes of a value.
///
/// A simple string is `+`, the text and the terminator; an error the same
/// after `-`; an integer its shortest decimal text after `:`. A bulk string
/// is `$`, the number of its bytes, the terminator, the bytes and the
/// terminator again. An array is `*`, the number of its items, the
/// terminator, and then the items one after another.
pub open spec fn wire(value: Resp) -> Seq<u8>
    decreases value,
{
    match value {
        Resp::SimpleString(text) => seq![PLUS] + text + crlf(),
        Resp::Error(text) => seq![MINUS] + text + crlf(),
        Resp::Integer(n) => seq![COLON] + signed_decimal(n) + crlf(),
        Resp::BulkString(None) => null_bulk_wire(),
        Resp::BulkString(Some(bytes)) => seq![DOLLAR] + decimal(bytes.len()) + crlf() + bytes
            + crlf(),
        Resp::Array(items) => seq![STAR] + decimal(items.len()) + crlf() + wire_all(items),
        Resp::NullArray => null_array_wire(),
    }
}

/// The wire bytes of the items of a sequence, one after another.
pub open spec fn wire_all(items: Seq<Resp>) -> Seq<u8>
    decreases items,
{
    if items.len() == 0 {
        Seq::empty()
    } else {
        wire(items[0]) + wire_all(items.skip(1))
    }
}

/// The wire bytes of a sequence with one more item are those of the
/// sequence followed by those of the item.
pub proof fn lemma_wire_all_push(items: Seq<Resp>, last: Resp)
    ensures
        wire_all(items.push(last)) == wire_all(items) + wire(last),
    decreases items.len(),
{
    let longer = items.push(last);
    if items.len() == 0 {
        assert(longer.skip(1) =~= Seq::<Resp>::empty());
        assert(wire_all(longer.skip(1)) =~= Seq::<u8>::empty());
        assert(wire_all(longer) =~= wire(last));
        assert(wire_all(items) + wire(last) =~= wire(last));
    } else {
        lemma_wire_all_push(items.skip(1), last);
        assert(longer.skip(1) =~= items.skip(1).push(last));
        assert(longer[0] == items[0]);
        assert(wire_all(longer) =~= wire_all(items) + wire(last));
    }
}

/// Appends the line terminator to `out`.
fn write_crlf(out: &mut Vec<u8>)
    ensures
        final(out)@ == old(out)@ + crlf(),
{
    out.push(CR);
    out.push(LF);
    assert(out@ =~= old(out)@ + crlf());
}

/// Appends the wire bytes of `value` to `out`.
pub fn write_value(out: &mut Vec<u8>, value: &RESPValue)
    ensures
        final(out)@ == old(out)@ + wire(value@),
    decreases value,
{
    match value {
        RESPValue::SimpleString(text) => {
            out.push(PLUS);
            append(out, text.as_slice());
            write_crlf(out);
            assert(out@ =~= old(out)@ + wire(value@));
        },
        RESPValue::Error(text) => {
            out.push(MINUS);
            append(out, text.as_slice());
            write_crlf(out);
            assert(out@ =~= old(out)@ + wire(value@));
        },
        RESPValue::Integer(n) => {
            out.push(COLON);
            write_signed(out, *n);
            write_crlf(out);
            assert(out@ =~= old(out)@ + wire(value@));
        },
        RESPValue::BulkString(BulkEnumerator::Null) => {
            out.push(DOLLAR);
            out.push(MINUS);
            out.push(ONE);
            write_crlf(out);
            assert(out@ =~= old(out)@ + wire(value@));
        },
        RESPValue::BulkString(BulkEnumerator::Value(bytes)) => {
            out.push(DOLLAR);
            write_unsigned(out, bytes.len() as u128);
            write_crlf(out);
            append(out, bytes.as_slice());
            write_crlf(out);
            assert(out@ =~= old(out)@ + wire(value@));
        },
        RESPValue::Array(items) => {
            out.push(STAR);
            write_unsigned(out, items.len() as u128);
            write_crlf(out);
            let ghost head = out@;
            let ghost models = items_view(items@);
            proof {
                lemma_array_view(*items);
                assert(head =~= old(out)@ + (seq![STAR] + decimal(models.len()) + crlf()));
            }
            let mut i: usize = 0;
            while i < items.len()
                invariant
                    i <= items.len(),
                    models == items_view(items@),
                    out@ == head + wire_all(models.subrange(0, i as int)),
                    decreases_to!(value => items),
                decreases items.len() - i,
            {
                let ghost before = out@;
                write_value(out, &items[i]);
                proof {
                    let shorter = models.subrange(0, i as int);
                    lemma_wire_all_push(shorter, models[i as int]);
                    assert(models.subrange(0, i + 1) =~= shorter.push(models[i as int]));
                    assert(out@ =~= head + wire_all(models.subrange(0, i + 1)));
                }
                i = i + 1;
            }
            proof {
                assert(models.subrange(0, i as int) =~= models);
                assert(out@ =~= old(out)@ + wire(value@));
            }
        },
        RESPValue::NullArray => {
            out.push(STAR);
            out.push(MINUS);
            out.push(ONE);
            write_crlf(out);
            assert(out@ =~= old(out)@ + wire(value@));
        },
    }
}

/// The wire bytes of `value`: exact, and defined for every value.
pub fn encode_resp_value(value: &RESPValue) -> (bytes: Vec<u8>)
    ensures
        bytes@ == wire(value@),
{
    let mut out: Vec<u8> = Vec::new();
    write_value(&mut out, value);
    assert(out@ =~= wire(value@));
    out
}

} // verus!
