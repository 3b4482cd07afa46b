//! The protocol's values and their mathematical model.

use crate::ascii::{CR, LF};
use crate::bytes::copy_all;
use vstd::prelude::*;

verus! {

/// The payload of a bulk string: bytes of any kind, or the protocol's
/// "no value" marker. An empty payload is a value; the marker is none.
#[derive(Clone, Debug, PartialEq, Eq)]
pub enum BulkEnumerator {
    Value(Vec<u8>),
    Null,
}

/// One value of the wire protocol.
///
/// The text of a simple string or an error is held as its bytes.
#[derive(Debug, PartialEq, Eq)]
pub enum RESPValue {
    SimpleString(Vec<u8>),
    Error(Vec<u8>),
    Integer(i64),
    BulkString(BulkEnumerator),
    Array(Vec<RESPValue>),
    NullArray,
}

/// The model of a protocol value: sequences for bytes and items, a
/// mathematical integer, `None` for the null bulk string.
pub enum Resp {
    SimpleString(Seq<u8>),
    Error(Seq<u8>),
    Integer(int),
    BulkString(Option<Seq<u8>>),
    Array(Seq<Resp>),
    NullArray,
}

impl View for BulkEnumerator {
    type V = Option<Seq<u8>>;

    open spec fn view(&self) -> Option<Seq<u8>> {
        match self {
            BulkEnumerator::Value(bytes) => Some(bytes@),
            BulkEnumerator::Null => None,
        }
    }
}

/// The model of a protocol value.
pub open spec fn model_of(value: RESPValue) -> Resp
    decreases value,
{
    match value {
        RESPValue::SimpleString(text) => Resp::SimpleString(text@),
        RESPValue::Error(text) => Resp::Error(text@),
        RESPValue::Integer(n) => Resp::Integer(n as int),
        RESPValue::BulkString(payload) => Resp::BulkString(payload@),
        RESPValue::Array(items) => Resp::Array(
            Seq::new(
                items@.len(),
                |i: int|
                    if 0 <= i < items@.len() {
                        model_of(items@[i])
                    } else {
                        Resp::NullArray
                    },
            ),
        ),
        RESPValue::NullArray => Resp::NullArray,
    }
}

impl View for RESPValue {
    type V = Resp;

    open spec fn view(&self) -> Resp {
        model_of(*self)
    }
}

/// The models of the items of `items`, in order.
pub open spec fn items_view(items: Seq<RESPValue>) -> Seq<Resp> {
    Seq::new(items.len(), |i: int| items[i]@)
}

/// The model of an array is the array of its items' models.
pub proof fn lemma_array_view(items: Vec<RESPValue>)
    ensures
        RESPValue::Array(items)@ == Resp::Array(items_view(items@)),
{
    let whole = RESPValue::Array(items)@;
    assert(whole is Array);
    let got = whole->Array_0;
    assert(got.len() == items@.len());
    assert forall|i: int| 0 <= i < got.len() implies got[i] == items@[i]@ by {
    }
    assert(got =~= items_view(items@));
}

/// Whether a line of text has no line terminator inside it.
pub open spec fn no_crlf(text: Seq<u8>) -> bool {
    forall|i: int| 0 <= i && i + 1 < text.len() ==> !(text[i] == CR && #[trigger] text[i + 1] == LF)
}

impl Resp {
    /// Whether the value can be written to the wire and read back: its
    /// lines hold no line terminator, its integers fit in 64 bits, and its
    /// lengths and counts fit in 64 bits.
    pub open spec fn well_formed(self) -> bool
        decreases self,
    {
        match self {
            Resp::SimpleString(text) => no_crlf(text),
            Resp::Error(text) => no_crlf(text),
            Resp::Integer(n) => i64::MIN <= n <= i64::MAX,
            Resp::BulkString(Some(bytes)) => bytes.len() <= u64::MAX,
            Resp::BulkString(None) => true,
            Resp::Array(items) => items.len() <= u64::MAX && forall|i: int|
                0 <= i < items.len() ==> (#[trigger] items[i]).well_formed(),
            Resp::NullArray => true,
        }
    }
}

impl Clone for RESPValue {
    /// A copy with the same model.
    fn clone(&self) -> (r: Self)
        ensures
            r@ == self@,
        decreases self,
    {
        match self {
            RESPValue::SimpleString(text) => RESPValue::SimpleString(copy_all(text.as_slice())),
            RESPValue::Error(text) => RESPValue::Error(copy_all(text.as_slice())),
            RESPValue::Integer(n) => RESPValue::Integer(*n),
            RESPValue::BulkString(BulkEnumerator::Value(bytes)) => RESPValue::BulkString(
                BulkEnumerator::Value(copy_all(bytes.as_slice())),
            ),
            RESPValue::BulkString(BulkEnumerator::Null) => RESPValue::BulkString(
                BulkEnumerator::Null,
            ),
            RESPValue::Array(items) => {
                let mut copies: Vec<RESPValue> = Vec::new();
                let mut i: usize = 0;
                while i < items.len()
                    invariant
                        i <= items.len(),
                        copies@.len() == i,
                        forall|j: int| 0 <= j < i ==> copies@[j]@ == items@[j]@,
                        decreases_to!(self => items),
                    decreases items.len() - i,
                {
                    let copy = items[i].clone();
                    copies.push(copy);
                    i = i + 1;
                }
                proof {
                    lemma_array_view(*items);
                    lemma_array_view(copies);
                    assert(items_view(copies@) =~= items_view(items@));
                }
                RESPValue::Array(copies)
            },
            RESPValue::NullArray => RESPValue::NullArray,
        }
    }
}

} // verus!
