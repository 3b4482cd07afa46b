//! Reading one protocol value from the front of a buffer.

use crate::ascii::{COLON, CR, DOLLAR, LF, MINUS, ONE, PLUS, STAR};
use crate::bytes::copy_range;
use crate::digits::{parse_signed, parse_unsigned, read_signed, read_unsigned};
use crate::value::{items_view, lemma_array_view, no_crlf, BulkEnumerator, RESPValue, Resp};
use vstd::prelude::*;

verus! {

/// Why a buffer does not start with a protocol value.
///
/// `Incomplete` says that the buffer ends too early and more bytes may
/// complete it; every other error says that the bytes at hand are wrong,
/// whatever follows them.
#[derive(Clone, Copy, Debug, PartialEq, Eq)]
pub enum DecodeError {
    /// The buffer is empty, a line has no terminator yet, a bulk string
    /// has fewer bytes than it declares, or an array fewer items.
    Incomplete,
    /// The first byte is none of `+`, `-`, `:`, `$`, `*`.
    InvalidPrefix,
    /// The line after `:` is no signed 64-bit decimal integer.
    InvalidInteger,
    /// The line after `$` or `*` is neither `-1` nor a run of digits that
    /// fits in 64 bits.
    InvalidLength,
    /// The declared bytes of a bulk string are not followed by the line
    /// terminator.
    MissingTerminator,
}

/// What the line after `$` or `*` declares.
#[derive(Clone, Copy, Debug, PartialEq, Eq)]
pub enum Length {
    /// The sentinel `-1`: the null bulk string or the null array.
    Absent,
    /// A number of bytes or of items.
    Of(u64),
}

/// Whether the line terminator stands at index `i` of `s`.
pub open spec fn is_crlf_at(s: Seq<u8>, i: int) -> bool {
    0 <= i && i + 1 < s.len() && s[i] == CR && s[i + 1] == LF
}

/// The index of the first line terminator in `s`, if there is one.
pub open spec fn first_crlf(s: Seq<u8>) -> Option<int>
    decreases s.len(),
{
    if s.len() < 2 {
        None
    } else if s[0] == CR && s[1] == LF {
        Some(0)
    } else {
        match first_crlf(s.skip(1)) {
            Some(i) => Some(i + 1),
            None => None,
        }
    }
}

/// `first_crlf` gives the least index at which a terminator stands, and
/// `None` exactly when none stands anywhere.
pub proof fn lemma_first_crlf(s: Seq<u8>)
    ensures
        match first_crlf(s) {
            Some(i) => is_crlf_at(s, i) && forall|j: int|
                0 <= j < i ==> !is_crlf_at(s, j),
            None => forall|j: int| !is_crlf_at(s, j),
        },
    decreases s.len(),
{
    if s.len() < 2 {
    } else if s[0] == CR && s[1] == LF {
    } else {
        let t = s.skip(1);
        lemma_first_crlf(t);
        assert forall|j: int| is_crlf_at(s, j) implies j >= 1 && is_crlf_at(t, j - 1) by {
            assert(j != 0);
            assert(t[j - 1] == s[j]);
            assert(t[j] == s[j + 1]);
        }
        match first_crlf(t) {
            Some(i) => {
                assert(t[i] == s[i + 1]);
                assert(t[i + 1] == s[i + 2]);
            },
            None => {},
        }
    }
}

/// The index of the first terminator is the only one with a terminator at
/// it and none before it.
pub proof fn lemma_first_crlf_is(s: Seq<u8>, i: int)
    requires
        is_crlf_at(s, i),
        forall|j: int| 0 <= j < i ==> !is_crlf_at(s, j),
    ensures
        first_crlf(s) == Some(i),
{
    lemma_first_crlf(s);
    match first_crlf(s) {
        Some(k) => {
            if k < i {
                assert(!is_crlf_at(s, k));
            }
        },
        None => {
            assert(!is_crlf_at(s, i));
        },
    }
}

/// What a line declares as a length: `-1` for the absent value, or digits
/// only, their value within 64 bits. A sign before digits, a space or an
/// empty line declare nothing.
pub open spec fn parse_length(line: Seq<u8>) -> Option<Length> {
    if line == seq![MINUS, ONE] {
        Some(Length::Absent)
    } else {
        match parse_unsigned(line, u64::MAX as nat) {
            Some(n) => Some(Length::Of(n as u64)),
            None => None,
        }
    }
}

/// The value at the front of `s` and the number of bytes it takes, or the
/// reason why there is none.
///
/// The first byte picks the kind. The line that follows runs up to the
/// first terminator. A bulk string then takes as many bytes as its line
/// declares, of any kind, and a terminator; an array takes as many values
/// as its line declares, the first failure among them failing the array.
pub open spec fn parse(s: Seq<u8>) -> Result<(Resp, nat), DecodeError>
    decreases s.len(), 0nat,
{
    if s.len() == 0 {
        Err(DecodeError::Incomplete)
    } else if !(s[0] == PLUS || s[0] == MINUS || s[0] == COLON || s[0] == DOLLAR || s[0] == STAR) {
        Err(DecodeError::InvalidPrefix)
    } else {
        match first_crlf(s.skip(1)) {
            None => Err(DecodeError::Incomplete),
            Some(end) => {
                let line = s.subrange(1, 1 + end);
                let after = (end + 3) as nat;
                if s[0] == PLUS {
                    Ok((Resp::SimpleString(line), after))
                } else if s[0] == MINUS {
                    Ok((Resp::Error(line), after))
                } else if s[0] == COLON {
                    match parse_signed(line) {
                        Some(n) => Ok((Resp::Integer(n), after)),
                        None => Err(DecodeError::InvalidInteger),
                    }
                } else if s[0] == DOLLAR {
                    match parse_length(line) {
                        None => Err(DecodeError::InvalidLength),
                        Some(Length::Absent) => Ok((Resp::BulkString(None), after)),
                        Some(Length::Of(n)) => {
                            if s.len() < after + n + 2 {
                                Err(DecodeError::Incomplete)
                            } else if !is_crlf_at(s, after + n) {
                                Err(DecodeError::MissingTerminator)
                            } else {
                                Ok(
                                    (
                                        Resp::BulkString(Some(s.subrange(after as int, after + n))),
                                        (after + n + 2) as nat,
                                    ),
                                )
                            }
                        },
                    }
                } else {
                    match parse_length(line) {
                        None => Err(DecodeError::InvalidLength),
                        Some(Length::Absent) => Ok((Resp::NullArray, after)),
                        Some(Length::Of(n)) => {
                            proof {
                                lemma_first_crlf(s.skip(1));
                            }
                            match parse_items(s.skip(after as int), n as nat) {
                                Ok((items, used)) => Ok((Resp::Array(items), after + used)),
                                Err(e) => Err(e),
                            }
                        },
                    }
                }
            },
        }
    }
}

/// The first `count` values at the front of `s`, one after another, and
/// the number of bytes they take together.
///
/// No value takes more bytes than there are (`lemma_parse_bounds`); the
/// test for it makes the definition well-founded and is never met.
pub open spec fn parse_items(s: Seq<u8>, count: nat) -> Result<(Seq<Resp>, nat), DecodeError>
    decreases s.len(), count + 1,
{
    if count == 0 {
        Ok((Seq::empty(), 0))
    } else {
        match parse(s) {
            Err(e) => Err(e),
            Ok((first, used)) => {
                if used > s.len() {
                    Err(DecodeError::Incomplete)
                } else {
                    match parse_items(s.skip(used as int), (count - 1) as nat) {
                        Err(e) => Err(e),
                        Ok((rest, more)) => Ok((seq![first] + rest, used + more)),
                    }
                }
            },
        }
    }
}

/// A value that was read takes at least one byte and no more than there
/// are, and can be written back: it is well formed.
pub proof fn lemma_parse_bounds(s: Seq<u8>)
    ensures
        match parse(s) {
            Ok((value, used)) => 0 < used <= s.len() && value.well_formed(),
            Err(_) => true,
        },
    decreases s.len(), 0nat,
{
    if s.len() > 0 && (s[0] == PLUS || s[0] == MINUS || s[0] == COLON || s[0] == DOLLAR || s[0] == STAR) {
        let tail = s.skip(1);
        lemma_first_crlf(tail);
        match first_crlf(tail) {
            None => {},
            Some(end) => {
                let line = s.subrange(1, 1 + end);
                let after = (end + 3) as nat;
                assert forall|i: int| 0 <= i && i + 1 < line.len() implies !(line[i] == CR
                    && #[trigger] line[i + 1] == LF) by {
                    assert(!is_crlf_at(tail, i));
                    assert(tail[i] == line[i]);
                    assert(tail[i + 1] == line[i + 1]);
                }
                assert(no_crlf(line));
                if s[0] == STAR {
                    match parse_length(line) {
                        Some(Length::Of(n)) => {
                            lemma_parse_items_bounds(s.skip(after as int), n as nat);
                        },
                        _ => {},
                    }
                }
            },
        }
    }
}

/// The values read for an array are as many as were asked for, each well
/// formed, and take no more bytes than there are.
pub proof fn lemma_parse_items_bounds(s: Seq<u8>, count: nat)
    ensures
        match parse_items(s, count) {
            Ok((items, used)) => {
                &&& used <= s.len()
                &&& items.len() == count
                &&& forall|i: int| 0 <= i < items.len() ==> (#[trigger] items[i]).well_formed()
            },
            Err(_) => true,
        },
    decreases s.len(), count + 1,
{
    if count > 0 {
        lemma_parse_bounds(s);
        match parse(s) {
            Err(_) => {},
            Ok((first, used)) => {
                lemma_parse_items_bounds(s.skip(used as int), (count - 1) as nat);
            },
        }
    }
}

/// More bytes after a line terminator do not move it: the first
/// terminator of a run of bytes is the first one of every longer run that
/// starts with it.
pub proof fn lemma_first_crlf_extends(s: Seq<u8>, more: Seq<u8>)
    requires
        first_crlf(s) is Some,
    ensures
        first_crlf(s + more) == first_crlf(s),
{
    lemma_first_crlf(s);
    let i = first_crlf(s)->Some_0;
    let longer = s + more;
    assert(longer[i] == s[i]);
    assert(longer[i + 1] == s[i + 1]);
    assert forall|j: int| 0 <= j < i implies !is_crlf_at(longer, j) by {
        assert(!is_crlf_at(s, j));
        assert(longer[j] == s[j]);
        assert(longer[j + 1] == s[j + 1]);
    }
    lemma_first_crlf_is(longer, i);
}

/// More bytes change no answer but `Incomplete`: a value that was read is
/// read again, with the same count, from every longer buffer that starts
/// with the same bytes, and so is every error that says the bytes are
/// wrong. So a caller that gets `Incomplete` may read on, and a caller
/// that gets another error need not.
pub proof fn lemma_parse_extends(s: Seq<u8>, more: Seq<u8>)
    ensures
        match parse(s) {
            Ok(read) => parse(s + more) == Ok::<(Resp, nat), DecodeError>(read),
            Err(DecodeError::Incomplete) => true,
            Err(e) => parse(s + more) == Err::<(Resp, nat), DecodeError>(e),
        },
    decreases s.len(), 0nat,
{
    let longer = s + more;
    if s.len() > 0 {
        assert(longer[0] == s[0]);
        let tail = s.skip(1);
        assert(longer.skip(1) =~= tail + more);
        if (s[0] == PLUS || s[0] == MINUS || s[0] == COLON || s[0] == DOLLAR || s[0] == STAR)
            && first_crlf(tail) is Some {
            lemma_first_crlf(tail);
            lemma_first_crlf_extends(tail, more);
            let end = first_crlf(tail)->Some_0;
            let after = (end + 3) as nat;
            let line = s.subrange(1, 1 + end);
            assert(longer.subrange(1, 1 + end) =~= line);
            if s[0] == DOLLAR {
                match parse_length(line) {
                    Some(Length::Of(n)) => {
                        if s.len() >= after + n + 2 {
                            assert(longer[after + n] == s[after + n]);
                            assert(longer[after + n + 1] == s[after + n + 1]);
                            assert(longer.subrange(after as int, after + n) =~= s.subrange(
                                after as int,
                                after + n,
                            ));
                        }
                    },
                    _ => {},
                }
            } else if s[0] == STAR {
                match parse_length(line) {
                    Some(Length::Of(n)) => {
                        assert(longer.skip(after as int) =~= s.skip(after as int) + more);
                        lemma_parse_items_extends(s.skip(after as int), n as nat, more);
                    },
                    _ => {},
                }
            }
        }
    }
}

/// More bytes change no answer but `Incomplete` for the items of an array
/// either.
pub proof fn lemma_parse_items_extends(s: Seq<u8>, count: nat, more: Seq<u8>)
    ensures
        match parse_items(s, count) {
            Ok(read) => parse_items(s + more, count) == Ok::<(Seq<Resp>, nat), DecodeError>(read),
            Err(DecodeError::Incomplete) => true,
            Err(e) => parse_items(s + more, count) == Err::<(Seq<Resp>, nat), DecodeError>(e),
        },
    decreases s.len(), count + 1,
{
    if count > 0 {
        lemma_parse_extends(s, more);
        lemma_parse_bounds(s);
        match parse(s) {
            Err(_) => {},
            Ok((first, used)) => {
                assert((s + more).skip(used as int) =~= s.skip(used as int) + more);
                lemma_parse_items_extends(s.skip(used as int), (count - 1) as nat, more);
            },
        }
    }
}

/// The index of the first line terminator at or after `from`.
fn find_crlf(buf: &[u8], from: usize) -> (r: Option<usize>)
    requires
        from <= buf.len(),
    ensures
        match r {
            Some(i) => from <= i && i + 1 < buf.len() && first_crlf(buf@.skip(from as int))
                == Some(i - from),
            None => first_crlf(buf@.skip(from as int)) is None,
        },
{
    let ghost tail = buf@.skip(from as int);
    let mut i: usize = from;
    while i < buf.len() && i + 1 < buf.len()
        invariant
            from <= i <= buf.len(),
            tail == buf@.skip(from as int),
            forall|j: int| 0 <= j < i - from ==> !is_crlf_at(tail, j),
        decreases buf.len() - i,
    {
        if buf[i] == CR && buf[i + 1] == LF {
            proof {
                assert(tail[i - from] == buf@[i as int]);
                assert(tail[i - from + 1] == buf@[i + 1]);
                lemma_first_crlf_is(tail, i - from);
            }
            return Some(i);
        }
        proof {
            assert(tail[i - from] == buf@[i as int]);
            assert(tail[i - from + 1] == buf@[i + 1]);
        }
        i = i + 1;
    }
    proof {
        lemma_first_crlf(tail);
        match first_crlf(tail) {
            Some(k) => {
                assert(is_crlf_at(tail, k));
                assert(!is_crlf_at(tail, k));
            },
            None => {},
        }
    }
    None
}

/// What `buf[start..end]` declares as a length.
fn read_length(buf: &[u8], start: usize, end: usize) -> (r: Option<Length>)
    requires
        start <= end <= buf.len(),
    ensures
        r == parse_length(buf@.subrange(start as int, end as int)),
{
    let ghost line = buf@.subrange(start as int, end as int);
    if end - start == 2 && buf[start] == MINUS && buf[start + 1] == ONE {
        assert(line =~= seq![MINUS, ONE]);
        return Some(Length::Absent);
    }
    proof {
        if line == seq![MINUS, ONE] {
            assert(line.len() == 2);
            assert(line[0] == MINUS);
            assert(line[1] == ONE);
        }
    }
    match read_unsigned(buf, start, end, 0xffff_ffff_ffff_ffff) {
        Some(n) => Some(Length::Of(n as u64)),
        None => None,
    }
}

/// A result for `count` values, told from the values already read, the
/// bytes they took, and the result for the values still to come.
spec fn with_items_before(
    done: Seq<Resp>,
    used: nat,
    rest: Result<(Seq<Resp>, nat), DecodeError>,
) -> Result<(Seq<Resp>, nat), DecodeError> {
    match rest {
        Ok((items, more)) => Ok((done + items, used + more)),
        Err(e) => Err(e),
    }
}

/// What an array is read as, told from the bytes of its header and from
/// the result for its items.
spec fn array_of(header: nat, items: Result<(Seq<Resp>, nat), DecodeError>) -> Result<
    (Resp, nat),
    DecodeError,
> {
    match items {
        Ok((items, used)) => Ok((Resp::Array(items), header + used)),
        Err(e) => Err(e),
    }
}

/// Reads the value that starts at index `pos` of `buf`; the count returned
/// is of the bytes from `pos` on.
fn decode_at(buf: &[u8], pos: usize) -> (r: Result<(RESPValue, usize), DecodeError>)
    requires
        pos <= buf.len(),
    ensures
        match r {
            Ok((value, used)) => parse(buf@.skip(pos as int)) == Ok::<_, DecodeError>(
                (value@, used as nat),
            ) && pos + used <= buf.len(),
            Err(e) => parse(buf@.skip(pos as int)) == Err::<(Resp, nat), _>(e),
        },
    decreases buf.len() - pos,
{
    let ghost s = buf@.skip(pos as int);
    if pos == buf.len() {
        return Err(DecodeError::Incomplete);
    }
    let kind: u8 = buf[pos];
    assert(s[0] == kind);
    if !(kind == PLUS || kind == MINUS || kind == COLON || kind == DOLLAR || kind == STAR) {
        return Err(DecodeError::InvalidPrefix);
    }
    proof {
        assert(s.skip(1) =~= buf@.skip(pos + 1));
    }
    let line_end: usize = match find_crlf(buf, pos + 1) {
        None => {
            return Err(DecodeError::Incomplete);
        },
        Some(i) => i,
    };
    let ghost end: int = line_end - pos - 1;
    let ghost line = s.subrange(1, 1 + end);
    let ghost after = (end + 3) as nat;
    let body: usize = line_end + 2;
    proof {
        assert(line =~= buf@.subrange(pos + 1, line_end as int));
        assert(body == pos + after);
    }
    if kind == PLUS {
        let text = copy_range(buf, pos + 1, line_end);
        Ok((RESPValue::SimpleString(text), body - pos))
    } else if kind == MINUS {
        let text = copy_range(buf, pos + 1, line_end);
        Ok((RESPValue::Error(text), body - pos))
    } else if kind == COLON {
        let text = vstd::slice::slice_subrange(buf, pos + 1, line_end);
        match read_signed(text) {
            Some(n) => Ok((RESPValue::Integer(n), body - pos)),
            None => Err(DecodeError::InvalidInteger),
        }
    } else if kind == DOLLAR {
        match read_length(buf, pos + 1, line_end) {
            None => Err(DecodeError::InvalidLength),
            Some(Length::Absent) => Ok((RESPValue::BulkString(BulkEnumerator::Null), body - pos)),
            Some(Length::Of(n)) => {
                if ((buf.len() - body) as u128) < n as u128 + 2 {
                    return Err(DecodeError::Incomplete);
                }
                let stop: usize = body + n as usize;
                proof {
                    assert(s[after + n] == buf@[stop as int]);
                    assert(s[after + n + 1] == buf@[stop + 1]);
                }
                if !(buf[stop] == CR && buf[stop + 1] == LF) {
                    return Err(DecodeError::MissingTerminator);
                }
                let bytes = copy_range(buf, body, stop);
                proof {
                    assert(bytes@ =~= s.subrange(after as int, after + n));
                }
                Ok((RESPValue::BulkString(BulkEnumerator::Value(bytes)), stop + 2 - pos))
            },
        }
    } else {
        match read_length(buf, pos + 1, line_end) {
            None => Err(DecodeError::InvalidLength),
            Some(Length::Absent) => Ok((RESPValue::NullArray, body - pos)),
            Some(Length::Of(n)) => {
                let ghost start = s.skip(after as int);
                let mut items: Vec<RESPValue> = Vec::new();
                let mut at: usize = body;
                let mut k: u64 = 0;
                proof {
                    assert(start =~= buf@.skip(body as int));
                    assert(items_view(items@) =~= Seq::<Resp>::empty());
                    assert(parse(s) == array_of(after, parse_items(start, n as nat)));
                    let whole = parse_items(start, n as nat);
                    match whole {
                        Ok((all, used)) => {
                            assert(Seq::<Resp>::empty() + all =~= all);
                        },
                        Err(_) => {},
                    }
                }
                while k < n
                    invariant
                        k <= n,
                        pos < body <= at <= buf.len(),
                        start == buf@.skip(body as int),
                        s == buf@.skip(pos as int),
                        body == pos + after,
                        parse(s) == array_of(after, parse_items(start, n as nat)),
                        parse_items(start, n as nat) == with_items_before(
                            items_view(items@),
                            (at - body) as nat,
                            parse_items(buf@.skip(at as int), (n - k) as nat),
                        ),
                    decreases n - k,
                {
                    let ghost here = buf@.skip(at as int);
                    let ghost done = items_view(items@);
                    proof {
                        lemma_parse_bounds(here);
                    }
                    match decode_at(buf, at) {
                        Err(e) => {
                            return Err(e);
                        },
                        Ok((value, used)) => {
                            proof {
                                assert(here.skip(used as int) =~= buf@.skip(at + used));
                                let later = parse_items(
                                    buf@.skip(at + used),
                                    (n - k - 1) as nat,
                                );
                                assert(items_view(items@.push(value)) =~= done.push(value@));
                                match later {
                                    Ok((rest, more)) => {
                                        assert(done + (seq![value@] + rest) =~= done.push(value@)
                                            + rest);
                                    },
                                    Err(_) => {},
                                }
                            }
                            items.push(value);
                            at = at + used;
                            k = k + 1;
                        },
                    }
                }
                proof {
                    lemma_array_view(items);
                    assert(items_view(items@) + Seq::<Resp>::empty() =~= items_view(items@));
                }
                Ok((RESPValue::Array(items), at - pos))
            },
        }
    }
}

/// Reads one value from the front of `buf`.
///
/// Returns the value and the number of bytes it took, or the reason why
/// the buffer does not start with a value. Bytes after the value are left
/// alone. No input makes it fail in any other way.
pub fn get_resp_value(buf: &[u8]) -> (r: Result<(RESPValue, usize), DecodeError>)
    ensures
        match r {
            Ok((value, used)) => parse(buf@) == Ok::<_, DecodeError>((value@, used as nat))
                && 0 < used <= buf.len() && value@.well_formed(),
            Err(e) => parse(buf@) == Err::<(Resp, nat), _>(e),
        },
{
    proof {
        assert(buf@.skip(0) =~= buf@);
        lemma_parse_bounds(buf@);
    }
    decode_at(buf, 0)
}

} // verus!
