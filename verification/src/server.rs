//! The dispatcher: from a request and the store to a reply and the store
//! after it.
//!
//! The caller reads the bytes, tells the time and writes the reply back;
//! nothing here waits or blocks.

use crate::ascii::{CR, LF, PLUS};
use crate::bytes::copy_all;
use crate::command::{command_of, redis_command_parser, Command, RedisCommand};
use crate::decode::{get_resp_value, parse};
use crate::digits::{parse_unsigned, read_unsigned};
use crate::encode::{encode_resp_value, wire};
use crate::store::{insert_if_absent, lookup, Entry, Store};
use crate::value::{items_view, lemma_array_view, BulkEnumerator, RESPValue, Resp};
use vstd::prelude::*;

verus! {

/// The text `PONG`.
pub open spec fn text_pong() -> Seq<u8> {
    seq!['P' as u8, 'O' as u8, 'N' as u8, 'G' as u8]
}

/// The text `OK`.
pub open spec fn text_ok() -> Seq<u8> {
    seq!['O' as u8, 'K' as u8]
}

/// The text `role:master`, with a line terminator after it.
pub open spec fn text_role() -> Seq<u8> {
    seq![
        'r' as u8,
        'o' as u8,
        'l' as u8,
        'e' as u8,
        ':' as u8,
        'm' as u8,
        'a' as u8,
        's' as u8,
        't' as u8,
        'e' as u8,
        'r' as u8,
        CR,
        LF,
    ]
}

/// The text `ERR invalid command`.
pub open spec fn text_invalid_command() -> Seq<u8> {
    seq![
        'E' as u8,
        'R' as u8,
        'R' as u8,
        ' ' as u8,
        'i' as u8,
        'n' as u8,
        'v' as u8,
        'a' as u8,
        'l' as u8,
        'i' as u8,
        'd' as u8,
        ' ' as u8,
        'c' as u8,
        'o' as u8,
        'm' as u8,
        'm' as u8,
        'a' as u8,
        'n' as u8,
        'd' as u8,
    ]
}

/// The text `ERR invalid arguments`.
pub open spec fn text_invalid_arguments() -> Seq<u8> {
    seq![
        'E' as u8,
        'R' as u8,
        'R' as u8,
        ' ' as u8,
        'i' as u8,
        'n' as u8,
        'v' as u8,
        'a' as u8,
        'l' as u8,
        'i' as u8,
        'd' as u8,
        ' ' as u8,
        'a' as u8,
        'r' as u8,
        'g' as u8,
        'u' as u8,
        'm' as u8,
        'e' as u8,
        'n' as u8,
        't' as u8,
        's' as u8,
    ]
}

/// The reply to what is no command of this server.
pub open spec fn invalid_command() -> Resp {
    Resp::Error(text_invalid_command())
}

/// The reply to a known command with arguments of the wrong number or
/// kind.
pub open spec fn invalid_arguments() -> Resp {
    Resp::Error(text_invalid_arguments())
}

/// The bytes of a bulk string that holds bytes; `None` for every other
/// value, the null bulk string among them.
pub open spec fn bulk_bytes(value: Resp) -> Option<Seq<u8>> {
    match value {
        Resp::BulkString(Some(bytes)) => Some(bytes),
        _ => None,
    }
}

/// The time to live that a run of bytes states, in milliseconds: digits
/// only, or `+` and digits, their value within 128 bits.
pub open spec fn parse_ttl(text: Seq<u8>) -> Option<nat> {
    if text.len() > 0 && text[0] == PLUS {
        parse_unsigned(text.skip(1), u128::MAX as nat)
    } else {
        parse_unsigned(text, u128::MAX as nat)
    }
}

/// What a `SET` request asks to write.
pub struct Write {
    pub key: Seq<u8>,
    pub value: Seq<u8>,
    pub ttl_millis: Option<nat>,
}

impl Write {
    /// The entry that the write makes at the time `now`.
    pub open spec fn entry_at(self, now: nat) -> Entry {
        Entry { value: self.value, created_at: now, ttl_millis: self.ttl_millis }
    }
}

/// What the items of a `SET` request ask to write, the command token
/// first among them.
///
/// Two shapes are read. Three items: the command, a key and a value, both
/// bulk strings that hold bytes. Five items: the same three, a fourth
/// item of any kind, and a bulk string that states a time to live. Every
/// other number or kind of items asks for nothing.
pub open spec fn write_of(items: Seq<Resp>) -> Option<Write> {
    if items.len() == 3 {
        match (bulk_bytes(items[1]), bulk_bytes(items[2])) {
            (Some(key), Some(value)) => Some(Write { key, value, ttl_millis: None }),
            _ => None,
        }
    } else if items.len() == 5 {
        match (bulk_bytes(items[1]), bulk_bytes(items[2]), bulk_bytes(items[4])) {
            (Some(key), Some(value), Some(text)) => match parse_ttl(text) {
                Some(ttl) => Some(Write { key, value, ttl_millis: Some(ttl) }),
                None => None,
            },
            _ => None,
        }
    } else {
        None
    }
}

/// The command that a request names: `Some` where the request is an array
/// whose first item is a bulk string that holds bytes.
pub open spec fn command_in(request: Resp) -> Option<Command> {
    match request {
        Resp::Array(items) => if items.len() > 0 {
            match bulk_bytes(items[0]) {
                Some(token) => Some(command_of(token)),
                None => None,
            }
        } else {
            None
        },
        _ => None,
    }
}

/// The reply to `request` from a server that holds `db` at the time `now`.
///
/// `PING` is answered by the bulk string `PONG`, `INFO` by the server's
/// role, `ECHO` by its second item as it came. `SET` is answered by `OK`
/// where its items ask for a write, whether or not the key was free. `GET`
/// is answered by the bytes under its key, or by the null bulk string
/// where the key has none or they have expired. A known command with the
/// wrong arguments is answered by one error, and everything else, an
/// unknown command among it, by another.
pub open spec fn reply_to(db: Map<Seq<u8>, Entry>, request: Resp, now: nat) -> Resp {
    match command_in(request) {
        None => invalid_command(),
        Some(command) => {
            let items = request->Array_0;
            match command {
                Command::PING => Resp::BulkString(Some(text_pong())),
                Command::ECHO => if items.len() >= 2 {
                    items[1]
                } else {
                    invalid_arguments()
                },
                Command::SET => if write_of(items) is Some {
                    Resp::SimpleString(text_ok())
                } else {
                    invalid_arguments()
                },
                Command::GET => if items.len() >= 2 {
                    match bulk_bytes(items[1]) {
                        Some(key) => Resp::BulkString(lookup(db, key, now)),
                        None => invalid_arguments(),
                    }
                } else {
                    invalid_arguments()
                },
                Command::INFO => Resp::BulkString(Some(text_role())),
                Command::Unknown(_) => invalid_command(),
            }
        },
    }
}

/// What the server holds after `request` at the time `now`: a `SET` whose
/// items ask for a write adds its entry where the key is free, and nothing
/// else changes anything.
pub open spec fn store_after(db: Map<Seq<u8>, Entry>, request: Resp, now: nat) -> Map<
    Seq<u8>,
    Entry,
> {
    match command_in(request) {
        Some(Command::SET) => match write_of(request->Array_0) {
            Some(write) => insert_if_absent(db, write.key, write.entry_at(now)),
            None => db,
        },
        _ => db,
    }
}

/// The request that a buffer holds: the value at its front, if there is
/// one.
pub open spec fn request_in(buf: Seq<u8>) -> Option<Resp> {
    match parse(buf) {
        Ok((request, _)) => Some(request),
        Err(_) => None,
    }
}

/// The reply to the bytes of one read: the reply to the request at their
/// front, or the error for what is no command where they hold none.
pub open spec fn reply_to_bytes(db: Map<Seq<u8>, Entry>, buf: Seq<u8>, now: nat) -> Resp {
    match request_in(buf) {
        Some(request) => reply_to(db, request, now),
        None => invalid_command(),
    }
}

/// What the server holds after the bytes of one read.
pub open spec fn store_after_bytes(db: Map<Seq<u8>, Entry>, buf: Seq<u8>, now: nat) -> Map<
    Seq<u8>,
    Entry,
> {
    match request_in(buf) {
        Some(request) => store_after(db, request, now),
        None => db,
    }
}

/// The error reply for what is no command of this server, and for bytes
/// that hold no request.
pub fn reply_invalid_command() -> (reply: RESPValue)
    ensures
        reply@ == invalid_command(),
{
    let text: Vec<u8> = vec![
        'E' as u8,
        'R' as u8,
        'R' as u8,
        ' ' as u8,
        'i' as u8,
        'n' as u8,
        'v' as u8,
        'a' as u8,
        'l' as u8,
        'i' as u8,
        'd' as u8,
        ' ' as u8,
        'c' as u8,
        'o' as u8,
        'm' as u8,
        'm' as u8,
        'a' as u8,
        'n' as u8,
        'd' as u8,
    ];
    assert(text@ =~= text_invalid_command());
    RESPValue::Error(text)
}

/// The error reply for arguments of the wrong number or kind.
fn reply_invalid_arguments() -> (reply: RESPValue)
    ensures
        reply@ == invalid_arguments(),
{
    let text: Vec<u8> = vec![
        'E' as u8,
        'R' as u8,
        'R' as u8,
        ' ' as u8,
        'i' as u8,
        'n' as u8,
        'v' as u8,
        'a' as u8,
        'l' as u8,
        'i' as u8,
        'd' as u8,
        ' ' as u8,
        'a' as u8,
        'r' as u8,
        'g' as u8,
        'u' as u8,
        'm' as u8,
        'e' as u8,
        'n' as u8,
        't' as u8,
        's' as u8,
    ];
    assert(text@ =~= text_invalid_arguments());
    RESPValue::Error(text)
}

/// The reply to `PING`.
fn reply_pong() -> (reply: RESPValue)
    ensures
        reply@ == Resp::BulkString(Some(text_pong())),
{
    let text: Vec<u8> = vec!['P' as u8, 'O' as u8, 'N' as u8, 'G' as u8];
    assert(text@ =~= text_pong());
    RESPValue::BulkString(BulkEnumerator::Value(text))
}

/// The reply to a `SET` that was taken.
fn reply_ok() -> (reply: RESPValue)
    ensures
        reply@ == Resp::SimpleString(text_ok()),
{
    let text: Vec<u8> = vec!['O' as u8, 'K' as u8];
    assert(text@ =~= text_ok());
    RESPValue::SimpleString(text)
}

/// The reply to `INFO`.
fn reply_role() -> (reply: RESPValue)
    ensures
        reply@ == Resp::BulkString(Some(text_role())),
{
    let text: Vec<u8> = vec![
        'r' as u8,
        'o' as u8,
        'l' as u8,
        'e' as u8,
        ':' as u8,
        'm' as u8,
        'a' as u8,
        's' as u8,
        't' as u8,
        'e' as u8,
        'r' as u8,
        CR,
        LF,
    ];
    assert(text@ =~= text_role());
    RESPValue::BulkString(BulkEnumerator::Value(text))
}

/// The bytes of `value` where it is a bulk string that holds bytes.
fn bulk_of(value: &RESPValue) -> (r: Option<&Vec<u8>>)
    ensures
        match r {
            Some(bytes) => bulk_bytes(value@) == Some(bytes@),
            None => bulk_bytes(value@) is None,
        },
{
    match value {
        RESPValue::BulkString(BulkEnumerator::Value(bytes)) => Some(bytes),
        _ => None,
    }
}

/// The time to live that `text` states.
fn read_ttl(text: &[u8]) -> (r: Option<u128>)
    ensures
        match r {
            Some(ttl) => parse_ttl(text@) == Some(ttl as nat),
            None => parse_ttl(text@) is None,
        },
{
    let n: usize = text.len();
    if n > 0 && text[0] == PLUS {
        assert(text@.subrange(1, n as int) =~= text@.skip(1));
        read_unsigned(text, 1, n, u128::MAX)
    } else {
        assert(text@.subrange(0, n as int) =~= text@);
        read_unsigned(text, 0, n, u128::MAX)
    }
}

/// Carries out a `SET` with the items `items`, the command token first
/// among them.
fn execute_set(store: &mut Store, items: &Vec<RESPValue>, now: u128) -> (reply: RESPValue)
    requires
        old(store).well_formed(),
    ensures
        final(store).well_formed(),
        reply@ == (if write_of(items_view(items@)) is Some {
            Resp::SimpleString(text_ok())
        } else {
            invalid_arguments()
        }),
        final(store)@ == (match write_of(items_view(items@)) {
            Some(write) => insert_if_absent(old(store)@, write.key, write.entry_at(now as nat)),
            None => old(store)@,
        }),
{
    if items.len() == 3 {
        match (bulk_of(&items[1]), bulk_of(&items[2])) {
            (Some(key), Some(value)) => {
                store.set_if_absent(copy_all(key.as_slice()), copy_all(value.as_slice()), now, None);
                reply_ok()
            },
            _ => reply_invalid_arguments(),
        }
    } else if items.len() == 5 {
        match (bulk_of(&items[1]), bulk_of(&items[2]), bulk_of(&items[4])) {
            (Some(key), Some(value), Some(text)) => match read_ttl(text.as_slice()) {
                Some(ttl) => {
                    store.set_if_absent(
                        copy_all(key.as_slice()),
                        copy_all(value.as_slice()),
                        now,
                        Some(ttl),
                    );
                    reply_ok()
                },
                None => reply_invalid_arguments(),
            },
            _ => reply_invalid_arguments(),
        }
    } else {
        reply_invalid_arguments()
    }
}

/// Answers a `GET` with the items `items`, the command token first among
/// them.
fn execute_get(store: &Store, items: &Vec<RESPValue>, now: u128) -> (reply: RESPValue)
    requires
        store.well_formed(),
        items@.len() >= 1,
    ensures
        reply@ == (if items@.len() >= 2 {
            match bulk_bytes(items@[1]@) {
                Some(key) => Resp::BulkString(lookup(store@, key, now as nat)),
                None => invalid_arguments(),
            }
        } else {
            invalid_arguments()
        }),
{
    if items.len() < 2 {
        return reply_invalid_arguments();
    }
    match bulk_of(&items[1]) {
        None => reply_invalid_arguments(),
        Some(key) => match store.get(key.as_slice()) {
            Some(props) => {
                if props.is_expired(now) {
                    RESPValue::BulkString(BulkEnumerator::Null)
                } else {
                    RESPValue::BulkString(BulkEnumerator::Value(copy_all(props.value.as_slice())))
                }
            },
            None => RESPValue::BulkString(BulkEnumerator::Null),
        },
    }
}

/// Carries out one request at the time `now`, in milliseconds, and gives
/// the reply to it.
///
/// Every request gets a reply: what is no command, or is a command with
/// the wrong arguments, gets an error reply and changes nothing.
pub fn execute(store: &mut Store, request: &RESPValue, now: u128) -> (reply: RESPValue)
    requires
        old(store).well_formed(),
    ensures
        final(store).well_formed(),
        reply@ == reply_to(old(store)@, request@, now as nat),
        final(store)@ == store_after(old(store)@, request@, now as nat),
{
    let items = match request {
        RESPValue::Array(items) => items,
        _ => {
            return reply_invalid_command();
        },
    };
    proof {
        lemma_array_view(*items);
    }
    if items.len() == 0 {
        return reply_invalid_command();
    }
    let token = match bulk_of(&items[0]) {
        Some(token) => token,
        None => {
            return reply_invalid_command();
        },
    };
    assert(command_in(request@) == Some(command_of(token@)));
    match redis_command_parser(token.as_slice()) {
        RedisCommand::PING => reply_pong(),
        RedisCommand::ECHO => {
            if items.len() >= 2 {
                items[1].clone()
            } else {
                reply_invalid_arguments()
            }
        },
        RedisCommand::SET => execute_set(store, items, now),
        RedisCommand::GET => execute_get(store, items, now),
        RedisCommand::INFO => reply_role(),
        RedisCommand::Unknown(_) => reply_invalid_command(),
    }
}

/// Answers the bytes of one read at the time `now`, in milliseconds: the
/// wire bytes of the reply to the request at their front.
///
/// Bytes that hold no request, complete and well formed, are answered by
/// the error for what is no command, and change nothing.
pub fn handle_request(store: &mut Store, buf: &[u8], now: u128) -> (out: Vec<u8>)
    requires
        old(store).well_formed(),
    ensures
        final(store).well_formed(),
        out@ == wire(reply_to_bytes(old(store)@, buf@, now as nat)),
        final(store)@ == store_after_bytes(old(store)@, buf@, now as nat),
{
    let reply = match get_resp_value(buf) {
        Ok((request, _)) => execute(store, &request, now),
        Err(_) => reply_invalid_command(),
    };
    encode_resp_value(&reply)
}

} // verus!
