//! What holds of requests that follow one another.

use crate::command::{
    command_of, upper_all, word_echo, word_get, word_info, word_ping, word_set, Command,
};
use crate::digits::{all_digits, digits_value, is_digit};
use crate::server::{parse_ttl, reply_to, store_after, text_ok, write_of, Write};
use crate::store::{elapsed, Entry};
use crate::value::Resp;
use vstd::prelude::*;

verus! {

/// The request `GET key`.
pub open spec fn get_request(key: Seq<u8>) -> Resp {
    Resp::Array(seq![Resp::BulkString(Some(word_get())), Resp::BulkString(Some(key))])
}

/// The request `SET key value`.
pub open spec fn set_request(key: Seq<u8>, value: Seq<u8>) -> Resp {
    Resp::Array(
        seq![
            Resp::BulkString(Some(word_set())),
            Resp::BulkString(Some(key)),
            Resp::BulkString(Some(value)),
        ],
    )
}

/// The request `SET key value flag ttl`, with the time to live as its
/// text.
pub open spec fn set_request_with_ttl(
    key: Seq<u8>,
    value: Seq<u8>,
    flag: Resp,
    ttl: Seq<u8>,
) -> Resp {
    Resp::Array(
        seq![
            Resp::BulkString(Some(word_set())),
            Resp::BulkString(Some(key)),
            Resp::BulkString(Some(value)),
            flag,
            Resp::BulkString(Some(ttl)),
        ],
    )
}

/// The names of the five commands, written in upper case, name them.
pub proof fn lemma_known_words()
    ensures
        command_of(word_ping()) == Command::PING,
        command_of(word_echo()) == Command::ECHO,
        command_of(word_set()) == Command::SET,
        command_of(word_get()) == Command::GET,
        command_of(word_info()) == Command::INFO,
{
    assert(upper_all(word_ping()) =~= word_ping());
    assert(upper_all(word_echo()) =~= word_echo());
    assert(upper_all(word_set()) =~= word_set());
    assert(upper_all(word_get()) =~= word_get());
    assert(upper_all(word_info()) =~= word_info());
    assert(word_echo()[0] != word_ping()[0]);
    assert(word_get()[0] != word_set()[0]);
    assert(word_info()[0] != word_ping()[0]);
    assert(word_info()[0] != word_echo()[0]);
    assert(word_set().len() != word_ping().len());
    assert(word_get().len() != word_ping().len());
}

/// A command is picked by its name in any case: two requests whose
/// tokens differ in the case of their letters only, with the same
/// arguments, get the same reply and leave the same store.
pub proof fn lemma_dispatch_ignores_case(
    db: Map<Seq<u8>, Entry>,
    token: Seq<u8>,
    other: Seq<u8>,
    arguments: Seq<Resp>,
    now: nat,
)
    requires
        upper_all(token) == upper_all(other),
    ensures
        reply_to(db, Resp::Array(seq![Resp::BulkString(Some(token))] + arguments), now)
            == reply_to(db, Resp::Array(seq![Resp::BulkString(Some(other))] + arguments), now),
        store_after(db, Resp::Array(seq![Resp::BulkString(Some(token))] + arguments), now)
            == store_after(db, Resp::Array(seq![Resp::BulkString(Some(other))] + arguments), now),
{
    let a = seq![Resp::BulkString(Some(token))] + arguments;
    let b = seq![Resp::BulkString(Some(other))] + arguments;
    assert(a[0] == Resp::BulkString(Some(token)));
    assert(b[0] == Resp::BulkString(Some(other)));
    assert(a.len() == b.len());
    assert forall|i: int| 1 <= i < a.len() implies a[i] == b[i] by {
        assert(a[i] == arguments[i - 1]);
        assert(b[i] == arguments[i - 1]);
    }
    assert(write_of(a) == write_of(b));
}

/// A key that was never written reads as the null bulk string, not as an
/// error.
pub proof fn lemma_get_missing(db: Map<Seq<u8>, Entry>, key: Seq<u8>, now: nat)
    requires
        !db.contains_key(key),
    ensures
        reply_to(db, get_request(key), now) == Resp::BulkString(None),
        store_after(db, get_request(key), now) == db,
{
    lemma_known_words();
}

/// A write is answered by `OK`, and a free key then reads as the value
/// written, at any time.
pub proof fn lemma_set_then_get(
    db: Map<Seq<u8>, Entry>,
    key: Seq<u8>,
    value: Seq<u8>,
    now: nat,
    later: nat,
)
    requires
        !db.contains_key(key),
    ensures
        reply_to(db, set_request(key, value), now) == Resp::SimpleString(text_ok()),
        reply_to(store_after(db, set_request(key, value), now), get_request(key), later)
            == Resp::BulkString(Some(value)),
{
    lemma_known_words();
    let items = set_request(key, value)->Array_0;
    assert(write_of(items) == Some(Write { key, value, ttl_millis: None }));
}

/// A value written with a time to live reads as itself until that time
/// has passed, and as the null bulk string from then on.
pub proof fn lemma_set_with_ttl_then_get(
    db: Map<Seq<u8>, Entry>,
    key: Seq<u8>,
    value: Seq<u8>,
    flag: Resp,
    text: Seq<u8>,
    ttl: nat,
    now: nat,
    later: nat,
)
    requires
        !db.contains_key(key),
        parse_ttl(text) == Some(ttl),
    ensures
        reply_to(db, set_request_with_ttl(key, value, flag, text), now) == Resp::SimpleString(
            text_ok(),
        ),
        reply_to(
            store_after(db, set_request_with_ttl(key, value, flag, text), now),
            get_request(key),
            later,
        ) == (if elapsed(now, later) >= ttl {
            Resp::BulkString(None)
        } else {
            Resp::BulkString(Some(value))
        }),
{
    lemma_known_words();
    let items = set_request_with_ttl(key, value, flag, text)->Array_0;
    assert(write_of(items) == Some(Write { key, value, ttl_millis: Some(ttl) }));
}

/// The text `0` states a time to live of no time at all.
pub proof fn lemma_zero_ttl()
    ensures
        parse_ttl(seq!['0' as u8]) == Some(0nat),
{
    let text = seq!['0' as u8];
    assert(is_digit(text[0]));
    assert(all_digits(text));
    assert(text.drop_last() =~= Seq::<u8>::empty());
    assert(digits_value(text.drop_last()) == 0);
    assert(digits_value(text) == 0);
}

/// A value written to a free key with a time to live of zero reads as the
/// null bulk string at any time.
pub proof fn lemma_zero_ttl_expires(
    db: Map<Seq<u8>, Entry>,
    key: Seq<u8>,
    value: Seq<u8>,
    flag: Resp,
    now: nat,
    later: nat,
)
    requires
        !db.contains_key(key),
    ensures
        reply_to(
            store_after(db, set_request_with_ttl(key, value, flag, seq!['0' as u8]), now),
            get_request(key),
            later,
        ) == Resp::BulkString(None),
{
    lemma_zero_ttl();
    lemma_set_with_ttl_then_get(db, key, value, flag, seq!['0' as u8], 0, now, later);
}

/// The first write to a key stays: a second one, with any value and at
/// any time, is answered by `OK` and changes nothing.
pub proof fn lemma_set_keeps_first(
    db: Map<Seq<u8>, Entry>,
    key: Seq<u8>,
    first: Seq<u8>,
    second: Seq<u8>,
    now: nat,
    later: nat,
)
    ensures
        reply_to(store_after(db, set_request(key, first), now), set_request(key, second), later)
            == Resp::SimpleString(text_ok()),
        store_after(store_after(db, set_request(key, first), now), set_request(key, second), later)
            == store_after(db, set_request(key, first), now),
{
    lemma_known_words();
    let one = set_request(key, first)->Array_0;
    let two = set_request(key, second)->Array_0;
    assert(write_of(one) == Some(Write { key, value: first, ttl_millis: None }));
    assert(write_of(two) == Some(Write { key, value: second, ttl_millis: None }));
}

/// After two writes to a free key, the key reads as the first value.
pub proof fn lemma_no_overwrite(
    db: Map<Seq<u8>, Entry>,
    key: Seq<u8>,
    first: Seq<u8>,
    second: Seq<u8>,
    now: nat,
    later: nat,
    at: nat,
)
    requires
        !db.contains_key(key),
    ensures
        reply_to(
            store_after(
                store_after(db, set_request(key, first), now),
                set_request(key, second),
                later,
            ),
            get_request(key),
            at,
        ) == Resp::BulkString(Some(first)),
{
    lemma_set_keeps_first(db, key, first, second, now, later);
    lemma_set_then_get(db, key, first, now, at);
}

/// One request and the time at which it is carried out.
pub struct Step {
    pub request: Resp,
    pub now: nat,
}

/// What the server holds after a run of requests, carried out one after
/// another in the order of the run.
pub open spec fn store_after_all(db: Map<Seq<u8>, Entry>, steps: Seq<Step>) -> Map<
    Seq<u8>,
    Entry,
>
    decreases steps.len(),
{
    if steps.len() == 0 {
        db
    } else {
        store_after(
            store_after_all(db, steps.drop_last()),
            steps.last().request,
            steps.last().now,
        )
    }
}

/// An entry, once written, stays as it is: no request removes it or
/// changes its value, the time it was written, or its time to live.
pub proof fn lemma_entries_stay(db: Map<Seq<u8>, Entry>, request: Resp, now: nat, key: Seq<u8>)
    requires
        db.contains_key(key),
    ensures
        store_after(db, request, now).contains_key(key),
        store_after(db, request, now)[key] == db[key],
{
}

/// A request leaves alone every key but the one it asks to write: a key
/// that is free before it and is not the key of its write is free after
/// it.
pub proof fn lemma_other_keys_stay_free(
    db: Map<Seq<u8>, Entry>,
    request: Resp,
    now: nat,
    key: Seq<u8>,
)
    requires
        !db.contains_key(key),
        store_after(db, request, now).contains_key(key),
    ensures
        request is Array,
        write_of(request->Array_0) is Some,
        write_of(request->Array_0)->Some_0.key == key,
        store_after(db, request, now)[key] == write_of(request->Array_0)->Some_0.entry_at(now),
{
}

/// Whatever requests follow in whatever order, the entry of a key is the
/// one that its first write made: an entry that is there stays there
/// through any run of requests.
pub proof fn lemma_first_write_wins(db: Map<Seq<u8>, Entry>, steps: Seq<Step>, key: Seq<u8>)
    requires
        db.contains_key(key),
    ensures
        store_after_all(db, steps).contains_key(key),
        store_after_all(db, steps)[key] == db[key],
    decreases steps.len(),
{
    if steps.len() > 0 {
        lemma_first_write_wins(db, steps.drop_last(), key);
        lemma_entries_stay(
            store_after_all(db, steps.drop_last()),
            steps.last().request,
            steps.last().now,
            key,
        );
    }
}

/// Requests that write to other keys do not tell in what a key holds: a
/// run of requests, none of which has the shape of a write to `key`,
/// leaves `key` as it was, free or not.
pub proof fn lemma_disjoint_keys(db: Map<Seq<u8>, Entry>, steps: Seq<Step>, key: Seq<u8>)
    requires
        forall|i: int|
            0 <= i < steps.len() ==> !({
                &&& (#[trigger] steps[i]).request is Array
                &&& write_of(steps[i].request->Array_0) is Some
                &&& write_of(steps[i].request->Array_0)->Some_0.key == key
            }),
    ensures
        store_after_all(db, steps).contains_key(key) == db.contains_key(key),
        db.contains_key(key) ==> store_after_all(db, steps)[key] == db[key],
    decreases steps.len(),
{
    if steps.len() > 0 {
        let before = steps.drop_last();
        assert forall|i: int| 0 <= i < before.len() implies !({
            &&& (#[trigger] before[i]).request is Array
            &&& write_of(before[i].request->Array_0) is Some
            &&& write_of(before[i].request->Array_0)->Some_0.key == key
        }) by {
            assert(before[i] == steps[i]);
        }
        lemma_disjoint_keys(db, before, key);
        let mid = store_after_all(db, before);
        let last = steps.last();
        assert(last == steps[steps.len() - 1]);
        if mid.contains_key(key) {
            lemma_entries_stay(mid, last.request, last.now, key);
        } else if store_after(mid, last.request, last.now).contains_key(key) {
            lemma_other_keys_stay_free(mid, last.request, last.now, key);
        }
    }
}

} // verus!
