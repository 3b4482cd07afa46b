use redis_server::decode::{get_resp_value, DecodeError};
use redis_server::encode::encode_resp_value;
use redis_server::value::{BulkEnumerator, RESPValue};

fn bulk(bytes: &[u8]) -> RESPValue {
    RESPValue::BulkString(BulkEnumerator::Value(bytes.to_vec()))
}

fn round_trip(value: RESPValue) {
    let bytes = encode_resp_value(&value);
    let n = bytes.len();
    assert_eq!(get_resp_value(&bytes), Ok((value, n)));
}

#[test]
fn encodes_simple_string() {
    let v = RESPValue::SimpleString(b"OK".to_vec());
    assert_eq!(encode_resp_value(&v), b"+OK\r\n".to_vec());
}

#[test]
fn encodes_error() {
    let v = RESPValue::Error(b"ERR unknown".to_vec());
    assert_eq!(encode_resp_value(&v), b"-ERR unknown\r\n".to_vec());
}

#[test]
fn encodes_integers() {
    assert_eq!(encode_resp_value(&RESPValue::Integer(0)), b":0\r\n".to_vec());
    assert_eq!(encode_resp_value(&RESPValue::Integer(1000)), b":1000\r\n".to_vec());
    assert_eq!(encode_resp_value(&RESPValue::Integer(-42)), b":-42\r\n".to_vec());
    assert_eq!(
        encode_resp_value(&RESPValue::Integer(i64::MAX)),
        b":9223372036854775807\r\n".to_vec()
    );
    assert_eq!(
        encode_resp_value(&RESPValue::Integer(i64::MIN)),
        b":-9223372036854775808\r\n".to_vec()
    );
}

#[test]
fn encodes_bulk_string() {
    assert_eq!(encode_resp_value(&bulk(b"hello")), b"$5\r\nhello\r\n".to_vec());
    assert_eq!(encode_resp_value(&bulk(b"0123456789ab")), b"$12\r\n0123456789ab\r\n".to_vec());
}

#[test]
fn encodes_empty_bulk_string() {
    assert_eq!(encode_resp_value(&bulk(b"")), b"$0\r\n\r\n".to_vec());
}

#[test]
fn encodes_null_bulk_string() {
    let v = RESPValue::BulkString(BulkEnumerator::Null);
    assert_eq!(encode_resp_value(&v), b"$-1\r\n".to_vec());
}

#[test]
fn null_and_empty_bulk_strings_differ() {
    let empty = encode_resp_value(&bulk(b""));
    let null = encode_resp_value(&RESPValue::BulkString(BulkEnumerator::Null));
    assert_ne!(empty, null);
}

#[test]
fn bulk_length_counts_bytes_not_characters() {
    let text = "h\u{e9}llo \u{4e16}\u{754c}";
    assert_eq!(text.chars().count(), 8);
    assert_eq!(text.len(), 13);
    let mut expected = b"$13\r\n".to_vec();
    expected.extend_from_slice(text.as_bytes());
    expected.extend_from_slice(b"\r\n");
    assert_eq!(encode_resp_value(&bulk(text.as_bytes())), expected);
}

#[test]
fn encodes_array_in_order() {
    let v = RESPValue::Array(vec![bulk(b"GET"), bulk(b"key"), RESPValue::Integer(7)]);
    assert_eq!(encode_resp_value(&v), b"*3\r\n$3\r\nGET\r\n$3\r\nkey\r\n:7\r\n".to_vec());
}

#[test]
fn encodes_empty_and_null_array() {
    assert_eq!(encode_resp_value(&RESPValue::Array(vec![])), b"*0\r\n".to_vec());
    assert_eq!(encode_resp_value(&RESPValue::NullArray), b"*-1\r\n".to_vec());
}

#[test]
fn encodes_nested_array() {
    let v = RESPValue::Array(vec![
        RESPValue::Array(vec![RESPValue::Integer(1), RESPValue::Integer(2)]),
        RESPValue::SimpleString(b"x".to_vec()),
    ]);
    assert_eq!(encode_resp_value(&v), b"*2\r\n*2\r\n:1\r\n:2\r\n+x\r\n".to_vec());
}

#[test]
fn decodes_simple_string() {
    assert_eq!(
        get_resp_value(b"+OK\r\n"),
        Ok((RESPValue::SimpleString(b"OK".to_vec()), 5))
    );
}

#[test]
fn decodes_empty_simple_string() {
    assert_eq!(get_resp_value(b"+\r\n"), Ok((RESPValue::SimpleString(vec![]), 3)));
}

#[test]
fn decodes_error() {
    assert_eq!(
        get_resp_value(b"-ERR bad\r\n"),
        Ok((RESPValue::Error(b"ERR bad".to_vec()), 10))
    );
}

#[test]
fn simple_string_keeps_a_lone_carriage_return() {
    assert_eq!(
        get_resp_value(b"+a\rb\r\n"),
        Ok((RESPValue::SimpleString(b"a\rb".to_vec()), 6))
    );
    assert_eq!(
        get_resp_value(b"+a\r\r\n"),
        Ok((RESPValue::SimpleString(b"a\r".to_vec()), 5))
    );
}

#[test]
fn decodes_integers() {
    assert_eq!(get_resp_value(b":0\r\n"), Ok((RESPValue::Integer(0), 4)));
    assert_eq!(get_resp_value(b":1000\r\n"), Ok((RESPValue::Integer(1000), 7)));
    assert_eq!(get_resp_value(b":-42\r\n"), Ok((RESPValue::Integer(-42), 6)));
    assert_eq!(get_resp_value(b":+42\r\n"), Ok((RESPValue::Integer(42), 6)));
    assert_eq!(get_resp_value(b":007\r\n"), Ok((RESPValue::Integer(7), 6)));
    assert_eq!(get_resp_value(b":-0\r\n"), Ok((RESPValue::Integer(0), 5)));
}

#[test]
fn decodes_integer_limits() {
    assert_eq!(
        get_resp_value(b":9223372036854775807\r\n"),
        Ok((RESPValue::Integer(i64::MAX), 22))
    );
    assert_eq!(
        get_resp_value(b":-9223372036854775808\r\n"),
        Ok((RESPValue::Integer(i64::MIN), 23))
    );
    assert_eq!(
        get_resp_value(b":9223372036854775808\r\n"),
        Err(DecodeError::InvalidInteger)
    );
    assert_eq!(
        get_resp_value(b":-9223372036854775809\r\n"),
        Err(DecodeError::InvalidInteger)
    );
}

#[test]
fn rejects_non_numeric_integer() {
    assert_eq!(get_resp_value(b":abc\r\n"), Err(DecodeError::InvalidInteger));
    assert_eq!(get_resp_value(b":\r\n"), Err(DecodeError::InvalidInteger));
    assert_eq!(get_resp_value(b":-\r\n"), Err(DecodeError::InvalidInteger));
    assert_eq!(get_resp_value(b":1 2\r\n"), Err(DecodeError::InvalidInteger));
    assert_eq!(get_resp_value(b":--1\r\n"), Err(DecodeError::InvalidInteger));
}

#[test]
fn decodes_bulk_string() {
    assert_eq!(get_resp_value(b"$5\r\nhello\r\n"), Ok((bulk(b"hello"), 11)));
}

#[test]
fn decodes_empty_bulk_string() {
    assert_eq!(get_resp_value(b"$0\r\n\r\n"), Ok((bulk(b""), 6)));
}

#[test]
fn decodes_null_bulk_string() {
    assert_eq!(
        get_resp_value(b"$-1\r\n"),
        Ok((RESPValue::BulkString(BulkEnumerator::Null), 5))
    );
}

#[test]
fn null_bulk_string_takes_nothing_after_its_line() {
    assert_eq!(
        get_resp_value(b"$-1\r\nrest"),
        Ok((RESPValue::BulkString(BulkEnumerator::Null), 5))
    );
}

#[test]
fn bulk_string_is_binary_safe() {
    assert_eq!(get_resp_value(b"$4\r\na\r\nb\r\n"), Ok((bulk(b"a\r\nb"), 10)));
    assert_eq!(
        get_resp_value(b"$3\r\n\x00\xff\n\r\n"),
        Ok((bulk(&[0u8, 255u8, 10u8]), 9))
    );
}

#[test]
fn bulk_length_with_leading_zeros() {
    assert_eq!(get_resp_value(b"$03\r\nfoo\r\n"), Ok((bulk(b"foo"), 10)));
}

#[test]
fn short_bulk_string_is_incomplete() {
    assert_eq!(get_resp_value(b"$5\r\nhel"), Err(DecodeError::Incomplete));
    assert_eq!(get_resp_value(b"$5\r\nhello"), Err(DecodeError::Incomplete));
    assert_eq!(get_resp_value(b"$5\r\nhello\r"), Err(DecodeError::Incomplete));
    assert_eq!(get_resp_value(b"$5\r\n"), Err(DecodeError::Incomplete));
}

#[test]
fn huge_bulk_length_is_incomplete() {
    assert_eq!(
        get_resp_value(b"$18446744073709551615\r\nabc\r\n"),
        Err(DecodeError::Incomplete)
    );
}

#[test]
fn bulk_string_without_terminator() {
    assert_eq!(get_resp_value(b"$3\r\nfooXY"), Err(DecodeError::MissingTerminator));
    assert_eq!(get_resp_value(b"$3\r\nfoobar\r\n"), Err(DecodeError::MissingTerminator));
}

#[test]
fn rejects_bad_lengths() {
    assert_eq!(get_resp_value(b"$abc\r\n"), Err(DecodeError::InvalidLength));
    assert_eq!(get_resp_value(b"$\r\n"), Err(DecodeError::InvalidLength));
    assert_eq!(get_resp_value(b"$-2\r\n"), Err(DecodeError::InvalidLength));
    assert_eq!(get_resp_value(b"$-01\r\n"), Err(DecodeError::InvalidLength));
    assert_eq!(get_resp_value(b"$+3\r\nfoo\r\n"), Err(DecodeError::InvalidLength));
    assert_eq!(get_resp_value(b"$3 \r\nfoo\r\n"), Err(DecodeError::InvalidLength));
    assert_eq!(get_resp_value(b"*x\r\n"), Err(DecodeError::InvalidLength));
    assert_eq!(get_resp_value(b"*-2\r\n"), Err(DecodeError::InvalidLength));
    assert_eq!(
        get_resp_value(b"$18446744073709551616\r\n"),
        Err(DecodeError::InvalidLength)
    );
}

#[test]
fn rejects_unknown_prefix() {
    assert_eq!(get_resp_value(b"?what\r\n"), Err(DecodeError::InvalidPrefix));
    assert_eq!(get_resp_value(b"PING\r\n"), Err(DecodeError::InvalidPrefix));
    assert_eq!(get_resp_value(b"\r\n"), Err(DecodeError::InvalidPrefix));
    assert_eq!(get_resp_value(b"x"), Err(DecodeError::InvalidPrefix));
}

#[test]
fn empty_buffer_is_incomplete() {
    assert_eq!(get_resp_value(b""), Err(DecodeError::Incomplete));
}

#[test]
fn line_without_terminator_is_incomplete() {
    assert_eq!(get_resp_value(b"+OK"), Err(DecodeError::Incomplete));
    assert_eq!(get_resp_value(b"+OK\r"), Err(DecodeError::Incomplete));
    assert_eq!(get_resp_value(b"+"), Err(DecodeError::Incomplete));
    assert_eq!(get_resp_value(b":12"), Err(DecodeError::Incomplete));
    assert_eq!(get_resp_value(b":abc"), Err(DecodeError::Incomplete));
    assert_eq!(get_resp_value(b"$5"), Err(DecodeError::Incomplete));
    assert_eq!(get_resp_value(b"*2"), Err(DecodeError::Incomplete));
}

#[test]
fn decodes_array() {
    assert_eq!(
        get_resp_value(b"*2\r\n$3\r\nGET\r\n$3\r\nkey\r\n"),
        Ok((RESPValue::Array(vec![bulk(b"GET"), bulk(b"key")]), 22))
    );
}

#[test]
fn decodes_empty_and_null_array() {
    assert_eq!(get_resp_value(b"*0\r\n"), Ok((RESPValue::Array(vec![]), 4)));
    assert_eq!(get_resp_value(b"*-1\r\n"), Ok((RESPValue::NullArray, 5)));
}

#[test]
fn decodes_nested_and_mixed_array() {
    let expected = RESPValue::Array(vec![
        RESPValue::Array(vec![RESPValue::Integer(1), RESPValue::NullArray]),
        RESPValue::SimpleString(b"x".to_vec()),
        RESPValue::Error(b"e".to_vec()),
        RESPValue::BulkString(BulkEnumerator::Null),
    ]);
    let wire = b"*4\r\n*2\r\n:1\r\n*-1\r\n+x\r\n-e\r\n$-1\r\n";
    assert_eq!(get_resp_value(wire), Ok((expected, wire.len())));
}

#[test]
fn array_with_missing_element_is_incomplete() {
    assert_eq!(get_resp_value(b"*2\r\n$3\r\nfoo\r\n"), Err(DecodeError::Incomplete));
}

#[test]
fn array_fails_with_its_first_failing_element() {
    assert_eq!(
        get_resp_value(b"*3\r\n:1\r\n:x\r\n?\r\n"),
        Err(DecodeError::InvalidInteger)
    );
    assert_eq!(get_resp_value(b"*2\r\n:1\r\n?\r\n"), Err(DecodeError::InvalidPrefix));
    assert_eq!(
        get_resp_value(b"*1\r\n$3\r\nfooXY"),
        Err(DecodeError::MissingTerminator)
    );
    assert_eq!(get_resp_value(b"*1\r\n$3\r\nfo"), Err(DecodeError::Incomplete));
}

#[test]
fn huge_array_count_is_incomplete() {
    assert_eq!(
        get_resp_value(b"*18446744073709551615\r\n:1\r\n"),
        Err(DecodeError::Incomplete)
    );
}

#[test]
fn decode_leaves_trailing_bytes() {
    assert_eq!(
        get_resp_value(b"+OK\r\n+NEXT\r\n"),
        Ok((RESPValue::SimpleString(b"OK".to_vec()), 5))
    );
    assert_eq!(
        get_resp_value(b"*1\r\n:5\r\ngarbage"),
        Ok((RESPValue::Array(vec![RESPValue::Integer(5)]), 8))
    );
}

#[test]
fn round_trips() {
    round_trip(RESPValue::SimpleString(b"PONG".to_vec()));
    round_trip(RESPValue::SimpleString(vec![]));
    round_trip(RESPValue::SimpleString(b"a\rb\nc".to_vec()));
    round_trip(RESPValue::Error(b"ERR invalid command".to_vec()));
    round_trip(RESPValue::Integer(0));
    round_trip(RESPValue::Integer(-1));
    round_trip(RESPValue::Integer(i64::MAX));
    round_trip(RESPValue::Integer(i64::MIN));
    round_trip(bulk(b""));
    round_trip(bulk(b"with\r\ninside"));
    round_trip(bulk(&[0u8, 1, 2, 253, 254, 255]));
    round_trip(RESPValue::BulkString(BulkEnumerator::Null));
    round_trip(RESPValue::NullArray);
    round_trip(RESPValue::Array(vec![]));
    round_trip(RESPValue::Array(vec![
        bulk(b"SET"),
        bulk(b"k"),
        bulk(b"v"),
        RESPValue::Array(vec![RESPValue::Integer(12), RESPValue::Array(vec![])]),
        RESPValue::NullArray,
    ]));
}

#[test]
fn round_trip_of_a_long_bulk_string() {
    let bytes: Vec<u8> = (0..1000u32).map(|i| (i % 256) as u8).collect();
    let value = bulk(&bytes);
    let wire = encode_resp_value(&value);
    assert_eq!(&wire[..7], b"$1000\r\n");
    assert_eq!(wire.len(), 1009);
    assert_eq!(get_resp_value(&wire), Ok((value, 1009)));
}

#[test]
fn clone_gives_an_equal_value() {
    let v = RESPValue::Array(vec![
        bulk(b"a"),
        RESPValue::Array(vec![RESPValue::Integer(3), RESPValue::Error(b"e".to_vec())]),
        RESPValue::BulkString(BulkEnumerator::Null),
        RESPValue::SimpleString(b"s".to_vec()),
        RESPValue::NullArray,
    ]);
    assert_eq!(v.clone(), v);
}

#[test]
fn simple_string_with_a_terminator_inside_is_cut_short() {
    let value = RESPValue::SimpleString(b"a\r\nb".to_vec());
    let wire = encode_resp_value(&value);
    assert_eq!(wire, b"+a\r\nb\r\n".to_vec());
    assert_eq!(
        get_resp_value(&wire),
        Ok((RESPValue::SimpleString(b"a".to_vec()), 4))
    );
}
