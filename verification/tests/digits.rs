use redis_server::bytes::{append, copy_all, copy_range, same_bytes};
use redis_server::digits::{read_signed, read_unsigned, write_signed, write_unsigned};

#[test]
fn reads_unsigned_numbers() {
    assert_eq!(read_unsigned(b"0", 0, 1, 10), Some(0));
    assert_eq!(read_unsigned(b"123", 0, 3, 1000), Some(123));
    assert_eq!(read_unsigned(b"x123y", 1, 4, 1000), Some(123));
    assert_eq!(read_unsigned(b"000123", 0, 6, 123), Some(123));
}

#[test]
fn unsigned_bound_is_inclusive() {
    assert_eq!(read_unsigned(b"255", 0, 3, 255), Some(255));
    assert_eq!(read_unsigned(b"256", 0, 3, 255), None);
    assert_eq!(
        read_unsigned(b"340282366920938463463374607431768211455", 0, 39, u128::MAX),
        Some(u128::MAX)
    );
    assert_eq!(
        read_unsigned(b"340282366920938463463374607431768211456", 0, 39, u128::MAX),
        None
    );
    assert_eq!(
        read_unsigned(b"3402823669209384634633746074317682114550", 0, 40, u128::MAX),
        None
    );
}

#[test]
fn unsigned_rejects_what_is_no_number() {
    assert_eq!(read_unsigned(b"", 0, 0, 10), None);
    assert_eq!(read_unsigned(b"12", 1, 1, 10), None);
    assert_eq!(read_unsigned(b"-1", 0, 2, 10), None);
    assert_eq!(read_unsigned(b"+1", 0, 2, 10), None);
    assert_eq!(read_unsigned(b"1a", 0, 2, 10), None);
    assert_eq!(read_unsigned(b" 1", 0, 2, 10), None);
    assert_eq!(read_unsigned(b"99999999999x", 0, 12, 10), None);
}

#[test]
fn reads_signed_numbers() {
    assert_eq!(read_signed(b"0"), Some(0));
    assert_eq!(read_signed(b"-0"), Some(0));
    assert_eq!(read_signed(b"+17"), Some(17));
    assert_eq!(read_signed(b"-17"), Some(-17));
    assert_eq!(read_signed(b"9223372036854775807"), Some(i64::MAX));
    assert_eq!(read_signed(b"-9223372036854775808"), Some(i64::MIN));
    assert_eq!(read_signed(b"+9223372036854775808"), None);
    assert_eq!(read_signed(b"9223372036854775808"), None);
    assert_eq!(read_signed(b"-9223372036854775809"), None);
    assert_eq!(read_signed(b""), None);
    assert_eq!(read_signed(b"-"), None);
    assert_eq!(read_signed(b"+"), None);
    assert_eq!(read_signed(b"+-1"), None);
    assert_eq!(read_signed(b"1.5"), None);
}

#[test]
fn writes_unsigned_numbers() {
    let mut out = b"n=".to_vec();
    write_unsigned(&mut out, 0);
    assert_eq!(out, b"n=0".to_vec());
    write_unsigned(&mut out, 9);
    write_unsigned(&mut out, 10);
    write_unsigned(&mut out, 1234567890);
    assert_eq!(out, b"n=09101234567890".to_vec());
    let mut big = Vec::new();
    write_unsigned(&mut big, u128::MAX);
    assert_eq!(big, b"340282366920938463463374607431768211455".to_vec());
}

#[test]
fn writes_signed_numbers() {
    let mut out = Vec::new();
    write_signed(&mut out, -5);
    write_signed(&mut out, 5);
    write_signed(&mut out, 0);
    assert_eq!(out, b"-550".to_vec());
    let mut low = Vec::new();
    write_signed(&mut low, i64::MIN);
    assert_eq!(low, b"-9223372036854775808".to_vec());
}

#[test]
fn written_numbers_read_back() {
    for n in [0u128, 1, 9, 10, 99, 100, 65535, u64::MAX as u128, u128::MAX] {
        let mut out = Vec::new();
        write_unsigned(&mut out, n);
        assert_eq!(read_unsigned(&out, 0, out.len(), u128::MAX), Some(n));
    }
    for n in [0i64, 1, -1, 42, -42, i64::MAX, i64::MIN] {
        let mut out = Vec::new();
        write_signed(&mut out, n);
        assert_eq!(read_signed(&out), Some(n));
    }
}

#[test]
fn byte_helpers() {
    let mut out = b"ab".to_vec();
    append(&mut out, b"cd");
    append(&mut out, b"");
    assert_eq!(out, b"abcd".to_vec());
    assert_eq!(copy_range(b"hello", 1, 4), b"ell".to_vec());
    assert_eq!(copy_range(b"hello", 2, 2), Vec::<u8>::new());
    assert_eq!(copy_all(b"hello"), b"hello".to_vec());
    assert!(same_bytes(b"abc", b"abc"));
    assert!(same_bytes(b"", b""));
    assert!(!same_bytes(b"abc", b"abd"));
    assert!(!same_bytes(b"abc", b"ab"));
}
