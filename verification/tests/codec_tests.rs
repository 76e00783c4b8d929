use miden_faucet_server::codec::cursor_start;
use miden_faucet_server::codec::parse_u32;
use miden_faucet_server::codec::parse_u64;
use miden_faucet_server::codec::trim_bytes;
use miden_faucet_server::codec::u32_to_dec;
use miden_faucet_server::codec::u32_to_string;

#[test]
fn dec_renders_zero() {
    assert_eq!(u32_to_dec(0), vec![b'0']);
}

#[test]
fn dec_renders_digits_in_order() {
    assert_eq!(u32_to_dec(12345), b"12345".to_vec());
}

#[test]
fn dec_renders_u32_max() {
    assert_eq!(u32_to_dec(u32::MAX), b"4294967295".to_vec());
}

#[test]
fn dec_string_matches_std() {
    assert_eq!(u32_to_string(67), 67u32.to_string());
    assert_eq!(u32_to_string(0), "0".to_string());
}

#[test]
fn parse_accepts_plain_numeral() {
    assert_eq!(parse_u32(b"42"), Some(42));
}

#[test]
fn parse_accepts_plus_sign_and_leading_zeros() {
    assert_eq!(parse_u32(b"+42"), Some(42));
    assert_eq!(parse_u32(b"043"), Some(43));
}

#[test]
fn parse_rejects_empty_and_garbage() {
    assert_eq!(parse_u32(b""), None);
    assert_eq!(parse_u32(b"+"), None);
    assert_eq!(parse_u32(b"12a"), None);
    assert_eq!(parse_u32(b"-1"), None);
}

#[test]
fn parse_handles_u32_bounds() {
    assert_eq!(parse_u32(b"4294967295"), Some(u32::MAX));
    assert_eq!(parse_u32(b"4294967296"), None);
}

#[test]
fn parse_handles_u64_bounds() {
    assert_eq!(parse_u64(b"18446744073709551615"), Some(u64::MAX));
    assert_eq!(parse_u64(b"18446744073709551616"), None);
    assert_eq!(parse_u64(b"7"), Some(7));
}

#[test]
fn parse_agrees_with_std_from_str() {
    for s in ["0", "+0", "007", "4294967295", "4294967296", "", "x", "1 2"] {
        assert_eq!(parse_u32(s.as_bytes()), s.parse::<u32>().ok(), "case {s:?}");
    }
}

#[test]
fn dec_then_parse_is_identity() {
    for n in [0u32, 1, 9, 10, 99, 100, 65535, u32::MAX] {
        assert_eq!(parse_u32(&u32_to_dec(n)), Some(n));
    }
}

#[test]
fn trim_strips_both_ends() {
    assert_eq!(trim_bytes(b"  43 \n"), b"43".to_vec());
    assert_eq!(trim_bytes(b"\t\r\n "), Vec::<u8>::new());
    assert_eq!(trim_bytes(b"a b"), b"a b".to_vec());
}

#[test]
fn cursor_defaults_to_one_without_file() {
    assert_eq!(cursor_start(None), 1);
}

#[test]
fn cursor_reads_trimmed_decimal() {
    assert_eq!(cursor_start(Some(b" 120\n")), 120);
}

#[test]
fn cursor_defaults_to_one_on_bad_content() {
    assert_eq!(cursor_start(Some(b"abc")), 1);
    assert_eq!(cursor_start(Some(b"")), 1);
}
