use neural_net::decimal::{parse_u32, render_u32};

#[test]
fn renders_zero_as_single_digit() {
    assert_eq!(render_u32(0), b"0".to_vec());
}

#[test]
fn renders_small_and_large_values() {
    assert_eq!(render_u32(7), b"7".to_vec());
    assert_eq!(render_u32(407), b"407".to_vec());
    assert_eq!(render_u32(1_000_000), b"1000000".to_vec());
    assert_eq!(render_u32(u32::MAX), b"4294967295".to_vec());
}

#[test]
fn renders_float_bit_patterns_like_their_decimal_text() {
    let bits = 1.5f32.to_bits();
    assert_eq!(render_u32(bits), bits.to_string().into_bytes());
    let bits = (-0.25f32).to_bits();
    assert_eq!(render_u32(bits), bits.to_string().into_bytes());
}

#[test]
fn parses_plain_digit_runs() {
    assert_eq!(parse_u32(b"0"), Some(0));
    assert_eq!(parse_u32(b"407"), Some(407));
    assert_eq!(parse_u32(b"4294967295"), Some(u32::MAX));
}

#[test]
fn parses_leading_zeros() {
    assert_eq!(parse_u32(b"007"), Some(7));
    assert_eq!(parse_u32(b"00000000000"), Some(0));
}

#[test]
fn rejects_empty_field() {
    assert_eq!(parse_u32(b""), None);
}

#[test]
fn rejects_non_digit_bytes() {
    assert_eq!(parse_u32(b"12a"), None);
    assert_eq!(parse_u32(b"-5"), None);
    assert_eq!(parse_u32(b" 5"), None);
    assert_eq!(parse_u32(b"1.0"), None);
}

#[test]
fn rejects_values_above_u32_max() {
    assert_eq!(parse_u32(b"4294967296"), None);
    assert_eq!(parse_u32(b"99999999999999999999"), None);
}

#[test]
fn round_trips_every_kind_of_word() {
    for n in [0u32, 1, 9, 10, 255, 407, 65_535, 1 << 31, u32::MAX, 0.5f32.to_bits()] {
        assert_eq!(parse_u32(&render_u32(n)), Some(n));
    }
}
