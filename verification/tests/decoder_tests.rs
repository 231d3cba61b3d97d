use blob_ingest::decoder::{decode, decode_hex_tail, decode_structured, DecodeError, DecodeScheme};

fn structured_input(count: u64, size: u64) -> Vec<u8> {
    let mut v = vec![0u8; 64];
    v[24..32].copy_from_slice(&count.to_be_bytes());
    v[56..64].copy_from_slice(&size.to_be_bytes());
    v
}

#[test]
fn structured_round_trip() {
    let input = structured_input(5, 1024);
    assert_eq!(decode_structured(&input), Ok((5, 1024)));
    assert_eq!(
        decode(DecodeScheme::StructuredHeader, &input),
        Ok((5, Some(1024)))
    );
}

#[test]
fn structured_short_input_is_malformed() {
    let input = vec![0u8; 10];
    assert_eq!(decode_structured(&input), Err(DecodeError::MalformedInput));
    assert_eq!(
        decode(DecodeScheme::StructuredHeader, &input),
        Err(DecodeError::MalformedInput)
    );
}

#[test]
fn structured_empty_input_is_malformed() {
    let input: Vec<u8> = Vec::new();
    assert_eq!(decode_structured(&input), Err(DecodeError::MalformedInput));
}

#[test]
fn structured_exactly_64_bytes_decodes() {
    let input = structured_input(0, 0);
    assert_eq!(decode_structured(&input), Ok((0, 0)));
}

#[test]
fn structured_count_over_u64_overflows() {
    let mut input = structured_input(5, 1024);
    // A nonzero byte above the low eight of the count word exceeds 2^64 - 1.
    input[23] = 1;
    assert_eq!(decode_structured(&input), Err(DecodeError::Overflow));
}

#[test]
fn structured_size_over_u64_overflows() {
    let mut input = structured_input(5, 1024);
    input[32] = 0xff;
    assert_eq!(decode_structured(&input), Err(DecodeError::Overflow));
}

#[test]
fn structured_max_u64_still_fits() {
    let input = structured_input(u64::MAX, u64::MAX);
    assert_eq!(decode_structured(&input), Ok((u64::MAX, u64::MAX)));
}

#[test]
fn structured_trailing_bytes_are_ignored() {
    let mut input = structured_input(7, 9);
    input.extend_from_slice(&[0xde, 0xad]);
    assert_eq!(decode_structured(&input), Ok((7, 9)));
}

#[test]
fn hex_tail_decodes_count() {
    let input = b"0x1f4".to_vec();
    assert_eq!(decode_hex_tail(&input), Ok(500));
    assert_eq!(decode(DecodeScheme::HexTail, &input), Ok((500, None)));
}

#[test]
fn hex_tail_accepts_upper_and_lower_case() {
    assert_eq!(decode_hex_tail(&b"0xFf".to_vec()), Ok(255));
    assert_eq!(decode_hex_tail(&b"0xff".to_vec()), Ok(255));
}

#[test]
fn hex_tail_without_digits_is_malformed() {
    assert_eq!(
        decode_hex_tail(&b"0x".to_vec()),
        Err(DecodeError::MalformedInput)
    );
    assert_eq!(
        decode_hex_tail(&Vec::new()),
        Err(DecodeError::MalformedInput)
    );
}

#[test]
fn hex_tail_bad_digit_is_malformed() {
    assert_eq!(
        decode_hex_tail(&b"0x12g4".to_vec()),
        Err(DecodeError::MalformedInput)
    );
}

#[test]
fn hex_tail_over_u64_overflows() {
    // Seventeen hex digits of value: at least 2^64.
    let input = b"0x10000000000000000".to_vec();
    assert_eq!(decode_hex_tail(&input), Err(DecodeError::Overflow));
}

#[test]
fn hex_tail_max_u64_still_fits() {
    let input = b"0xffffffffffffffff".to_vec();
    assert_eq!(decode_hex_tail(&input), Ok(u64::MAX));
}

#[test]
fn hex_tail_leading_zeroes_are_value_preserving() {
    let input = b"0x000000000000000000ff".to_vec();
    assert_eq!(decode_hex_tail(&input), Ok(255));
}

#[test]
fn hex_tail_malformed_wins_over_overflow() {
    // A bad digit after an already-overflowing prefix is still malformed.
    let input = b"0x10000000000000000z".to_vec();
    assert_eq!(decode_hex_tail(&input), Err(DecodeError::MalformedInput));
}
