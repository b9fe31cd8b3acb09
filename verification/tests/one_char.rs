use fontfor::one_char::OneChar;
use fontfor::one_char::OneCharError;

fn parse(bytes: &[u8]) -> Result<OneChar, OneCharError> {
    OneChar::parse(&bytes.to_vec())
}

#[test]
fn single_ascii_scalar_accepted() {
    assert_eq!(parse(b"A"), Ok(OneChar('A')));
}

#[test]
fn single_two_byte_scalar_accepted() {
    // U+00E9, latin small letter e with acute, two bytes in UTF-8
    assert_eq!(parse("\u{e9}".as_bytes()), Ok(OneChar('\u{e9}')));
}

#[test]
fn single_three_byte_scalar_accepted() {
    // U+6587, a CJK ideograph, three bytes in UTF-8
    assert_eq!(parse("\u{6587}".as_bytes()), Ok(OneChar('\u{6587}')));
}

#[test]
fn single_four_byte_scalar_accepted() {
    // U+1F600, an emoji, four bytes in UTF-8
    assert_eq!(parse("\u{1f600}".as_bytes()), Ok(OneChar('\u{1f600}')));
}

#[test]
fn largest_scalar_accepted() {
    assert_eq!(parse("\u{10ffff}".as_bytes()), Ok(OneChar('\u{10ffff}')));
}

#[test]
fn empty_token_rejected() {
    assert_eq!(parse(b""), Err(OneCharError::EmptyInput));
}

#[test]
fn two_ascii_scalars_rejected_with_count() {
    assert_eq!(parse(b"ab"), Err(OneCharError::TooManyCharacters(2)));
}

#[test]
fn combining_mark_counts_as_second_scalar() {
    // 'e' followed by U+0301 combining acute accent: one glyph, two scalars
    assert_eq!(
        parse("e\u{301}".as_bytes()),
        Err(OneCharError::TooManyCharacters(2))
    );
}

#[test]
fn scalar_count_reported_exactly() {
    assert_eq!(parse(b"abcd"), Err(OneCharError::TooManyCharacters(4)));
    assert_eq!(
        parse("\u{6587}\u{5b57}\u{1f600}".as_bytes()),
        Err(OneCharError::TooManyCharacters(3))
    );
}

#[test]
fn invalid_lead_byte_rejected() {
    assert_eq!(parse(&[0xff]), Err(OneCharError::InvalidEncoding));
}

#[test]
fn lone_continuation_byte_rejected() {
    assert_eq!(parse(&[0x80]), Err(OneCharError::InvalidEncoding));
}

#[test]
fn truncated_encoding_rejected() {
    // first two bytes of the three-byte encoding of U+6587
    assert_eq!(parse(&[0xe6, 0x96]), Err(OneCharError::InvalidEncoding));
}

#[test]
fn overlong_encoding_rejected() {
    // '/' (U+002F) must be one byte; this is its forbidden two-byte form
    assert_eq!(parse(&[0xc0, 0xaf]), Err(OneCharError::InvalidEncoding));
}

#[test]
fn surrogate_encoding_rejected() {
    // the three-byte pattern for U+D800, a surrogate, is not valid UTF-8
    assert_eq!(parse(&[0xed, 0xa0, 0x80]), Err(OneCharError::InvalidEncoding));
}

#[test]
fn beyond_largest_scalar_rejected() {
    // the four-byte pattern for U+110000, past the last scalar value
    assert_eq!(
        parse(&[0xf4, 0x90, 0x80, 0x80]),
        Err(OneCharError::InvalidEncoding)
    );
}

#[test]
fn valid_scalar_after_invalid_byte_rejected() {
    assert_eq!(parse(&[0x41, 0xff]), Err(OneCharError::InvalidEncoding));
}
