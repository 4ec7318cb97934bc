use rmenu::{hex_from_ascii_byte, parse_color, ColorError, Rgba};

#[test]
fn hex_from_ascii_byte_reads_digits_of_either_case() {
    assert_eq!(hex_from_ascii_byte(b'0'), Ok(0));
    assert_eq!(hex_from_ascii_byte(b'9'), Ok(9));
    assert_eq!(hex_from_ascii_byte(b'a'), Ok(10));
    assert_eq!(hex_from_ascii_byte(b'f'), Ok(15));
    assert_eq!(hex_from_ascii_byte(b'A'), Ok(10));
    assert_eq!(hex_from_ascii_byte(b'F'), Ok(15));
    assert_eq!(hex_from_ascii_byte(b'g'), Err(b'g'));
    assert_eq!(hex_from_ascii_byte(b'G'), Err(b'G'));
    assert_eq!(hex_from_ascii_byte(b'/'), Err(b'/'));
    assert_eq!(hex_from_ascii_byte(b':'), Err(b':'));
    assert_eq!(hex_from_ascii_byte(b'@'), Err(b'@'));
    assert_eq!(hex_from_ascii_byte(b'`'), Err(b'`'));
    assert_eq!(hex_from_ascii_byte(0), Err(0));
    assert_eq!(hex_from_ascii_byte(255), Err(255));
}

#[test]
fn parse_color_reads_six_digits() {
    assert_eq!(parse_color("3a3a3a"), Ok(Rgba { r: 0x3a, g: 0x3a, b: 0x3a, a: 0xff }));
    assert_eq!(parse_color("#85add4"), Ok(Rgba { r: 0x85, g: 0xad, b: 0xd4, a: 0xff }));
    assert_eq!(parse_color("D0d0D0"), Ok(Rgba { r: 0xd0, g: 0xd0, b: 0xd0, a: 0xff }));
}

#[test]
fn parse_color_doubles_short_digits() {
    assert_eq!(parse_color("#000"), Ok(Rgba { r: 0, g: 0, b: 0, a: 0xff }));
    assert_eq!(parse_color("1aF"), Ok(Rgba { r: 0x11, g: 0xaa, b: 0xff, a: 0xff }));
    assert_eq!(parse_color("#1aF8"), Ok(Rgba { r: 0x11, g: 0xaa, b: 0xff, a: 0x88 }));
    assert_eq!(parse_color("1234"), Ok(Rgba { r: 0x11, g: 0x22, b: 0x33, a: 0x44 }));
}

#[test]
fn parse_color_reads_eight_digits() {
    assert_eq!(parse_color("01020304"), Ok(Rgba { r: 1, g: 2, b: 3, a: 4 }));
    assert_eq!(parse_color("#fffefdfc"), Ok(Rgba { r: 255, g: 254, b: 253, a: 252 }));
}

#[test]
fn parse_color_rejects_other_lengths() {
    for text in ["", "#", "1", "12", "12345", "1234567", "123456789", "#123456789"] {
        assert_eq!(parse_color(text), Err(ColorError::Format), "{text:?}");
    }
}

#[test]
fn parse_color_reports_the_first_byte_that_is_no_digit() {
    assert_eq!(parse_color("12g45z"), Err(ColorError::Digit(b'g')));
    assert_eq!(parse_color("#xyz"), Err(ColorError::Digit(b'x')));
    assert_eq!(parse_color("1x2y"), Err(ColorError::Digit(b'x')));
    assert_eq!(parse_color("#12345"), Err(ColorError::Digit(b'#')));
    assert_eq!(parse_color("#1234567"), Err(ColorError::Digit(b'#')));
    assert_eq!(parse_color("aé"), Err(ColorError::Digit(0xc3)));
}

#[test]
fn color_errors_have_messages() {
    assert_eq!(
        ColorError::Format.message(),
        "format of color string should be '[#]RGB' or '[#]RRGGBB'"
    );
    assert_eq!(ColorError::Digit(b'g').message(), "byte was not a proper hex field 103");
    assert_eq!(ColorError::Digit(0).message(), "byte was not a proper hex field 0");
}
