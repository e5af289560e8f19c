use wallst::color::{color_from_str, color_to_hex, is_alpha, is_valid_color, Color};
use wallst::error::WallError;

#[test]
fn parses_upper_case_color() {
    let c = color_from_str("#1A2B3C").unwrap();
    assert_eq!(c, Color { r: 0x1A, g: 0x2B, b: 0x3C, a: 255 });
}

#[test]
fn parses_lower_case_color() {
    let c = color_from_str("#ff00aa").unwrap();
    assert_eq!(c, Color { r: 255, g: 0, b: 170, a: 255 });
}

#[test]
fn parses_digits_only_color() {
    let c = color_from_str("#012345").unwrap();
    assert_eq!(c, Color { r: 0x01, g: 0x23, b: 0x45, a: 255 });
}

#[test]
fn round_trips_upper_case_color() {
    let s = "#0FA9CE";
    let c = color_from_str(s).unwrap();
    assert_eq!(color_to_hex(c), s);
}

#[test]
fn round_trips_black_and_white() {
    assert_eq!(color_to_hex(color_from_str("#000000").unwrap()), "#000000");
    assert_eq!(color_to_hex(color_from_str("#FFFFFF").unwrap()), "#FFFFFF");
}

#[test]
fn encodes_lower_case_input_upper() {
    let c = color_from_str("#ff00aa").unwrap();
    assert_eq!(color_to_hex(c), "#FF00AA");
}

#[test]
fn rejects_wrong_length() {
    assert_eq!(color_from_str("#12345"), Err(WallError::InvalidColorFormat));
    assert_eq!(color_from_str("#1234567"), Err(WallError::InvalidColorFormat));
    assert_eq!(color_from_str(""), Err(WallError::InvalidColorFormat));
}

#[test]
fn rejects_missing_hash() {
    assert_eq!(color_from_str("1234567"), Err(WallError::InvalidColorFormat));
    assert_eq!(color_from_str("x123456"), Err(WallError::InvalidColorFormat));
}

#[test]
fn rejects_non_hex_digit() {
    assert_eq!(color_from_str("#12G456"), Err(WallError::InvalidColorFormat));
    assert_eq!(color_from_str("#12345z"), Err(WallError::InvalidColorFormat));
    assert_eq!(color_from_str("#α12345"), Err(WallError::InvalidColorFormat));
}

#[test]
fn validator_accepts_valid_color() {
    assert_eq!(is_valid_color(String::from("#abcdef")), Ok(()));
}

#[test]
fn validator_reports_malformed_color() {
    let r = is_valid_color(String::from("abcdef"));
    assert_eq!(r, Err(String::from("Colors must be in the form #RRGGBB")));
}

#[test]
fn alpha_accepts_decimal_bytes() {
    assert_eq!(is_alpha(String::from("0")), Ok(()));
    assert_eq!(is_alpha(String::from("255")), Ok(()));
    assert_eq!(is_alpha(String::from("+128")), Ok(()));
    assert_eq!(is_alpha(String::from("000000255")), Ok(()));
}

#[test]
fn alpha_rejects_out_of_range_and_garbage() {
    let msg = String::from("Alpha must be an integer from 0-255");
    assert_eq!(is_alpha(String::from("256")), Err(msg.clone()));
    assert_eq!(is_alpha(String::from("-1")), Err(msg.clone()));
    assert_eq!(is_alpha(String::from("")), Err(msg.clone()));
    assert_eq!(is_alpha(String::from("+")), Err(msg.clone()));
    assert_eq!(is_alpha(String::from("12a")), Err(msg.clone()));
    assert_eq!(is_alpha(String::from(" 12")), Err(msg));
}
