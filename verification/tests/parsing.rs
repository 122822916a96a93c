//! Tokenizer behaviour: recognised letters, trimming, signs, decimal
//! precision, comments, and the syntax errors of malformed lines.

use gcode_timer::errors::GcodeError;
use gcode_timer::lineparser::{parse_line, Codes};

#[test]
fn simple_line() {
    let r = parse_line("G1 X10.5 F600").unwrap().unwrap();
    assert_eq!(r, vec![Codes::G(1), Codes::X(10500), Codes::F(600000)]);
}

#[test]
fn comment_line_is_ignored() {
    assert_eq!(parse_line("(this is a comment G1 X10)").unwrap(), None);
}

#[test]
fn empty_line_is_ignored() {
    assert_eq!(parse_line("").unwrap(), None);
}

#[test]
fn two_letters_without_value_is_syntax_error() {
    assert_eq!(parse_line("XY10").unwrap_err(), GcodeError::SyntaxError);
}

#[test]
fn trailing_letter_without_value_is_syntax_error() {
    assert_eq!(parse_line("G").unwrap_err(), GcodeError::SyntaxError);
}

#[test]
fn fractional_g_value_is_syntax_error() {
    assert_eq!(parse_line("G1.5").unwrap_err(), GcodeError::SyntaxError);
}

#[test]
fn g_value_above_byte_range_is_syntax_error() {
    assert_eq!(parse_line("G256").unwrap_err(), GcodeError::SyntaxError);
}

#[test]
fn unrecognized_letter_is_skipped() {
    let r = parse_line("A5 G1").unwrap().unwrap();
    assert_eq!(r, vec![Codes::G(1)]);
}

#[test]
fn negative_coordinate() {
    let r = parse_line("X-3.25").unwrap().unwrap();
    assert_eq!(r, vec![Codes::X(-3250)]);
}

#[test]
fn spaces_between_letter_and_value_are_trimmed() {
    let r = parse_line("G 1 X 10").unwrap().unwrap();
    assert_eq!(r, vec![Codes::G(1), Codes::X(10000)]);
}

#[test]
fn lower_case_letters_are_uppercased() {
    let r = parse_line("g1 x10").unwrap().unwrap();
    assert_eq!(r, vec![Codes::G(1), Codes::X(10000)]);
}

#[test]
fn fourth_decimal_digit_is_truncated() {
    let r = parse_line("X1.2345").unwrap().unwrap();
    assert_eq!(r, vec![Codes::X(1234)]);
}

#[test]
fn short_fraction_is_padded() {
    let r = parse_line("X1.2").unwrap().unwrap();
    assert_eq!(r, vec![Codes::X(1200)]);
}

#[test]
fn bare_fraction_and_trailing_point() {
    assert_eq!(parse_line(".5X").unwrap_err(), GcodeError::SyntaxError);
    let r = parse_line("X.5 Y5.").unwrap().unwrap();
    assert_eq!(r, vec![Codes::X(500), Codes::Y(5000)]);
}

#[test]
fn lone_point_is_syntax_error() {
    assert_eq!(parse_line("X.").unwrap_err(), GcodeError::SyntaxError);
}

#[test]
fn coordinate_beyond_range_is_syntax_error() {
    assert_eq!(parse_line("X99999999").unwrap_err(), GcodeError::SyntaxError);
}

#[test]
fn two_dots_are_a_syntax_error() {
    assert_eq!(parse_line("X1.2.3").unwrap_err(), GcodeError::SyntaxError);
}

#[test]
fn plus_sign_is_accepted() {
    let r = parse_line("X+2 G+1").unwrap().unwrap();
    assert_eq!(r, vec![Codes::X(2000), Codes::G(1)]);
}

#[test]
fn all_axis_letters() {
    let r = parse_line("X1 Y2 Z3 I4 J5 K6 F7 T8 M9").unwrap().unwrap();
    assert_eq!(
        r,
        vec![
            Codes::X(1000),
            Codes::Y(2000),
            Codes::Z(3000),
            Codes::I(4000),
            Codes::J(5000),
            Codes::K(6000),
            Codes::F(7000),
            Codes::T(8),
            Codes::M(9),
        ]
    );
}
