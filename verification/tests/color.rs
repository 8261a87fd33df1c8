use lsystem_tree::parse_color;
use lsystem_tree::parse_color_tuple;
use lsystem_tree::parse_u8;

#[test]
fn color_plain() {
    assert_eq!(parse_color(b"(0,0,0)"), Some((0, 0, 0)));
    assert_eq!(parse_color(b"(144, 238, 144)"), Some((144, 238, 144)));
    assert_eq!(parse_color(b"(255, 255, 255)"), Some((255, 255, 255)));
}

#[test]
fn color_whitespace_before_numbers() {
    assert_eq!(parse_color(b"( 1,\t2,\n3)"), Some((1, 2, 3)));
    assert_eq!(parse_color(b"(\r\n10, 20, 30)"), Some((10, 20, 30)));
}

#[test]
fn color_leading_zeros() {
    assert_eq!(parse_color(b"(001, 02, 0)"), Some((1, 2, 0)));
    assert_eq!(parse_color(b"(00000000255, 0, 0)"), Some((255, 0, 0)));
}

#[test]
fn color_value_too_large() {
    assert_eq!(parse_color(b"(256, 0, 0)"), None);
    assert_eq!(parse_color(b"(0, 999, 0)"), None);
    assert_eq!(parse_color(b"(0, 0, 123456789123456789)"), None);
}

#[test]
fn color_malformed() {
    assert_eq!(parse_color(b""), None);
    assert_eq!(parse_color(b"1, 2, 3)"), None);
    assert_eq!(parse_color(b"(1, 2)"), None);
    assert_eq!(parse_color(b"(1, 2, 3"), None);
    assert_eq!(parse_color(b"(1, 2, )"), None);
    assert_eq!(parse_color(b"(, 2, 3)"), None);
    // Whitespace is accepted before a number, not after it.
    assert_eq!(parse_color(b"(1 , 2, 3)"), None);
    assert_eq!(parse_color(b"(-1, 2, 3)"), None);
}

#[test]
fn color_trailing_input_is_ignored() {
    assert_eq!(parse_color(b"(1, 2, 3) and more"), Some((1, 2, 3)));
}

#[test]
fn color_tuple_reports_the_next_position() {
    let input = b"(1, 2, 3)xyz";
    let (rgb, next) = parse_color_tuple(input, 0).unwrap();
    assert_eq!(rgb, (1, 2, 3));
    assert_eq!(next, 9);
    assert_eq!(parse_color_tuple(input, 1), None);
}

#[test]
fn number_parsing() {
    assert_eq!(parse_u8(b"  42,", 0), Some((42, 4)));
    assert_eq!(parse_u8(b"0", 0), Some((0, 1)));
    assert_eq!(parse_u8(b"256", 0), None);
    assert_eq!(parse_u8(b"x1", 0), None);
    assert_eq!(parse_u8(b"  ", 0), None);
}
