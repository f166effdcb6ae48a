use catan_term::space::Size2D;
use catan_term::text::DrawableString;

#[test]
fn lines_and_extent() {
    let s = DrawableString::new("ab\ncde");
    assert_eq!(s.lines, vec!["ab", "cde"]);
    assert_eq!(s.size, Size2D::new(3, 2));
}

#[test]
fn crlf_endings_and_trailing_newline() {
    let s = DrawableString::new("one\r\ntwo\n");
    assert_eq!(s.lines, vec!["one", "two"]);
    assert_eq!(s.size, Size2D::new(3, 2));
}

#[test]
fn wide_glyphs_take_two_columns() {
    let s = DrawableString::new("🐑x\n?");
    assert_eq!(s.size, Size2D::new(3, 2));
}

#[test]
fn empty_string_has_no_extent() {
    let s = DrawableString::new("");
    assert!(s.lines.is_empty());
    assert_eq!(s.size, Size2D::new(0, 0));
}

#[test]
fn try_new_measures_like_new() {
    let s = DrawableString::try_new("🌾🌾\nx").unwrap();
    assert_eq!(s.size, Size2D::new(4, 2));
    assert_eq!(s.lines, vec!["🌾🌾", "x"]);
}
