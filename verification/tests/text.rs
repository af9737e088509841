use hyveos::color::{color_name_of, ThemeColor};
use hyveos::text::{split_whitespace, starts_with_exec, trim};

#[test]
fn trim_drops_spaces_tabs_and_line_breaks_at_both_ends() {
    assert_eq!(trim("\t a b \r\n"), "a b");
    assert_eq!(trim("   "), "");
    assert_eq!(trim("x"), "x");
}

#[test]
fn words_are_split_on_white_space() {
    assert_eq!(split_whitespace("  a  b\tc "), vec!["a".to_string(), "b".to_string(), "c".to_string()]);
    assert!(split_whitespace(" \n ").is_empty());
    assert!(starts_with_exec("KAD GET", "KAD"));
    assert!(!starts_with_exec("KA", "KAD"));
}

#[test]
fn colour_names() {
    assert_eq!(color_name_of(ThemeColor::BrightBlue), "bright blue");
    assert_eq!(color_name_of(ThemeColor::TrueColor { r: 255, g: 0, b: 16 }), "#ff0010");
}
