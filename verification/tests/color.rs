use hyveos::color::{Theme, ThemeColor};
use hyveos::out::CommandOutput;

#[test]
fn theme_styles_are_bold_in_the_role_colour() {
    colored::control::set_override(true);
    let t = Theme::default();
    assert_eq!(t.info_msg("hi"), "\u{1b}[1;90mhi\u{1b}[0m");
    assert_eq!(t.field("v"), "\u{1b}[1;94mv\u{1b}[0m");
    let inner = t.field("v");
    let line = format!("a {inner} b");
    assert_eq!(t.result_msg(&line), "\u{1b}[1;90ma \u{1b}[1;94mv\u{1b}[0m\u{1b}[1;90m b\u{1b}[0m");
    let red = Theme { info: ThemeColor::Red, result: ThemeColor::Red, field: ThemeColor::Red };
    assert_eq!(red.info_msg("x"), "\u{1b}[1;31mx\u{1b}[0m");
    colored::control::set_override(false);
    assert_eq!(t.info_msg("hi"), "hi");
    colored::control::unset_override();
}

#[test]
fn json_of_a_result_succeeds_on_a_terminal_too() {
    let out = CommandOutput::Message("m".to_string());
    assert!(out.to_json(true).is_err());
    let mut s = String::new();
    let r = hyveos::reports::whoami("12D3KooW".to_string());
    assert!(r.write_json(&mut s, true).is_ok());
    assert!(s.ends_with('\n'));
    assert!(s.contains("12D3KooW"));
}
