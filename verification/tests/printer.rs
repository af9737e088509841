use hyveos::printer::Printer;

#[test]
fn text_is_passed_on_a_line_at_a_time() {
    let mut p = Printer::new();
    assert_eq!(p.write_str("hel"), None);
    assert_eq!(p.write_str("lo\nwor"), Some("hello\n".to_string()));
    assert_eq!(p.write_str("ld\nmore\nand"), Some("world\nmore\n".to_string()));
    assert_eq!(p.flush(), "and");
    assert_eq!(p.flush(), "");
    assert_eq!(p.write_str("\n"), Some("\n".to_string()));
}
