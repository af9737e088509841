use hyveos::color::{Theme, ThemeColor};
use hyveos::out::{CommandOutput, JsonError};
use hyveos::output::CommandOutput as ShellOutput;
use hyveos::render::render_template;

#[test]
fn message_is_written_as_a_line() {
    let mut out = String::from("before\n");
    CommandOutput::message("hello").write(&mut out, None, false);
    assert_eq!(out, "before\nhello\n");
}

#[test]
fn result_fills_the_template_for_the_output() {
    let r = CommandOutput::result()
        .with_field("id", "42".to_string())
        .with_field("name", "node".to_string())
        .with_tty_template("{name} has id {id}!")
        .with_non_tty_template("{id}");
    let mut tty = String::new();
    r.write(&mut tty, None, true);
    assert_eq!(tty, "node has id 42!\n");
    let mut plain = String::new();
    r.write(&mut plain, None, false);
    assert_eq!(plain, "42\n");
}

#[test]
fn builders_only_change_results() {
    let m = CommandOutput::message("m").with_field("k", "v".to_string()).with_tty_template("x");
    let mut out = String::new();
    m.write(&mut out, None, true);
    assert_eq!(out, "m\n");
    let mut out = String::new();
    CommandOutput::progress(3).write(&mut out, None, true);
    CommandOutput::spinner("wait", &["a", "b"]).write(&mut out, None, false);
    assert_eq!(out, "");
}

#[test]
fn placeholders_are_replaced_everywhere_and_in_field_order() {
    let fields = vec![("a", "{b}".to_string()), ("b", "x".to_string())];
    assert_eq!(render_template("{a}-{a}-{b}", &fields), "x-x-x");
    let fields = vec![("a", "1".to_string())];
    assert_eq!(render_template("{c} {a", &fields), "{c} {a");
}

#[test]
fn json_of_a_result_is_pretty_and_other_outputs_have_none() {
    let r = CommandOutput::result()
        .with_field("a", "1".to_string())
        .with_field("b", "two".to_string());
    assert_eq!(r.to_json(false).unwrap(), "{\n  \"a\": \"1\",\n  \"b\": \"two\"\n}");
    let mut out = String::new();
    r.write_json(&mut out, false).unwrap();
    assert_eq!(out, "{\n  \"a\": \"1\",\n  \"b\": \"two\"\n}\n");
    assert_eq!(CommandOutput::result().to_json(false).unwrap(), "{}");
    assert_eq!(CommandOutput::message("m").to_json(false), Err(JsonError::NotAResult));
    let mut out = String::from("kept");
    assert_eq!(CommandOutput::progress(1).write_json(&mut out, true), Err(JsonError::NotAResult));
    assert_eq!(out, "kept");
}

#[test]
fn themed_message_still_shows_the_message() {
    let theme = Theme::default();
    assert_eq!(theme.info, ThemeColor::BrightBlack);
    assert_eq!(theme.field, ThemeColor::BrightBlue);
    let mut out = String::new();
    CommandOutput::message("hello").write(&mut out, Some(&theme), false);
    assert!(out.contains("hello"));
    assert!(out.ends_with('\n'));
    let mut out = String::new();
    CommandOutput::result()
        .with_field("k", "value".to_string())
        .with_non_tty_template("got {k}")
        .write(&mut out, Some(&theme), false);
    assert!(out.contains("got "));
    assert!(out.contains("value"));
}

#[test]
fn shell_output_writes_lines_and_json() {
    let mut out = String::new();
    ShellOutput::message("hi").write(&mut out, &None, false);
    ShellOutput::result()
        .with_field("x", "1".to_string())
        .with_non_tty_template("x={x}")
        .write(&mut out, &None, false);
    assert_eq!(out, "hi\nx=1\n");
    let mut json = String::new();
    ShellOutput::result().with_field("x", "1".to_string()).write_json(&mut json).unwrap();
    assert_eq!(json, "{\n  \"x\": \"1\"\n}\n");
    let mut line = String::new();
    ShellOutput::progress(5).safe_write_line(&mut line, "text");
    assert_eq!(line, "text\n");
}
