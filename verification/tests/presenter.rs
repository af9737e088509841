use hyveos::color::ThemeColor;
use hyveos::out::CommandOutput;
use hyveos::presenter::{Presenter, Route};

fn spinner() -> CommandOutput {
    CommandOutput::Spinner { tick_strings: vec!["-".to_string(), "+".to_string()], message: "waiting".to_string() }
}

#[test]
fn terminal_shows_a_bar_created_once_and_lines_above_the_spinner() {
    let mut p = Presenter::new(true, false);
    assert_eq!(p.route(&CommandOutput::Progress(10)), Route::Progress { create: true, position: 10 });
    assert_eq!(p.route(&CommandOutput::Progress(20)), Route::Progress { create: false, position: 20 });
    assert_eq!(p.route(&CommandOutput::Message("hi".to_string())), Route::Line);
    assert_eq!(p.route(&spinner()), Route::StartSpinner);
    assert_eq!(p.route(&CommandOutput::Message("hi".to_string())), Route::AboveSpinner);
    assert!(!p.flushes());
    assert_eq!(p.finish(), (true, true));
    let t = p.theme().unwrap();
    assert_eq!(t.field, ThemeColor::BrightBlue);
}

#[test]
fn off_a_terminal_no_bar_no_spinner_and_a_flush_after_each_output() {
    let mut p = Presenter::new(false, false);
    assert_eq!(p.route(&CommandOutput::Progress(10)), Route::Skip);
    assert_eq!(p.route(&spinner()), Route::Skip);
    assert_eq!(p.route(&CommandOutput::Message("hi".to_string())), Route::Line);
    assert!(p.flushes());
    assert_eq!(p.finish(), (false, false));
    assert!(p.theme().is_none());
}

#[test]
fn json_takes_messages_and_results_but_not_spinners() {
    let mut p = Presenter::new(true, true);
    assert_eq!(p.route(&spinner()), Route::Skip);
    assert_eq!(p.route(&CommandOutput::Message("hi".to_string())), Route::Json);
    assert_eq!(p.route(&CommandOutput::Progress(5)), Route::Progress { create: true, position: 5 });
    assert_eq!(p.finish(), (true, false));
}
