//! How the command line client shows a command's outputs as they come: a progress bar
//! and a spinner on a terminal, JSON where asked for, lines otherwise.
use vstd::prelude::*;
use crate::color::{Theme, ThemeColor};
use crate::out::{CommandOutput, OutputView};

verus! {

/// Where one output goes.
#[derive(Clone, Copy, Debug, PartialEq, Eq)]
pub enum Route {
    /// Move the progress bar to `position`, after creating it where `create` is set.
    Progress { create: bool, position: u64 },
    /// Start a spinner with the output's ticks and message, in place of any earlier one.
    StartSpinner,
    /// Write the output's JSON text.
    Json,
    /// Print the output's line above the running spinner.
    AboveSpinner,
    /// Write the output's line.
    Line,
    /// Show nothing.
    Skip,
}

/// What the client knows while it shows outputs: whether it writes to a terminal,
/// whether JSON was asked for, and whether a progress bar and a spinner are running.
#[derive(Clone, Copy, Debug, PartialEq, Eq)]
pub struct Presenter {
    pub is_tty: bool,
    pub json: bool,
    pub progress_bar: bool,
    pub spinner: bool,
}

/// Where an output goes, and the presenter after it: progress moves a bar on a
/// terminal only; a spinner starts on a terminal without JSON only; anything else is
/// written as JSON where asked for, else above the spinner while one runs, else as a
/// line.
pub open spec fn route_of(p: Presenter, o: OutputView) -> (Route, Presenter) {
    match o {
        OutputView::Progress(position) => if p.is_tty {
            (Route::Progress { create: !p.progress_bar, position }, Presenter { progress_bar: true, ..p })
        } else {
            (Route::Skip, p)
        },
        OutputView::Spinner { .. } => if !p.is_tty || p.json {
            (Route::Skip, p)
        } else {
            (Route::StartSpinner, Presenter { spinner: true, ..p })
        },
        _ => if p.json {
            (Route::Json, p)
        } else if p.spinner {
            (Route::AboveSpinner, p)
        } else {
            (Route::Line, p)
        },
    }
}

impl Presenter {
    /// Nothing is running yet.
    pub fn new(is_tty: bool, json: bool) -> (r: Presenter)
        ensures
            r == (Presenter { is_tty, json, progress_bar: false, spinner: false }),
    {
        Presenter { is_tty, json, progress_bar: false, spinner: false }
    }

    /// The colours of lines: the default theme on a terminal, none elsewhere.
    pub fn theme(&self) -> (r: Option<Theme>)
        ensures
            r is Some <==> self.is_tty,
            r matches Some(t) ==> t.info == ThemeColor::BrightBlack && t.result == ThemeColor::BrightBlack
                && t.field == ThemeColor::BrightBlue,
    {
        if self.is_tty {
            Some(Theme::default())
        } else {
            None
        }
    }

    /// Where `output` goes; a progress bar or a spinner that it starts is running
    /// afterwards.
    pub fn route(&mut self, output: &CommandOutput) -> (r: Route)
        ensures
            (r, *final(self)) == route_of(*old(self), output@),
    {
        match output {
            CommandOutput::Progress(position) => {
                if self.is_tty {
                    let create = !self.progress_bar;
                    self.progress_bar = true;
                    Route::Progress { create, position: *position }
                } else {
                    Route::Skip
                }
            },
            CommandOutput::Spinner { .. } => {
                if !self.is_tty || self.json {
                    Route::Skip
                } else {
                    self.spinner = true;
                    Route::StartSpinner
                }
            },
            _ => {
                if self.json {
                    Route::Json
                } else if self.spinner {
                    Route::AboveSpinner
                } else {
                    Route::Line
                }
            },
        }
    }

    /// Output that is not a terminal is flushed after each output.
    pub fn flushes(&self) -> (r: bool)
        ensures
            r == !self.is_tty,
    {
        !self.is_tty
    }

    /// What is cleared at the end: the progress bar, and the spinner, where they run.
    pub fn finish(&self) -> (r: (bool, bool))
        ensures
            r == (self.progress_bar, self.spinner),
    {
        (self.progress_bar, self.spinner)
    }
}

/// Off a terminal nothing but lines and JSON is ever shown: no bar and no spinner
/// starts, whatever comes.
pub proof fn lemma_no_bars_off_terminal(p: Presenter, o: OutputView)
    requires
        !p.is_tty,
    ensures
        route_of(p, o).1 == p,
        !(route_of(p, o).0 is Progress),
        route_of(p, o).0 != Route::StartSpinner,
{
}

/// Where JSON is asked for, no output is written as a line: messages and results go
/// out as JSON.
pub proof fn lemma_json_only(p: Presenter, o: OutputView)
    requires
        p.json,
    ensures
        route_of(p, o).0 != Route::Line,
        route_of(p, o).0 != Route::AboveSpinner,
{
}

/// Where a run of outputs goes, one after another from `p`, and the presenter after it.
pub open spec fn routes_of(p: Presenter, os: Seq<OutputView>) -> (Seq<Route>, Presenter)
    decreases os.len(),
{
    if os.len() == 0 {
        (Seq::empty(), p)
    } else {
        let (rs, q) = routes_of(p, os.drop_last());
        let (r, q2) = route_of(q, os.last());
        (rs.push(r), q2)
    }
}

/// What runs keeps running until the end: a progress bar or a spinner, once started, is
/// still there after any output, and the terminal and JSON settings never change.
pub proof fn lemma_running_stays(p: Presenter, o: OutputView)
    ensures
        p.spinner ==> route_of(p, o).1.spinner,
        p.progress_bar ==> route_of(p, o).1.progress_bar,
        route_of(p, o).1.is_tty == p.is_tty,
        route_of(p, o).1.json == p.json,
{
}

/// The same over any run of outputs.
pub proof fn lemma_running_stays_over_run(p: Presenter, os: Seq<OutputView>)
    ensures
        p.spinner ==> routes_of(p, os).1.spinner,
        p.progress_bar ==> routes_of(p, os).1.progress_bar,
        routes_of(p, os).1.is_tty == p.is_tty,
        routes_of(p, os).1.json == p.json,
    decreases os.len(),
{
    if os.len() > 0 {
        lemma_running_stays_over_run(p, os.drop_last());
        lemma_running_stays(routes_of(p, os.drop_last()).1, os.last());
    }
}

/// Once a spinner has started, whatever outputs follow (progress values among them), a
/// message or a result is printed above the spinner, and the spinner is cleared at the
/// end.
pub proof fn lemma_lines_go_above_a_started_spinner(p: Presenter, spinner: OutputView, os: Seq<OutputView>, o: OutputView)
    requires
        spinner is Spinner,
        route_of(p, spinner).0 == Route::StartSpinner,
        o is Message || o is Result,
    ensures
        route_of(routes_of(route_of(p, spinner).1, os).1, o).0 == Route::AboveSpinner,
        routes_of(route_of(p, spinner).1, os).1.spinner,
{
    let q = route_of(p, spinner).1;
    lemma_running_stays_over_run(q, os);
}

/// The progress bar is created once: of two progress values in a row on a terminal,
/// the first creates the bar only where none runs yet, and the second never does; both
/// move it to their own position.
pub proof fn lemma_bar_created_once(p: Presenter, x: u64, y: u64)
    requires
        p.is_tty,
    ensures
        route_of(p, OutputView::Progress(x)).0 == (Route::Progress { create: !p.progress_bar, position: x }),
        route_of(route_of(p, OutputView::Progress(x)).1, OutputView::Progress(y)).0
            == (Route::Progress { create: false, position: y }),
{
}

} // verus!
