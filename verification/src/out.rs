//! What a command of the command line client hands back to be shown.
use vstd::prelude::*;
use crate::color::{Theme, is_bold_in, are_bold_in};
use crate::render::{fields_view, render_fields, render_template, json_pretty_object, json_colored_object, json_object_pretty, json_object_colored};
use crate::text::{chars_of, string_of, extend_chars};

verus! {

/// One piece of output of a command.
#[derive(Clone, Debug)]
pub enum CommandOutput {
    Message(String),
    Result {
        fields: Vec<(&'static str, String)>,
        tty_template: String,
        non_tty_template: String,
    },
    Progress(u64),
    Spinner {
        tick_strings: Vec<String>,
        message: String,
    },
}

/// The abstract value of a `CommandOutput`.
pub enum OutputView {
    Message(Seq<char>),
    Result {
        fields: Seq<(Seq<char>, Seq<char>)>,
        tty_template: Seq<char>,
        non_tty_template: Seq<char>,
    },
    Progress(u64),
    Spinner {
        tick_strings: Seq<Seq<char>>,
        message: Seq<char>,
    },
}

/// Why a command output has no JSON form.
#[derive(Clone, Copy, Debug, PartialEq, Eq)]
pub enum JsonError {
    /// Only results are written as JSON.
    NotAResult,
    /// The JSON serializer failed.
    Serialize,
}

impl View for CommandOutput {
    type V = OutputView;

    open spec fn view(&self) -> OutputView {
        match self {
            CommandOutput::Message(m) => OutputView::Message(m@),
            CommandOutput::Result { fields, tty_template, non_tty_template } => OutputView::Result {
                fields: fields_view(fields@),
                tty_template: tty_template@,
                non_tty_template: non_tty_template@,
            },
            CommandOutput::Progress(p) => OutputView::Progress(*p),
            CommandOutput::Spinner { tick_strings, message } => OutputView::Spinner {
                tick_strings: tick_strings@.map_values(|s: String| s@),
                message: message@,
            },
        }
    }
}

impl OutputView {
    /// Adds a field to a result; anything else is unchanged.
    pub open spec fn with_field(self, key: Seq<char>, value: Seq<char>) -> OutputView {
        match self {
            OutputView::Result { fields, tty_template, non_tty_template } => OutputView::Result {
                fields: fields.push((key, value)),
                tty_template,
                non_tty_template,
            },
            _ => self,
        }
    }

    /// Sets the template of a result for terminals; anything else is unchanged.
    pub open spec fn with_tty_template(self, template: Seq<char>) -> OutputView {
        match self {
            OutputView::Result { fields, tty_template, non_tty_template } => OutputView::Result {
                fields,
                tty_template: template,
                non_tty_template,
            },
            _ => self,
        }
    }

    /// Sets the template of a result for other outputs; anything else is unchanged.
    pub open spec fn with_non_tty_template(self, template: Seq<char>) -> OutputView {
        match self {
            OutputView::Result { fields, tty_template, non_tty_template } => OutputView::Result {
                fields,
                tty_template,
                non_tty_template: template,
            },
            _ => self,
        }
    }

    /// The line written for this output without a theme (without its line break), or
    /// `None` where nothing is written.
    pub open spec fn plain_line(self, is_tty: bool) -> Option<Seq<char>> {
        match self {
            OutputView::Message(m) => Some(m),
            OutputView::Result { fields, tty_template, non_tty_template } => Some(
                render_fields(if is_tty { tty_template } else { non_tty_template }, fields),
            ),
            _ => None,
        }
    }
}

/// A line followed by a line break.
pub open spec fn line(s: Seq<char>) -> Seq<char> {
    s.push('\n')
}

/// Appends `text` and a line break to `output_stream`.
pub(crate) fn write_line(output_stream: &mut String, text: &str)
    ensures
        final(output_stream)@ == old(output_stream)@ + line(text@),
{
    let mut v = chars_of(text);
    v.push('\n');
    let s = string_of(&v);
    output_stream.append(s.as_str());
    assert(final(output_stream)@ =~= old(output_stream)@ + line(text@));
}

impl CommandOutput {
    pub fn message(message: &str) -> (r: Self)
        ensures
            r@ == OutputView::Message(message@),
    {
        CommandOutput::Message(message.to_owned())
    }

    pub fn result() -> (r: Self)
        ensures
            r@ == (OutputView::Result {
                fields: Seq::empty(),
                tty_template: Seq::empty(),
                non_tty_template: Seq::empty(),
            }),
    {
        let r = CommandOutput::Result {
            fields: Vec::new(),
            tty_template: String::new(),
            non_tty_template: String::new(),
        };
        assert(r@ == (OutputView::Result {
            fields: Seq::empty(),
            tty_template: Seq::empty(),
            non_tty_template: Seq::empty(),
        })) by {
            assert(fields_view(Seq::<(&'static str, String)>::empty()) =~= Seq::empty());
        }
        r
    }

    pub fn progress(progress: u64) -> (r: Self)
        ensures
            r@ == OutputView::Progress(progress),
    {
        CommandOutput::Progress(progress)
    }

    pub fn spinner(message: &str, tick_strings: &[&str]) -> (r: Self)
        ensures
            r@ == (OutputView::Spinner {
                tick_strings: tick_strings@.map_values(|s: &str| s@),
                message: message@,
            }),
    {
        let mut ticks: Vec<String> = Vec::new();
        let mut i: usize = 0;
        while i < tick_strings.len()
            invariant
                i <= tick_strings.len(),
                ticks@.map_values(|s: String| s@) =~= tick_strings@.take(i as int).map_values(|s: &str| s@),
            decreases tick_strings.len() - i,
        {
            let t: &str = tick_strings[i];
            let owned: String = t.to_owned();
            assert(owned@ == tick_strings@[i as int]@);
            let ghost old_ticks = ticks@;
            ticks.push(owned);
            assert(tick_strings@.take(i + 1) =~= tick_strings@.take(i as int).push(t));
            assert(ticks@.map_values(|s: String| s@) =~= old_ticks.map_values(|s: String| s@).push(t@));
            assert(tick_strings@.take(i + 1).map_values(|s: &str| s@) =~= tick_strings@.take(i as int).map_values(|s: &str| s@).push(t@));
            i = i + 1;
        }
        assert(tick_strings@.take(i as int) =~= tick_strings@);
        CommandOutput::Spinner { tick_strings: ticks, message: message.to_owned() }
    }

    pub fn with_field(self, key: &'static str, value: String) -> (r: Self)
        ensures
            r@ == self@.with_field(key@, value@),
    {
        match self {
            CommandOutput::Result { fields, tty_template, non_tty_template } => {
                let mut fields = fields;
                let ghost old_fields = fields@;
                fields.push((key, value));
                assert(fields_view(fields@) =~= fields_view(old_fields).push((key@, value@)));
                CommandOutput::Result { fields, tty_template, non_tty_template }
            },
            other => other,
        }
    }

    pub fn with_tty_template(self, template: &'static str) -> (r: Self)
        ensures
            r@ == self@.with_tty_template(template@),
    {
        match self {
            CommandOutput::Result { fields, tty_template, non_tty_template } => {
                CommandOutput::Result { fields, tty_template: template.to_owned(), non_tty_template }
            },
            other => other,
        }
    }

    pub fn with_non_tty_template(self, template: &'static str) -> (r: Self)
        ensures
            r@ == self@.with_non_tty_template(template@),
    {
        match self {
            CommandOutput::Result { fields, tty_template, non_tty_template } => {
                CommandOutput::Result { fields, tty_template, non_tty_template: template.to_owned() }
            },
            other => other,
        }
    }

    /// The JSON text of a result: pretty JSON where the output is not a terminal, JSON
    /// coloured for the terminal where it is (plain pretty JSON where the environment
    /// turns colours off).
    pub fn to_json(&self, is_tty: bool) -> (r: Result<String, JsonError>)
        ensures
            !(self@ is Result) <==> r == Err::<String, JsonError>(JsonError::NotAResult),
            self@ matches OutputView::Result { fields, .. } ==> r matches Ok(t)
                && (json_pretty_object(fields) == Some(t@) || (is_tty && t@ == json_colored_object(fields))),
    {
        match self {
            CommandOutput::Result { fields, .. } => {
                let s = if is_tty {
                    json_object_colored(fields)
                } else {
                    json_object_pretty(fields)
                };
                match s {
                    Some(s) => Ok(s),
                    None => Err(JsonError::Serialize),
                }
            },
            _ => Err(JsonError::NotAResult),
        }
    }

    /// Appends the JSON text of a result and a line break to `output_stream`; on an
    /// error nothing is written.
    pub fn write_json(&self, output_stream: &mut String, is_tty: bool) -> (r: Result<(), JsonError>)
        ensures
            !(self@ is Result) <==> r == Err::<(), JsonError>(JsonError::NotAResult),
            r is Err ==> final(output_stream)@ == old(output_stream)@,
            self@ matches OutputView::Result { fields, .. } ==> r is Ok && (
                (json_pretty_object(fields) matches Some(s) && final(output_stream)@ == old(output_stream)@ + line(s))
                || (is_tty && final(output_stream)@ == old(output_stream)@ + line(json_colored_object(fields)))),
    {
        let out = self.to_json(is_tty);
        match out {
            Ok(s) => {
                write_line(output_stream, s.as_str());
                Ok(())
            },
            Err(e) => Err(e),
        }
    }

    /// Appends the output's line to `output_stream`: a message as it is, a result as
    /// its template (for terminals or not) with its fields filled in; a progress value
    /// or a spinner writes nothing. With a theme, messages, field values and result
    /// lines are in bold and the theme's colours.
    pub fn write(&self, output_stream: &mut String, theme: Option<&Theme>, is_tty: bool)
        ensures
            theme is None ==> match self@.plain_line(is_tty) {
                Some(l) => final(output_stream)@ == old(output_stream)@ + line(l),
                None => final(output_stream)@ == old(output_stream)@,
            },
            theme matches Some(t) ==> match self@ {
                OutputView::Message(m) => exists|s: Seq<char>| #[trigger] is_bold_in(s, m, t.info)
                    && final(output_stream)@ == old(output_stream)@ + line(s),
                OutputView::Result { fields, tty_template, non_tty_template } =>
                    exists|styled: Seq<(Seq<char>, Seq<char>)>, s: Seq<char>|
                    #![trigger are_bold_in(styled, fields, t.field), is_bold_in(s, render_fields(tty_template, styled), t.result)]
                    #![trigger are_bold_in(styled, fields, t.field), is_bold_in(s, render_fields(non_tty_template, styled), t.result)]
                    are_bold_in(styled, fields, t.field)
                    && is_bold_in(s, render_fields(if is_tty { tty_template } else { non_tty_template }, styled), t.result)
                    && final(output_stream)@ == old(output_stream)@ + line(s),
                _ => final(output_stream)@ == old(output_stream)@,
            },
    {
        match self {
            CommandOutput::Message(message) => {
                match theme {
                    Some(t) => {
                        let styled = t.info_msg(message.as_str());
                        write_line(output_stream, styled.as_str());
                    },
                    None => {
                        write_line(output_stream, message.as_str());
                    },
                }
            },
            CommandOutput::Result { fields, tty_template, non_tty_template } => {
                let template = if is_tty { tty_template } else { non_tty_template };
                match theme {
                    None => {
                        let output = render_template(template.as_str(), fields);
                        write_line(output_stream, output.as_str());
                    },
                    Some(t) => {
                        let mut styled: Vec<(&'static str, String)> = Vec::new();
                        let mut i: usize = 0;
                        while i < fields.len()
                            invariant
                                i <= fields.len(),
                                styled.len() == i,
                                forall|j: int| #![trigger styled@[j]] 0 <= j < i ==> styled@[j].0@ == fields@[j].0@
                                    && is_bold_in(styled@[j].1@, fields@[j].1@, t.field),
                            decreases fields.len() - i,
                        {
                            let v = t.field(fields[i].1.as_str());
                            styled.push((fields[i].0, v));
                            i = i + 1;
                        }
                        let output = render_template(template.as_str(), &styled);
                        let final_line = t.result_msg(output.as_str());
                        proof {
                            let sv = fields_view(styled@);
                            let fv = fields_view(fields@);
                            assert forall|j: int| #![trigger sv[j]] 0 <= j < sv.len() implies sv[j].0 == fv[j].0
                                && is_bold_in(sv[j].1, fv[j].1, t.field) by {
                                assert(styled@[j].0@ == fields@[j].0@);
                            }
                            assert(are_bold_in(sv, fv, t.field));
                            assert(is_bold_in(final_line@, render_fields(template@, sv), t.result));
                        }
                        write_line(output_stream, final_line.as_str());
                    },
                }
            },
            _ => {},
        }
    }
}

} // verus!
