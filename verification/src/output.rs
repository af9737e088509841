//! The earlier form of the command output type, whose JSON is always plain.
use vstd::prelude::*;
use crate::color::{Theme, is_bold_in, are_bold_in};
use crate::out::{OutputView, JsonError, line, write_line};
use crate::render::{fields_view, render_fields, render_template, json_pretty_object, json_object_pretty};

verus! {

/// One piece of output of a command.
#[derive(Clone, Debug)]
pub enum CommandOutput {
    Message(String),
    Result {
        fields: Vec<(&'static str, String)>,
        tty_template: String,
        non_tty_template: String,
    },
    Progress(u64),
    Spinner {
        tick_strings: Vec<String>,
        message: String,
    },
}

impl View for CommandOutput {
    type V = OutputView;

    open spec fn view(&self) -> OutputView {
        match self {
            CommandOutput::Message(m) => OutputView::Message(m@),
            CommandOutput::Result { fields, tty_template, non_tty_template } => OutputView::Result {
                fields: fields_view(fields@),
                tty_template: tty_template@,
                non_tty_template: non_tty_template@,
            },
            CommandOutput::Progress(p) => OutputView::Progress(*p),
            CommandOutput::Spinner { tick_strings, message } => OutputView::Spinner {
                tick_strings: tick_strings@.map_values(|s: String| s@),
                message: message@,
            },
        }
    }
}

impl CommandOutput {
    pub fn message(message: &str) -> (r: Self)
        ensures
            r@ == OutputView::Message(message@),
    {
        CommandOutput::Message(message.to_owned())
    }

    pub fn result() -> (r: Self)
        ensures
            r@ == (OutputView::Result {
                fields: Seq::empty(),
                tty_template: Seq::empty(),
                non_tty_template: Seq::empty(),
            }),
    {
        let r = CommandOutput::Result {
            fields: Vec::new(),
            tty_template: String::new(),
            non_tty_template: String::new(),
        };
        assert(r@ == (OutputView::Result {
            fields: Seq::empty(),
            tty_template: Seq::empty(),
            non_tty_template: Seq::empty(),
        })) by {
            assert(fields_view(Seq::<(&'static str, String)>::empty()) =~= Seq::empty());
        }
        r
    }

    pub fn progress(progress: u64) -> (r: Self)
        ensures
            r@ == OutputView::Progress(progress),
    {
        CommandOutput::Progress(progress)
    }

    pub fn spinner(message: &str, tick_strings: &[&str]) -> (r: Self)
        ensures
            r@ == (OutputView::Spinner {
                tick_strings: tick_strings@.map_values(|s: &str| s@),
                message: message@,
            }),
    {
        let mut ticks: Vec<String> = Vec::new();
        let mut i: usize = 0;
        while i < tick_strings.len()
            invariant
                i <= tick_strings.len(),
                ticks@.map_values(|s: String| s@) =~= tick_strings@.take(i as int).map_values(|s: &str| s@),
            decreases tick_strings.len() - i,
        {
            let t: &str = tick_strings[i];
            let owned: String = t.to_owned();
            assert(owned@ == tick_strings@[i as int]@);
            let ghost old_ticks = ticks@;
            ticks.push(owned);
            assert(tick_strings@.take(i + 1) =~= tick_strings@.take(i as int).push(t));
            assert(ticks@.map_values(|s: String| s@) =~= old_ticks.map_values(|s: String| s@).push(t@));
            assert(tick_strings@.take(i + 1).map_values(|s: &str| s@) =~= tick_strings@.take(i as int).map_values(|s: &str| s@).push(t@));
            i = i + 1;
        }
        assert(tick_strings@.take(i as int) =~= tick_strings@);
        CommandOutput::Spinner { tick_strings: ticks, message: message.to_owned() }
    }

    pub fn with_field(self, key: &'static str, value: String) -> (r: Self)
        ensures
            r@ == self@.with_field(key@, value@),
    {
        match self {
            CommandOutput::Result { fields, tty_template, non_tty_template } => {
                let mut fields = fields;
                let ghost old_fields = fields@;
                fields.push((key, value));
                assert(fields_view(fields@) =~= fields_view(old_fields).push((key@, value@)));
                CommandOutput::Result { fields, tty_template, non_tty_template }
            },
            other => other,
        }
    }

    pub fn with_tty_template(self, template: &'static str) -> (r: Self)
        ensures
            r@ == self@.with_tty_template(template@),
    {
        match self {
            CommandOutput::Result { fields, tty_template, non_tty_template } => {
                CommandOutput::Result { fields, tty_template: template.to_owned(), non_tty_template }
            },
            other => other,
        }
    }

    pub fn with_non_tty_template(self, template: &'static str) -> (r: Self)
        ensures
            r@ == self@.with_non_tty_template(template@),
    {
        match self {
            CommandOutput::Result { fields, tty_template, non_tty_template } => {
                CommandOutput::Result { fields, tty_template, non_tty_template: template.to_owned() }
            },
            other => other,
        }
    }

    /// The pretty JSON text of a result.
    pub fn to_json(&self) -> (r: Result<String, JsonError>)
        ensures
            !(self@ is Result) <==> r == Err::<String, JsonError>(JsonError::NotAResult),
            self@ matches OutputView::Result { fields, .. } ==> r matches Ok(t)
                && json_pretty_object(fields) == Some(t@),
    {
        match self {
            CommandOutput::Result { fields, .. } => {
                match json_object_pretty(fields) {
                    Some(s) => Ok(s),
                    None => Err(JsonError::Serialize),
                }
            },
            _ => Err(JsonError::NotAResult),
        }
    }

    /// Appends `line` and a line break to `output_stream`.
    pub fn safe_write_line(&self, output_stream: &mut String, line_text: &str)
        ensures
            final(output_stream)@ == old(output_stream)@ + line(line_text@),
    {
        write_line(output_stream, line_text)
    }

    /// Appends the pretty JSON text of a result and a line break to `output_stream`; on
    /// an error nothing is written.
    pub fn write_json(&self, output_stream: &mut String) -> (r: Result<(), JsonError>)
        ensures
            !(self@ is Result) <==> r == Err::<(), JsonError>(JsonError::NotAResult),
            r is Err ==> final(output_stream)@ == old(output_stream)@,
            self@ matches OutputView::Result { fields, .. } ==> (r is Ok
                && (json_pretty_object(fields) matches Some(s)
                && final(output_stream)@ == old(output_stream)@ + line(s))),
    {
        match self.to_json() {
            Ok(s) => {
                self.safe_write_line(output_stream, s.as_str());
                Ok(())
            },
            Err(e) => Err(e),
        }
    }

    /// Appends the output's line to `output_stream`: a message as it is, a result as
    /// its template (for terminals or not) with its fields filled in; a progress value
    /// or a spinner writes nothing. With a theme, messages, field values and result
    /// lines are in bold and the theme's colours.
    pub fn write(&self, output_stream: &mut String, theme: &Option<Theme>, is_tty: bool)
        ensures
            theme is None ==> match self@.plain_line(is_tty) {
                Some(l) => final(output_stream)@ == old(output_stream)@ + line(l),
                None => final(output_stream)@ == old(output_stream)@,
            },
            theme matches Some(t) ==> match self@ {
                OutputView::Message(m) => exists|s: Seq<char>| #[trigger] is_bold_in(s, m, t.info)
                    && final(output_stream)@ == old(output_stream)@ + line(s),
                OutputView::Result { fields, tty_template, non_tty_template } =>
                    exists|styled: Seq<(Seq<char>, Seq<char>)>, s: Seq<char>|
                    #![trigger are_bold_in(styled, fields, t.field), is_bold_in(s, render_fields(tty_template, styled), t.result)]
                    #![trigger are_bold_in(styled, fields, t.field), is_bold_in(s, render_fields(non_tty_template, styled), t.result)]
                    are_bold_in(styled, fields, t.field)
                    && is_bold_in(s, render_fields(if is_tty { tty_template } else { non_tty_template }, styled), t.result)
                    && final(output_stream)@ == old(output_stream)@ + line(s),
                _ => final(output_stream)@ == old(output_stream)@,
            },
    {
        match self {
            CommandOutput::Message(message) => {
                match theme {
                    Some(t) => {
                        let styled = t.info_msg(message.as_str());
                        self.safe_write_line(output_stream, styled.as_str());
                    },
                    None => {
                        self.safe_write_line(output_stream, message.as_str());
                    },
                }
            },
            CommandOutput::Result { fields, tty_template, non_tty_template } => {
                let template = if is_tty { tty_template } else { non_tty_template };
                match theme {
                    None => {
                        let output = render_template(template.as_str(), fields);
                        self.safe_write_line(output_stream, output.as_str());
                    },
                    Some(t) => {
                        let mut styled: Vec<(&'static str, String)> = Vec::new();
                        let mut i: usize = 0;
                        while i < fields.len()
                            invariant
                                i <= fields.len(),
                                styled.len() == i,
                                forall|j: int| #![trigger styled@[j]] 0 <= j < i ==> styled@[j].0@ == fields@[j].0@
                                    && is_bold_in(styled@[j].1@, fields@[j].1@, t.field),
                            decreases fields.len() - i,
                        {
                            let v = t.field(fields[i].1.as_str());
                            styled.push((fields[i].0, v));
                            i = i + 1;
                        }
                        let output = render_template(template.as_str(), &styled);
                        let final_line = t.result_msg(output.as_str());
                        proof {
                            let sv = fields_view(styled@);
                            let fv = fields_view(fields@);
                            assert forall|j: int| #![trigger sv[j]] 0 <= j < sv.len() implies sv[j].0 == fv[j].0
                                && is_bold_in(sv[j].1, fv[j].1, t.field) by {
                                assert(styled@[j].0@ == fields@[j].0@);
                            }
                            assert(are_bold_in(sv, fv, t.field));
                            assert(is_bold_in(final_line@, render_fields(template@, sv), t.result));
                        }
                        self.safe_write_line(output_stream, final_line.as_str());
                    },
                }
            },
            _ => {},
        }
    }
}

} // verus!
