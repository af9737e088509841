//! Rendering of result lines: templates with `{key}` placeholders, and JSON objects.
use vstd::prelude::*;
use crate::text::{replace_all, replace_all_chars, chars_of, string_of};

verus! {

/// The key/value pairs of a result, as character sequences.
pub open spec fn fields_view(fields: Seq<(&'static str, String)>) -> Seq<(Seq<char>, Seq<char>)> {
    fields.map_values(|p: (&'static str, String)| (p.0@, p.1@))
}

/// The placeholder `{key}` that a template holds for a field.
pub open spec fn placeholder(key: Seq<char>) -> Seq<char> {
    seq!['{'] + key + seq!['}']
}

/// The template with, field after field in order, every placeholder of the field
/// replaced by the field's value.
pub open spec fn render_fields(template: Seq<char>, fields: Seq<(Seq<char>, Seq<char>)>) -> Seq<char>
    decreases fields.len(),
{
    if fields.len() == 0 {
        template
    } else {
        let f = fields.last();
        replace_all(render_fields(template, fields.drop_last()), placeholder(f.0), f.1)
    }
}

/// Fills a template: for each field in order, every `{key}` is replaced by its value.
pub fn render_template(template: &str, fields: &Vec<(&'static str, String)>) -> (r: String)
    ensures
        r@ == render_fields(template@, fields_view(fields@)),
{
    let mut out = chars_of(template);
    let mut i: usize = 0;
    while i < fields.len()
        invariant
            i <= fields.len(),
            out@ == render_fields(template@, fields_view(fields@.take(i as int))),
        decreases fields.len() - i,
    {
        let mut ph: Vec<char> = Vec::new();
        ph.push('{');
        let key = chars_of(fields[i].0);
        crate::text::extend_chars(&mut ph, &key);
        ph.push('}');
        let value = chars_of(fields[i].1.as_str());
        out = replace_all_chars(&out, &ph, &value);
        proof {
            let fs = fields_view(fields@.take(i + 1));
            assert(fs.drop_last() =~= fields_view(fields@.take(i as int)));
            assert(ph@ =~= placeholder(fs.last().0));
        }
        i = i + 1;
    }
    assert(fields@.take(i as int) =~= fields@);
    string_of(&out)
}

/// What `serde_json::to_string_pretty` gives for the JSON object whose keys and string
/// values are the fields (a later field with a key already present replaces the
/// earlier value), or `None` where it fails.
pub uninterp spec fn json_pretty_object(fields: Seq<(Seq<char>, Seq<char>)>) -> Option<Seq<char>>;

/// Builds a `serde_json::Map` of string values from the fields and calls
/// `serde_json::to_string_pretty` on it. The contract claims that the outcome is a
/// function of the fields alone, and that it succeeds: the serializer fails only where
/// a value's `Serialize` fails or a map has keys that are not strings, and here every
/// key and value is a string, written into a `Vec` that takes any byte.
#[verifier::external_body]
pub(crate) fn json_object_pretty(fields: &Vec<(&'static str, String)>) -> (r: Option<String>)
    ensures
        r is Some,
        r is Some <==> json_pretty_object(fields_view(fields@)) is Some,
        r matches Some(s) ==> json_pretty_object(fields_view(fields@)) == Some(s@),
{
    let obj: serde_json::Map<String, serde_json::Value> = fields
        .iter()
        .map(|(k, v)| ((*k).to_string(), serde_json::Value::String(v.clone())))
        .collect();
    serde_json::to_string_pretty(&serde_json::Value::Object(obj)).ok()
}

/// What `colored_json::write_colored_json` writes for the JSON object of the fields when
/// it colours: the pretty JSON text with the ANSI styles of its default `Styler`.
pub uninterp spec fn json_colored_object(fields: Seq<(Seq<char>, Seq<char>)>) -> Seq<char>;

/// Builds the same JSON object and writes it with `colored_json::write_colored_json`
/// into a `Vec`, read back with `String::from_utf8_lossy`. Where colours are off (by
/// `NO_COLOR` or because stdout is no terminal) it serialises with the same
/// `PrettyFormatter` as `serde_json::to_string_pretty`; else with its `ColoredFormatter`
/// around it, whose styles are a function of the fields alone (or nothing, where
/// `yansi` styling is switched off, which gives the pretty text again). Neither fails: every key and value is a
/// string, and a `Vec` takes any byte. Which of the two comes out is not stated.
#[verifier::external_body]
pub(crate) fn json_object_colored(fields: &Vec<(&'static str, String)>) -> (r: Option<String>)
    ensures
        r is Some,
        r matches Some(s) ==> json_pretty_object(fields_view(fields@)) == Some(s@)
            || s@ == json_colored_object(fields_view(fields@)),
{
    let obj: serde_json::Map<String, serde_json::Value> = fields
        .iter()
        .map(|(k, v)| ((*k).to_string(), serde_json::Value::String(v.clone())))
        .collect();
    let mut buffer = Vec::new();
    match colored_json::write_colored_json(&serde_json::Value::Object(obj), &mut buffer) {
        Ok(()) => Some(String::from_utf8_lossy(&buffer).to_string()),
        Err(_) => None,
    }
}

} // verus!
