//! The colour theme of the command line client.
use vstd::prelude::*;
use colored::Colorize;
use crate::ifaddr::decimal;
use crate::text::replace_all;

verus! {

/// A terminal colour, as the `colored` crate names it.
#[derive(Clone, Copy, Debug, PartialEq, Eq)]
pub enum ThemeColor {
    Black,
    Red,
    Green,
    Yellow,
    Blue,
    Magenta,
    Cyan,
    White,
    BrightBlack,
    BrightRed,
    BrightGreen,
    BrightYellow,
    BrightBlue,
    BrightMagenta,
    BrightCyan,
    BrightWhite,
    TrueColor { r: u8, g: u8, b: u8 },
}

/// The colours used for informational messages, result lines and field values.
#[derive(Clone, Copy, Debug)]
pub struct Theme {
    pub info: ThemeColor,
    pub result: ThemeColor,
    pub field: ThemeColor,
}

/// Lower-case hexadecimal digit of `d` (`d < 16`).
pub open spec fn hex_digit(d: int) -> char {
    if d < 10 {
        (('0' as int) + d) as char
    } else {
        (('a' as int) + d - 10) as char
    }
}

/// Two lower-case hexadecimal digits of a byte.
pub open spec fn hex_byte(b: u8) -> Seq<char> {
    seq![hex_digit(b as int / 16), hex_digit(b as int % 16)]
}

/// The name under which `colored` parses a colour: its lower-case English name, or
/// `#rrggbb` for a true colour.
pub open spec fn color_name(c: ThemeColor) -> Seq<char> {
    match c {
        ThemeColor::Black => seq!['b', 'l', 'a', 'c', 'k'],
        ThemeColor::Red => seq!['r', 'e', 'd'],
        ThemeColor::Green => seq!['g', 'r', 'e', 'e', 'n'],
        ThemeColor::Yellow => seq!['y', 'e', 'l', 'l', 'o', 'w'],
        ThemeColor::Blue => seq!['b', 'l', 'u', 'e'],
        ThemeColor::Magenta => seq!['m', 'a', 'g', 'e', 'n', 't', 'a'],
        ThemeColor::Cyan => seq!['c', 'y', 'a', 'n'],
        ThemeColor::White => seq!['w', 'h', 'i', 't', 'e'],
        ThemeColor::BrightBlack => bright() + seq!['b', 'l', 'a', 'c', 'k'],
        ThemeColor::BrightRed => bright() + seq!['r', 'e', 'd'],
        ThemeColor::BrightGreen => bright() + seq!['g', 'r', 'e', 'e', 'n'],
        ThemeColor::BrightYellow => bright() + seq!['y', 'e', 'l', 'l', 'o', 'w'],
        ThemeColor::BrightBlue => bright() + seq!['b', 'l', 'u', 'e'],
        ThemeColor::BrightMagenta => bright() + seq!['m', 'a', 'g', 'e', 'n', 't', 'a'],
        ThemeColor::BrightCyan => bright() + seq!['c', 'y', 'a', 'n'],
        ThemeColor::BrightWhite => bright() + seq!['w', 'h', 'i', 't', 'e'],
        ThemeColor::TrueColor { r, g, b } => seq!['#'] + hex_byte(r) + hex_byte(g) + hex_byte(b),
    }
}

pub open spec fn bright() -> Seq<char> {
    seq!['b', 'r', 'i', 'g', 'h', 't', ' ']
}

/// The code of a colour as a foreground in ANSI styling (`colored`'s `Color::to_fg_str`):
/// `30`-`37` for the eight colours, `90`-`97` for their bright forms, `38;2;r;g;b` for a
/// true colour.
pub open spec fn fg_code(c: ThemeColor) -> Seq<char> {
    match c {
        ThemeColor::Black => seq!['3', '0'],
        ThemeColor::Red => seq!['3', '1'],
        ThemeColor::Green => seq!['3', '2'],
        ThemeColor::Yellow => seq!['3', '3'],
        ThemeColor::Blue => seq!['3', '4'],
        ThemeColor::Magenta => seq!['3', '5'],
        ThemeColor::Cyan => seq!['3', '6'],
        ThemeColor::White => seq!['3', '7'],
        ThemeColor::BrightBlack => seq!['9', '0'],
        ThemeColor::BrightRed => seq!['9', '1'],
        ThemeColor::BrightGreen => seq!['9', '2'],
        ThemeColor::BrightYellow => seq!['9', '3'],
        ThemeColor::BrightBlue => seq!['9', '4'],
        ThemeColor::BrightMagenta => seq!['9', '5'],
        ThemeColor::BrightCyan => seq!['9', '6'],
        ThemeColor::BrightWhite => seq!['9', '7'],
        ThemeColor::TrueColor { r, g, b } => seq!['3', '8', ';', '2', ';'] + decimal(r as nat) + seq![';']
            + decimal(g as nat) + seq![';'] + decimal(b as nat),
    }
}

/// The reset sequence `ESC [ 0 m`.
pub open spec fn ansi_reset() -> Seq<char> {
    seq!['\u{1b}', '[', '0', 'm']
}

/// The sequence that turns on bold text in the foreground colour of code `code`.
pub open spec fn bold_style(code: Seq<char>) -> Seq<char> {
    seq!['\u{1b}', '[', '1', ';'] + code + seq!['m']
}

/// `msg` in bold and the colour of code `code`, as `colored` writes it: the style, the
/// message with the style turned on again after every reset it holds, and a reset.
pub open spec fn bold_styled(msg: Seq<char>, code: Seq<char>) -> Seq<char> {
    bold_style(code) + replace_all(msg, ansi_reset(), ansi_reset() + bold_style(code)) + ansi_reset()
}

/// `r` is `msg` written in bold and colour `c`; or `msg` itself, where the environment
/// turns colours off. A true colour is written as one of the sixteen plain colours
/// where the terminal does not announce true colour support.
pub open spec fn is_bold_in(r: Seq<char>, msg: Seq<char>, c: ThemeColor) -> bool {
    ||| r == msg
    ||| r == bold_styled(msg, fg_code(c))
    ||| c is TrueColor && exists|d: ThemeColor| !(d is TrueColor) && r == #[trigger] bold_styled(msg, fg_code(d))
}

/// `styled` are the fields in order under their keys, each value in bold and colour `c`.
pub open spec fn are_bold_in(styled: Seq<(Seq<char>, Seq<char>)>, fields: Seq<(Seq<char>, Seq<char>)>, c: ThemeColor) -> bool {
    &&& styled.len() == fields.len()
    &&& forall|i: int| #![trigger styled[i]] 0 <= i < styled.len() ==> styled[i].0 == fields[i].0
        && is_bold_in(styled[i].1, fields[i].1, c)
}

/// `colored`'s `msg.color(name).bold().to_string()`. The name parses as the colour it is
/// the name of (`Color::from_str`); `Display` writes the style from `compute_style`,
/// the message with the style inserted after each reset, and a reset. Whether it writes
/// any styling depends on the environment (`CLICOLOR`, `NO_COLOR`, `CLICOLOR_FORCE`,
/// whether stdout is a terminal), and a true colour becomes the closest plain colour
/// unless `COLORTERM` announces true colours: which of these comes out is not stated.
#[verifier::external_body]
fn bold_colored(msg: &str, name: &str) -> (r: String)
    ensures
        forall|c: ThemeColor| name@ == #[trigger] color_name(c) ==> is_bold_in(r@, msg@, c),
{
    msg.color(name).bold().to_string()
}

fn hex_digit_exec(d: u8) -> (c: char)
    requires
        d < 16,
    ensures
        c == hex_digit(d as int),
{
    if d < 10 {
        (48u8 + d) as char
    } else {
        (87u8 + d) as char
    }
}

fn push_hex_byte(v: &mut Vec<char>, b: u8)
    ensures
        final(v)@ == old(v)@ + hex_byte(b),
{
    v.push(hex_digit_exec(b / 16));
    v.push(hex_digit_exec(b % 16));
    assert(final(v)@ =~= old(v)@ + hex_byte(b));
}

/// The name of a colour as `colored` parses it.
pub fn color_name_of(c: ThemeColor) -> (s: String)
    ensures
        s@ == color_name(c),
{
    let mut v: Vec<char> = Vec::new();
    match c {
        ThemeColor::Black => { v = vec!['b', 'l', 'a', 'c', 'k']; },
        ThemeColor::Red => { v = vec!['r', 'e', 'd']; },
        ThemeColor::Green => { v = vec!['g', 'r', 'e', 'e', 'n']; },
        ThemeColor::Yellow => { v = vec!['y', 'e', 'l', 'l', 'o', 'w']; },
        ThemeColor::Blue => { v = vec!['b', 'l', 'u', 'e']; },
        ThemeColor::Magenta => { v = vec!['m', 'a', 'g', 'e', 'n', 't', 'a']; },
        ThemeColor::Cyan => { v = vec!['c', 'y', 'a', 'n']; },
        ThemeColor::White => { v = vec!['w', 'h', 'i', 't', 'e']; },
        ThemeColor::BrightBlack => { v = vec!['b', 'r', 'i', 'g', 'h', 't', ' ', 'b', 'l', 'a', 'c', 'k']; },
        ThemeColor::BrightRed => { v = vec!['b', 'r', 'i', 'g', 'h', 't', ' ', 'r', 'e', 'd']; },
        ThemeColor::BrightGreen => { v = vec!['b', 'r', 'i', 'g', 'h', 't', ' ', 'g', 'r', 'e', 'e', 'n']; },
        ThemeColor::BrightYellow => { v = vec!['b', 'r', 'i', 'g', 'h', 't', ' ', 'y', 'e', 'l', 'l', 'o', 'w']; },
        ThemeColor::BrightBlue => { v = vec!['b', 'r', 'i', 'g', 'h', 't', ' ', 'b', 'l', 'u', 'e']; },
        ThemeColor::BrightMagenta => { v = vec!['b', 'r', 'i', 'g', 'h', 't', ' ', 'm', 'a', 'g', 'e', 'n', 't', 'a']; },
        ThemeColor::BrightCyan => { v = vec!['b', 'r', 'i', 'g', 'h', 't', ' ', 'c', 'y', 'a', 'n']; },
        ThemeColor::BrightWhite => { v = vec!['b', 'r', 'i', 'g', 'h', 't', ' ', 'w', 'h', 'i', 't', 'e']; },
        ThemeColor::TrueColor { r, g, b } => {
            v.push('#');
            push_hex_byte(&mut v, r);
            push_hex_byte(&mut v, g);
            push_hex_byte(&mut v, b);
        },
    }
    assert(v@ =~= color_name(c));
    crate::text::string_of(&v)
}

impl Theme {
    /// Bold `msg` in the colour of the theme's informational messages.
    pub fn info_msg(&self, msg: &str) -> (r: String)
        ensures
            is_bold_in(r@, msg@, self.info),
    {
        let name = color_name_of(self.info);
        bold_colored(msg, name.as_str())
    }

    /// Bold `msg` in the colour of the theme's result lines.
    pub fn result_msg(&self, msg: &str) -> (r: String)
        ensures
            is_bold_in(r@, msg@, self.result),
    {
        let name = color_name_of(self.result);
        bold_colored(msg, name.as_str())
    }

    /// Bold `value` in the colour of the theme's field values.
    pub fn field(&self, value: &str) -> (r: String)
        ensures
            is_bold_in(r@, value@, self.field),
    {
        let name = color_name_of(self.field);
        bold_colored(value, name.as_str())
    }
}

impl Default for Theme {
    /// Bright black messages and results, bright blue field values.
    fn default() -> (t: Theme)
        ensures
            t.info == ThemeColor::BrightBlack,
            t.result == ThemeColor::BrightBlack,
            t.field == ThemeColor::BrightBlue,
    {
        Theme {
            info: ThemeColor::BrightBlack,
            result: ThemeColor::BrightBlack,
            field: ThemeColor::BrightBlue,
        }
    }
}

} // verus!
