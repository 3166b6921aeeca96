//! The look of terminal output: tones, headings, labelled values and status
//! lines, plain or styled. Whether a stream is styled is decided by the
//! caller (the environment and the terminal); the escape codes of styled
//! text are `crossterm`'s.
use crate::text::{owned, push_str};
use unicode_width::UnicodeWidthStr;
use vstd::prelude::*;

verus! {

/// The tone of a message.
#[derive(Debug, Clone, Copy, PartialEq, Eq, Structural)]
pub enum Tone {
    Success,
    Error,
    Warning,
    Info,
    Accent,
    Muted,
}

/// The colours that tones are shown in.
#[derive(Debug, Clone, Copy, PartialEq, Eq, Structural)]
pub enum ToneColor {
    Green,
    Red,
    Yellow,
    Blue,
    Cyan,
    DarkGrey,
}

/// The colour of each tone.
pub open spec fn color_of(tone: Tone) -> ToneColor {
    match tone {
        Tone::Success => ToneColor::Green,
        Tone::Error => ToneColor::Red,
        Tone::Warning => ToneColor::Yellow,
        Tone::Info => ToneColor::Blue,
        Tone::Accent => ToneColor::Cyan,
        Tone::Muted => ToneColor::DarkGrey,
    }
}

/// The colour of a tone.
pub fn tone_color(tone: Tone) -> (r: ToneColor)
    ensures
        r == color_of(tone),
{
    match tone {
        Tone::Success => ToneColor::Green,
        Tone::Error => ToneColor::Red,
        Tone::Warning => ToneColor::Yellow,
        Tone::Info => ToneColor::Blue,
        Tone::Accent => ToneColor::Cyan,
        Tone::Muted => ToneColor::DarkGrey,
    }
}

/// The badge of each tone on a styled stream.
pub open spec fn label_of(tone: Tone) -> Seq<char> {
    match tone {
        Tone::Success => "OK"@,
        Tone::Error => "ERR"@,
        Tone::Warning => "WARN"@,
        Tone::Info => "INFO"@,
        Tone::Accent => "NOTE"@,
        Tone::Muted => "··"@,
    }
}

/// The badge of a tone on a styled stream.
pub fn tone_label(tone: Tone) -> (r: &'static str)
    ensures
        r@ == label_of(tone),
{
    match tone {
        Tone::Success => "OK",
        Tone::Error => "ERR",
        Tone::Warning => "WARN",
        Tone::Info => "INFO",
        Tone::Accent => "NOTE",
        Tone::Muted => "··",
    }
}

/// The symbol of each tone on a plain stream.
pub open spec fn prefix_of(tone: Tone) -> Seq<char> {
    match tone {
        Tone::Success => "✅"@,
        Tone::Error => "❌"@,
        Tone::Warning => "⚠️"@,
        Tone::Info => "ℹ️"@,
        Tone::Accent => "•"@,
        Tone::Muted => "·"@,
    }
}

/// The symbol of a tone on a plain stream.
pub fn plain_prefix(tone: Tone) -> (r: &'static str)
    ensures
        r@ == prefix_of(tone),
{
    match tone {
        Tone::Success => "✅",
        Tone::Error => "❌",
        Tone::Warning => "⚠️",
        Tone::Info => "ℹ️",
        Tone::Accent => "•",
        Tone::Muted => "·",
    }
}

/// `crossterm`'s colour type, carried through without looking inside.
#[verifier::external_type_specification]
#[verifier::external_body]
pub struct ExCrosstermColor(crossterm::style::Color);

/// The `crossterm` colour of a tone colour.
#[verifier::external_body]
fn crossterm_color(color: ToneColor) -> (r: crossterm::style::Color) {
    match color {
        ToneColor::Green => crossterm::style::Color::Green,
        ToneColor::Red => crossterm::style::Color::Red,
        ToneColor::Yellow => crossterm::style::Color::Yellow,
        ToneColor::Blue => crossterm::style::Color::Blue,
        ToneColor::Cyan => crossterm::style::Color::Cyan,
        ToneColor::DarkGrey => crossterm::style::Color::DarkGrey,
    }
}

/// The SGR parameters `crossterm` writes for each colour (256-colour form).
pub open spec fn color_code(c: ToneColor) -> Seq<char> {
    match c {
        ToneColor::Green => "5;10"@,
        ToneColor::Red => "5;9"@,
        ToneColor::Yellow => "5;11"@,
        ToneColor::Blue => "5;12"@,
        ToneColor::Cyan => "5;14"@,
        ToneColor::DarkGrey => "5;8"@,
    }
}

/// The foreground code `crossterm` writes for colour `c`: `ESC[38;<code>m`
/// with colours on, `ESC[m` when `NO_COLOR` turns them off.
pub open spec fn fg_code(c: ToneColor, colors: bool) -> Seq<char> {
    if colors {
        "\x1b[38;"@ + color_code(c) + "m"@
    } else {
        "\x1b[m"@
    }
}

/// `text` in bold and colour `c`, as `crossterm` displays it: the
/// foreground code, the bold code, the text, then the reset of all
/// attributes.
pub open spec fn bold_painted(text: Seq<char>, c: ToneColor, colors: bool) -> Seq<char> {
    fg_code(c, colors) + "\x1b[1m"@ + text + "\x1b[0m"@
}

/// `text` in colour `c`, as `crossterm` displays it: the foreground code,
/// the text, then the reset of the foreground colour (`ESC[39m`, or `ESC[m`
/// when `NO_COLOR` turns colours off).
pub open spec fn painted(text: Seq<char>, c: ToneColor, colors: bool) -> Seq<char> {
    fg_code(c, colors) + text + if colors {
        "\x1b[39m"@
    } else {
        "\x1b[m"@
    }
}

/// `crossterm::style::style(text).with(color).attribute(Bold)`, displayed.
/// Whether colour codes are written depends on the `NO_COLOR` environment
/// variable, which `crossterm` reads once per process; the contract allows
/// both renderings. It describes `crossterm`'s ANSI output; on a Windows
/// console without ANSI support `crossterm` would write through the console
/// API instead, which the contract leaves out.
#[verifier::external_body]
fn paint_bold(text: &str, color: ToneColor) -> (r: String)
    ensures
        r@ == bold_painted(text@, color, true) || r@ == bold_painted(text@, color, false),
{
    let c = crossterm_color(color);
    format!(
        "{}",
        crossterm::style::Stylize::attribute(
            crossterm::style::Stylize::with(crossterm::style::style(text), c),
            crossterm::style::Attribute::Bold,
        )
    )
}

/// `crossterm::style::style(text).with(color)`, displayed. Whether colour
/// codes are written depends on `NO_COLOR`, as for `paint_bold`; the
/// contract allows both renderings, and describes `crossterm`'s ANSI output
/// as `paint_bold`'s does.
#[verifier::external_body]
fn paint(text: &str, color: ToneColor) -> (r: String)
    ensures
        r@ == painted(text@, color, true) || r@ == painted(text@, color, false),
{
    let c = crossterm_color(color);
    format!("{}", crossterm::style::Stylize::with(crossterm::style::style(text), c))
}

/// `text` rendered bold in `c` with colours on or off.
pub open spec fn is_bold_painting(r: Seq<char>, text: Seq<char>, c: ToneColor) -> bool {
    r == bold_painted(text, c, true) || r == bold_painted(text, c, false)
}

/// `text` rendered in `c` with colours on or off.
pub open spec fn is_painting(r: Seq<char>, text: Seq<char>, c: ToneColor) -> bool {
    r == painted(text, c, true) || r == painted(text, c, false)
}

/// Text in a tone: bold and coloured on a styled stream, as is otherwise.
pub fn tone_text(text: &str, tone: Tone, styled: bool) -> (r: String)
    ensures
        !styled ==> r@ == text@,
        styled ==> is_bold_painting(r@, text@, color_of(tone)),
{
    if styled {
        paint_bold(text, tone_color(tone))
    } else {
        owned(text)
    }
}

/// Text set off: bold cyan on a styled stream, as is otherwise.
pub fn accent(text: &str, styled: bool) -> (r: String)
    ensures
        !styled ==> r@ == text@,
        styled ==> is_bold_painting(r@, text@, ToneColor::Cyan),
{
    if styled {
        paint_bold(text, ToneColor::Cyan)
    } else {
        owned(text)
    }
}

/// Text toned down: dark grey on a styled stream, as is otherwise.
pub fn muted(text: &str, styled: bool) -> (r: String)
    ensures
        !styled ==> r@ == text@,
        styled ==> is_painting(r@, text@, ToneColor::DarkGrey),
{
    if styled {
        paint(text, ToneColor::DarkGrey)
    } else {
        owned(text)
    }
}

/// `n` copies of `c`.
pub open spec fn repeated(c: char, n: nat) -> Seq<char> {
    Seq::new(n, |i: int| c)
}

/// `n` copies of `c`.
pub fn repeat_char(c: char, n: usize) -> (r: String)
    ensures
        r@ == repeated(c, n as nat),
{
    let mut r = String::new();
    let mut i: usize = 0;
    while i < n
        invariant
            i <= n,
            r@ == repeated(c, i as nat),
        decreases n - i,
    {
        crate::text::push_char(&mut r, c);
        proof {
            assert(r@ =~= repeated(c, (i + 1) as nat));
        }
        i = i + 1;
    }
    r
}

/// A rule `width` wide: box-drawing dashes in dark grey on a styled stream,
/// hyphens otherwise.
pub fn divider(width: usize, styled: bool) -> (r: String)
    ensures
        !styled ==> r@ == repeated('-', width as nat),
        styled ==> is_painting(r@, repeated('─', width as nat), ToneColor::DarkGrey),
{
    if styled {
        let line = repeat_char('─', width);
        paint(line.as_str(), ToneColor::DarkGrey)
    } else {
        repeat_char('-', width)
    }
}

/// The width of the rule under a heading: the title's length in
/// characters, at least twenty-four.
pub open spec fn rule_width(title: Seq<char>) -> nat {
    if title.len() > 24 {
        title.len()
    } else {
        24
    }
}

/// A heading: the accented title over a rule as wide as the title (at least
/// twenty-four) on a styled stream, `=== title ===` otherwise.
pub fn header(title: &str, styled: bool) -> (r: String)
    ensures
        !styled ==> r@ == "=== "@ + title@ + " ==="@,
        styled ==> exists|a: Seq<char>, d: Seq<char>|
            #![trigger is_bold_painting(a, title@, ToneColor::Cyan), is_painting(d, repeated('─', rule_width(title@)), ToneColor::DarkGrey)]
            is_bold_painting(a, title@, ToneColor::Cyan) && is_painting(
                d,
                repeated('─', rule_width(title@)),
                ToneColor::DarkGrey,
            ) && r@ == a + "\n"@ + d,
{
    if styled {
        let n = crate::text::chars_of(title).len();
        let w = if n > 24 {
            n
        } else {
            24
        };
        let mut r = accent(title, true);
        let ghost a = r@;
        push_str(&mut r, "\n");
        let d = divider(w, true);
        push_str(&mut r, d.as_str());
        proof {
            assert(w as nat == rule_width(title@));
            assert(r@ =~= a + "\n"@ + d@);
            assert(is_bold_painting(a, title@, ToneColor::Cyan));
            assert(is_painting(d@, repeated('─', rule_width(title@)), ToneColor::DarkGrey));
        }
        r
    } else {
        let mut r = owned("=== ");
        push_str(&mut r, title);
        push_str(&mut r, " ===");
        r
    }
}

/// A section heading after a blank line: the accented title on a styled
/// stream, `=== title ===` otherwise.
pub fn section(title: &str, styled: bool) -> (r: String)
    ensures
        !styled ==> r@ == "\n=== "@ + title@ + " ==="@,
        styled ==> exists|a: Seq<char>| #[trigger] is_bold_painting(a, title@, ToneColor::Cyan) && r@ == "\n"@ + a,
{
    if styled {
        let mut r = owned("\n");
        let a = accent(title, true);
        push_str(&mut r, a.as_str());
        proof {
            assert(is_bold_painting(a@, title@, ToneColor::Cyan));
        }
        r
    } else {
        let mut r = owned("\n=== ");
        push_str(&mut r, title);
        push_str(&mut r, " ===");
        r
    }
}

/// The number of terminal columns that `s` takes, as `unicode-width` counts
/// them.
pub uninterp spec fn display_width(s: Seq<char>) -> nat;

/// `UnicodeWidthStr::width`: the columns that `s` takes on a terminal.
#[verifier::external_body]
fn text_width(s: &str) -> (r: usize)
    ensures
        r == display_width(s@),
{
    UnicodeWidthStr::width(s)
}

/// The padding after a label on a styled stream: what fills the label's
/// width (counted up to eighteen columns) to eighteen, at least one.
pub open spec fn label_padding(label: Seq<char>) -> nat {
    let w = if display_width(label) < 18 {
        display_width(label)
    } else {
        18
    };
    if 18 - w < 1 {
        1
    } else {
        (18 - w) as nat
    }
}

/// A labelled value: the toned-down label padded to eighteen columns on a
/// styled stream, `label: value` otherwise.
pub fn key_value(label: &str, value: &str, styled: bool) -> (r: String)
    ensures
        !styled ==> r@ == label@ + ": "@ + value@,
        styled ==> exists|m: Seq<char>|
            #[trigger] is_painting(m, label@, ToneColor::DarkGrey) && r@ == m + repeated(' ', label_padding(label@))
                + value@,
{
    if styled {
        let w = text_width(label);
        let w = if w < 18 {
            w
        } else {
            18
        };
        let padding = if 18 - w < 1 {
            1
        } else {
            18 - w
        };
        let mut r = muted(label, true);
        let ghost m = r@;
        push_str(&mut r, repeat_char(' ', padding).as_str());
        push_str(&mut r, value);
        proof {
            assert(r@ =~= m + repeated(' ', padding as nat) + value@);
            assert(is_painting(m, label@, ToneColor::DarkGrey));
        }
        r
    } else {
        let mut r = owned(label);
        push_str(&mut r, ": ");
        push_str(&mut r, value);
        r
    }
}

/// A status line: the tone's coloured badge on a styled stream, its symbol
/// otherwise, then the message.
pub fn status_line(tone: Tone, message: &str, styled: bool) -> (r: String)
    ensures
        !styled ==> r@ == prefix_of(tone) + " "@ + message@,
        styled ==> exists|b: Seq<char>|
            #[trigger] is_bold_painting(b, " "@ + label_of(tone) + " "@, color_of(tone)) && r@ == b + " "@ + message@,
{
    if styled {
        let mut badge = owned(" ");
        push_str(&mut badge, tone_label(tone));
        push_str(&mut badge, " ");
        let mut r = paint_bold(badge.as_str(), tone_color(tone));
        let ghost b = r@;
        push_str(&mut r, " ");
        push_str(&mut r, message);
        proof {
            assert(badge@ =~= " "@ + label_of(tone) + " "@);
            assert(is_bold_painting(b, " "@ + label_of(tone) + " "@, color_of(tone)));
            assert(r@ =~= b + " "@ + message@);
        }
        r
    } else {
        let mut r = owned(plain_prefix(tone));
        push_str(&mut r, " ");
        push_str(&mut r, message);
        r
    }
}

} // verus!
