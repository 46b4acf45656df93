//! Status output: badges (✔, ⚠, ✖, ℹ), sections, items and key/value lines,
//! styled with ANSI codes.
//!
//! A `Reporter` collects the text it writes.  A reporter made for a
//! terminal writes ANSI styles (the program's terminal stream removes them
//! when the output is not a terminal); a buffer writes plain text.

use crate::text::{contains_seq, lemma_contains_extend, lemma_contains_middle};
use vstd::prelude::*;

verus! {

/// Declares `std::io::Error`, the error type of the reporter's methods; the
/// library never produces a value of it.
#[verifier::external_type_specification]
#[verifier::external_body]
pub struct ExIoError(std::io::Error);

/// The terminal colors the reports use.
#[derive(Clone, Copy, Debug, PartialEq, Eq, Structural)]
pub enum AnsiColor {
    Red,
    Green,
    Yellow,
    Cyan,
}

/// A text style: an optional foreground color, bold, dimmed.
#[derive(Clone, Copy, Debug, PartialEq, Eq, Structural)]
pub struct TextStyle {
    pub fg: Option<AnsiColor>,
    pub bold: bool,
    pub dimmed: bool,
}

/// The escape code that selects a foreground color.
pub open spec fn fg_code(c: AnsiColor) -> Seq<char> {
    match c {
        AnsiColor::Red => "\u{1b}[31m"@,
        AnsiColor::Green => "\u{1b}[32m"@,
        AnsiColor::Yellow => "\u{1b}[33m"@,
        AnsiColor::Cyan => "\u{1b}[36m"@,
    }
}

/// The escape codes that turn a style on: effects first (bold, then
/// dimmed), then the foreground color.
pub open spec fn style_codes(s: TextStyle) -> Seq<char> {
    (if s.bold {
        "\u{1b}[1m"@
    } else {
        Seq::empty()
    }) + (if s.dimmed {
        "\u{1b}[2m"@
    } else {
        Seq::empty()
    }) + match s.fg {
        Some(c) => fg_code(c),
        None => Seq::empty(),
    }
}

/// The code that turns a style off: the reset code, or nothing for a plain style.
pub open spec fn reset_code(s: TextStyle) -> Seq<char> {
    if s.fg is None && !s.bold && !s.dimmed {
        Seq::empty()
    } else {
        "\u{1b}[0m"@
    }
}

/// Renders a style with `anstyle::Style`'s `Display` (plain and alternate
/// forms).  As anstyle's source shows, the plain form writes the escape code
/// of each effect in the order bold, dimmed, then the foreground color code
/// (`ESC[3Nm`); the alternate form writes `ESC[0m` unless the style is plain.
#[verifier::external_body]
fn render_style(style: TextStyle) -> (r: (String, String))
    ensures
        r.0@ == style_codes(style),
        r.1@ == reset_code(style),
{
    let fg = style.fg.map(|c| match c {
        AnsiColor::Red => anstyle::AnsiColor::Red,
        AnsiColor::Green => anstyle::AnsiColor::Green,
        AnsiColor::Yellow => anstyle::AnsiColor::Yellow,
        AnsiColor::Cyan => anstyle::AnsiColor::Cyan,
    });
    let effects = anstyle::Effects::new().set(anstyle::Effects::BOLD, style.bold);
    let effects = effects.set(anstyle::Effects::DIMMED, style.dimmed);
    let s = anstyle::Style::new().fg_color(fg.map(anstyle::Color::Ansi)).effects(effects);
    (format!("{s}"), format!("{s:#}"))
}

/// Bold text in the given color.
pub open spec fn bold_in(c: AnsiColor) -> TextStyle {
    TextStyle { fg: Some(c), bold: true, dimmed: false }
}

/// Bold text.
pub open spec fn bold_plain() -> TextStyle {
    TextStyle { fg: None, bold: true, dimmed: false }
}

/// Dimmed text.
pub open spec fn dimmed_plain() -> TextStyle {
    TextStyle { fg: None, bold: false, dimmed: true }
}

/// The codes that turn `style` on, when writing styled text; nothing otherwise.
pub open spec fn on(style: TextStyle, styled: bool) -> Seq<char> {
    if styled {
        style_codes(style)
    } else {
        Seq::empty()
    }
}

/// The codes that turn `style` off, when writing styled text; nothing otherwise.
pub open spec fn off(style: TextStyle, styled: bool) -> Seq<char> {
    if styled {
        reset_code(style)
    } else {
        Seq::empty()
    }
}

/// A badge in its style, a space, the message, and a line break.
pub open spec fn badge_line(style: TextStyle, badge: Seq<char>, msg: Seq<char>, styled: bool) -> Seq<
    char,
> {
    on(style, styled) + badge + off(style, styled) + " "@ + msg + "\n"@
}

/// A blank line, then the title in bold on its own line.
pub open spec fn section_line(title: Seq<char>, styled: bool) -> Seq<char> {
    "\n"@ + on(bold_plain(), styled) + title + off(bold_plain(), styled) + "\n"@
}

/// An indented, dimmed dash, then the message.
pub open spec fn item_line(msg: Seq<char>, styled: bool) -> Seq<char> {
    "  "@ + on(dimmed_plain(), styled) + "-"@ + off(dimmed_plain(), styled) + " "@ + msg + "\n"@
}

/// An indented bold key with a colon, then the value.
pub open spec fn key_value_line(key: Seq<char>, val: Seq<char>, styled: bool) -> Seq<char> {
    "  "@ + on(bold_plain(), styled) + key + ":"@ + off(bold_plain(), styled) + " "@ + val + "\n"@
}

/// Writes status lines into a text buffer, with ANSI styles when it writes
/// for a terminal and as plain text otherwise.
pub struct Reporter {
    writer: String,
    styled: bool,
}

impl View for Reporter {
    type V = Seq<char>;

    /// Everything written so far.
    closed spec fn view(&self) -> Seq<char> {
        self.writer@
    }
}

impl Reporter {
    /// Whether this reporter writes ANSI styles.
    pub closed spec fn is_styled(&self) -> bool {
        self.styled
    }

    /// A plain-text reporter that continues after `writer`.
    pub fn new(writer: String) -> (r: Self)
        ensures
            r@ == writer@,
            !r.is_styled(),
    {
        Reporter { writer, styled: false }
    }

    /// A plain-text reporter with nothing written yet.
    pub fn buffer() -> (r: Self)
        ensures
            r@ == Seq::<char>::empty(),
            !r.is_styled(),
    {
        Reporter { writer: String::new(), styled: false }
    }

    /// A reporter for a terminal: it writes ANSI styles.  The program's
    /// terminal stream removes them when the output is not a terminal.
    pub fn terminal() -> (r: Self)
        ensures
            r@ == Seq::<char>::empty(),
            r.is_styled(),
    {
        Reporter { writer: String::new(), styled: true }
    }

    /// Everything written.
    pub fn into_string(self) -> (s: String)
        ensures
            s@ == self@,
    {
        self.writer
    }

    fn codes(&self, style: TextStyle) -> (r: (String, String))
        ensures
            r.0@ == on(style, self.is_styled()),
            r.1@ == off(style, self.is_styled()),
    {
        if self.styled {
            render_style(style)
        } else {
            (String::new(), String::new())
        }
    }

    fn write_badge(&mut self, style: TextStyle, badge: &str, msg: &str)
        ensures
            final(self).is_styled() == old(self).is_styled(),
            final(self)@ == old(self)@ + badge_line(style, badge@, msg@, old(self).is_styled()),
            contains_seq(final(self)@, msg@),
    {
        let (start, stop) = self.codes(style);
        self.writer.append(start.as_str());
        self.writer.append(badge);
        self.writer.append(stop.as_str());
        self.writer.append(" ");
        self.writer.append(msg);
        self.writer.append("\n");
        proof {
            let st = old(self).is_styled();
            let pre = old(self)@ + on(style, st) + badge@ + off(style, st) + " "@;
            assert(final(self)@ =~= pre + msg@ + "\n"@);
            lemma_contains_middle(pre, msg@, "\n"@);
        }
    }

    /// A success line: a green check mark, then the message.
    pub fn success(&mut self, msg: &str) -> (r: std::io::Result<()>)
        ensures
            r is Ok,
            final(self).is_styled() == old(self).is_styled(),
            final(self)@ == old(self)@ + badge_line(
                bold_in(AnsiColor::Green),
                "✔"@,
                msg@,
                old(self).is_styled(),
            ),
            contains_seq(final(self)@, msg@),
    {
        self.write_badge(TextStyle { fg: Some(AnsiColor::Green), bold: true, dimmed: false }, "✔", msg);
        Ok(())
    }

    /// A warning line: a yellow warning sign, then the message.
    pub fn warn(&mut self, msg: &str) -> (r: std::io::Result<()>)
        ensures
            r is Ok,
            final(self).is_styled() == old(self).is_styled(),
            final(self)@ == old(self)@ + badge_line(
                bold_in(AnsiColor::Yellow),
                "⚠"@,
                msg@,
                old(self).is_styled(),
            ),
            contains_seq(final(self)@, msg@),
    {
        self.write_badge(TextStyle { fg: Some(AnsiColor::Yellow), bold: true, dimmed: false }, "⚠", msg);
        Ok(())
    }

    /// An error line: a red cross, then the message.
    pub fn error(&mut self, msg: &str) -> (r: std::io::Result<()>)
        ensures
            r is Ok,
            final(self).is_styled() == old(self).is_styled(),
            final(self)@ == old(self)@ + badge_line(
                bold_in(AnsiColor::Red),
                "✖"@,
                msg@,
                old(self).is_styled(),
            ),
            contains_seq(final(self)@, msg@),
    {
        self.write_badge(TextStyle { fg: Some(AnsiColor::Red), bold: true, dimmed: false }, "✖", msg);
        Ok(())
    }

    /// An information line: a cyan information sign, then the message.
    pub fn info(&mut self, msg: &str) -> (r: std::io::Result<()>)
        ensures
            r is Ok,
            final(self).is_styled() == old(self).is_styled(),
            final(self)@ == old(self)@ + badge_line(
                bold_in(AnsiColor::Cyan),
                "ℹ"@,
                msg@,
                old(self).is_styled(),
            ),
            contains_seq(final(self)@, msg@),
    {
        self.write_badge(TextStyle { fg: Some(AnsiColor::Cyan), bold: true, dimmed: false }, "ℹ", msg);
        Ok(())
    }

    /// A section title, after a blank line.
    pub fn section(&mut self, title: &str) -> (r: std::io::Result<()>)
        ensures
            r is Ok,
            final(self).is_styled() == old(self).is_styled(),
            final(self)@ == old(self)@ + section_line(title@, old(self).is_styled()),
            contains_seq(final(self)@, title@),
    {
        let (start, stop) = self.codes(TextStyle { fg: None, bold: true, dimmed: false });
        self.writer.append("\n");
        self.writer.append(start.as_str());
        self.writer.append(title);
        self.writer.append(stop.as_str());
        self.writer.append("\n");
        proof {
            let st = old(self).is_styled();
            let pre = old(self)@ + "\n"@ + on(bold_plain(), st);
            let post = off(bold_plain(), st) + "\n"@;
            assert(final(self)@ =~= pre + title@ + post);
            lemma_contains_middle(pre, title@, post);
        }
        Ok(())
    }

    /// A list item: an indented dash, then the message.
    pub fn item(&mut self, msg: &str) -> (r: std::io::Result<()>)
        ensures
            r is Ok,
            final(self).is_styled() == old(self).is_styled(),
            final(self)@ == old(self)@ + item_line(msg@, old(self).is_styled()),
            contains_seq(final(self)@, msg@),
    {
        let (start, stop) = self.codes(TextStyle { fg: None, bold: false, dimmed: true });
        self.writer.append("  ");
        self.writer.append(start.as_str());
        self.writer.append("-");
        self.writer.append(stop.as_str());
        self.writer.append(" ");
        self.writer.append(msg);
        self.writer.append("\n");
        proof {
            let st = old(self).is_styled();
            let pre = old(self)@ + "  "@ + on(dimmed_plain(), st) + "-"@ + off(dimmed_plain(), st)
                + " "@;
            assert(final(self)@ =~= pre + msg@ + "\n"@);
            lemma_contains_middle(pre, msg@, "\n"@);
        }
        Ok(())
    }

    /// A key and its value: an indented bold key with a colon, then the value.
    pub fn key_value(&mut self, key: &str, val: &str) -> (r: std::io::Result<()>)
        ensures
            r is Ok,
            final(self).is_styled() == old(self).is_styled(),
            final(self)@ == old(self)@ + key_value_line(key@, val@, old(self).is_styled()),
            contains_seq(final(self)@, val@),
    {
        let (start, stop) = self.codes(TextStyle { fg: None, bold: true, dimmed: false });
        self.writer.append("  ");
        self.writer.append(start.as_str());
        self.writer.append(key);
        self.writer.append(":");
        self.writer.append(stop.as_str());
        self.writer.append(" ");
        self.writer.append(val);
        self.writer.append("\n");
        proof {
            let st = old(self).is_styled();
            let pre = old(self)@ + "  "@ + on(bold_plain(), st) + key@ + ":"@ + off(bold_plain(), st)
                + " "@;
            assert(final(self)@ =~= pre + val@ + "\n"@);
            lemma_contains_middle(pre, val@, "\n"@);
        }
        Ok(())
    }

    /// The line as it is, then a line break.
    pub fn raw_line(&mut self, line: &str) -> (r: std::io::Result<()>)
        ensures
            r is Ok,
            final(self).is_styled() == old(self).is_styled(),
            final(self)@ == old(self)@ + line@ + "\n"@,
            contains_seq(final(self)@, line@),
    {
        self.writer.append(line);
        self.writer.append("\n");
        proof {
            lemma_contains_middle(old(self)@, line@, "\n"@);
        }
        Ok(())
    }
}

/// What has been written to a reporter stays in it: a message that the
/// output contains is still contained after more lines are written.
pub proof fn lemma_written_text_stays(before: Seq<char>, msg: Seq<char>, more: Seq<char>)
    requires
        contains_seq(before, msg),
    ensures
        contains_seq(before + more, msg),
{
    lemma_contains_extend(before, msg, more);
}

} // verus!
