//! The messages shown to the user, as text. Writing them out is the
//! caller's part.

use vstd::prelude::*;

verus! {

/// The look of a message's title.
#[derive(Clone, Copy, Debug, PartialEq, Eq, Structural)]
pub enum Style {
    Header,
    Error,
    Warn,
    Note,
    Plain,
}

/// How much a message matters.
#[derive(Clone, Copy, Debug, PartialEq, Eq, Structural)]
pub enum Level {
    Error,
    Warn,
    Info,
    Debug,
    Trace,
}

/// One line for the user: a title, to be shown in `style`, and the rest of
/// the line up to and including the line break, to be shown plainly.
#[derive(Debug)]
pub struct Message {
    pub style: Style,
    pub title: String,
    pub rest: String,
}

/// The width to which the title of a status line is filled.
pub const TITLE_WIDTH: usize = 12;

/// `count` spaces.
pub open spec fn spaces(count: nat) -> Seq<char> {
    Seq::new(count, |i: int| ' ')
}

/// `text` moved to the right end of a field of `width` characters; a text
/// that is wider than the field stays as it is.
pub open spec fn right_aligned(text: Seq<char>, width: nat) -> Seq<char> {
    if text.len() >= width {
        text
    } else {
        spaces((width - text.len()) as nat) + text
    }
}

/// The title of a line: right-aligned to [`TITLE_WIDTH`] where the line is
/// justified, else as given.
pub open spec fn title_text(status: Seq<char>, justified: bool) -> Seq<char> {
    if justified {
        right_aligned(status, TITLE_WIDTH as nat)
    } else {
        status
    }
}

/// What follows the title: a colon unless the line is justified, then a
/// space, the message and a line break.
pub open spec fn rest_text(message: Seq<char>, justified: bool) -> Seq<char> {
    if justified {
        seq![' '] + message + seq!['\n']
    } else {
        seq![':', ' '] + message + seq!['\n']
    }
}

impl Message {
    /// The whole line without styling.
    pub open spec fn text(&self) -> Seq<char> {
        self.title@ + self.rest@
    }

    /// The whole line without styling.
    pub fn plain(&self) -> (line: String)
        ensures
            line@ == self.text(),
    {
        let mut line = self.title.clone();
        line.append(self.rest.as_str());
        line
    }
}

/// Moves a text to the right end of a field of `width` characters.
pub fn justify(text: &str, width: usize) -> (out: String)
    ensures
        out@ == right_aligned(text@, width as nat),
{
    let len = text.unicode_len();
    let mut out = String::new();
    if len < width {
        let fill = width - len;
        let mut i: usize = 0;
        assert(out@ =~= spaces(0));
        while i < fill
            invariant
                i <= fill,
                out@ == spaces(i as nat),
            decreases fill - i,
        {
            proof {
                reveal_strlit(" ");
            }
            out.append(" ");
            i += 1;
            assert(out@ =~= spaces(i as nat));
        }
    } else {
        assert(out@ =~= Seq::<char>::empty());
    }
    out.append(text);
    assert(out@ =~= right_aligned(text@, width as nat));
    out
}

/// A message with a styled title, in the manner of the build tool's own
/// messages.
pub fn print(status: &str, message: &str, style: Style, justified: bool) -> (line: Message)
    ensures
        line.style == style,
        line.title@ == title_text(status@, justified),
        line.rest@ == rest_text(message@, justified),
{
    let title = if justified {
        justify(status, TITLE_WIDTH)
    } else {
        status.to_owned()
    };
    let mut rest = String::new();
    proof {
        reveal_strlit(": ");
        reveal_strlit(" ");
        reveal_strlit("\n");
    }
    if justified {
        rest.append(" ");
    } else {
        rest.append(": ");
    }
    rest.append(message);
    rest.append("\n");
    assert(rest@ =~= rest_text(message@, justified));
    Message { style, title, rest }
}

/// A message about an action under way.
pub fn status(action: &str, message: &str) -> (line: Message)
    ensures
        line.style == Style::Header,
        line.title@ == right_aligned(action@, TITLE_WIDTH as nat),
        line.rest@ == rest_text(message@, true),
{
    print(action, message, Style::Header, true)
}

/// An error message.
pub fn error(message: &str) -> (line: Message)
    ensures
        line.style == Style::Error,
        line.title@ == "error"@,
        line.rest@ == rest_text(message@, false),
{
    print("error", message, Style::Error, false)
}

/// A warning.
pub fn warn(message: &str) -> (line: Message)
    ensures
        line.style == Style::Warn,
        line.title@ == "warning"@,
        line.rest@ == rest_text(message@, false),
{
    print("warning", message, Style::Warn, false)
}

/// A note.
pub fn note(message: &str) -> (line: Message)
    ensures
        line.style == Style::Note,
        line.title@ == "note"@,
        line.rest@ == rest_text(message@, false),
{
    print("note", message, Style::Note, false)
}

/// The message for something logged at `level`: errors, warnings and
/// information are shown to the user, as an error, a warning and a note;
/// anything below is left to the log, and `None` is returned.
pub fn log(level: Level, message: &str) -> (line: Option<Message>)
    ensures
        match level {
            Level::Error => line is Some && line->0.style == Style::Error && line->0.title@
                == "error"@ && line->0.rest@ == rest_text(message@, false),
            Level::Warn => line is Some && line->0.style == Style::Warn && line->0.title@
                == "warning"@ && line->0.rest@ == rest_text(message@, false),
            Level::Info => line is Some && line->0.style == Style::Note && line->0.title@
                == "note"@ && line->0.rest@ == rest_text(message@, false),
            Level::Debug => line is None,
            Level::Trace => line is None,
        },
{
    match level {
        Level::Error => Some(error(message)),
        Level::Warn => Some(warn(message)),
        Level::Info => Some(note(message)),
        _ => None,
    }
}

/// A text with the white space at both ends cut off, as `str::trim` does
/// it.
pub uninterp spec fn trimmed(text: Seq<char>) -> Seq<char>;

/// The lower-case form of a text, as `str::to_lowercase` gives it.
pub uninterp spec fn lowercased(text: Seq<char>) -> Seq<char>;

/// Calls `str::trim`, which hands back the part of the text between the
/// white space at its two ends.
#[verifier::external_body]
fn trim(text: &str) -> (cut: &str)
    ensures
        cut@ == trimmed(text@),
{
    text.trim()
}

/// Calls `str::to_lowercase`, which hands back the text with each character
/// in its lower-case form.
#[verifier::external_body]
fn to_lowercase(text: &str) -> (lower: String)
    ensures
        lower@ == lowercased(text@),
{
    text.to_lowercase()
}

/// The question put to the user before anything is released.
pub fn confirm_prompt(prompt: &str) -> (line: Message)
    ensures
        line.style == Style::Plain,
        line.title@ == prompt@ + " [y/N] "@,
        line.rest@ == seq!['\n'],
{
    let mut title = prompt.to_owned();
    title.append(" [y/N] ");
    proof {
        reveal_strlit("\n");
    }
    let rest = "\n".to_owned();
    assert(rest@ =~= seq!['\n']);
    Message { style: Style::Plain, title, rest }
}

/// Whether the line that the user typed says yes: it does when it is `y`
/// once trimmed and put in lower case.
pub fn confirm(answer: &str) -> (yes: bool)
    ensures
        yes == (lowercased(trimmed(answer@)) == "y"@),
{
    let lower = to_lowercase(trim(answer));
    crate::ops::text::same_text(lower.as_str(), "y")
}

} // verus!
