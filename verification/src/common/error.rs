//! A syntax error located in a file, and the text that shows it to a reader.

use vstd::prelude::*;
use vstd::string::StringExecFns;

use crate::common::Position;
use crate::text::{decimal, decimal_digits, push_repeated, repeat, string_from_chars};

verus! {

/// A syntax error: what is wrong, where in which file, and the text of the
/// line it starts on.
pub struct Error {
    pub message: String,
    pub start: Position,
    pub end: Position,
    pub path: String,
    pub line_contents: String,
}

/// The spaces before the first caret: one for each column before the start
/// (none when the start column is 0).
pub open spec fn caret_indent(start: Position) -> nat {
    if start.column >= 1 {
        (start.column - 1) as nat
    } else {
        0
    }
}

/// The carets under the error: one for each column from the start up to the
/// end, and a single one when the end column lies before the start column.
pub open spec fn caret_count(start: Position, end: Position) -> nat {
    if end.column >= start.column {
        (end.column - start.column) as nat
    } else {
        1
    }
}

/// The report of an error:
///
/// ```text
/// path:line:column
///      |
/// line | line contents
///      |     ^^^^
/// Syntax Error: message
/// ```
///
/// The gutter is as wide as the line number.
pub open spec fn spec_render(e: Error) -> Seq<char> {
    let line = decimal(e.start.line as nat);
    let padding = repeat(' ', line.len());
    e.path@ + ":"@ + line + ":"@ + decimal(e.start.column as nat) + "\n"@ + padding + " |\n"@
        + line + " | "@ + e.line_contents@ + "\n"@ + padding + " | "@ + repeat(
        ' ',
        caret_indent(e.start),
    ) + repeat('^', caret_count(e.start, e.end)) + "\nSyntax Error: "@ + e.message@
}

impl Error {
    /// The report of this error, as [`spec_render`] lays it out.
    pub fn render(&self) -> (r: String)
        ensures
            r@ == spec_render(*self),
    {
        let line_digits = decimal_digits(self.start.line);
        let line = string_from_chars(line_digits.as_slice());
        let column = string_from_chars(decimal_digits(self.start.column).as_slice());
        let indent: usize = if self.start.column >= 1 {
            self.start.column - 1
        } else {
            0
        };
        let carets: usize = if self.end.column >= self.start.column {
            self.end.column - self.start.column
        } else {
            1
        };
        let mut r = String::new();
        r.append(self.path.as_str());
        r.append(":");
        r.append(line.as_str());
        r.append(":");
        r.append(column.as_str());
        r.append("\n");
        push_repeated(&mut r, ' ', line_digits.len());
        r.append(" |\n");
        r.append(line.as_str());
        r.append(" | ");
        r.append(self.line_contents.as_str());
        r.append("\n");
        push_repeated(&mut r, ' ', line_digits.len());
        r.append(" | ");
        push_repeated(&mut r, ' ', indent);
        push_repeated(&mut r, '^', carets);
        r.append("\nSyntax Error: ");
        r.append(self.message.as_str());
        r
    }
}

} // verus!
