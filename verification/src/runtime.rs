//! The errors that the runtime shows to its user.

use crate::chars::LINE_FEED;
use crate::token::Reason;
use vstd::prelude::*;

verus! {

/// An error as the user of the runtime sees it.
#[derive(Debug, PartialEq, Eq)]
pub enum RuntimeError<'a> {
    /// The source could not be scanned: why, and on which line.
    LexerError { message: &'a str, line: usize },
}

impl Reason {
    /// The words by which the runtime reports this reason.
    pub open spec fn spec_message(self) -> Seq<char> {
        match self {
            Reason::UnterminatedString => "unterminated string"@,
            Reason::InvalidEscape => "invalid escape sequence"@,
            Reason::UnrecognizedByte => "unrecognized byte"@,
            Reason::MalformedNumber => "malformed number"@,
        }
    }

    /// The words by which the runtime reports this reason.
    pub fn message(self) -> (message: &'static str)
        ensures
            message@ == self.spec_message(),
    {
        match self {
            Reason::UnterminatedString => "unterminated string",
            Reason::InvalidEscape => "invalid escape sequence",
            Reason::UnrecognizedByte => "unrecognized byte",
            Reason::MalformedNumber => "malformed number",
        }
    }
}

/// The line of position `at` in `source`, lines counted from one: one more
/// than the line feeds before it.
pub open spec fn line_of(source: Seq<u8>, at: int) -> nat
    decreases at,
{
    if at <= 0 {
        1
    } else if at <= source.len() && source[at - 1] == LINE_FEED {
        line_of(source, at - 1) + 1
    } else {
        line_of(source, at - 1)
    }
}

/// Positions behind the end of the source lie on its last line.
pub proof fn lemma_line_of_end(source: Seq<u8>, at: int)
    requires
        at >= source.len(),
    ensures
        line_of(source, at) == line_of(source, source.len() as int),
    decreases at,
{
    if at > source.len() {
        lemma_line_of_end(source, at - 1);
    }
}

/// The line of position `at` in `source`; `usize::MAX` where the number of
/// the line is beyond it.
pub fn line_at(source: &[u8], at: usize) -> (line: usize)
    ensures
        line == if line_of(source@, at as int) <= usize::MAX {
            line_of(source@, at as int)
        } else {
            usize::MAX as nat
        },
{
    let end = if at < source.len() {
        at
    } else {
        source.len()
    };
    let mut line: usize = 1;
    let mut i: usize = 0;
    while i < end
        invariant
            i <= end <= source@.len(),
            line == if line_of(source@, i as int) <= usize::MAX {
                line_of(source@, i as int)
            } else {
                usize::MAX as nat
            },
        decreases end - i,
    {
        if source[i] == LINE_FEED && line < usize::MAX {
            line = line + 1;
        }
        i = i + 1;
    }
    proof {
        if at > end {
            lemma_line_of_end(source@, at as int);
        }
    }
    line
}

} // verus!
