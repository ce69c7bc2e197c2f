//! The position-aware error model.
//!
//! An error carries either a code from a closed taxonomy or a free-text
//! message, and optionally a position.  A position is attached at most
//! once: the innermost attachment wins while an error propagates
//! outward.  Positions are 0-based (line, column) pairs recomputed from
//! a character offset on demand; the rendered message shows them
//! 1-based.

use vstd::prelude::*;
use vstd::string::StrSliceExecFns;

use crate::chars::{chars_to_string, push_str_chars, spec_is_json5_line_terminator};
use crate::numbers::{dec_str, push_dec_usize};

verus! {

/// A failure, as an ordinary value.
#[derive(Debug, PartialEq, Clone)]
pub struct Error {
    pub inner: ErrorInner,
}

#[derive(Debug, PartialEq, Clone)]
pub struct ErrorInner {
    pub content: ErrorContent,
    pub position: Option<Position>,
}

#[derive(Debug, PartialEq, Clone)]
pub enum ErrorContent {
    Code(ErrorCode),
    Custom(String),
}

#[derive(Debug, PartialEq, Eq, Clone, Copy, Structural)]
pub enum ErrorCode {
    EofParsingArray,
    EofParsingBool,
    EofParsingComment,
    EofParsingEscapeSequence,
    EofParsingIdentifier,
    EofParsingNull,
    EofParsingNumber,
    EofParsingObject,
    EofParsingString,
    EofParsingValue,
    ExpectedBool,
    ExpectedClosingBrace,
    ExpectedClosingBracket,
    ExpectedColon,
    ExpectedComma,
    ExpectedComment,
    ExpectedIdentifier,
    ExpectedNull,
    ExpectedNumber,
    ExpectedOpeningBrace,
    ExpectedOpeningBracket,
    ExpectedString,
    ExpectedStringOrObject,
    ExpectedValue,
    InvalidBytes,
    InvalidEscapeSequence,
    InvalidKey,
    LeadingZero,
    LineTerminatorInString,
    OverflowParsingNumber,
    TrailingCharacters,
}

/// A 0-based (line, column) source position.
#[derive(Debug, PartialEq, Eq, Clone, Copy, Structural)]
pub struct Position {
    pub line: usize,
    pub column: usize,
}

impl Error {
    /// The taxonomy code this error carries, if it is not a free-text
    /// error.
    pub open spec fn code(&self) -> Option<ErrorCode> {
        match self.inner.content {
            ErrorContent::Code(c) => Some(c),
            ErrorContent::Custom(_) => None,
        }
    }

    /// The free-text message this error carries, if any.
    pub open spec fn custom_text(&self) -> Option<Seq<char>> {
        match self.inner.content {
            ErrorContent::Code(_) => None,
            ErrorContent::Custom(m) => Some(m@),
        }
    }

    /// The position attached to this error, if one has been.
    pub open spec fn position(&self) -> Option<Position> {
        self.inner.position
    }

    #[must_use]
    pub fn new(code: ErrorCode) -> (r: Self)
        ensures
            r.code() == Some(code),
            r.position() is None,
    {
        Self { inner: ErrorInner { content: ErrorContent::Code(code), position: None } }
    }

    #[must_use]
    pub fn new_at(position: Position, code: ErrorCode) -> (r: Self)
        ensures
            r.code() == Some(code),
            r.position() == Some(position),
    {
        Self { inner: ErrorInner { content: ErrorContent::Code(code), position: Some(position) } }
    }

    #[must_use]
    pub fn custom(msg: String) -> (r: Self)
        ensures
            r.custom_text() == Some(msg@),
            r.code() is None,
            r.position() is None,
    {
        Self { inner: ErrorInner { content: ErrorContent::Custom(msg), position: None } }
    }

    #[must_use]
    pub fn custom_at(position: Position, msg: String) -> (r: Self)
        ensures
            r.custom_text() == Some(msg@),
            r.code() is None,
            r.position() == Some(position),
    {
        Self { inner: ErrorInner { content: ErrorContent::Custom(msg), position: Some(position) } }
    }

    /// Attaches a position unless one is already attached: the earliest
    /// attachment wins.
    #[must_use]
    pub fn with_position(self, position: Position) -> (r: Self)
        ensures
            r.code() == self.code(),
            r.custom_text() == self.custom_text(),
            r.position() == if self.position() is None {
                Some(position)
            } else {
                self.position()
            },
    {
        if self.inner.position.is_none() {
            Error {
                inner: ErrorInner { content: self.inner.content, position: Some(position) },
            }
        } else {
            self
        }
    }
}

// ---------------------------------------------------------------------------
// Offset -> position resolution.
// ---------------------------------------------------------------------------

/// Walks `s` from index `i`, counting line terminators; a CR followed
/// immediately by a LF counts as a single terminator.
pub open spec fn pos_rec(s: Seq<char>, i: int, line: nat, col: nat) -> (nat, nat)
    decreases s.len() - i,
{
    if i < 0 || i >= s.len() {
        (line, col)
    } else if spec_is_json5_line_terminator(s[i]) {
        if s[i] == '\r' && i + 1 < s.len() && s[i + 1] == '\n' {
            pos_rec(s, i + 2, line + 1, 0)
        } else {
            pos_rec(s, i + 1, line + 1, 0)
        }
    } else {
        pos_rec(s, i + 1, line, col + 1)
    }
}

/// The position of character offset `offset` within `s`.
pub open spec fn spec_position(s: Seq<char>, offset: int) -> Position {
    Position {
        line: pos_rec(s.take(offset), 0, 0, 0).0 as usize,
        column: pos_rec(s.take(offset), 0, 0, 0).1 as usize,
    }
}

/// Resolves an offset within a character vector; shared by the parser.
pub fn position_in(s: &Vec<char>, offset: usize) -> (r: Position)
    requires
        offset <= s.len(),
    ensures
        r == spec_position(s@, offset as int),
{
    let ghost prefix = s@.take(offset as int);
    let mut line: usize = 0;
    let mut col: usize = 0;
    let mut i: usize = 0;
    while i < offset
        invariant
            i <= offset <= s.len(),
            line + col <= i,
            prefix == s@.take(offset as int),
            pos_rec(prefix, 0, 0, 0) == pos_rec(prefix, i as int, line as nat, col as nat),
        decreases offset - i,
    {
        let c = s[i];
        assert(prefix[i as int] == c);
        if crate::chars::is_json5_line_terminator(c) {
            if c == '\r' && i + 1 < offset && s[i + 1] == '\n' {
                assert(prefix[i + 1] == s@[i + 1]);
                i = i + 2;
            } else {
                i = i + 1;
            }
            line = line + 1;
            col = 0;
        } else {
            col = col + 1;
            i = i + 1;
        }
    }
    Position { line, column: col }
}

impl Position {
    /// The position of character offset `offset` within `input`,
    /// recomputed by rescanning the text up to the offset.
    #[must_use]
    pub fn from_offset(offset: usize, input: &str) -> (r: Self)
        requires
            offset <= input@.len(),
        ensures
            r == spec_position(input@, offset as int),
    {
        let ghost prefix = input@.take(offset as int);
        let mut line: usize = 0;
        let mut col: usize = 0;
        let mut i: usize = 0;
        while i < offset
            invariant
                i <= offset <= input@.len(),
                line + col <= i,
                prefix == input@.take(offset as int),
                pos_rec(prefix, 0, 0, 0) == pos_rec(prefix, i as int, line as nat, col as nat),
            decreases offset - i,
        {
            let c = input.get_char(i);
            assert(prefix[i as int] == c);
            if crate::chars::is_json5_line_terminator(c) {
                if c == '\r' && i + 1 < offset && input.get_char(i + 1) == '\n' {
                    assert(prefix[i + 1] == input@[i + 1]);
                    i = i + 2;
                } else {
                    i = i + 1;
                }
                line = line + 1;
                col = 0;
            } else {
                col = col + 1;
                i = i + 1;
            }
        }
        Position { line, column: col }
    }
}

// ---------------------------------------------------------------------------
// Rendered messages.
// ---------------------------------------------------------------------------

/// The wording of each taxonomy code.
pub open spec fn code_text(code: ErrorCode) -> Seq<char> {
    match code {
        ErrorCode::EofParsingArray => "EOF parsing array"@,
        ErrorCode::EofParsingBool => "EOF parsing bool"@,
        ErrorCode::EofParsingComment => "EOF parsing comment"@,
        ErrorCode::EofParsingEscapeSequence => "EOF parsing escape sequence"@,
        ErrorCode::EofParsingIdentifier => "EOF parsing identifier"@,
        ErrorCode::EofParsingNull => "EOF parsing null"@,
        ErrorCode::EofParsingNumber => "EOF parsing number"@,
        ErrorCode::EofParsingObject => "EOF parsing object"@,
        ErrorCode::EofParsingString => "EOF parsing string"@,
        ErrorCode::EofParsingValue => "EOF parsing value"@,
        ErrorCode::ExpectedBool => "expected bool"@,
        ErrorCode::ExpectedClosingBrace => "expected closing brace"@,
        ErrorCode::ExpectedClosingBracket => "expected closing bracket"@,
        ErrorCode::ExpectedColon => "expected colon"@,
        ErrorCode::ExpectedComma => "expected comma"@,
        ErrorCode::ExpectedComment => "expected comment"@,
        ErrorCode::ExpectedIdentifier => "expected identifier"@,
        ErrorCode::ExpectedNull => "expected null"@,
        ErrorCode::ExpectedNumber => "expected number"@,
        ErrorCode::ExpectedOpeningBrace => "expected opening brace"@,
        ErrorCode::ExpectedOpeningBracket => "expected opening bracket"@,
        ErrorCode::ExpectedString => "expected string"@,
        ErrorCode::ExpectedStringOrObject => "expected string or object"@,
        ErrorCode::ExpectedValue => "expected value"@,
        ErrorCode::InvalidBytes => "invalid bytes"@,
        ErrorCode::InvalidEscapeSequence => "invalid escape sequence"@,
        ErrorCode::InvalidKey => "invalid key"@,
        ErrorCode::LeadingZero => "leading zero"@,
        ErrorCode::LineTerminatorInString => "line terminator in string"@,
        ErrorCode::OverflowParsingNumber => "overflow parsing number"@,
        ErrorCode::TrailingCharacters => "trailing characters"@,
    }
}

impl ErrorCode {
    pub fn message(&self) -> (r: &'static str)
        ensures
            r@ == code_text(*self),
    {
        proof {
            reveal_strlit("EOF parsing array");
            reveal_strlit("EOF parsing bool");
            reveal_strlit("EOF parsing comment");
            reveal_strlit("EOF parsing escape sequence");
            reveal_strlit("EOF parsing identifier");
            reveal_strlit("EOF parsing null");
            reveal_strlit("EOF parsing number");
            reveal_strlit("EOF parsing object");
            reveal_strlit("EOF parsing string");
            reveal_strlit("EOF parsing value");
            reveal_strlit("expected bool");
            reveal_strlit("expected closing brace");
            reveal_strlit("expected closing bracket");
            reveal_strlit("expected colon");
            reveal_strlit("expected comma");
            reveal_strlit("expected comment");
            reveal_strlit("expected identifier");
            reveal_strlit("expected null");
            reveal_strlit("expected number");
            reveal_strlit("expected opening brace");
            reveal_strlit("expected opening bracket");
            reveal_strlit("expected string");
            reveal_strlit("expected string or object");
            reveal_strlit("expected value");
            reveal_strlit("invalid bytes");
            reveal_strlit("invalid escape sequence");
            reveal_strlit("invalid key");
            reveal_strlit("leading zero");
            reveal_strlit("line terminator in string");
            reveal_strlit("overflow parsing number");
            reveal_strlit("trailing characters");
        }
        match self {
            ErrorCode::EofParsingArray => "EOF parsing array",
            ErrorCode::EofParsingBool => "EOF parsing bool",
            ErrorCode::EofParsingComment => "EOF parsing comment",
            ErrorCode::EofParsingEscapeSequence => "EOF parsing escape sequence",
            ErrorCode::EofParsingIdentifier => "EOF parsing identifier",
            ErrorCode::EofParsingNull => "EOF parsing null",
            ErrorCode::EofParsingNumber => "EOF parsing number",
            ErrorCode::EofParsingObject => "EOF parsing object",
            ErrorCode::EofParsingString => "EOF parsing string",
            ErrorCode::EofParsingValue => "EOF parsing value",
            ErrorCode::ExpectedBool => "expected bool",
            ErrorCode::ExpectedClosingBrace => "expected closing brace",
            ErrorCode::ExpectedClosingBracket => "expected closing bracket",
            ErrorCode::ExpectedColon => "expected colon",
            ErrorCode::ExpectedComma => "expected comma",
            ErrorCode::ExpectedComment => "expected comment",
            ErrorCode::ExpectedIdentifier => "expected identifier",
            ErrorCode::ExpectedNull => "expected null",
            ErrorCode::ExpectedNumber => "expected number",
            ErrorCode::ExpectedOpeningBrace => "expected opening brace",
            ErrorCode::ExpectedOpeningBracket => "expected opening bracket",
            ErrorCode::ExpectedString => "expected string",
            ErrorCode::ExpectedStringOrObject => "expected string or object",
            ErrorCode::ExpectedValue => "expected value",
            ErrorCode::InvalidBytes => "invalid bytes",
            ErrorCode::InvalidEscapeSequence => "invalid escape sequence",
            ErrorCode::InvalidKey => "invalid key",
            ErrorCode::LeadingZero => "leading zero",
            ErrorCode::LineTerminatorInString => "line terminator in string",
            ErrorCode::OverflowParsingNumber => "overflow parsing number",
            ErrorCode::TrailingCharacters => "trailing characters",
        }
    }
}

/// The rendered form of an error: its message, then
/// `" at line L column C"` when a position is attached, with the line
/// and column shown 1-based.
pub open spec fn error_text(e: &Error) -> Seq<char> {
    let base = match e.inner.content {
        ErrorContent::Code(c) => code_text(c),
        ErrorContent::Custom(m) => m@,
    };
    match e.inner.position {
        None => base,
        Some(p) => base + " at line "@ + dec_str((p.line + 1) as nat) + " column "@ + dec_str(
            (p.column + 1) as nat,
        ),
    }
}

impl Error {
    /// The rendered message.
    pub fn message(&self) -> (r: String)
        requires
            self.position() is Some ==> self.position()->0.line < usize::MAX
                && self.position()->0.column < usize::MAX,
        ensures
            r@ == error_text(self),
    {
        let mut out: Vec<char> = Vec::new();
        match &self.inner.content {
            ErrorContent::Code(c) => {
                push_str_chars(&mut out, c.message());
            },
            ErrorContent::Custom(m) => {
                push_str_chars(&mut out, m.as_str());
            },
        }
        match &self.inner.position {
            None => {},
            Some(p) => {
                proof {
                    reveal_strlit(" at line ");
                    reveal_strlit(" column ");
                }
                push_str_chars(&mut out, " at line ");
                push_dec_usize(&mut out, p.line + 1);
                push_str_chars(&mut out, " column ");
                push_dec_usize(&mut out, p.column + 1);
            },
        }
        assert(out@ =~= error_text(self));
        chars_to_string(&out)
    }
}

} // verus!
