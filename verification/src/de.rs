//! The JSON5 parser: a character cursor over the source text, the
//! number, string and identifier lexers, and the recursive-descent
//! collection grammar.
//!
//! Every lexing function is verified against a specification function
//! that walks the same source sequence; the specification functions
//! double as the mathematical description of the grammar.  A parse
//! result position is a character offset into the source (the text is
//! held as a vector of characters), and error positions resolve offsets
//! lazily through [`crate::error::spec_position`].

use vstd::prelude::*;
use vstd::string::StringExecFns;

use crate::chars::{
    chars_to_string, spec_is_json5_identifier, spec_is_json5_identifier_start,
    spec_is_json5_line_terminator, spec_is_json5_whitespace,
};
use crate::comments::{Comments, PathSegment};
use crate::error::{spec_position, Error, ErrorCode, Position};
use crate::numbers::{
    dec_i128_spec, dec_u128_spec, float_from_text, hex_digit_val, spec_is_dec_digit,
    spec_is_hex_digit, DecI, DecU,
};
use crate::value::{membs_rep, vals_rep, value_rep, NumberResult, SpecValue, Value};

verus! {

broadcast use vstd::std_specs::control_flow::group_control_flow_axioms, vstd::utf8::char_u32_cast;

// ---------------------------------------------------------------------------
// Scan outcomes.
// ---------------------------------------------------------------------------

/// A failure described abstractly: a bare code, a code at an offset, or
/// a free-text message at an offset.
pub enum ScanErr {
    Plain(ErrorCode),
    At(ErrorCode, int),
    CustomAt(Seq<char>, int),
}

/// The outcome of scanning a production: a payload and the position
/// just past it, or a failure.
pub enum Scan<T> {
    Done(T, int),
    Fail(ScanErr),
}

/// Whether the error value `e` is the one that `se` describes, with
/// offsets resolved against the source `s`.
pub open spec fn err_matches(e: &Error, s: Seq<char>, se: ScanErr) -> bool {
    match se {
        ScanErr::Plain(c) => e.code() == Some(c) && e.position() is None,
        ScanErr::At(c, off) => e.code() == Some(c) && e.position() == Some(spec_position(s, off)),
        ScanErr::CustomAt(m, off) => e.custom_text() == Some(m) && e.position() == Some(
            spec_position(s, off),
        ),
    }
}

/// Attaching a position to an error that lacks one: a bare code gains
/// the position of `off`; everything else is unchanged.
pub open spec fn attach(se: ScanErr, off: int) -> ScanErr {
    match se {
        ScanErr::Plain(c) => ScanErr::At(c, off),
        _ => se,
    }
}

/// Clamps a continuation position into `(i, s.len()]`; the positions
/// that scans actually produce are already in that range, so this is
/// the identity wherever it is applied.
pub open spec fn clamp_pos(s: Seq<char>, i: int, p: int) -> int {
    if p < i + 1 {
        if i + 1 > s.len() {
            s.len() as int
        } else {
            i + 1
        }
    } else if p > s.len() {
        s.len() as int
    } else {
        p
    }
}

// ---------------------------------------------------------------------------
// White space and comments.
// ---------------------------------------------------------------------------

/// The position just past a line comment's terminator (or the end of
/// the text), scanning from `j`.
pub open spec fn line_comment_end(s: Seq<char>, j: int) -> int
    decreases s.len() - j,
{
    if j < 0 || j >= s.len() {
        s.len() as int
    } else if spec_is_json5_line_terminator(s[j]) {
        j + 1
    } else {
        line_comment_end(s, j + 1)
    }
}

/// The position just past the `*/` that closes a block comment,
/// scanning from `j`, or `None` when the comment never closes.
pub open spec fn block_comment_end(s: Seq<char>, j: int) -> Option<int>
    decreases s.len() - j,
{
    if j < 0 || j >= s.len() {
        None
    } else if s[j] == '*' && j + 1 < s.len() && s[j + 1] == '/' {
        Some(j + 2)
    } else {
        block_comment_end(s, j + 1)
    }
}

/// A comment, starting at `i`, the position after its introducing `/`.
pub open spec fn skip_comment_spec(s: Seq<char>, i: int) -> Scan<()> {
    if i < 0 || i >= s.len() {
        Scan::Fail(ScanErr::Plain(ErrorCode::EofParsingComment))
    } else if s[i] == '/' {
        Scan::Done((), line_comment_end(s, i + 1))
    } else if s[i] == '*' {
        match block_comment_end(s, i + 1) {
            Some(j) => Scan::Done((), j),
            None => Scan::Fail(ScanErr::Plain(ErrorCode::EofParsingComment)),
        }
    } else {
        Scan::Fail(ScanErr::At(ErrorCode::ExpectedComment, i))
    }
}

/// JSON5 white space and comments, skipped in a loop until neither
/// applies.
pub open spec fn skip_ws_spec(s: Seq<char>, i: int) -> Scan<()>
    decreases s.len() - i,
{
    if i < 0 || i >= s.len() {
        Scan::Done((), i)
    } else if spec_is_json5_whitespace(s[i]) {
        skip_ws_spec(s, i + 1)
    } else if s[i] == '/' {
        match skip_comment_spec(s, i + 1) {
            Scan::Done(_, j) => skip_ws_spec(s, clamp_pos(s, i, j)),
            Scan::Fail(e) => Scan::Fail(e),
        }
    } else {
        Scan::Done((), i)
    }
}

pub proof fn lemma_line_comment_end_bounds(s: Seq<char>, j: int)
    requires
        0 <= j <= s.len(),
    ensures
        j <= line_comment_end(s, j) <= s.len(),
    decreases s.len() - j,
{
    if j < s.len() && !spec_is_json5_line_terminator(s[j]) {
        lemma_line_comment_end_bounds(s, j + 1);
    }
}

pub proof fn lemma_block_comment_end_bounds(s: Seq<char>, j: int)
    requires
        0 <= j <= s.len(),
    ensures
        block_comment_end(s, j) matches Some(p) ==> j + 2 <= p <= s.len(),
    decreases s.len() - j,
{
    if j < s.len() && !(s[j] == '*' && j + 1 < s.len() && s[j + 1] == '/') {
        lemma_block_comment_end_bounds(s, j + 1);
    }
}

pub proof fn lemma_skip_ws_bounds(s: Seq<char>, i: int)
    requires
        0 <= i <= s.len(),
    ensures
        skip_ws_spec(s, i) matches Scan::Done(_, j) ==> i <= j <= s.len(),
    decreases s.len() - i,
{
    if i < s.len() {
        if spec_is_json5_whitespace(s[i]) {
            lemma_skip_ws_bounds(s, i + 1);
        } else if s[i] == '/' {
            match skip_comment_spec(s, i + 1) {
                Scan::Done(_, j) => {
                    lemma_skip_ws_bounds(s, clamp_pos(s, i, j));
                },
                Scan::Fail(_) => {},
            }
        }
    }
}

// ---------------------------------------------------------------------------
// Fixed tokens.
// ---------------------------------------------------------------------------

/// The characters of `w`, expected verbatim at `i`: running off the end
/// of the text fails with `eof`, a mismatch fails with `unexpected` at
/// the mismatching character.
pub open spec fn expect_chars_spec(
    s: Seq<char>,
    i: int,
    w: Seq<char>,
    eof: ErrorCode,
    unexpected: ErrorCode,
) -> Scan<()>
    decreases w.len(),
{
    if w.len() == 0 {
        Scan::Done((), i)
    } else if i < 0 || i >= s.len() {
        Scan::Fail(ScanErr::Plain(eof))
    } else if s[i] != w[0] {
        Scan::Fail(ScanErr::At(unexpected, i))
    } else {
        expect_chars_spec(s, i + 1, w.drop_first(), eof, unexpected)
    }
}

pub proof fn lemma_expect_chars_bounds(
    s: Seq<char>,
    i: int,
    w: Seq<char>,
    eof: ErrorCode,
    unexpected: ErrorCode,
)
    requires
        0 <= i <= s.len(),
    ensures
        expect_chars_spec(s, i, w, eof, unexpected) matches Scan::Done(_, j) ==> i <= j <= s.len()
            && j == i + w.len(),
    decreases w.len(),
{
    if w.len() > 0 && i < s.len() && s[i] == w[0] {
        lemma_expect_chars_bounds(s, i + 1, w.drop_first(), eof, unexpected);
    }
}

// ---------------------------------------------------------------------------
// The cursor.
// ---------------------------------------------------------------------------

/// A parser over JSON5 source text: the text as characters, a cursor
/// position, and the state of the comment-retaining mode.
pub struct Deserializer {
    pub input: Vec<char>,
    pub pos: usize,
    /// Whether skipped comments are being recorded.
    pub record_comments: bool,
    /// Comment lines skipped since the last structural anchor.
    pub pending: Vec<String>,
    /// The structural path of the position being parsed.
    pub path: Vec<PathSegment>,
    /// The table being built by a comment-retaining parse.
    pub comments: Comments,
}

impl Deserializer {
    /// The cursor is within the text.
    pub open spec fn wf(&self) -> bool {
        self.pos <= self.input.len()
    }

    /// The source text this parser reads.
    pub open spec fn src(&self) -> Seq<char> {
        self.input@
    }

    /// Construct a deserializer that will read from the given JSON5
    /// string.
    #[must_use]
    pub fn from_str(input: &str) -> (r: Self)
        ensures
            r.src() == input@,
            r.pos == 0,
            r.wf(),
            !r.record_comments,
    {
        Deserializer {
            input: crate::chars::str_to_chars(input),
            pos: 0,
            record_comments: false,
            pending: Vec::new(),
            path: Vec::new(),
            comments: Comments::new(),
        }
    }

    pub fn peek(&self) -> (r: Option<(usize, char)>)
        requires
            self.wf(),
        ensures
            self.pos < self.input.len() ==> r == Some((self.pos, self.src()[self.pos as int])),
            self.pos >= self.input.len() ==> r is None,
    {
        if self.pos < self.input.len() {
            Some((self.pos, self.input[self.pos]))
        } else {
            None
        }
    }

    pub fn next(&mut self) -> (r: Option<(usize, char)>)
        requires
            old(self).wf(),
        ensures
            final(self).src() == old(self).src(),
            final(self).wf(),
            old(self).pos < old(self).input.len() ==> r == Some(
                (old(self).pos, old(self).src()[old(self).pos as int]),
            ) && final(self).pos == old(self).pos + 1,
            old(self).pos >= old(self).input.len() ==> r is None && final(self).pos == old(self).pos,
    {
        if self.pos < self.input.len() {
            let c = self.input[self.pos];
            let off = self.pos;
            self.pos = self.pos + 1;
            Some((off, c))
        } else {
            None
        }
    }

    pub fn next_or(&mut self, eof: ErrorCode) -> (r: Result<(usize, char), Error>)
        requires
            old(self).wf(),
        ensures
            final(self).src() == old(self).src(),
            final(self).wf(),
            old(self).pos < old(self).input.len() ==> r == Ok::<_, Error>(
                (old(self).pos, old(self).src()[old(self).pos as int]),
            ) && final(self).pos == old(self).pos + 1,
            old(self).pos >= old(self).input.len() ==> (r matches Err(e) && err_matches(
                &e,
                old(self).src(),
                ScanErr::Plain(eof),
            )),
    {
        match self.next() {
            Some(oc) => Ok(oc),
            None => Err(Error::new(eof)),
        }
    }

    pub fn peek_or(&self, eof: ErrorCode) -> (r: Result<(usize, char), Error>)
        requires
            self.wf(),
        ensures
            self.pos < self.input.len() ==> r == Ok::<_, Error>(
                (self.pos, self.src()[self.pos as int]),
            ),
            self.pos >= self.input.len() ==> (r matches Err(e) && err_matches(
                &e,
                self.src(),
                ScanErr::Plain(eof),
            )),
    {
        match self.peek() {
            Some(oc) => Ok(oc),
            None => Err(Error::new(eof)),
        }
    }

    /// An error carrying `code`, positioned at `offset`.
    pub fn err_at(&self, offset: usize, code: ErrorCode) -> (r: Error)
        requires
            offset <= self.input.len(),
        ensures
            err_matches(&r, self.src(), ScanErr::At(code, offset as int)),
    {
        Error::new_at(crate::error::position_in(&self.input, offset), code)
    }

    /// A free-text error, positioned at `offset`.
    pub fn custom_err_at(&self, offset: usize, msg: String) -> (r: Error)
        requires
            offset <= self.input.len(),
        ensures
            err_matches(&r, self.src(), ScanErr::CustomAt(msg@, offset as int)),
    {
        Error::custom_at(crate::error::position_in(&self.input, offset), msg)
    }

    /// Attaches the position of `offset` to an error that has none.
    pub fn with_position(&self, err: Error, offset: usize) -> (r: Error)
        requires
            offset <= self.input.len(),
        ensures
            forall|se: ScanErr|
                err_matches(&err, self.src(), se) ==> err_matches(
                    &r,
                    self.src(),
                    attach(se, offset as int),
                ),
    {
        err.with_position(crate::error::position_in(&self.input, offset))
    }
}




// ---------------------------------------------------------------------------
// Strings, escapes, identifiers.
// ---------------------------------------------------------------------------

/// Exactly `n` hexadecimal digits from `i`, accumulated into a value;
/// the end of the text fails as an unfinished escape, a non-digit fails
/// at its own position.
pub open spec fn fixed_hex_spec(s: Seq<char>, i: int, n: nat, acc: u32) -> Scan<u32>
    decreases n,
{
    if n == 0 {
        Scan::Done(acc, i)
    } else if i < 0 || i >= s.len() {
        Scan::Fail(ScanErr::Plain(ErrorCode::EofParsingEscapeSequence))
    } else if !spec_is_hex_digit(s[i]) {
        Scan::Fail(ScanErr::At(ErrorCode::InvalidEscapeSequence, i))
    } else {
        fixed_hex_spec(s, i + 1, (n - 1) as nat, ((acc * 16 + hex_digit_val(s[i])) as int) as u32)
    }
}

pub proof fn lemma_fixed_hex_bounds(s: Seq<char>, i: int, n: nat, acc: u32)
    requires
        0 <= i <= s.len(),
        (acc as nat + 1) * crate::numbers::pow16(n) <= 0x1_0000_0000,
    ensures
        fixed_hex_spec(s, i, n, acc) matches Scan::Done(v, j) ==> j == i + n && j <= s.len() && (
        v as nat) < (acc as nat + 1) * crate::numbers::pow16(n),
    decreases n,
{
    crate::numbers::lemma_pow16_pos(n);
    if n == 0 {
        assert(crate::numbers::pow16(0) == 1);
        assert((acc as nat + 1) * crate::numbers::pow16(0) == acc as nat + 1)
            by (nonlinear_arith)
            requires
                crate::numbers::pow16(0) == 1,
        ;
    }
    if n > 0 && 0 <= i < s.len() && spec_is_hex_digit(s[i]) {
        let d = hex_digit_val(s[i]);
        let acc2 = acc * 16 + d;
        assert(crate::numbers::pow16(n) == 16 * crate::numbers::pow16((n - 1) as nat));
        crate::numbers::lemma_pow16_pos((n - 1) as nat);
        assert((acc2 + 1) * crate::numbers::pow16((n - 1) as nat) <= (acc as nat + 1)
            * crate::numbers::pow16(n)) by (nonlinear_arith)
            requires
                acc2 + 1 <= 16 * (acc as nat + 1),
                crate::numbers::pow16(n) == 16 * crate::numbers::pow16((n - 1) as nat),
                crate::numbers::pow16((n - 1) as nat) >= 0,
        ;
        assert(acc2 < (acc2 + 1) * crate::numbers::pow16((n - 1) as nat)) by (nonlinear_arith)
            requires
                crate::numbers::pow16((n - 1) as nat) >= 1,
                acc2 >= 0,
        ;
        assert((acc2 as int) as u32 == acc2);
        lemma_fixed_hex_bounds(s, i + 1, (n - 1) as nat, acc2 as u32);
    }
}

/// A `\u` escape's code point, starting at `i`, the position of its
/// first hex digit; `bs` is the offset of the introducing backslash.  A
/// value in the high-surrogate range requires an immediately following
/// `\u` escape carrying a low surrogate, combined by surrogate-pair
/// decoding; anything else in the surrogate range is an unpaired
/// surrogate.
pub open spec fn unicode_escape_spec(s: Seq<char>, i: int, bs: int) -> Scan<char> {
    match fixed_hex_spec(s, i, 4, 0) {
        Scan::Fail(e) => Scan::Fail(e),
        Scan::Done(a, j) => {
            if a < 0xD800 || a > 0xDFFF {
                Scan::Done(a as char, j)
            } else {
                match expect_chars_spec(
                    s,
                    j,
                    "\\u"@,
                    ErrorCode::EofParsingEscapeSequence,
                    ErrorCode::InvalidEscapeSequence,
                ) {
                    Scan::Fail(e) => Scan::Fail(e),
                    Scan::Done(_, j2) => {
                        match fixed_hex_spec(s, j2, 4, 0) {
                            Scan::Fail(e) => Scan::Fail(e),
                            Scan::Done(b, j3) => {
                                if a <= 0xDBFF && 0xDC00 <= b && b <= 0xDFFF {
                                    Scan::Done(
                                        (((0x10000 + (a - 0xD800) * 0x400 + (b - 0xDC00)) as int)
                                            as u32) as char,
                                        j3,
                                    )
                                } else {
                                    Scan::Fail(
                                        ScanErr::CustomAt(
                                            "unpaired surrogate found: "@ + crate::numbers::hex_str(
                                                a as nat,
                                            ),
                                            bs,
                                        ),
                                    )
                                }
                            },
                        }
                    },
                }
            }
        },
    }
}

pub proof fn lemma_unicode_escape_bounds(s: Seq<char>, i: int, bs: int)
    requires
        0 <= i <= s.len(),
    ensures
        unicode_escape_spec(s, i, bs) matches Scan::Done(_, j) ==> i + 4 <= j <= s.len(),
{
    crate::numbers::lemma_pow16_val();
    lemma_fixed_hex_bounds(s, i, 4, 0);
    match fixed_hex_spec(s, i, 4, 0) {
        Scan::Fail(_) => {},
        Scan::Done(a, j) => {
            if !(a < 0xD800 || a > 0xDFFF) {
                lemma_expect_chars_bounds(
                    s,
                    j,
                    "\\u"@,
                    ErrorCode::EofParsingEscapeSequence,
                    ErrorCode::InvalidEscapeSequence,
                );
                match expect_chars_spec(
                    s,
                    j,
                    "\\u"@,
                    ErrorCode::EofParsingEscapeSequence,
                    ErrorCode::InvalidEscapeSequence,
                ) {
                    Scan::Fail(_) => {},
                    Scan::Done(_, j2) => {
                        lemma_fixed_hex_bounds(s, j2, 4, 0);
                    },
                }
            }
        },
    }
}

/// An escape sequence: `i` is the position of the character after the
/// backslash at `bs`.  A line terminator is a line continuation that
/// contributes nothing (CR LF as one unit); the single-character
/// escapes map to their control characters; `\0` is NUL unless another
/// digit follows; `\1` through `\9` are invalid; `\x` and `\u` read
/// hex digits; any other character stands for itself.
pub open spec fn escape_spec(s: Seq<char>, i: int, bs: int) -> Scan<Option<char>> {
    if i < 0 || i >= s.len() {
        Scan::Fail(ScanErr::Plain(ErrorCode::EofParsingEscapeSequence))
    } else {
        let c = s[i];
        if spec_is_json5_line_terminator(c) {
            if c == '\r' && i + 1 < s.len() && s[i + 1] == '\n' {
                Scan::Done(None, i + 2)
            } else {
                Scan::Done(None, i + 1)
            }
        } else if c == 'b' {
            Scan::Done(Some('\u{0008}'), i + 1)
        } else if c == 't' {
            Scan::Done(Some('\u{0009}'), i + 1)
        } else if c == 'n' {
            Scan::Done(Some('\u{000A}'), i + 1)
        } else if c == 'v' {
            Scan::Done(Some('\u{000B}'), i + 1)
        } else if c == 'f' {
            Scan::Done(Some('\u{000C}'), i + 1)
        } else if c == 'r' {
            Scan::Done(Some('\u{000D}'), i + 1)
        } else if c == '0' {
            if i + 1 < s.len() && spec_is_dec_digit(s[i + 1]) {
                Scan::Fail(ScanErr::At(ErrorCode::InvalidEscapeSequence, i + 1))
            } else {
                Scan::Done(Some('\u{0000}'), i + 1)
            }
        } else if spec_is_dec_digit(c) {
            Scan::Fail(ScanErr::At(ErrorCode::InvalidEscapeSequence, i))
        } else if c == 'x' {
            match fixed_hex_spec(s, i + 1, 2, 0) {
                Scan::Done(v, j) => Scan::Done(Some(v as char), j),
                Scan::Fail(e) => Scan::Fail(e),
            }
        } else if c == 'u' {
            match unicode_escape_spec(s, i + 1, bs) {
                Scan::Done(ch, j) => Scan::Done(Some(ch), j),
                Scan::Fail(e) => Scan::Fail(e),
            }
        } else {
            Scan::Done(Some(c), i + 1)
        }
    }
}

pub proof fn lemma_escape_bounds(s: Seq<char>, i: int, bs: int)
    requires
        0 <= i <= s.len(),
    ensures
        escape_spec(s, i, bs) matches Scan::Done(_, j) ==> i < j <= s.len(),
{
    crate::numbers::lemma_pow16_val();
    if 0 <= i < s.len() {
        let c = s[i];
        if c == 'x' {
            lemma_fixed_hex_bounds(s, i + 1, 2, 0);
        } else if c == 'u' {
            lemma_unicode_escape_bounds(s, i + 1, bs);
        }
    }
}

/// The characters of a string body, read until the closing delimiter;
/// a raw LF or CR is rejected, a backslash opens an escape.
pub open spec fn string_chars_spec(s: Seq<char>, i: int, delim: char) -> Scan<Seq<char>>
    decreases s.len() - i,
{
    if i < 0 || i >= s.len() {
        Scan::Fail(ScanErr::Plain(ErrorCode::EofParsingString))
    } else {
        let c = s[i];
        if c == delim {
            Scan::Done(Seq::empty(), i + 1)
        } else if c == '\u{000A}' || c == '\u{000D}' {
            Scan::Fail(ScanErr::At(ErrorCode::LineTerminatorInString, i))
        } else if c == '\\' {
            match escape_spec(s, i + 1, i) {
                Scan::Fail(e) => Scan::Fail(e),
                Scan::Done(opt, j) => {
                    match string_chars_spec(s, clamp_pos(s, i, j), delim) {
                        Scan::Done(rest, end) => Scan::Done(
                            match opt {
                                Some(ch) => seq![ch] + rest,
                                None => rest,
                            },
                            end,
                        ),
                        Scan::Fail(e) => Scan::Fail(e),
                    }
                },
            }
        } else {
            match string_chars_spec(s, i + 1, delim) {
                Scan::Done(rest, end) => Scan::Done(seq![c] + rest, end),
                Scan::Fail(e) => Scan::Fail(e),
            }
        }
    }
}

/// A string literal, after white space: a matching pair of single or
/// double quotes around its characters.  The payload carries the offset
/// of the opening quote and the decoded characters.
pub open spec fn parse_string_spec(s: Seq<char>, i: int) -> Scan<(int, Seq<char>)> {
    match skip_ws_spec(s, i) {
        Scan::Fail(e) => Scan::Fail(e),
        Scan::Done(_, j) => {
            if j >= s.len() {
                Scan::Fail(ScanErr::Plain(ErrorCode::EofParsingString))
            } else if s[j] == '"' || s[j] == '\'' {
                match string_chars_spec(s, j + 1, s[j]) {
                    Scan::Done(t, end) => Scan::Done((j, t), end),
                    Scan::Fail(e) => Scan::Fail(e),
                }
            } else {
                Scan::Fail(ScanErr::At(ErrorCode::ExpectedString, j))
            }
        },
    }
}

/// An identifier, read from `start`: the first code point must satisfy
/// identifier-start, later ones identifier-continue; a `\u` escape may
/// supply a code point, which must satisfy the same classification.
/// The identifier ends at the first code point that does not continue
/// it; the end of the text mid-identifier is an error.
pub open spec fn ident_loop_spec(s: Seq<char>, i: int, start: int, acc: Seq<char>) -> Scan<
    Seq<char>,
>
    decreases s.len() - i,
{
    if i < 0 || i >= s.len() {
        Scan::Fail(ScanErr::Plain(ErrorCode::EofParsingIdentifier))
    } else {
        let c = s[i];
        if c == '\\' {
            if i + 1 >= s.len() {
                Scan::Fail(ScanErr::Plain(ErrorCode::EofParsingIdentifier))
            } else if s[i + 1] != 'u' {
                Scan::Fail(ScanErr::At(ErrorCode::InvalidEscapeSequence, i + 1))
            } else {
                match unicode_escape_spec(s, i + 2, i) {
                    Scan::Fail(e) => Scan::Fail(e),
                    Scan::Done(ch, j) => {
                        if (i == start && !spec_is_json5_identifier_start(ch)) || (i != start
                            && !spec_is_json5_identifier(ch)) {
                            Scan::Fail(ScanErr::At(ErrorCode::ExpectedIdentifier, i))
                        } else {
                            ident_loop_spec(s, clamp_pos(s, i, j), start, acc + seq![ch])
                        }
                    },
                }
            }
        } else if i == start {
            if !spec_is_json5_identifier_start(c) {
                Scan::Fail(ScanErr::At(ErrorCode::ExpectedIdentifier, i))
            } else {
                ident_loop_spec(s, i + 1, start, acc + seq![c])
            }
        } else if !spec_is_json5_identifier(c) {
            Scan::Done(acc, i)
        } else {
            ident_loop_spec(s, i + 1, start, acc + seq![c])
        }
    }
}

/// An object key, after white space: a string when a quote follows,
/// else an identifier.  The payload carries the key's offset and text.
pub open spec fn parse_key_spec(s: Seq<char>, i: int) -> Scan<(int, Seq<char>)> {
    match skip_ws_spec(s, i) {
        Scan::Fail(e) => Scan::Fail(e),
        Scan::Done(_, j) => {
            if j >= s.len() {
                Scan::Fail(ScanErr::Plain(ErrorCode::EofParsingObject))
            } else if s[j] == '"' || s[j] == '\'' {
                match string_chars_spec(s, j + 1, s[j]) {
                    Scan::Done(t, end) => Scan::Done((j, t), end),
                    Scan::Fail(e) => Scan::Fail(e),
                }
            } else {
                match ident_loop_spec(s, j, j, Seq::empty()) {
                    Scan::Done(t, end) => Scan::Done((j, t), end),
                    Scan::Fail(e) => Scan::Fail(e),
                }
            }
        },
    }
}

/// A hex-encoded byte string: pairs of hexadecimal digits, or nothing.
pub open spec fn decode_hex_spec(t: Seq<char>) -> Option<Seq<u8>>
    decreases t.len(),
{
    if t.len() == 0 {
        Some(Seq::empty())
    } else if t.len() == 1 {
        None
    } else if !spec_is_hex_digit(t[0]) || !spec_is_hex_digit(t[1]) {
        None
    } else {
        match decode_hex_spec(t.skip(2)) {
            Some(rest) => Some(
                seq![((hex_digit_val(t[0]) * 16 + hex_digit_val(t[1])) as u8)] + rest,
            ),
            None => None,
        }
    }
}

// ---------------------------------------------------------------------------
// Numbers.
// ---------------------------------------------------------------------------

/// A character that can extend a decimal literal's extent.
pub open spec fn spec_is_extent_char(c: char) -> bool {
    c == '+' || c == '-' || c == '.' || c == 'e' || c == 'E' || spec_is_dec_digit(c)
}

#[verifier::when_used_as_spec(spec_is_extent_char)]
pub fn is_extent_char(c: char) -> (r: bool)
    ensures
        r == spec_is_extent_char(c),
{
    c == '+' || c == '-' || c == '.' || c == 'e' || c == 'E' || crate::numbers::is_dec_digit(c)
}

/// The end of the greedy run of extent characters starting at `j`.
pub open spec fn extent_end(s: Seq<char>, j: int) -> int
    decreases s.len() - j,
{
    if j < 0 || j >= s.len() {
        s.len() as int
    } else if spec_is_extent_char(s[j]) {
        extent_end(s, j + 1)
    } else {
        j
    }
}

pub proof fn lemma_extent_end_bounds(s: Seq<char>, j: int)
    requires
        0 <= j <= s.len(),
    ensures
        j <= extent_end(s, j) <= s.len(),
    decreases s.len() - j,
{
    if j < s.len() && spec_is_extent_char(s[j]) {
        lemma_extent_end_bounds(s, j + 1);
    }
}

/// Whether the literal text contains a dot or an exponent mark, which
/// sends it down the float path.
pub open spec fn has_float_char(t: Seq<char>) -> bool {
    exists|k: int| 0 <= k < t.len() && (t[k] == '.' || t[k] == 'e' || t[k] == 'E')
}

/// The first exponent mark in the literal, from index `k` on.
pub open spec fn first_exp(t: Seq<char>, k: int) -> Option<int>
    decreases t.len() - k,
{
    if k < 0 || k >= t.len() {
        None
    } else if t[k] == 'e' || t[k] == 'E' {
        Some(k)
    } else {
        first_exp(t, k + 1)
    }
}

/// An exponent mark with no digits after its optional sign.  The float
/// conversion accepts such a literal, the decimal grammar does not, so
/// it is rejected before conversion.
pub open spec fn bad_exponent(t: Seq<char>) -> bool {
    match first_exp(t, 0) {
        None => false,
        Some(k) => k + 1 >= t.len() || ((t[k + 1] == '+' || t[k + 1] == '-') && k + 2
            >= t.len()),
    }
}

/// A decimal literal occupying `s[start..end]`: a float when it has a
/// dot or exponent, otherwise a signed or unsigned 128-bit integer.
pub open spec fn parse_decimal_spec(s: Seq<char>, neg: bool, start: int, end: int) -> Scan<
    NumberResult,
> {
    let t = s.subrange(start, end);
    if has_float_char(t) {
        if bad_exponent(t) {
            Scan::Fail(ScanErr::CustomAt("invalid float literal"@, start))
        } else {
            match float_from_text(t) {
                Some(bits) => Scan::Done(NumberResult::Float(bits), end),
                None => Scan::Fail(ScanErr::CustomAt("invalid float literal"@, start)),
            }
        }
    } else if neg {
        match dec_i128_spec(t) {
            DecI::Val(v) => Scan::Done(NumberResult::I128(v), end),
            DecI::BadDigit => Scan::Fail(
                ScanErr::CustomAt("invalid digit found in string"@, start),
            ),
            DecI::TooLarge => Scan::Fail(
                ScanErr::CustomAt("number too large to fit in target type"@, start),
            ),
            DecI::TooSmall => Scan::Fail(
                ScanErr::CustomAt("number too small to fit in target type"@, start),
            ),
            DecI::Empty => Scan::Fail(
                ScanErr::CustomAt("cannot parse integer from empty string"@, start),
            ),
        }
    } else {
        match dec_u128_spec(t) {
            DecU::Val(v) => Scan::Done(NumberResult::U128(v), end),
            DecU::BadDigit => Scan::Fail(
                ScanErr::CustomAt("invalid digit found in string"@, start),
            ),
            DecU::TooLarge => Scan::Fail(
                ScanErr::CustomAt("number too large to fit in target type"@, start),
            ),
            DecU::Empty => Scan::Fail(
                ScanErr::CustomAt("cannot parse integer from empty string"@, start),
            ),
        }
    }
}

/// The greedy run of hexadecimal digits from `i`, accumulated into a
/// 128-bit value with overflow reported at the first digit that no
/// longer fits.
pub open spec fn hex_digits_spec(s: Seq<char>, i: int, acc: u128) -> Scan<u128>
    decreases s.len() - i,
{
    if i < 0 || i >= s.len() {
        Scan::Done(acc, i)
    } else if !spec_is_hex_digit(s[i]) {
        Scan::Done(acc, i)
    } else if acc * 16 + hex_digit_val(s[i]) > u128::MAX {
        Scan::Fail(ScanErr::At(ErrorCode::OverflowParsingNumber, i))
    } else {
        hex_digits_spec(s, i + 1, (acc * 16 + hex_digit_val(s[i])) as u128)
    }
}

/// A hexadecimal literal: `i` is the position after the `0x` prefix,
/// `start` the offset of the whole literal (including any sign).  A
/// negative literal negates into the signed type, with the most
/// negative value constructed directly.
pub open spec fn parse_hex_spec(s: Seq<char>, i: int, neg: bool, start: int) -> Scan<
    NumberResult,
> {
    if i < 0 || i >= s.len() {
        Scan::Fail(ScanErr::Plain(ErrorCode::EofParsingNumber))
    } else if !spec_is_hex_digit(s[i]) {
        Scan::Fail(ScanErr::At(ErrorCode::ExpectedNumber, i))
    } else {
        match hex_digits_spec(s, i, 0) {
            Scan::Done(n, j) => {
                if neg {
                    if n == 0x8000_0000_0000_0000_0000_0000_0000_0000u128 {
                        Scan::Done(NumberResult::I128(i128::MIN), j)
                    } else if n > 0x8000_0000_0000_0000_0000_0000_0000_0000u128 {
                        Scan::Fail(
                            ScanErr::CustomAt(
                                "out of range integral type conversion attempted"@,
                                start,
                            ),
                        )
                    } else {
                        Scan::Done(NumberResult::I128((-(n as int)) as i128), j)
                    }
                } else {
                    Scan::Done(NumberResult::U128(n), j)
                }
            },
            Scan::Fail(e) => Scan::Fail(e),
        }
    }
}

/// The bit patterns of the special float values the grammar names.
pub open spec fn float_bits_infinity(neg: bool) -> u64 {
    if neg {
        0xFFF0_0000_0000_0000u64
    } else {
        0x7FF0_0000_0000_0000u64
    }
}

pub open spec fn float_bits_nan(neg: bool) -> u64 {
    if neg {
        0xFFF8_0000_0000_0000u64
    } else {
        0x7FF8_0000_0000_0000u64
    }
}

/// A numeric literal, after white space: an optional sign; `Infinity`
/// or `NaN` carrying the sign; a `0x` prefix opening the hexadecimal
/// path; a bare `0` followed by another digit rejected as a leading
/// zero; otherwise the decimal path.  The payload carries the offset of
/// the literal's first character.
pub open spec fn parse_number_spec(s: Seq<char>, i: int) -> Scan<(int, NumberResult)> {
    match skip_ws_spec(s, i) {
        Scan::Fail(e) => Scan::Fail(e),
        Scan::Done(_, start) => {
            if start >= s.len() {
                Scan::Fail(ScanErr::Plain(ErrorCode::EofParsingNumber))
            } else {
                let neg = s[start] == '-';
                let j2 = if s[start] == '+' || s[start] == '-' {
                    start + 1
                } else {
                    start
                };
                if j2 >= s.len() {
                    Scan::Fail(ScanErr::Plain(ErrorCode::EofParsingNumber))
                } else {
                    let c = s[j2];
                    if c == 'I' {
                        match expect_chars_spec(
                            s,
                            j2 + 1,
                            "nfinity"@,
                            ErrorCode::EofParsingNumber,
                            ErrorCode::ExpectedNumber,
                        ) {
                            Scan::Done(_, k) => Scan::Done(
                                (start, NumberResult::Float(float_bits_infinity(neg))),
                                k,
                            ),
                            Scan::Fail(e) => Scan::Fail(e),
                        }
                    } else if c == 'N' {
                        match expect_chars_spec(
                            s,
                            j2 + 1,
                            "aN"@,
                            ErrorCode::EofParsingNumber,
                            ErrorCode::ExpectedNumber,
                        ) {
                            Scan::Done(_, k) => Scan::Done(
                                (start, NumberResult::Float(float_bits_nan(neg))),
                                k,
                            ),
                            Scan::Fail(e) => Scan::Fail(e),
                        }
                    } else if c == '0' {
                        if j2 + 1 < s.len() && (s[j2 + 1] == 'x' || s[j2 + 1] == 'X') {
                            match parse_hex_spec(s, j2 + 2, neg, start) {
                                Scan::Done(n, k) => Scan::Done((start, n), k),
                                Scan::Fail(e) => Scan::Fail(e),
                            }
                        } else if j2 + 1 < s.len() && (s[j2 + 1] == '.' || s[j2 + 1] == 'e' || s[j2
                            + 1] == 'E') {
                            match parse_decimal_spec(s, neg, start, extent_end(s, j2)) {
                                Scan::Done(n, k) => Scan::Done((start, n), k),
                                Scan::Fail(e) => Scan::Fail(e),
                            }
                        } else if j2 + 1 < s.len() && spec_is_dec_digit(s[j2 + 1]) {
                            Scan::Fail(ScanErr::At(ErrorCode::LeadingZero, start))
                        } else {
                            Scan::Done((start, NumberResult::U128(0)), j2 + 1)
                        }
                    } else if c == '.' || (spec_is_dec_digit(c) && c != '0') {
                        match parse_decimal_spec(s, neg, start, extent_end(s, j2)) {
                            Scan::Done(n, k) => Scan::Done((start, n), k),
                            Scan::Fail(e) => Scan::Fail(e),
                        }
                    } else {
                        Scan::Fail(ScanErr::At(ErrorCode::ExpectedNumber, j2))
                    }
                }
            }
        },
    }
}

// ---------------------------------------------------------------------------
// Null and bool.
// ---------------------------------------------------------------------------

/// The `null` keyword, after white space; the payload is the keyword's
/// offset.
pub open spec fn parse_null_spec(s: Seq<char>, i: int) -> Scan<int> {
    match skip_ws_spec(s, i) {
        Scan::Done(_, j) => {
            if j >= s.len() {
                Scan::Fail(ScanErr::Plain(ErrorCode::EofParsingNull))
            } else {
                match expect_chars_spec(
                    s,
                    j,
                    "null"@,
                    ErrorCode::EofParsingNull,
                    ErrorCode::ExpectedNull,
                ) {
                    Scan::Done(_, k) => Scan::Done(j, k),
                    Scan::Fail(e) => Scan::Fail(e),
                }
            }
        },
        Scan::Fail(e) => Scan::Fail(e),
    }
}

/// The `true` or `false` keyword, after white space; the payload is the
/// keyword's offset and its value.
pub open spec fn parse_bool_spec(s: Seq<char>, i: int) -> Scan<(int, bool)> {
    match skip_ws_spec(s, i) {
        Scan::Done(_, j) => {
            if j >= s.len() {
                Scan::Fail(ScanErr::Plain(ErrorCode::EofParsingBool))
            } else if s[j] == 't' {
                match expect_chars_spec(
                    s,
                    j + 1,
                    "rue"@,
                    ErrorCode::EofParsingBool,
                    ErrorCode::ExpectedBool,
                ) {
                    Scan::Done(_, k) => Scan::Done((j, true), k),
                    Scan::Fail(e) => Scan::Fail(e),
                }
            } else if s[j] == 'f' {
                match expect_chars_spec(
                    s,
                    j + 1,
                    "alse"@,
                    ErrorCode::EofParsingBool,
                    ErrorCode::ExpectedBool,
                ) {
                    Scan::Done(_, k) => Scan::Done((j, false), k),
                    Scan::Fail(e) => Scan::Fail(e),
                }
            } else {
                Scan::Fail(ScanErr::At(ErrorCode::ExpectedBool, j))
            }
        },
        Scan::Fail(e) => Scan::Fail(e),
    }
}

/// Splits the body of a block comment into its lines, pushing each onto
/// `pending`; a CR followed by a LF ends a single line.
fn push_block_lines(pending: &mut Vec<String>, text: &Vec<char>) {
    if text.len() == 0 {
        return ;
    }
    let mut cur: Vec<char> = Vec::new();
    let mut i: usize = 0;
    while i < text.len()
        invariant
            i <= text.len(),
        decreases text.len() - i,
    {
        let c = text[i];
        if crate::chars::is_json5_line_terminator(c) {
            if c == '\r' && i + 1 < text.len() && text[i + 1] == '\n' {
                i = i + 2;
            } else {
                i = i + 1;
            }
            pending.push(chars_to_string(&cur));
            cur = Vec::new();
        } else {
            cur.push(c);
            i = i + 1;
        }
    }
    pending.push(chars_to_string(&cur));
}

impl Deserializer {
    /// A comment: the introducing `/` has been consumed; a second `/`
    /// opens a line comment running to the next line terminator, a `*`
    /// opens a block comment running to `*/`.  In comment-retaining
    /// mode the comment's lines are pushed onto the pending list.
    pub fn skip_comment(&mut self) -> (r: Result<(), Error>)
        requires
            old(self).wf(),
        ensures
            final(self).src() == old(self).src(),
            final(self).wf(),
            match (r, skip_comment_spec(old(self).src(), old(self).pos as int)) {
                (Ok(u), Scan::Done(_, j)) => final(self).pos == j && old(self).pos < j <= final(self).src().len(),
                (Err(e), Scan::Fail(se)) => err_matches(&e, old(self).src(), se),
                _ => false,
            },
    {
        let ghost s = self.src();
        let ghost i0 = self.pos as int;
        if self.pos >= self.input.len() {
            return Err(Error::new(ErrorCode::EofParsingComment));
        }
        let c = self.input[self.pos];
        if c == '/' {
            self.pos = self.pos + 1;
            let mut text: Vec<char> = Vec::new();
            while self.pos < self.input.len() && !crate::chars::is_json5_line_terminator(
                self.input[self.pos],
            )
                invariant
                    self.input@ == s,
                    self.wf(),
                    i0 + 1 <= self.pos,
                    line_comment_end(s, i0 + 1) == line_comment_end(s, self.pos as int),
                decreases self.input.len() - self.pos,
            {
                if self.record_comments {
                    text.push(self.input[self.pos]);
                }
                self.pos = self.pos + 1;
            }
            if self.pos < self.input.len() {
                self.pos = self.pos + 1;
            }
            assert(self.pos == line_comment_end(s, i0 + 1));
            if self.record_comments {
                let line = chars_to_string(&text);
                self.pending.push(line);
            }
            Ok(())
        } else if c == '*' {
            self.pos = self.pos + 1;
            let mut text: Vec<char> = Vec::new();
            let mut closed = false;
            while !closed && self.pos < self.input.len()
                invariant
                    self.input@ == s,
                    self.wf(),
                    i0 + 1 <= self.pos,
                    closed ==> block_comment_end(s, i0 + 1) == Some(self.pos as int),
                    !closed ==> block_comment_end(s, i0 + 1) == block_comment_end(
                        s,
                        self.pos as int,
                    ),
                decreases self.input.len() - self.pos,
            {
                let c2 = self.input[self.pos];
                if c2 == '*' && self.pos + 1 < self.input.len() && self.input[self.pos + 1]
                    == '/' {
                    self.pos = self.pos + 2;
                    closed = true;
                } else {
                    if self.record_comments {
                        text.push(c2);
                    }
                    self.pos = self.pos + 1;
                }
            }
            if !closed {
                return Err(Error::new(ErrorCode::EofParsingComment));
            }
            if self.record_comments {
                push_block_lines(&mut self.pending, &text);
            }
            Ok(())
        } else {
            Err(self.err_at(self.pos, ErrorCode::ExpectedComment))
        }
    }

    /// White space and comments, skipped until neither applies.
    pub fn skip_whitespace(&mut self) -> (r: Result<(), Error>)
        requires
            old(self).wf(),
        ensures
            final(self).src() == old(self).src(),
            final(self).wf(),
            match (r, skip_ws_spec(old(self).src(), old(self).pos as int)) {
                (Ok(u), Scan::Done(_, j)) => final(self).pos == j && old(self).pos <= j <= final(self).src().len(),
                (Err(e), Scan::Fail(se)) => err_matches(&e, old(self).src(), se),
                _ => false,
            },
        decreases self.input.len() - self.pos,
    {
        let ghost s = self.src();
        let ghost i0 = self.pos as int;
        if self.pos >= self.input.len() {
            return Ok(());
        }
        let c = self.input[self.pos];
        if crate::chars::is_json5_whitespace(c) {
            self.pos = self.pos + 1;
            self.skip_whitespace()
        } else if c == '/' {
            self.pos = self.pos + 1;
            match self.skip_comment() {
                Ok(u) => {
                    proof {
                        assert(clamp_pos(s, i0, self.pos as int) == self.pos as int);
                    }
                    self.skip_whitespace()
                },
                Err(e) => Err(e),
            }
        } else {
            Ok(())
        }
    }

    pub fn expect_char(&mut self, expected: char, eof: ErrorCode, unexpected: ErrorCode) -> (r:
        Result<usize, Error>)
        requires
            old(self).wf(),
        ensures
            final(self).src() == old(self).src(),
            final(self).wf(),
            match r {
                Ok(off) => old(self).pos < old(self).input.len() && old(self).src()[old(self).pos as int] == expected && off == old(self).pos && final(self).pos == old(self).pos + 1,
                Err(e) => if old(self).pos >= old(self).input.len() {
                    err_matches(&e, old(self).src(), ScanErr::Plain(eof))
                } else {
                    old(self).src()[old(self).pos as int] != expected && err_matches(
                        &e,
                        old(self).src(),
                        ScanErr::At(unexpected, old(self).pos as int),
                    )
                },
            },
    {
        match self.next_or(eof) {
            Ok((offset, c)) => {
                if c != expected {
                    Err(self.err_at(offset, unexpected))
                } else {
                    Ok(offset)
                }
            },
            Err(e) => Err(e),
        }
    }

    pub fn expect_str(&mut self, expected: &str, eof: ErrorCode, unexpected: ErrorCode) -> (r:
        Result<usize, Error>)
        requires
            old(self).wf(),
            expected@.len() >= 1,
        ensures
            final(self).src() == old(self).src(),
            final(self).wf(),
            match (r, expect_chars_spec(
                old(self).src(),
                old(self).pos as int,
                expected@,
                eof,
                unexpected,
            )) {
                (Ok(off), Scan::Done(_, j)) => off == old(self).pos && final(self).pos == j && old(self).pos <= j <= final(self).src().len(),
                (Err(e), Scan::Fail(se)) => err_matches(&e, old(self).src(), se),
                _ => false,
            },
    {
        let ghost s = self.src();
        let ghost w = expected@;
        proof {
            assert(w.skip(0) =~= w);
        }
        let start = self.pos;
        let n = expected.unicode_len();
        let mut k: usize = 0;
        while k < n
            invariant
                self.input@ == s,
                s == old(self).src(),
                start == old(self).pos,
                self.wf(),
                k <= n,
                n == w.len(),
                w == expected@,
                self.pos == start + k,
                expect_chars_spec(s, start as int, w, eof, unexpected) == expect_chars_spec(
                    s,
                    self.pos as int,
                    w.skip(k as int),
                    eof,
                    unexpected,
                ),
            decreases n - k,
        {
            let c = expected.get_char(k);
            assert(w.skip(k as int)[0] == c);
            match self.expect_char(c, eof, unexpected) {
                Ok(_) => {},
                Err(e) => {
                    return Err(e);
                },
            }
            k = k + 1;
            proof {
                assert(w.skip(k as int) =~= w.skip(k as int - 1).drop_first());
            }
        }
        proof {
            assert(w.skip(n as int) =~= Seq::<char>::empty());
        }
        Ok(start)
    }

    /// The `null` keyword, after white space; returns its offset.
    pub fn parse_null(&mut self) -> (r: Result<usize, Error>)
        requires
            old(self).wf(),
        ensures
            final(self).src() == old(self).src(),
            final(self).wf(),
            match (r, parse_null_spec(old(self).src(), old(self).pos as int)) {
                (Ok(off), Scan::Done(v, j)) => off == v && final(self).pos == j && j <= final(self).src().len(),
                (Err(e), Scan::Fail(se)) => err_matches(&e, old(self).src(), se),
                _ => false,
            },
    {
        match self.skip_whitespace() {
            Ok(u) => {},
            Err(e) => {
                return Err(e);
            },
        }
        let (offset, _) = match self.peek_or(ErrorCode::EofParsingNull) {
            Ok(p) => p,
            Err(e) => {
                return Err(e);
            },
        };
        proof {
            reveal_strlit("null");
        }
        match self.expect_str("null", ErrorCode::EofParsingNull, ErrorCode::ExpectedNull) {
            Ok(_) => Ok(offset),
            Err(e) => Err(e),
        }
    }

    /// The `true` or `false` keyword, after white space; returns its
    /// offset and value.
    pub fn parse_bool(&mut self) -> (r: Result<(usize, bool), Error>)
        requires
            old(self).wf(),
        ensures
            final(self).src() == old(self).src(),
            final(self).wf(),
            match (r, parse_bool_spec(old(self).src(), old(self).pos as int)) {
                (Ok((off, b)), Scan::Done(v, j)) => v.0 == off && v.1 == b && final(self).pos == j
                    && j <= final(self).src().len(),
                (Err(e), Scan::Fail(se)) => err_matches(&e, old(self).src(), se),
                _ => false,
            },
    {
        match self.skip_whitespace() {
            Ok(u) => {},
            Err(e) => {
                return Err(e);
            },
        }
        match self.next_or(ErrorCode::EofParsingBool) {
            Ok((offset, c)) => {
                if c == 't' {
                    proof {
                        reveal_strlit("rue");
                    }
                    match self.expect_str("rue", ErrorCode::EofParsingBool, ErrorCode::ExpectedBool)
                        {
                        Ok(_) => Ok((offset, true)),
                        Err(e) => Err(e),
                    }
                } else if c == 'f' {
                    proof {
                        reveal_strlit("alse");
                    }
                    match self.expect_str(
                        "alse",
                        ErrorCode::EofParsingBool,
                        ErrorCode::ExpectedBool,
                    ) {
                        Ok(_) => Ok((offset, false)),
                        Err(e) => Err(e),
                    }
                } else {
                    Err(self.err_at(offset, ErrorCode::ExpectedBool))
                }
            },
            Err(e) => Err(e),
        }
    }
}



impl Deserializer {
    /// The hexadecimal integer path, entered after the `0x` prefix.
    pub fn parse_hex_number(&mut self, neg: bool, start: usize) -> (r: Result<NumberResult, Error>)
        requires
            old(self).wf(),
            start <= old(self).input.len(),
        ensures
            final(self).src() == old(self).src(),
            final(self).wf(),
            match (r, parse_hex_spec(old(self).src(), old(self).pos as int, neg, start as int)) {
                (Ok(n), Scan::Done(v, j)) => n == v && final(self).pos == j,
                (Err(e), Scan::Fail(se)) => err_matches(&e, old(self).src(), se),
                _ => false,
            },
    {
        let ghost s = self.src();
        let (first_off, c) = match self.next_or(ErrorCode::EofParsingNumber) {
            Ok(p) => p,
            Err(e) => {
                return Err(e);
            },
        };
        if !crate::numbers::is_hex_digit(c) {
            return Err(self.err_at(first_off, ErrorCode::ExpectedNumber));
        }
        let mut n: u128 = crate::numbers::hex_val(c) as u128;
        proof {
            assert(hex_digits_spec(s, first_off as int, 0) == hex_digits_spec(
                s,
                first_off + 1,
                n,
            ));
        }
        while self.pos < self.input.len() && crate::numbers::is_hex_digit(self.input[self.pos])
            invariant
                self.input@ == s,
                s == old(self).src(),
                self.wf(),
                first_off == old(self).pos,
                first_off < self.pos <= self.input.len(),
                first_off < s.len() && spec_is_hex_digit(s[first_off as int]),
                hex_digits_spec(s, first_off as int, 0) == hex_digits_spec(
                    s,
                    self.pos as int,
                    n,
                ),
            decreases self.input.len() - self.pos,
        {
            let d = crate::numbers::hex_val(self.input[self.pos]) as u128;
            if n > (u128::MAX - d) / 16 {
                proof {
                    assert(n * 16 + d > u128::MAX) by (nonlinear_arith)
                        requires
                            n > (u128::MAX - d) / 16,
                            d <= 15,
                    ;
                }
                return Err(self.err_at(self.pos, ErrorCode::OverflowParsingNumber));
            }
            proof {
                assert(n * 16 + d <= u128::MAX) by (nonlinear_arith)
                    requires
                        n <= (u128::MAX - d) / 16,
                        d <= 15,
                ;
            }
            n = n * 16 + d;
            self.pos = self.pos + 1;
        }
        let limit: u128 = 0x8000_0000_0000_0000_0000_0000_0000_0000u128;
        if neg {
            if n == limit {
                Ok(NumberResult::I128(i128::MIN))
            } else if n > limit {
                proof {
                    reveal_strlit("out of range integral type conversion attempted");
                }
                Err(
                    self.custom_err_at(
                        start,
                        String::from_str("out of range integral type conversion attempted"),
                    ),
                )
            } else {
                Ok(NumberResult::I128(-(n as i128)))
            }
        } else {
            Ok(NumberResult::U128(n))
        }
    }

    /// The decimal path: finds the literal's greedy extent, then
    /// converts it as a float when a dot or exponent is present and as
    /// a 128-bit integer otherwise.
    pub fn parse_decimal_number(&mut self, neg: bool, start: usize) -> (r: Result<
        NumberResult,
        Error,
    >)
        requires
            old(self).wf(),
            start <= old(self).pos,
        ensures
            final(self).src() == old(self).src(),
            final(self).wf(),
            match (r, parse_decimal_spec(
                old(self).src(),
                neg,
                start as int,
                extent_end(old(self).src(), old(self).pos as int),
            )) {
                (Ok(n), Scan::Done(v, j)) => n == v && final(self).pos == j,
                (Err(e), Scan::Fail(se)) => err_matches(&e, old(self).src(), se),
                _ => false,
            },
    {
        let ghost s = self.src();
        let ghost p0 = self.pos as int;
        // Find the extent.
        while self.pos < self.input.len() && is_extent_char(self.input[self.pos])
            invariant
                self.input@ == s,
                self.wf(),
                p0 <= self.pos,
                extent_end(s, p0) == extent_end(s, self.pos as int),
            decreases self.input.len() - self.pos,
        {
            self.pos = self.pos + 1;
        }
        let end = self.pos;
        assert(end == extent_end(s, p0));
        let ghost t = s.subrange(start as int, end as int);
        // Copy the literal out.
        let mut lit: Vec<char> = Vec::new();
        let mut m: usize = start;
        while m < end
            invariant
                self.input@ == s,
                start <= m <= end <= self.input.len(),
                t == s.subrange(start as int, end as int),
                lit@ == s.subrange(start as int, m as int),
            decreases end - m,
        {
            lit.push(self.input[m]);
            m = m + 1;
            assert(lit@ =~= s.subrange(start as int, m as int));
        }
        assert(lit@ == t);
        // Decide float vs integer.
        let mut is_float = false;
        let mut k: usize = 0;
        while k < lit.len() && !is_float
            invariant
                lit@ == t,
                k <= lit.len(),
                is_float ==> has_float_char(t),
                !is_float ==> forall|q: int|
                    0 <= q < k ==> !(t[q] == '.' || t[q] == 'e' || t[q] == 'E'),
            decreases lit.len() - k,
        {
            let c = lit[k];
            if c == '.' || c == 'e' || c == 'E' {
                is_float = true;
            }
            k = k + 1;
        }
        if is_float {
            // Reject an exponent with no digits before conversion.
            let mut expi: usize = 0;
            let mut found = false;
            while expi < lit.len() && !found
                invariant
                    lit@ == t,
                    expi <= lit.len(),
                    found ==> first_exp(t, 0) == Some(expi as int) && expi < lit.len(),
                    !found ==> first_exp(t, 0) == first_exp(t, expi as int),
                decreases lit.len() - expi + (if found { 0int } else { 1int }),
            {
                let c = lit[expi];
                if c == 'e' || c == 'E' {
                    found = true;
                } else {
                    expi = expi + 1;
                }
            }
            let bad = if !found {
                false
            } else if expi + 1 >= lit.len() {
                true
            } else if (lit[expi + 1] == '+' || lit[expi + 1] == '-') && expi + 2 >= lit.len() {
                true
            } else {
                false
            };
            assert(bad == bad_exponent(t));
            if bad {
                proof {
                    reveal_strlit("invalid float literal");
                }
                return Err(self.custom_err_at(start, String::from_str("invalid float literal")));
            }
            let text = chars_to_string(&lit);
            match crate::numbers::parse_float_text(text.as_str()) {
                Some(bits) => Ok(NumberResult::Float(bits)),
                None => {
                    proof {
                        reveal_strlit("invalid float literal");
                    }
                    Err(self.custom_err_at(start, String::from_str("invalid float literal")))
                },
            }
        } else if neg {
            assert(!has_float_char(t));
            match crate::numbers::parse_dec_i128(&self.input, start, end) {
                DecI::Val(v) => Ok(NumberResult::I128(v)),
                DecI::BadDigit => {
                    proof {
                        reveal_strlit("invalid digit found in string");
                    }
                    Err(
                        self.custom_err_at(
                            start,
                            String::from_str("invalid digit found in string"),
                        ),
                    )
                },
                DecI::TooLarge => {
                    proof {
                        reveal_strlit("number too large to fit in target type");
                    }
                    Err(
                        self.custom_err_at(
                            start,
                            String::from_str("number too large to fit in target type"),
                        ),
                    )
                },
                DecI::TooSmall => {
                    proof {
                        reveal_strlit("number too small to fit in target type");
                    }
                    Err(
                        self.custom_err_at(
                            start,
                            String::from_str("number too small to fit in target type"),
                        ),
                    )
                },
                DecI::Empty => {
                    proof {
                        reveal_strlit("cannot parse integer from empty string");
                    }
                    Err(
                        self.custom_err_at(
                            start,
                            String::from_str("cannot parse integer from empty string"),
                        ),
                    )
                },
            }
        } else {
            assert(!has_float_char(t));
            match crate::numbers::parse_dec_u128(&self.input, start, end) {
                DecU::Val(v) => Ok(NumberResult::U128(v)),
                DecU::BadDigit => {
                    proof {
                        reveal_strlit("invalid digit found in string");
                    }
                    Err(
                        self.custom_err_at(
                            start,
                            String::from_str("invalid digit found in string"),
                        ),
                    )
                },
                DecU::TooLarge => {
                    proof {
                        reveal_strlit("number too large to fit in target type");
                    }
                    Err(
                        self.custom_err_at(
                            start,
                            String::from_str("number too large to fit in target type"),
                        ),
                    )
                },
                DecU::Empty => {
                    proof {
                        reveal_strlit("cannot parse integer from empty string");
                    }
                    Err(
                        self.custom_err_at(
                            start,
                            String::from_str("cannot parse integer from empty string"),
                        ),
                    )
                },
            }
        }
    }

    /// A numeric literal, after white space; returns its starting
    /// offset and value.
    pub fn parse_number(&mut self) -> (r: Result<(usize, NumberResult), Error>)
        requires
            old(self).wf(),
        ensures
            final(self).src() == old(self).src(),
            final(self).wf(),
            match (r, parse_number_spec(old(self).src(), old(self).pos as int)) {
                (Ok((off, n)), Scan::Done(v, j)) => v.0 == off && v.1 == n && final(self).pos == j
                    && j <= final(self).src().len(),
                (Err(e), Scan::Fail(se)) => err_matches(&e, old(self).src(), se),
                _ => false,
            },
    {
        let ghost s = self.src();
        match self.skip_whitespace() {
            Ok(u) => {},
            Err(e) => {
                return Err(e);
            },
        }
        let (start, c0) = match self.peek_or(ErrorCode::EofParsingNumber) {
            Ok(p) => p,
            Err(e) => {
                return Err(e);
            },
        };
        let neg = c0 == '-';
        if c0 == '+' || c0 == '-' {
            self.pos = self.pos + 1;
        }
        let (offset, c) = match self.next_or(ErrorCode::EofParsingNumber) {
            Ok(p) => p,
            Err(e) => {
                return Err(e);
            },
        };
        if c == 'I' {
            proof {
                reveal_strlit("nfinity");
            }
            match self.expect_str("nfinity", ErrorCode::EofParsingNumber, ErrorCode::ExpectedNumber)
                {
                Ok(_) => {
                    if neg {
                        Ok((start, NumberResult::Float(0xFFF0_0000_0000_0000u64)))
                    } else {
                        Ok((start, NumberResult::Float(0x7FF0_0000_0000_0000u64)))
                    }
                },
                Err(e) => Err(e),
            }
        } else if c == 'N' {
            proof {
                reveal_strlit("aN");
            }
            match self.expect_str("aN", ErrorCode::EofParsingNumber, ErrorCode::ExpectedNumber) {
                Ok(_) => {
                    if neg {
                        Ok((start, NumberResult::Float(0xFFF8_0000_0000_0000u64)))
                    } else {
                        Ok((start, NumberResult::Float(0x7FF8_0000_0000_0000u64)))
                    }
                },
                Err(e) => Err(e),
            }
        } else if c == '0' {
            match self.peek() {
                Some((_, x)) => {
                    if x == 'x' || x == 'X' {
                        self.pos = self.pos + 1;
                        match self.parse_hex_number(neg, start) {
                            Ok(n) => Ok((start, n)),
                            Err(e) => Err(e),
                        }
                    } else if x == '.' || x == 'e' || x == 'E' {
                        proof {
                            assert(extent_end(s, offset as int) == extent_end(s, offset + 1));
                        }
                        match self.parse_decimal_number(neg, start) {
                            Ok(n) => Ok((start, n)),
                            Err(e) => Err(e),
                        }
                    } else if crate::numbers::is_dec_digit(x) {
                        Err(self.err_at(start, ErrorCode::LeadingZero))
                    } else {
                        Ok((start, NumberResult::U128(0)))
                    }
                },
                None => Ok((start, NumberResult::U128(0))),
            }
        } else if c == '.' || (crate::numbers::is_dec_digit(c) && c != '0') {
            proof {
                assert(extent_end(s, offset as int) == extent_end(s, offset + 1));
            }
            match self.parse_decimal_number(neg, start) {
                Ok(n) => Ok((start, n)),
                Err(e) => Err(e),
            }
        } else {
            Err(self.err_at(offset, ErrorCode::ExpectedNumber))
        }
    }
}




// ---------------------------------------------------------------------------
// The value grammar.
// ---------------------------------------------------------------------------

/// Clamps a position into `[i, s.len()]`; the identity wherever it is
/// applied, like [`clamp_pos`].
pub open spec fn clamp_at(s: Seq<char>, i: int, p: int) -> int {
    if p < i {
        i
    } else if p > s.len() {
        s.len() as int
    } else {
        p
    }
}

/// Inserts a member into an object: a repeated key keeps its first
/// position and takes the new value, a new key goes to the end.
pub open spec fn obj_insert(
    acc: Seq<(Seq<char>, SpecValue)>,
    k: Seq<char>,
    v: SpecValue,
) -> Seq<(Seq<char>, SpecValue)>
    decreases acc.len(),
{
    if acc.len() == 0 {
        seq![(k, v)]
    } else if acc[0].0 == k {
        seq![(k, v)] + acc.drop_first()
    } else {
        seq![acc[0]] + obj_insert(acc.drop_first(), k, v)
    }
}

pub proof fn lemma_obj_insert_hit(
    acc: Seq<(Seq<char>, SpecValue)>,
    k: Seq<char>,
    v: SpecValue,
    i: int,
)
    requires
        0 <= i < acc.len(),
        acc[i].0 == k,
        forall|m: int| 0 <= m < i ==> acc[m].0 != k,
    ensures
        obj_insert(acc, k, v) == acc.update(i, (k, v)),
    decreases i,
{
    if i == 0 {
        assert(obj_insert(acc, k, v) =~= acc.update(0, (k, v)));
    } else {
        assert(forall|m: int| 0 <= m < i - 1 ==> acc.drop_first()[m].0 != k);
        lemma_obj_insert_hit(acc.drop_first(), k, v, i - 1);
        assert(seq![acc[0]] + acc.drop_first().update(i - 1, (k, v)) =~= acc.update(i, (k, v)));
    }
}

pub proof fn lemma_obj_insert_miss(acc: Seq<(Seq<char>, SpecValue)>, k: Seq<char>, v: SpecValue)
    requires
        forall|m: int| 0 <= m < acc.len() ==> acc[m].0 != k,
    ensures
        obj_insert(acc, k, v) == acc.push((k, v)),
    decreases acc.len(),
{
    if acc.len() == 0 {
        assert(obj_insert(acc, k, v) =~= acc.push((k, v)));
    } else {
        assert(forall|m: int|
            0 <= m < acc.drop_first().len() ==> acc.drop_first()[m].0 != k);
        lemma_obj_insert_miss(acc.drop_first(), k, v);
        assert(seq![acc[0]] + acc.drop_first().push((k, v)) =~= acc.push((k, v)));
    }
}

/// The end of a collection: after white space, the closing delimiter,
/// or one comma and then the closing delimiter.
pub open spec fn expect_collection_end_spec(
    s: Seq<char>,
    i: int,
    close: char,
    eof: ErrorCode,
    unexpected: ErrorCode,
) -> Scan<()> {
    match skip_ws_spec(s, i) {
        Scan::Fail(e) => Scan::Fail(e),
        Scan::Done(_, m) => {
            if m >= s.len() {
                Scan::Fail(ScanErr::Plain(eof))
            } else if s[m] == close {
                Scan::Done((), m + 1)
            } else if s[m] == ',' {
                match skip_ws_spec(s, m + 1) {
                    Scan::Fail(e) => Scan::Fail(e),
                    Scan::Done(_, m2) => {
                        if m2 >= s.len() {
                            Scan::Fail(ScanErr::Plain(eof))
                        } else if s[m2] != close {
                            Scan::Fail(ScanErr::At(unexpected, m2))
                        } else {
                            Scan::Done((), m2 + 1)
                        }
                    },
                }
            } else {
                Scan::Fail(ScanErr::At(unexpected, m))
            }
        },
    }
}

/// The elements of an array, read until the closing bracket is next
/// (the bracket itself is left for [`expect_collection_end_spec`]):
/// white space, then either the bracket, or -- after a comma when not
/// the first element -- one more value.  Exactly one trailing comma is
/// allowed.
pub open spec fn array_items_spec(
    s: Seq<char>,
    i: int,
    first: bool,
    acc: Seq<SpecValue>,
) -> Scan<Seq<SpecValue>>
    decreases s.len() - i, 2int,
{
    if i < 0 || i > s.len() {
        Scan::Fail(ScanErr::Plain(ErrorCode::EofParsingArray))
    } else {
    match skip_ws_spec(s, i) {
        Scan::Fail(e) => Scan::Fail(e),
        Scan::Done(_, m0) => {
            let m = clamp_at(s, i, m0);
            if m < s.len() && s[m] == ']' {
                Scan::Done(acc, m)
            } else if first {
                if m >= s.len() {
                    Scan::Fail(ScanErr::Plain(ErrorCode::EofParsingValue))
                } else {
                    match parse_value_spec(s, m) {
                        Scan::Fail(e) => Scan::Fail(e),
                        Scan::Done(v, k) => array_items_spec(
                            s,
                            clamp_pos(s, m, k),
                            false,
                            acc.push(v),
                        ),
                    }
                }
            } else if m >= s.len() {
                Scan::Fail(ScanErr::Plain(ErrorCode::EofParsingArray))
            } else if s[m] != ',' {
                Scan::Fail(ScanErr::At(ErrorCode::ExpectedComma, m))
            } else {
                match skip_ws_spec(s, m + 1) {
                    Scan::Fail(e) => Scan::Fail(e),
                    Scan::Done(_, m20) => {
                        let m2 = clamp_at(s, m + 1, m20);
                        if m2 < s.len() && s[m2] == ']' {
                            Scan::Done(acc, m2)
                        } else if m2 >= s.len() {
                            Scan::Fail(ScanErr::Plain(ErrorCode::EofParsingValue))
                        } else {
                            match parse_value_spec(s, m2) {
                                Scan::Fail(e) => Scan::Fail(e),
                                Scan::Done(v, k) => array_items_spec(
                                    s,
                                    clamp_pos(s, m2, k),
                                    false,
                                    acc.push(v),
                                ),
                            }
                        }
                    },
                }
            }
        },
    }
    }
}

/// The members of an object, read until the closing brace is next: a
/// key (string or identifier), a colon, a value; comma handling as for
/// arrays.
pub open spec fn object_items_spec(
    s: Seq<char>,
    i: int,
    first: bool,
    acc: Seq<(Seq<char>, SpecValue)>,
) -> Scan<Seq<(Seq<char>, SpecValue)>>
    decreases s.len() - i, 2int,
{
    if i < 0 || i > s.len() {
        Scan::Fail(ScanErr::Plain(ErrorCode::EofParsingObject))
    } else {
    match skip_ws_spec(s, i) {
        Scan::Fail(e) => Scan::Fail(e),
        Scan::Done(_, m0) => {
            let m = clamp_at(s, i, m0);
            if m < s.len() && s[m] == '}' {
                Scan::Done(acc, m)
            } else if first {
                object_member_spec(s, m, acc)
            } else if m >= s.len() {
                Scan::Fail(ScanErr::Plain(ErrorCode::EofParsingObject))
            } else if s[m] != ',' {
                Scan::Fail(ScanErr::At(ErrorCode::ExpectedComma, m))
            } else {
                match skip_ws_spec(s, m + 1) {
                    Scan::Fail(e) => Scan::Fail(e),
                    Scan::Done(_, m20) => {
                        let m2 = clamp_at(s, m + 1, m20);
                        if m2 < s.len() && s[m2] == '}' {
                            Scan::Done(acc, m2)
                        } else {
                            object_member_spec(s, m2, acc)
                        }
                    },
                }
            }
        },
    }
    }
}

/// One object member at `m`, then the rest of the object.
pub open spec fn object_member_spec(
    s: Seq<char>,
    m: int,
    acc: Seq<(Seq<char>, SpecValue)>,
) -> Scan<Seq<(Seq<char>, SpecValue)>>
    decreases s.len() - m, 1int,
{
    if m < 0 || m > s.len() {
        Scan::Fail(ScanErr::Plain(ErrorCode::EofParsingObject))
    } else {
    match parse_key_spec(s, m) {
        Scan::Fail(e) => Scan::Fail(e),
        Scan::Done(kp, k1) => {
            let k1c = clamp_at(s, m, k1);
            match skip_ws_spec(s, k1c) {
                Scan::Fail(e) => Scan::Fail(e),
                Scan::Done(_, k20) => {
                    let k2 = clamp_at(s, k1c, k20);
                    if k2 >= s.len() {
                        Scan::Fail(ScanErr::Plain(ErrorCode::EofParsingObject))
                    } else if s[k2] != ':' {
                        Scan::Fail(ScanErr::At(ErrorCode::ExpectedColon, k2))
                    } else {
                        match parse_value_spec(s, k2 + 1) {
                            Scan::Fail(e) => Scan::Fail(e),
                            Scan::Done(v, k3) => object_items_spec(
                                s,
                                clamp_pos(s, k2 + 1, k3),
                                false,
                                obj_insert(acc, kp.1, v),
                            ),
                        }
                    }
                },
            }
        },
    }
    }
}


/// The rest of an array value, entered just past its opening bracket
/// at `j`.
pub open spec fn parse_array_tail_spec(s: Seq<char>, j: int) -> Scan<SpecValue>
    decreases s.len() - j, 0int,
{
    if j < 0 || j >= s.len() {
        Scan::Fail(ScanErr::Plain(ErrorCode::EofParsingValue))
    } else {
        match array_items_spec(s, j + 1, true, Seq::empty()) {
            Scan::Fail(se) => Scan::Fail(attach(se, j)),
            Scan::Done(elems, m) => {
                match expect_collection_end_spec(
                    s,
                    m,
                    ']',
                    ErrorCode::EofParsingArray,
                    ErrorCode::ExpectedClosingBracket,
                ) {
                    Scan::Fail(e) => Scan::Fail(e),
                    Scan::Done(_, end) => Scan::Done(SpecValue::Array(elems), end),
                }
            },
        }
    }
}

/// The rest of an object value, entered just past its opening brace at
/// `j`.
pub open spec fn parse_object_tail_spec(s: Seq<char>, j: int) -> Scan<SpecValue>
    decreases s.len() - j, 0int,
{
    if j < 0 || j >= s.len() {
        Scan::Fail(ScanErr::Plain(ErrorCode::EofParsingValue))
    } else {
        match object_items_spec(s, j + 1, true, Seq::empty()) {
            Scan::Fail(se) => Scan::Fail(attach(se, j)),
            Scan::Done(members, m) => {
                match expect_collection_end_spec(
                    s,
                    m,
                    '}',
                    ErrorCode::EofParsingObject,
                    ErrorCode::ExpectedClosingBrace,
                ) {
                    Scan::Fail(e) => Scan::Fail(e),
                    Scan::Done(_, end) => Scan::Done(SpecValue::Object(members), end),
                }
            },
        }
    }
}

/// A value, after white space: the next character alone determines the
/// kind -- `n` null, `t`/`f` bool, a quote a string, a sign, dot,
/// digit, `I` or `N` a number, `[` an array, `{` an object.  A failure
/// inside a collection that carries no position yet gains the position
/// of the opening delimiter.
pub open spec fn parse_value_spec(s: Seq<char>, i: int) -> Scan<SpecValue>
    decreases s.len() - i, 1int,
{
    if i < 0 || i > s.len() {
        Scan::Fail(ScanErr::Plain(ErrorCode::EofParsingValue))
    } else {
    match skip_ws_spec(s, i) {
        Scan::Fail(e) => Scan::Fail(e),
        Scan::Done(_, j0) => {
            let j = clamp_at(s, i, j0);
            if j >= s.len() {
                Scan::Fail(ScanErr::Plain(ErrorCode::EofParsingValue))
            } else {
                let c = s[j];
                if c == 'n' {
                    match parse_null_spec(s, j) {
                        Scan::Fail(e) => Scan::Fail(e),
                        Scan::Done(_, k) => Scan::Done(SpecValue::Null, k),
                    }
                } else if c == 't' || c == 'f' {
                    match parse_bool_spec(s, j) {
                        Scan::Fail(e) => Scan::Fail(e),
                        Scan::Done(p, k) => Scan::Done(SpecValue::Bool(p.1), k),
                    }
                } else if c == '"' || c == '\'' {
                    match parse_string_spec(s, j) {
                        Scan::Fail(e) => Scan::Fail(e),
                        Scan::Done(p, k) => Scan::Done(SpecValue::Str(p.1), k),
                    }
                } else if c == '+' || c == '-' || c == '.' || c == 'I' || c == 'N'
                    || spec_is_dec_digit(c) {
                    match parse_number_spec(s, j) {
                        Scan::Fail(e) => Scan::Fail(e),
                        Scan::Done(p, k) => Scan::Done(SpecValue::Number(p.1), k),
                    }
                } else if c == '[' {
                    parse_array_tail_spec(s, j)
                } else if c == '{' {
                    parse_object_tail_spec(s, j)
                } else {
                    Scan::Fail(ScanErr::At(ErrorCode::ExpectedValue, j))
                }
            }
        },
    }
    }
}

/// A whole document: one value, optional trailing white space and
/// comments, and nothing else.
pub open spec fn from_str_spec(s: Seq<char>) -> Scan<SpecValue> {
    match parse_value_spec(s, 0) {
        Scan::Fail(e) => Scan::Fail(e),
        Scan::Done(v, end) => {
            match skip_ws_spec(s, end) {
                Scan::Fail(e) => Scan::Fail(e),
                Scan::Done(_, j) => {
                    if j < s.len() {
                        Scan::Fail(ScanErr::At(ErrorCode::TrailingCharacters, j))
                    } else {
                        Scan::Done(v, j)
                    }
                },
            }
        },
    }
}


// ---------------------------------------------------------------------------
// Progress lemmas: every production moves the cursor forward and stays
// inside the text.
// ---------------------------------------------------------------------------

pub proof fn lemma_skip_ws_idempotent(s: Seq<char>, i: int)
    requires
        0 <= i <= s.len(),
    ensures
        skip_ws_spec(s, i) matches Scan::Done(_, j) ==> i <= j <= s.len() && skip_ws_spec(s, j)
            == Scan::<()>::Done((), j),
    decreases s.len() - i,
{
    lemma_skip_ws_bounds(s, i);
    if i < s.len() {
        if spec_is_json5_whitespace(s[i]) {
            lemma_skip_ws_idempotent(s, i + 1);
        } else if s[i] == '/' {
            match skip_comment_spec(s, i + 1) {
                Scan::Done(_, j) => {
                    if i + 1 < s.len() && s[i + 1] == '/' {
                        lemma_line_comment_end_bounds(s, i + 2);
                    } else if i + 1 < s.len() && s[i + 1] == '*' {
                        lemma_block_comment_end_bounds(s, i + 2);
                    }
                    lemma_skip_ws_idempotent(s, clamp_pos(s, i, j));
                },
                Scan::Fail(_) => {},
            }
        }
    }
}

pub proof fn lemma_hex_digits_bounds(s: Seq<char>, i: int, acc: u128)
    requires
        0 <= i <= s.len(),
    ensures
        hex_digits_spec(s, i, acc) matches Scan::Done(_, j) ==> i <= j <= s.len(),
    decreases s.len() - i,
{
    if 0 <= i < s.len() && spec_is_hex_digit(s[i]) && !(acc * 16 + hex_digit_val(s[i])
        > u128::MAX) {
        lemma_hex_digits_bounds(s, i + 1, (acc * 16 + hex_digit_val(s[i])) as u128);
    }
}

pub proof fn lemma_parse_hex_bounds(s: Seq<char>, i: int, neg: bool, start: int)
    requires
        0 <= i,
    ensures
        parse_hex_spec(s, i, neg, start) matches Scan::Done(_, j) ==> i < j <= s.len(),
{
    if i < s.len() && spec_is_hex_digit(s[i]) {
        lemma_hex_digits_bounds(s, i + 1, hex_digit_val(s[i]) as u128);
        assert(hex_digits_spec(s, i, 0) == hex_digits_spec(
            s,
            i + 1,
            hex_digit_val(s[i]) as u128,
        ));
    }
}

pub proof fn lemma_parse_number_bounds(s: Seq<char>, i: int)
    requires
        0 <= i <= s.len(),
    ensures
        parse_number_spec(s, i) matches Scan::Done(p, k) ==> i <= p.0 < k <= s.len(),
{
    lemma_skip_ws_bounds(s, i);
    match skip_ws_spec(s, i) {
        Scan::Fail(_) => {},
        Scan::Done(_, start) => {
            if start < s.len() {
                let j2 = if s[start] == '+' || s[start] == '-' {
                    start + 1
                } else {
                    start
                };
                if j2 < s.len() {
                    let c = s[j2];
                    if c == 'I' {
                        lemma_expect_chars_bounds(
                            s,
                            j2 + 1,
                            "nfinity"@,
                            ErrorCode::EofParsingNumber,
                            ErrorCode::ExpectedNumber,
                        );
                    } else if c == 'N' {
                        lemma_expect_chars_bounds(
                            s,
                            j2 + 1,
                            "aN"@,
                            ErrorCode::EofParsingNumber,
                            ErrorCode::ExpectedNumber,
                        );
                    } else if c == '0' {
                        if j2 + 1 < s.len() && (s[j2 + 1] == 'x' || s[j2 + 1] == 'X') {
                            lemma_parse_hex_bounds(s, j2 + 2, s[start] == '-', start);
                        } else if j2 + 1 < s.len() && (s[j2 + 1] == '.' || s[j2 + 1] == 'e' || s[j2
                            + 1] == 'E') {
                            lemma_extent_end_bounds(s, j2 + 1);
                            assert(extent_end(s, j2) == extent_end(s, j2 + 1));
                        }
                    } else if c == '.' || (spec_is_dec_digit(c) && c != '0') {
                        lemma_extent_end_bounds(s, j2 + 1);
                        assert(extent_end(s, j2) == extent_end(s, j2 + 1));
                    }
                }
            }
        },
    }
}

pub proof fn lemma_string_chars_bounds(s: Seq<char>, i: int, delim: char)
    requires
        0 <= i <= s.len(),
    ensures
        string_chars_spec(s, i, delim) matches Scan::Done(_, end) ==> i < end <= s.len(),
    decreases s.len() - i,
{
    if 0 <= i < s.len() {
        let c = s[i];
        if c == delim {
        } else if c == '\u{000A}' || c == '\u{000D}' {
        } else if c == '\\' {
            lemma_escape_bounds(s, i + 1, i);
            match escape_spec(s, i + 1, i) {
                Scan::Done(_, j) => {
                    lemma_string_chars_bounds(s, clamp_pos(s, i, j), delim);
                },
                Scan::Fail(_) => {},
            }
        } else {
            lemma_string_chars_bounds(s, i + 1, delim);
        }
    }
}

pub proof fn lemma_parse_string_bounds(s: Seq<char>, i: int)
    requires
        0 <= i <= s.len(),
    ensures
        parse_string_spec(s, i) matches Scan::Done(p, end) ==> i <= p.0 < end <= s.len(),
{
    lemma_skip_ws_bounds(s, i);
    match skip_ws_spec(s, i) {
        Scan::Fail(_) => {},
        Scan::Done(_, j) => {
            if j < s.len() && (s[j] == '"' || s[j] == '\'') {
                lemma_string_chars_bounds(s, j + 1, s[j]);
            }
        },
    }
}

pub proof fn lemma_ident_loop_bounds(s: Seq<char>, i: int, start: int, acc: Seq<char>)
    requires
        0 <= start <= i <= s.len(),
    ensures
        ident_loop_spec(s, i, start, acc) matches Scan::Done(_, end) ==> start < end <= s.len()
            && i <= end,
    decreases s.len() - i,
{
    if 0 <= i < s.len() {
        let c = s[i];
        if c == '\\' {
            if i + 1 < s.len() && s[i + 1] == 'u' {
                lemma_unicode_escape_bounds(s, i + 2, i);
                match unicode_escape_spec(s, i + 2, i) {
                    Scan::Done(ch, j) => {
                        if !((i == start && !spec_is_json5_identifier_start(ch)) || (i != start
                            && !spec_is_json5_identifier(ch))) {
                            lemma_ident_loop_bounds(s, clamp_pos(s, i, j), start, acc + seq![ch]);
                        }
                    },
                    Scan::Fail(_) => {},
                }
            }
        } else if i == start {
            if spec_is_json5_identifier_start(c) {
                lemma_ident_loop_bounds(s, i + 1, start, acc + seq![c]);
            }
        } else if !spec_is_json5_identifier(c) {
        } else {
            lemma_ident_loop_bounds(s, i + 1, start, acc + seq![c]);
        }
    }
}

pub proof fn lemma_parse_key_bounds(s: Seq<char>, i: int)
    requires
        0 <= i <= s.len(),
    ensures
        parse_key_spec(s, i) matches Scan::Done(p, end) ==> i <= p.0 < end <= s.len(),
{
    lemma_skip_ws_bounds(s, i);
    match skip_ws_spec(s, i) {
        Scan::Fail(_) => {},
        Scan::Done(_, j) => {
            if j < s.len() {
                if s[j] == '"' || s[j] == '\'' {
                    lemma_string_chars_bounds(s, j + 1, s[j]);
                } else {
                    lemma_ident_loop_bounds(s, j, j, Seq::empty());
                }
            }
        },
    }
}

pub proof fn lemma_parse_null_bounds(s: Seq<char>, i: int)
    requires
        0 <= i <= s.len(),
    ensures
        parse_null_spec(s, i) matches Scan::Done(off, k) ==> i <= off < k <= s.len(),
{
    lemma_skip_ws_bounds(s, i);
    match skip_ws_spec(s, i) {
        Scan::Fail(_) => {},
        Scan::Done(_, j) => {
            if j < s.len() {
                reveal_strlit("null");
                lemma_expect_chars_bounds(
                    s,
                    j,
                    "null"@,
                    ErrorCode::EofParsingNull,
                    ErrorCode::ExpectedNull,
                );
            }
        },
    }
}

pub proof fn lemma_parse_bool_bounds(s: Seq<char>, i: int)
    requires
        0 <= i <= s.len(),
    ensures
        parse_bool_spec(s, i) matches Scan::Done(p, k) ==> i <= p.0 < k <= s.len(),
{
    lemma_skip_ws_bounds(s, i);
    match skip_ws_spec(s, i) {
        Scan::Fail(_) => {},
        Scan::Done(_, j) => {
            if j < s.len() {
                reveal_strlit("rue");
                reveal_strlit("alse");
                lemma_expect_chars_bounds(
                    s,
                    j + 1,
                    "rue"@,
                    ErrorCode::EofParsingBool,
                    ErrorCode::ExpectedBool,
                );
                lemma_expect_chars_bounds(
                    s,
                    j + 1,
                    "alse"@,
                    ErrorCode::EofParsingBool,
                    ErrorCode::ExpectedBool,
                );
            }
        },
    }
}

pub proof fn lemma_expect_collection_end_bounds(
    s: Seq<char>,
    i: int,
    close: char,
    eof: ErrorCode,
    unexpected: ErrorCode,
)
    requires
        0 <= i <= s.len(),
    ensures
        expect_collection_end_spec(s, i, close, eof, unexpected) matches Scan::Done(_, end) ==> i
            < end <= s.len(),
{
    lemma_skip_ws_bounds(s, i);
    match skip_ws_spec(s, i) {
        Scan::Fail(_) => {},
        Scan::Done(_, m) => {
            if m < s.len() && s[m] != close && s[m] == ',' {
                lemma_skip_ws_bounds(s, m + 1);
            }
        },
    }
}

pub proof fn lemma_array_items_bounds(s: Seq<char>, i: int, first: bool, acc: Seq<SpecValue>)
    requires
        0 <= i <= s.len(),
    ensures
        array_items_spec(s, i, first, acc) matches Scan::Done(_, m) ==> i <= m < s.len(),
    decreases s.len() - i, 2int,
{
    lemma_skip_ws_bounds(s, i);
    match skip_ws_spec(s, i) {
        Scan::Fail(_) => {},
        Scan::Done(_, m0) => {
            let m = clamp_at(s, i, m0);
            if m < s.len() && s[m] == ']' {
            } else if first {
                if m < s.len() {
                    match parse_value_spec(s, m) {
                        Scan::Fail(_) => {},
                        Scan::Done(v, k) => {
                            lemma_array_items_bounds(s, clamp_pos(s, m, k), false, acc.push(v));
                        },
                    }
                }
            } else if m < s.len() && s[m] == ',' {
                lemma_skip_ws_bounds(s, m + 1);
                match skip_ws_spec(s, m + 1) {
                    Scan::Fail(_) => {},
                    Scan::Done(_, m20) => {
                        let m2 = clamp_at(s, m + 1, m20);
                        if m2 < s.len() && s[m2] == ']' {
                        } else if m2 < s.len() {
                            match parse_value_spec(s, m2) {
                                Scan::Fail(_) => {},
                                Scan::Done(v, k) => {
                                    lemma_array_items_bounds(
                                        s,
                                        clamp_pos(s, m2, k),
                                        false,
                                        acc.push(v),
                                    );
                                },
                            }
                        }
                    },
                }
            }
        },
    }
}

pub proof fn lemma_object_items_bounds(
    s: Seq<char>,
    i: int,
    first: bool,
    acc: Seq<(Seq<char>, SpecValue)>,
)
    requires
        0 <= i <= s.len(),
    ensures
        object_items_spec(s, i, first, acc) matches Scan::Done(_, m) ==> i <= m < s.len(),
    decreases s.len() - i, 2int,
{
    lemma_skip_ws_bounds(s, i);
    match skip_ws_spec(s, i) {
        Scan::Fail(_) => {},
        Scan::Done(_, m0) => {
            let m = clamp_at(s, i, m0);
            if m < s.len() && s[m] == '}' {
            } else if first {
                lemma_object_member_bounds(s, m, acc);
            } else if m < s.len() && s[m] == ',' {
                lemma_skip_ws_bounds(s, m + 1);
                match skip_ws_spec(s, m + 1) {
                    Scan::Fail(_) => {},
                    Scan::Done(_, m20) => {
                        let m2 = clamp_at(s, m + 1, m20);
                        if m2 < s.len() && s[m2] == '}' {
                        } else {
                            lemma_object_member_bounds(s, m2, acc);
                        }
                    },
                }
            }
        },
    }
}

pub proof fn lemma_object_member_bounds(s: Seq<char>, m: int, acc: Seq<(Seq<char>, SpecValue)>)
    requires
        0 <= m <= s.len(),
    ensures
        object_member_spec(s, m, acc) matches Scan::Done(_, m2) ==> m <= m2 < s.len(),
    decreases s.len() - m, 1int,
{
    lemma_parse_key_bounds(s, m);
    match parse_key_spec(s, m) {
        Scan::Fail(_) => {},
        Scan::Done(kp, k1) => {
            let k1c = clamp_at(s, m, k1);
            lemma_skip_ws_bounds(s, k1c);
            match skip_ws_spec(s, k1c) {
                Scan::Fail(_) => {},
                Scan::Done(_, k20) => {
                    let k2 = clamp_at(s, k1c, k20);
                    if k2 < s.len() && s[k2] == ':' {
                        match parse_value_spec(s, k2 + 1) {
                            Scan::Fail(_) => {},
                            Scan::Done(v, k3) => {
                                lemma_object_items_bounds(
                                    s,
                                    clamp_pos(s, k2 + 1, k3),
                                    false,
                                    obj_insert(acc, kp.1, v),
                                );
                            },
                        }
                    }
                },
            }
        },
    }
}


pub proof fn lemma_parse_array_tail_bounds(s: Seq<char>, j: int)
    requires
        0 <= j <= s.len(),
    ensures
        parse_array_tail_spec(s, j) matches Scan::Done(_, end) ==> j < end <= s.len(),
{
    if j < s.len() {
        lemma_array_items_bounds(s, j + 1, true, Seq::empty());
        match array_items_spec(s, j + 1, true, Seq::empty()) {
            Scan::Fail(_) => {},
            Scan::Done(_, m) => {
                lemma_expect_collection_end_bounds(
                    s,
                    m,
                    ']',
                    ErrorCode::EofParsingArray,
                    ErrorCode::ExpectedClosingBracket,
                );
            },
        }
    }
}

pub proof fn lemma_parse_object_tail_bounds(s: Seq<char>, j: int)
    requires
        0 <= j <= s.len(),
    ensures
        parse_object_tail_spec(s, j) matches Scan::Done(_, end) ==> j < end <= s.len(),
{
    if j < s.len() {
        lemma_object_items_bounds(s, j + 1, true, Seq::empty());
        match object_items_spec(s, j + 1, true, Seq::empty()) {
            Scan::Fail(_) => {},
            Scan::Done(_, m) => {
                lemma_expect_collection_end_bounds(
                    s,
                    m,
                    '}',
                    ErrorCode::EofParsingObject,
                    ErrorCode::ExpectedClosingBrace,
                );
            },
        }
    }
}

pub proof fn lemma_parse_value_bounds(s: Seq<char>, i: int)
    requires
        0 <= i <= s.len(),
    ensures
        parse_value_spec(s, i) matches Scan::Done(_, end) ==> i < end <= s.len(),
{
    lemma_skip_ws_bounds(s, i);
    match skip_ws_spec(s, i) {
        Scan::Fail(_) => {},
        Scan::Done(_, j0) => {
            let j = clamp_at(s, i, j0);
            if j < s.len() {
                let c = s[j];
                if c == 'n' {
                    lemma_parse_null_bounds(s, j);
                } else if c == 't' || c == 'f' {
                    lemma_parse_bool_bounds(s, j);
                } else if c == '"' || c == '\'' {
                    lemma_parse_string_bounds(s, j);
                } else if c == '+' || c == '-' || c == '.' || c == 'I' || c == 'N'
                    || spec_is_dec_digit(c) {
                    lemma_parse_number_bounds(s, j);
                } else if c == '[' {
                    lemma_parse_array_tail_bounds(s, j);
                } else if c == '{' {
                    lemma_parse_object_tail_bounds(s, j);
                }
            }
        },
    }
}

impl Deserializer {
    /// Exactly `length` hexadecimal digits of an escape sequence,
    /// accumulated into a code point value.
    pub fn parse_escape_sequence_digits(&mut self, length: usize) -> (r: Result<u32, Error>)
        requires
            old(self).wf(),
        ensures
            final(self).src() == old(self).src(),
            final(self).wf(),
            match (r, fixed_hex_spec(old(self).src(), old(self).pos as int, length as nat, 0)) {
                (Ok(v), Scan::Done(w, j)) => v == w && final(self).pos == j,
                (Err(e), Scan::Fail(se)) => err_matches(&e, old(self).src(), se),
                _ => false,
            },
    {
        let ghost s = self.src();
        let ghost p0 = self.pos as int;
        let mut acc: u32 = 0;
        let mut k: usize = 0;
        while k < length
            invariant
                self.input@ == s,
                s == old(self).src(),
                self.wf(),
                k <= length,
                p0 == old(self).pos,
                fixed_hex_spec(s, p0, length as nat, 0) == fixed_hex_spec(
                    s,
                    self.pos as int,
                    (length - k) as nat,
                    acc,
                ),
            decreases length - k,
        {
            match self.next_or(ErrorCode::EofParsingEscapeSequence) {
                Ok((off, c)) => {
                    if !crate::numbers::is_hex_digit(c) {
                        return Err(self.err_at(off, ErrorCode::InvalidEscapeSequence));
                    }
                    let d = crate::numbers::hex_val(c);
                    let wide: u64 = (acc as u64) * 16 + (d as u64);
                    proof {
                        assert(wide == acc * 16 + hex_digit_val(c));
                    }
                    acc = #[verifier::truncate] (wide as u32);
                    k = k + 1;
                },
                Err(e) => {
                    return Err(e);
                },
            }
        }
        Ok(acc)
    }

    /// An `\x` escape's two hex digits, as a character.
    pub fn parse_hex_escape_sequence(&mut self) -> (r: Result<char, Error>)
        requires
            old(self).wf(),
        ensures
            final(self).src() == old(self).src(),
            final(self).wf(),
            match (r, fixed_hex_spec(old(self).src(), old(self).pos as int, 2, 0)) {
                (Ok(c), Scan::Done(v, j)) => c == v as char && final(self).pos == j,
                (Err(e), Scan::Fail(se)) => err_matches(&e, old(self).src(), se),
                _ => false,
            },
    {
        let ghost s = self.src();
        let ghost p0 = self.pos as int;
        let v = match self.parse_escape_sequence_digits(2) {
            Ok(v) => v,
            Err(e) => {
                return Err(e);
            },
        };
        proof {
            crate::numbers::lemma_pow16_val();
            lemma_fixed_hex_bounds(s, p0, 2, 0);
            assert(v < 256);
        }
        match char::from_u32(v) {
            Some(c) => {
                proof {
                    assert(c as u32 == v);
                    vstd::utf8::char_u32_cast(c, v);
                }
                Ok(c)
            },
            None => {
                proof {
                    assert(false);
                }
                Err(Error::new(ErrorCode::InvalidEscapeSequence))
            },
        }
    }

    /// A `\u` escape: four hex digits, or a surrogate pair of two such
    /// escapes; `bs` is the offset of the escape's backslash, where an
    /// unpaired surrogate is reported.
    pub fn parse_unicode_escape_sequence(&mut self, bs: usize) -> (r: Result<char, Error>)
        requires
            old(self).wf(),
            bs <= old(self).input.len(),
        ensures
            final(self).src() == old(self).src(),
            final(self).wf(),
            match (r, unicode_escape_spec(old(self).src(), old(self).pos as int, bs as int)) {
                (Ok(c), Scan::Done(v, j)) => c == v && final(self).pos == j,
                (Err(e), Scan::Fail(se)) => err_matches(&e, old(self).src(), se),
                _ => false,
            },
    {
        let ghost s = self.src();
        let ghost p0 = self.pos as int;
        let a = match self.parse_escape_sequence_digits(4) {
            Ok(a) => a,
            Err(e) => {
                return Err(e);
            },
        };
        proof {
            crate::numbers::lemma_pow16_val();
            lemma_fixed_hex_bounds(s, p0, 4, 0);
            assert(a < 65536);
        }
        if a < 0xD800 || a > 0xDFFF {
            match char::from_u32(a) {
                Some(c) => {
                    proof {
                        assert(c as u32 == a);
                        vstd::utf8::char_u32_cast(c, a);
                    }
                    Ok(c)
                },
                None => {
                    proof {
                        assert(false);
                    }
                    Err(Error::new(ErrorCode::InvalidEscapeSequence))
                },
            }
        } else {
            proof {
                reveal_strlit("\\u");
            }
            match self.expect_str(
                "\\u",
                ErrorCode::EofParsingEscapeSequence,
                ErrorCode::InvalidEscapeSequence,
            ) {
                Ok(u) => {},
                Err(e) => {
                    return Err(e);
                },
            }
            let ghost p1 = self.pos as int;
            let b = match self.parse_escape_sequence_digits(4) {
                Ok(b) => b,
                Err(e) => {
                    return Err(e);
                },
            };
            proof {
                lemma_fixed_hex_bounds(s, p1, 4, 0);
                assert(b < 65536);
            }
            if a <= 0xDBFF && 0xDC00 <= b && b <= 0xDFFF {
                let v: u32 = 0x10000 + (a - 0xD800) * 0x400 + (b - 0xDC00);
                match char::from_u32(v) {
                    Some(c) => {
                        proof {
                            assert(c as u32 == v);
                            vstd::utf8::char_u32_cast(c, v);
                        }
                        Ok(c)
                    },
                    None => {
                        proof {
                            assert(false);
                        }
                        Err(Error::new(ErrorCode::InvalidEscapeSequence))
                    },
                }
            } else {
                let mut mv: Vec<char> = Vec::new();
                proof {
                    reveal_strlit("unpaired surrogate found: ");
                }
                crate::chars::push_str_chars(&mut mv, "unpaired surrogate found: ");
                crate::numbers::push_hex_u32(&mut mv, a);
                let msg = chars_to_string(&mv);
                Err(self.custom_err_at(bs, msg))
            }
        }
    }

    /// An escape sequence, its backslash at `bs` already consumed;
    /// yields the contributed character, or none for a line
    /// continuation.
    pub fn parse_escape_sequence(&mut self, bs: usize) -> (r: Result<Option<char>, Error>)
        requires
            old(self).wf(),
            bs <= old(self).input.len(),
        ensures
            final(self).src() == old(self).src(),
            final(self).wf(),
            match (r, escape_spec(old(self).src(), old(self).pos as int, bs as int)) {
                (Ok(opt), Scan::Done(v, j)) => opt == v && final(self).pos == j,
                (Err(e), Scan::Fail(se)) => err_matches(&e, old(self).src(), se),
                _ => false,
            },
    {
        let (i, c) = match self.next_or(ErrorCode::EofParsingEscapeSequence) {
            Ok(p) => p,
            Err(e) => {
                return Err(e);
            },
        };
        if crate::chars::is_json5_line_terminator(c) {
            if c == '\r' {
                match self.peek() {
                    Some((_, c2)) => {
                        if c2 == '\n' {
                            self.pos = self.pos + 1;
                        }
                    },
                    None => {},
                }
            }
            Ok(None)
        } else if c == 'b' {
            Ok(Some('\u{0008}'))
        } else if c == 't' {
            Ok(Some('\u{0009}'))
        } else if c == 'n' {
            Ok(Some('\u{000A}'))
        } else if c == 'v' {
            Ok(Some('\u{000B}'))
        } else if c == 'f' {
            Ok(Some('\u{000C}'))
        } else if c == 'r' {
            Ok(Some('\u{000D}'))
        } else if c == '0' {
            match self.peek() {
                Some((o2, c2)) => {
                    if crate::numbers::is_dec_digit(c2) {
                        return Err(self.err_at(o2, ErrorCode::InvalidEscapeSequence));
                    }
                },
                None => {},
            }
            Ok(Some('\u{0000}'))
        } else if crate::numbers::is_dec_digit(c) {
            Err(self.err_at(i, ErrorCode::InvalidEscapeSequence))
        } else if c == 'x' {
            match self.parse_hex_escape_sequence() {
                Ok(ch) => Ok(Some(ch)),
                Err(e) => Err(e),
            }
        } else if c == 'u' {
            match self.parse_unicode_escape_sequence(bs) {
                Ok(ch) => Ok(Some(ch)),
                Err(e) => Err(e),
            }
        } else {
            Ok(Some(c))
        }
    }

    /// The characters of a string body, after its opening delimiter,
    /// decoded until the closing delimiter.
    pub fn parse_string_characters(&mut self, delimiter: char) -> (r: Result<String, Error>)
        requires
            old(self).wf(),
        ensures
            final(self).src() == old(self).src(),
            final(self).wf(),
            match (r, string_chars_spec(old(self).src(), old(self).pos as int, delimiter)) {
                (Ok(st), Scan::Done(t, end)) => st@ == t && final(self).pos == end,
                (Err(e), Scan::Fail(se)) => err_matches(&e, old(self).src(), se),
                _ => false,
            },
    {
        let ghost s = self.src();
        let ghost p0 = self.pos as int;
        let mut out: Vec<char> = Vec::new();
        loop
            invariant
                self.input@ == s,
                s == old(self).src(),
                self.wf(),
                p0 == old(self).pos,
                p0 <= self.pos,
                match string_chars_spec(s, self.pos as int, delimiter) {
                    Scan::Done(rest, end) => string_chars_spec(s, p0, delimiter) == Scan::Done(
                        out@ + rest,
                        end,
                    ),
                    Scan::Fail(e) => string_chars_spec(s, p0, delimiter) == Scan::<Seq<char>>::Fail(e),
                },
            decreases self.input.len() - self.pos,
        {
            if self.pos >= self.input.len() {
                return Err(Error::new(ErrorCode::EofParsingString));
            }
            let c = self.input[self.pos];
            if c == delimiter {
                self.pos = self.pos + 1;
                proof {
                    assert(out@ + Seq::<char>::empty() =~= out@);
                }
                return Ok(chars_to_string(&out));
            } else if c == '\u{000A}' || c == '\u{000D}' {
                return Err(self.err_at(self.pos, ErrorCode::LineTerminatorInString));
            } else if c == '\\' {
                let bs = self.pos;
                self.pos = self.pos + 1;
                let ghost prevout = out@;
                match self.parse_escape_sequence(bs) {
                    Err(e) => {
                        return Err(e);
                    },
                    Ok(opt) => {
                        proof {
                            lemma_escape_bounds(s, bs + 1, bs as int);
                            assert(clamp_pos(s, bs as int, self.pos as int) == self.pos as int);
                        }
                        match opt {
                            Some(ch) => {
                                out.push(ch);
                                proof {
                                    match string_chars_spec(s, self.pos as int, delimiter) {
                                        Scan::Done(rest, end) => {
                                            assert(prevout + (seq![ch] + rest) =~= out@ + rest);
                                        },
                                        Scan::Fail(e) => {},
                                    }
                                }
                            },
                            None => {},
                        }
                    },
                }
            } else {
                let ghost prevout = out@;
                out.push(c);
                self.pos = self.pos + 1;
                proof {
                    match string_chars_spec(s, self.pos as int, delimiter) {
                        Scan::Done(rest, end) => {
                            assert(prevout + (seq![c] + rest) =~= out@ + rest);
                        },
                        Scan::Fail(e) => {},
                    }
                }
            }
        }
    }

    /// A string literal, after white space; returns the opening quote's
    /// offset and the decoded text.
    pub fn parse_string(&mut self) -> (r: Result<(usize, String), Error>)
        requires
            old(self).wf(),
        ensures
            final(self).src() == old(self).src(),
            final(self).wf(),
            match (r, parse_string_spec(old(self).src(), old(self).pos as int)) {
                (Ok((off, st)), Scan::Done(v, end)) => v.0 == off && v.1 == st@ && final(self).pos
                    == end,
                (Err(e), Scan::Fail(se)) => err_matches(&e, old(self).src(), se),
                _ => false,
            },
    {
        match self.skip_whitespace() {
            Ok(u) => {},
            Err(e) => {
                return Err(e);
            },
        }
        let (offset, c) = match self.next_or(ErrorCode::EofParsingString) {
            Ok(p) => p,
            Err(e) => {
                return Err(e);
            },
        };
        if c == '"' || c == '\'' {
            match self.parse_string_characters(c) {
                Ok(st) => Ok((offset, st)),
                Err(e) => Err(e),
            }
        } else {
            Err(self.err_at(offset, ErrorCode::ExpectedString))
        }
    }

    /// An identifier, starting at the cursor.
    pub fn parse_identifier(&mut self) -> (r: Result<String, Error>)
        requires
            old(self).wf(),
        ensures
            final(self).src() == old(self).src(),
            final(self).wf(),
            match (r, ident_loop_spec(
                old(self).src(),
                old(self).pos as int,
                old(self).pos as int,
                Seq::empty(),
            )) {
                (Ok(st), Scan::Done(t, end)) => st@ == t && final(self).pos == end,
                (Err(e), Scan::Fail(se)) => err_matches(&e, old(self).src(), se),
                _ => false,
            },
    {
        let ghost s = self.src();
        let start = self.pos;
        let mut out: Vec<char> = Vec::new();
        proof {
            assert(Seq::<char>::empty() + out@ =~= out@);
        }
        loop
            invariant
                self.input@ == s,
                s == old(self).src(),
                self.wf(),
                start == old(self).pos,
                start <= self.pos,
                ident_loop_spec(s, start as int, start as int, Seq::empty()) == ident_loop_spec(
                    s,
                    self.pos as int,
                    start as int,
                    out@,
                ),
            decreases self.input.len() - self.pos,
        {
            if self.pos >= self.input.len() {
                return Err(Error::new(ErrorCode::EofParsingIdentifier));
            }
            let i = self.pos;
            let c = self.input[i];
            if c == '\\' {
                self.pos = self.pos + 1;
                match self.expect_char(
                    'u',
                    ErrorCode::EofParsingIdentifier,
                    ErrorCode::InvalidEscapeSequence,
                ) {
                    Ok(u) => {},
                    Err(e) => {
                        return Err(e);
                    },
                }
                let ch = match self.parse_unicode_escape_sequence(i) {
                    Ok(ch) => ch,
                    Err(e) => {
                        return Err(e);
                    },
                };
                proof {
                    lemma_unicode_escape_bounds(s, i + 2, i as int);
                    assert(clamp_pos(s, i as int, self.pos as int) == self.pos as int);
                }
                if i == start {
                    if !crate::chars::is_json5_identifier_start(ch) {
                        return Err(self.err_at(i, ErrorCode::ExpectedIdentifier));
                    }
                } else {
                    if !crate::chars::is_json5_identifier(ch) {
                        return Err(self.err_at(i, ErrorCode::ExpectedIdentifier));
                    }
                }
                let ghost prevout = out@;
                out.push(ch);
                proof {
                    assert(prevout + seq![ch] =~= out@);
                }
            } else if i == start {
                if !crate::chars::is_json5_identifier_start(c) {
                    return Err(self.err_at(i, ErrorCode::ExpectedIdentifier));
                }
                let ghost prevout = out@;
                out.push(c);
                self.pos = self.pos + 1;
                proof {
                    assert(prevout + seq![c] =~= out@);
                }
            } else if !crate::chars::is_json5_identifier(c) {
                return Ok(chars_to_string(&out));
            } else {
                let ghost prevout = out@;
                out.push(c);
                self.pos = self.pos + 1;
                proof {
                    assert(prevout + seq![c] =~= out@);
                }
            }
        }
    }

    /// An object key, after white space: a string if a quote follows,
    /// else an identifier; returns the key's offset and text.
    pub fn parse_key(&mut self) -> (r: Result<(usize, String), Error>)
        requires
            old(self).wf(),
        ensures
            final(self).src() == old(self).src(),
            final(self).wf(),
            match (r, parse_key_spec(old(self).src(), old(self).pos as int)) {
                (Ok((off, st)), Scan::Done(v, end)) => v.0 == off && v.1 == st@ && final(self).pos
                    == end,
                (Err(e), Scan::Fail(se)) => err_matches(&e, old(self).src(), se),
                _ => false,
            },
    {
        match self.skip_whitespace() {
            Ok(u) => {},
            Err(e) => {
                return Err(e);
            },
        }
        let (offset, c) = match self.peek_or(ErrorCode::EofParsingObject) {
            Ok(p) => p,
            Err(e) => {
                return Err(e);
            },
        };
        if c == '"' || c == '\'' {
            self.pos = self.pos + 1;
            match self.parse_string_characters(c) {
                Ok(st) => Ok((offset, st)),
                Err(e) => Err(e),
            }
        } else {
            match self.parse_identifier() {
                Ok(st) => Ok((offset, st)),
                Err(e) => Err(e),
            }
        }
    }

    /// A hex-encoded byte string: each byte written as two hexadecimal
    /// digits.  Fails with an invalid-bytes error at `offset` on an odd
    /// length or a non-digit.
    pub fn decode_hex(&self, offset: usize, text: &str) -> (r: Result<Vec<u8>, Error>)
        requires
            self.wf(),
            offset <= self.input.len(),
        ensures
            match (r, decode_hex_spec(text@)) {
                (Ok(v), Some(bytes)) => v@ == bytes,
                (Err(e), None) => err_matches(
                    &e,
                    self.src(),
                    ScanErr::At(ErrorCode::InvalidBytes, offset as int),
                ),
                _ => false,
            },
    {
        let cv = crate::chars::str_to_chars(text);
        let n = cv.len();
        let mut bytes: Vec<u8> = Vec::new();
        proof {
            assert(cv@.skip(0) =~= cv@);
            assert(Seq::<u8>::empty() + decode_hex_spec(cv@).arrow_Some_0() =~= decode_hex_spec(cv@).arrow_Some_0());
        }
        let mut i: usize = 0;
        while i < n
            invariant
                i <= n,
                n == cv.len(),
                cv@ == text@,
                self.wf(),
                offset <= self.input.len(),
                match decode_hex_spec(cv@.skip(i as int)) {
                    Some(rest) => decode_hex_spec(text@) == Some(bytes@ + rest),
                    None => decode_hex_spec(text@) is None,
                },
            decreases n - i,
        {
            if i + 1 == n {
                return Err(self.err_at(offset, ErrorCode::InvalidBytes));
            }
            let c0 = cv[i];
            let c1 = cv[i + 1];
            assert(cv@.skip(i as int)[0] == c0 && cv@.skip(i as int)[1] == c1);
            if !crate::numbers::is_hex_digit(c0) || !crate::numbers::is_hex_digit(c1) {
                return Err(self.err_at(offset, ErrorCode::InvalidBytes));
            }
            let b = (crate::numbers::hex_val(c0) * 16 + crate::numbers::hex_val(c1)) as u8;
            let ghost prevbytes = bytes@;
            bytes.push(b);
            i = i + 2;
            proof {
                assert(cv@.skip(i as int) =~= cv@.skip(i as int - 2).skip(2));
                match decode_hex_spec(cv@.skip(i as int)) {
                    Some(rest) => {
                        assert(prevbytes + (seq![b] + rest) =~= bytes@ + rest);
                    },
                    None => {},
                }
            }
        }
        proof {
            assert(cv@.skip(n as int) =~= Seq::<char>::empty());
            assert(bytes@ + Seq::<u8>::empty() =~= bytes@);
        }
        Ok(bytes)
    }
}



/// Replaces the value of an existing key in place, or appends a new
/// member.
fn insert_member(members: &mut Vec<(String, Value)>, key: String, value: Value)
    ensures
        forall|accv: Seq<(Seq<char>, SpecValue)>, sv: SpecValue|
            membs_rep(old(members)@, accv) && value_rep(value, sv) ==> membs_rep(
                final(members)@,
                obj_insert(accv, key@, sv),
            ),
{
    let n = members.len();
    let mut i: usize = 0;
    while i < n
        invariant
            i <= n,
            n == members.len(),
            members == old(members),
            forall|m: int| 0 <= m < i ==> members@[m].0@ != key@,
        decreases n - i,
    {
        if members[i].0.eq(&key) {
            let ghost pre = members@;
            let _ = members.remove(i);
            members.insert(i, (key, value));
            proof {
                assert(members@.len() == pre.len());
                assert(forall|m: int|
                    0 <= m < pre.len() && m != i ==> members@[m] == pre[m]);
                assert forall|accv: Seq<(Seq<char>, SpecValue)>, sv: SpecValue|
                    membs_rep(pre, accv) && value_rep(value, sv) implies membs_rep(
                    members@,
                    obj_insert(accv, key@, sv),
                ) by {
                    assert(accv[i as int].0 == pre[i as int].0@);
                    assert(forall|m: int| 0 <= m < i ==> accv[m].0 == pre[m].0@);
                    lemma_obj_insert_hit(accv, key@, sv, i as int);
                    let upd = accv.update(i as int, (key@, sv));
                    assert forall|m: int| 0 <= m < members@.len() implies #[trigger] upd[m].0
                        == members@[m].0@ && value_rep(members@[m].1, upd[m].1) by {
                        if m != i {
                            assert(upd[m] == accv[m]);
                            assert(members@[m] == pre[m]);
                        }
                    }
                    assert(membs_rep(members@, upd));
                }
            }
            return ;
        }
        i = i + 1;
    }
    let ghost pre = members@;
    members.push((key, value));
    proof {
        assert forall|accv: Seq<(Seq<char>, SpecValue)>, sv: SpecValue|
            membs_rep(pre, accv) && value_rep(value, sv) implies membs_rep(
            members@,
            obj_insert(accv, key@, sv),
        ) by {
            assert(forall|m: int| 0 <= m < pre.len() ==> accv[m].0 == pre[m].0@);
            lemma_obj_insert_miss(accv, key@, sv);
            let upd = accv.push((key@, sv));
            assert forall|m: int| 0 <= m < members@.len() implies #[trigger] upd[m].0
                == members@[m].0@ && value_rep(members@[m].1, upd[m].1) by {
                if m < pre.len() {
                    assert(upd[m] == accv[m]);
                    assert(members@[m] == pre[m]);
                }
            }
            assert(membs_rep(members@, upd));
        }
    }
}

impl Deserializer {
    /// Pushes a structural-path step and, in comment-retaining mode,
    /// records any pending comment lines under the new path.
    fn note_anchor(&mut self, seg: PathSegment)
        requires
            old(self).wf(),
        ensures
            final(self).src() == old(self).src(),
            final(self).pos == old(self).pos,
            final(self).wf(),
            final(self).record_comments == old(self).record_comments,
    {
        self.path.push(seg);
        if self.record_comments && self.pending.len() > 0 {
            let lines = self.pending.split_off(0);
            let path_copy = self.path.clone();
            self.comments.add(path_copy, lines);
        }
    }

    /// Pops the innermost structural-path step.
    fn pop_anchor(&mut self)
        requires
            old(self).wf(),
        ensures
            final(self).src() == old(self).src(),
            final(self).pos == old(self).pos,
            final(self).wf(),
            final(self).record_comments == old(self).record_comments,
    {
        let _ = self.path.pop();
    }

    /// The end of a collection: the closing delimiter, possibly after
    /// one comma.
    pub fn expect_collection_end(&mut self, close: char, eof: ErrorCode, unexpected: ErrorCode)
        -> (r: Result<(), Error>)
        requires
            old(self).wf(),
        ensures
            final(self).src() == old(self).src(),
            final(self).wf(),
            match (r, expect_collection_end_spec(
                old(self).src(),
                old(self).pos as int,
                close,
                eof,
                unexpected,
            )) {
                (Ok(u), Scan::Done(_, j)) => final(self).pos == j,
                (Err(e), Scan::Fail(se)) => err_matches(&e, old(self).src(), se),
                _ => false,
            },
    {
        match self.skip_whitespace() {
            Ok(u) => {},
            Err(e) => {
                return Err(e);
            },
        }
        let (offset, c) = match self.next_or(eof) {
            Ok(p) => p,
            Err(e) => {
                return Err(e);
            },
        };
        if c == close {
            Ok(())
        } else if c == ',' {
            match self.skip_whitespace() {
                Ok(u) => {},
                Err(e) => {
                    return Err(e);
                },
            }
            match self.expect_char(close, eof, unexpected) {
                Ok(_) => Ok(()),
                Err(e) => Err(e),
            }
        } else {
            Err(self.err_at(offset, unexpected))
        }
    }

    /// The elements of an array, up to (not including) the closing
    /// bracket.
    #[verifier::rlimit(100)]
    fn parse_array_items(&mut self, first: bool, elems: Vec<Value>) -> (r: Result<
        Vec<Value>,
        Error,
    >)
        requires
            old(self).wf(),
        ensures
            final(self).src() == old(self).src(),
            final(self).wf(),
            forall|accv: Seq<SpecValue>|
                vals_rep(elems@, accv) ==> match (r, array_items_spec(
                    old(self).src(),
                    old(self).pos as int,
                    first,
                    accv,
                )) {
                    (Ok(out), Scan::Done(accv2, m)) => vals_rep(out@, accv2) && final(self).pos
                        == m,
                    (Err(e), Scan::Fail(se)) => err_matches(&e, old(self).src(), se),
                    _ => false,
                },
        decreases self.input.len() - self.pos, 2int,
    {
        let ghost s = self.src();
        let ghost p0 = self.pos as int;
        let ghost e0 = elems@;
        let mut elems = elems;
        match self.skip_whitespace() {
            Ok(u) => {},
            Err(e) => {
                return Err(e);
            },
        }
        proof {
            lemma_skip_ws_bounds(s, p0);
            assert(clamp_at(s, p0, self.pos as int) == self.pos as int);
        }
        if self.pos < self.input.len() && self.input[self.pos] == ']' {
            self.note_anchor(PathSegment::Close);
            self.pop_anchor();
            return Ok(elems);
        }
        if !first {
            if self.pos >= self.input.len() {
                return Err(Error::new(ErrorCode::EofParsingArray));
            }
            if self.input[self.pos] != ',' {
                return Err(self.err_at(self.pos, ErrorCode::ExpectedComma));
            }
            self.pos = self.pos + 1;
            let ghost ac = self.pos as int;
            match self.skip_whitespace() {
                Ok(u) => {},
                Err(e) => {
                    return Err(e);
                },
            }
            proof {
                lemma_skip_ws_bounds(s, ac);
                assert(clamp_at(s, ac, self.pos as int) == self.pos as int);
            }
            if self.pos < self.input.len() && self.input[self.pos] == ']' {
                self.note_anchor(PathSegment::Close);
                self.pop_anchor();
                return Ok(elems);
            }
        }
        if self.pos >= self.input.len() {
            return Err(Error::new(ErrorCode::EofParsingValue));
        }
        let ghost at = self.pos as int;
        self.note_anchor(PathSegment::Index(elems.len()));
        let v = match self.parse_value() {
            Ok(v) => v,
            Err(e) => {
                return Err(e);
            },
        };
        self.pop_anchor();
        proof {
            lemma_parse_value_bounds(s, at);
            assert(clamp_pos(s, at, self.pos as int) == self.pos as int);
        }
        let ghost ecur = elems@;
        elems.push(v);
        let res = self.parse_array_items(false, elems);
        proof {
            match parse_value_spec(s, at) {
                Scan::Done(svx, k) => {
                    assert forall|accv: Seq<SpecValue>| vals_rep(e0, accv) implies (match (
                        res,
                        array_items_spec(s, p0, first, accv),
                    ) {
                        (Ok(out), Scan::Done(accv2, m)) => vals_rep(out@, accv2) && self.pos
                            == m,
                        (Err(e), Scan::Fail(se)) => err_matches(&e, s, se),
                        _ => false,
                    }) by {
                        assert forall|q: int| 0 <= q < ecur.push(v).len() implies value_rep(
                            ecur.push(v)[q],
                            #[trigger] accv.push(svx)[q],
                        ) by {
                            if q < ecur.len() {
                                assert(ecur.push(v)[q] == ecur[q]);
                                assert(accv.push(svx)[q] == accv[q]);
                            } else {
                                assert(ecur.push(v)[q] == v);
                                assert(accv.push(svx)[q] == svx);
                            }
                        }
                        assert(vals_rep(ecur.push(v), accv.push(svx)));
                    }
                },
                Scan::Fail(_) => {
                    assert(false);
                },
            }
        }
        res
    }

    /// The members of an object, up to (not including) the closing
    /// brace.
    #[verifier::rlimit(100)]
    fn parse_object_items(&mut self, first: bool, members: Vec<(String, Value)>) -> (r: Result<
        Vec<(String, Value)>,
        Error,
    >)
        requires
            old(self).wf(),
        ensures
            final(self).src() == old(self).src(),
            final(self).wf(),
            forall|accv: Seq<(Seq<char>, SpecValue)>|
                membs_rep(members@, accv) ==> match (r, object_items_spec(
                    old(self).src(),
                    old(self).pos as int,
                    first,
                    accv,
                )) {
                    (Ok(out), Scan::Done(accv2, m)) => membs_rep(out@, accv2) && final(self).pos
                        == m,
                    (Err(e), Scan::Fail(se)) => err_matches(&e, old(self).src(), se),
                    _ => false,
                },
        decreases self.input.len() - self.pos, 3int,
    {
        let ghost s = self.src();
        let ghost p0 = self.pos as int;
        match self.skip_whitespace() {
            Ok(u) => {},
            Err(e) => {
                return Err(e);
            },
        }
        proof {
            lemma_skip_ws_bounds(s, p0);
            assert(clamp_at(s, p0, self.pos as int) == self.pos as int);
        }
        if self.pos < self.input.len() && self.input[self.pos] == '}' {
            self.note_anchor(PathSegment::Close);
            self.pop_anchor();
            return Ok(members);
        }
        if first {
            self.parse_object_member(members)
        } else {
            if self.pos >= self.input.len() {
                return Err(Error::new(ErrorCode::EofParsingObject));
            }
            if self.input[self.pos] != ',' {
                return Err(self.err_at(self.pos, ErrorCode::ExpectedComma));
            }
            self.pos = self.pos + 1;
            let ghost ac = self.pos as int;
            match self.skip_whitespace() {
                Ok(u) => {},
                Err(e) => {
                    return Err(e);
                },
            }
            proof {
                lemma_skip_ws_bounds(s, ac);
                assert(clamp_at(s, ac, self.pos as int) == self.pos as int);
            }
            if self.pos < self.input.len() && self.input[self.pos] == '}' {
                self.note_anchor(PathSegment::Close);
                self.pop_anchor();
                return Ok(members);
            }
            self.parse_object_member(members)
        }
    }

    /// One object member -- key, colon, value -- then the rest of the
    /// object.
    #[verifier::rlimit(100)]
    fn parse_object_member(&mut self, members: Vec<(String, Value)>) -> (r: Result<
        Vec<(String, Value)>,
        Error,
    >)
        requires
            old(self).wf(),
        ensures
            final(self).src() == old(self).src(),
            final(self).wf(),
            forall|accv: Seq<(Seq<char>, SpecValue)>|
                membs_rep(members@, accv) ==> match (r, object_member_spec(
                    old(self).src(),
                    old(self).pos as int,
                    accv,
                )) {
                    (Ok(out), Scan::Done(accv2, m)) => membs_rep(out@, accv2) && final(self).pos
                        == m,
                    (Err(e), Scan::Fail(se)) => err_matches(&e, old(self).src(), se),
                    _ => false,
                },
        decreases self.input.len() - self.pos, 1int,
    {
        let ghost s = self.src();
        let ghost p0 = self.pos as int;
        let ghost m0 = members@;
        let mut members = members;
        let (_, key) = match self.parse_key() {
            Ok(p) => p,
            Err(e) => {
                return Err(e);
            },
        };
        proof {
            lemma_parse_key_bounds(s, p0);
            assert(clamp_at(s, p0, self.pos as int) == self.pos as int);
        }
        let keyc = key.clone();
        self.note_anchor(PathSegment::Key(keyc));
        let ghost beforews = self.pos as int;
        match self.skip_whitespace() {
            Ok(u) => {},
            Err(e) => {
                return Err(e);
            },
        }
        proof {
            lemma_skip_ws_bounds(s, beforews);
            assert(clamp_at(s, beforews, self.pos as int) == self.pos as int);
        }
        match self.expect_char(':', ErrorCode::EofParsingObject, ErrorCode::ExpectedColon) {
            Ok(_) => {},
            Err(e) => {
                return Err(e);
            },
        }
        let ghost atval = self.pos as int;
        let v = match self.parse_value() {
            Ok(v) => v,
            Err(e) => {
                return Err(e);
            },
        };
        self.pop_anchor();
        proof {
            lemma_parse_value_bounds(s, atval);
            assert(clamp_pos(s, atval, self.pos as int) == self.pos as int);
        }
        let ghost keyview = key@;
        insert_member(&mut members, key, v);
        let res = self.parse_object_items(false, members);
        proof {
            match parse_value_spec(s, atval) {
                Scan::Done(svx, k3) => {
                    assert forall|accv: Seq<(Seq<char>, SpecValue)>| membs_rep(m0, accv) implies
                        (match (res, object_member_spec(s, p0, accv)) {
                        (Ok(out), Scan::Done(accv2, m)) => membs_rep(out@, accv2) && self.pos
                            == m,
                        (Err(e), Scan::Fail(se)) => err_matches(&e, s, se),
                        _ => false,
                    }) by {
                        assert(membs_rep(members@, obj_insert(accv, keyview, svx)));
                    }
                },
                Scan::Fail(_) => {
                    assert(false);
                },
            }
        }
        res
    }

    /// An array value: consumes the opening bracket at `open_off`, the
    /// elements, and the closing bracket.  A failure among the elements
    /// that carries no position gains the opening bracket's.
    #[verifier::rlimit(100)]
    fn parse_array_value(&mut self, open_off: usize) -> (r: Result<Value, Error>)
        requires
            old(self).wf(),
            old(self).pos == open_off,
            open_off < old(self).input.len(),
        ensures
            final(self).src() == old(self).src(),
            final(self).wf(),
            match (r, parse_array_tail_spec(old(self).src(), open_off as int)) {
                (Ok(v), Scan::Done(sv, j)) => value_rep(v, sv) && final(self).pos == j,
                (Err(e), Scan::Fail(se)) => err_matches(&e, old(self).src(), se),
                _ => false,
            },
        decreases self.input.len() - self.pos, 0int,
    {
        let ghost s = self.src();
        self.pos = self.pos + 1;
        let empty_elems: Vec<Value> = Vec::new();
        proof {
            assert(vals_rep(empty_elems@, Seq::<SpecValue>::empty()));
        }
        let elems = match self.parse_array_items(true, empty_elems) {
            Ok(elems) => elems,
            Err(e) => {
                let r2 = self.with_position(e, open_off);
                proof {
                    match array_items_spec(s, open_off + 1, true, Seq::<SpecValue>::empty()) {
                        Scan::Fail(se) => {
                            assert(err_matches(&e, s, se));
                            assert(err_matches(&r2, s, attach(se, open_off as int)));
                        },
                        Scan::Done(a, m) => {},
                    }
                }
                return Err(r2);
            },
        };
        match self.expect_collection_end(
            ']',
            ErrorCode::EofParsingArray,
            ErrorCode::ExpectedClosingBracket,
        ) {
            Ok(u) => {},
            Err(e) => {
                return Err(e);
            },
        }
        let v = Value::Array(elems);
        proof {
            match array_items_spec(s, open_off + 1, true, Seq::<SpecValue>::empty()) {
                Scan::Done(accv2, m) => {
                    vstd::std_specs::vec::axiom_spec_len(&v.arrow_Array_0());
                    assert(value_rep(v, SpecValue::Array(accv2)));
                },
                Scan::Fail(_) => {
                    assert(false);
                },
            }
        }
        Ok(v)
    }

    /// An object value: consumes the opening brace at `open_off`, the
    /// members, and the closing brace.  A failure among the members
    /// that carries no position gains the opening brace's.
    #[verifier::rlimit(100)]
    fn parse_object_value(&mut self, open_off: usize) -> (r: Result<Value, Error>)
        requires
            old(self).wf(),
            old(self).pos == open_off,
            open_off < old(self).input.len(),
        ensures
            final(self).src() == old(self).src(),
            final(self).wf(),
            match (r, parse_object_tail_spec(old(self).src(), open_off as int)) {
                (Ok(v), Scan::Done(sv, j)) => value_rep(v, sv) && final(self).pos == j,
                (Err(e), Scan::Fail(se)) => err_matches(&e, old(self).src(), se),
                _ => false,
            },
        decreases self.input.len() - self.pos, 0int,
    {
        let ghost s = self.src();
        self.pos = self.pos + 1;
        let empty_members: Vec<(String, Value)> = Vec::new();
        proof {
            assert(membs_rep(empty_members@, Seq::<(Seq<char>, SpecValue)>::empty()));
        }
        let members = match self.parse_object_items(true, empty_members) {
            Ok(members) => members,
            Err(e) => {
                let r2 = self.with_position(e, open_off);
                proof {
                    match object_items_spec(
                        s,
                        open_off + 1,
                        true,
                        Seq::<(Seq<char>, SpecValue)>::empty(),
                    ) {
                        Scan::Fail(se) => {
                            assert(err_matches(&e, s, se));
                            assert(err_matches(&r2, s, attach(se, open_off as int)));
                        },
                        Scan::Done(a, m) => {},
                    }
                }
                return Err(r2);
            },
        };
        match self.expect_collection_end(
            '}',
            ErrorCode::EofParsingObject,
            ErrorCode::ExpectedClosingBrace,
        ) {
            Ok(u) => {},
            Err(e) => {
                return Err(e);
            },
        }
        let v = Value::Object(members);
        proof {
            match object_items_spec(s, open_off + 1, true, Seq::<(Seq<char>, SpecValue)>::empty()) {
                Scan::Done(accv2, m) => {
                    vstd::std_specs::vec::axiom_spec_len(&v.arrow_Object_0());
                    assert(value_rep(v, SpecValue::Object(accv2)));
                },
                Scan::Fail(_) => {
                    assert(false);
                },
            }
        }
        Ok(v)
    }

    /// One JSON5 value, after white space; the next character alone
    /// determines its kind.
    #[verifier::rlimit(100)]
    pub fn parse_value(&mut self) -> (r: Result<Value, Error>)
        requires
            old(self).wf(),
        ensures
            final(self).src() == old(self).src(),
            final(self).wf(),
            match (r, parse_value_spec(old(self).src(), old(self).pos as int)) {
                (Ok(v), Scan::Done(sv, j)) => value_rep(v, sv) && final(self).pos == j,
                (Err(e), Scan::Fail(se)) => err_matches(&e, old(self).src(), se),
                _ => false,
            },
        decreases self.input.len() - self.pos, 1int,
    {
        let ghost s = self.src();
        let ghost p0 = self.pos as int;
        match self.skip_whitespace() {
            Ok(u) => {},
            Err(e) => {
                return Err(e);
            },
        }
        proof {
            lemma_skip_ws_bounds(s, p0);
            assert(clamp_at(s, p0, self.pos as int) == self.pos as int);
        }
        let (j, c) = match self.peek_or(ErrorCode::EofParsingValue) {
            Ok(p) => p,
            Err(e) => {
                return Err(e);
            },
        };
        if c == 'n' {
            match self.parse_null() {
                Ok(_) => {
                    proof {
                        assert(value_rep(Value::Null, SpecValue::Null));
                    }
                    Ok(Value::Null)
                },
                Err(e) => Err(e),
            }
        } else if c == 't' || c == 'f' {
            match self.parse_bool() {
                Ok((_, b)) => {
                    proof {
                        assert(value_rep(Value::Bool(b), SpecValue::Bool(b)));
                    }
                    Ok(Value::Bool(b))
                },
                Err(e) => Err(e),
            }
        } else if c == '"' || c == '\'' {
            match self.parse_string() {
                Ok((_, st)) => {
                    proof {
                        assert(value_rep(Value::Str(st), SpecValue::Str(st@)));
                    }
                    Ok(Value::Str(st))
                },
                Err(e) => Err(e),
            }
        } else if c == '+' || c == '-' || c == '.' || c == 'I' || c == 'N'
            || crate::numbers::is_dec_digit(c) {
            match self.parse_number() {
                Ok((_, n)) => {
                    proof {
                        assert(value_rep(Value::Number(n), SpecValue::Number(n)));
                    }
                    Ok(Value::Number(n))
                },
                Err(e) => Err(e),
            }
        } else if c == '[' {
            match self.parse_array_value(j) {
                Ok(v) => Ok(v),
                Err(e) => Err(e),
            }
        } else if c == '{' {
            match self.parse_object_value(j) {
                Ok(v) => Ok(v),
                Err(e) => Err(e),
            }
        } else {
            Err(self.err_at(j, ErrorCode::ExpectedValue))
        }
    }
}

/// Parses a JSON5 document into a [`Value`].
pub fn from_str(input: &str) -> (r: Result<Value, Error>)
    ensures
        match (r, from_str_spec(input@)) {
            (Ok(v), Scan::Done(sv, _)) => value_rep(v, sv),
            (Err(e), Scan::Fail(se)) => err_matches(&e, input@, se),
            _ => false,
        },
{
    let mut de = Deserializer::from_str(input);
    let v = match de.parse_value() {
        Ok(v) => v,
        Err(e) => {
            return Err(e);
        },
    };
    match de.skip_whitespace() {
        Ok(u) => {},
        Err(e) => {
            return Err(e);
        },
    }
    match de.peek() {
        Some((offset, _)) => Err(de.err_at(offset, ErrorCode::TrailingCharacters)),
        None => Ok(v),
    }
}

/// Parses a JSON5 document, recording every skipped comment's lines
/// under the structural path of the syntax position that follows it.
/// The value returned is the one [`from_str`] returns; the comment
/// table is best-effort and feeds [`crate::ser::to_string_with_options`].
pub fn from_str_with_comments(input: &str) -> (r: Result<(Value, Comments), Error>)
    ensures
        match (r, from_str_spec(input@)) {
            (Ok((v, _)), Scan::Done(sv, _)) => value_rep(v, sv),
            (Err(e), Scan::Fail(se)) => err_matches(&e, input@, se),
            _ => false,
        },
{
    let ghost s = input@;
    let mut de = Deserializer::from_str(input);
    de.record_comments = true;
    match de.skip_whitespace() {
        Ok(u) => {},
        Err(e) => {
            return Err(e);
        },
    }
    proof {
        lemma_skip_ws_idempotent(s, 0);
    }
    de.note_anchor(PathSegment::Open);
    de.pop_anchor();
    let v = match de.parse_value() {
        Ok(v) => v,
        Err(e) => {
            return Err(e);
        },
    };
    match de.skip_whitespace() {
        Ok(u) => {},
        Err(e) => {
            return Err(e);
        },
    }
    de.note_anchor(PathSegment::Eof);
    de.pop_anchor();
    match de.peek() {
        Some((offset, _)) => Err(de.err_at(offset, ErrorCode::TrailingCharacters)),
        None => Ok((v, de.comments)),
    }
}


} // verus!
