//! The JSON5 serializer: formats a [`Value`] back to text.
//!
//! Booleans and integers print in their direct textual form; floats
//! print as `Infinity`, `-Infinity`, `NaN` or `-NaN` when special and
//! through the shortest round-trip decimal form otherwise.  Strings are
//! quoted with `"` unless the text contains `"` and no `'`; only the
//! delimiter, the backslash, CR, LF and the two separator code points
//! are escaped.  Keys print unquoted exactly when they satisfy the
//! identifier classification.  Collections print one element per line
//! with two-space indentation, every element line ending in a comma,
//! and the closing delimiter on its own line; empty collections print
//! compactly.  A comment table from a comment-retaining parse can be
//! supplied, and its lines are written back at the matching structural
//! paths.

use vstd::prelude::*;
use vstd::string::StrSliceExecFns;

use crate::chars::{
    chars_to_string, escape, push_str_chars, spec_escape, spec_is_json5_identifier,
    spec_is_json5_identifier_start,
};
use crate::comments::{path_view, Comments, PathSegment, SegView};
use crate::error::Error;
use crate::numbers::{
    dec_str, dec_str_signed, float_repr, float_repr_text, push_dec_i128, push_dec_u128,
    reformat_float_text, shortest_float_text,
};
use crate::value::{value_rep, NumberResult, SpecValue, Value};

verus! {

broadcast use vstd::seq::group_seq_axioms, vstd::std_specs::vec::axiom_vec_index_decreases;

// ---------------------------------------------------------------------------
// The output text, as specification functions.
// ---------------------------------------------------------------------------

/// The text of a float with bit pattern `bits`: a signed keyword for
/// the specials, `0`/`-0` for the zeros, and the shortest decimal
/// rendering that reads back to the same bits otherwise.
pub open spec fn float_text(bits: u64) -> Seq<char> {
    if bits & 0x7FF0_0000_0000_0000u64 == 0x7FF0_0000_0000_0000u64 {
        if bits & 0x000F_FFFF_FFFF_FFFFu64 == 0u64 {
            if bits & 0x8000_0000_0000_0000u64 != 0u64 {
                "-Infinity"@
            } else {
                "Infinity"@
            }
        } else {
            if bits & 0x8000_0000_0000_0000u64 != 0u64 {
                "-NaN"@
            } else {
                "NaN"@
            }
        }
    } else if bits == 0u64 {
        "0"@
    } else if bits == 0x8000_0000_0000_0000u64 {
        "-0"@
    } else {
        match shortest_float_text(float_repr_text(bits)) {
            Some(t) => t,
            None => float_repr_text(bits),
        }
    }
}

/// The text of a number: integers in decimal, floats per [`float_text`].
pub open spec fn number_text(n: NumberResult) -> Seq<char> {
    match n {
        NumberResult::U128(u) => dec_str(u as nat),
        NumberResult::I128(i) => dec_str_signed(i as int),
        NumberResult::Float(bits) => float_text(bits),
    }
}

/// The delimiter a string is written with: `'` only when the text
/// contains `"` and no `'`.
pub open spec fn string_delim(t: Seq<char>) -> char {
    if t.contains('"') && !t.contains('\'') {
        '\''
    } else {
        '"'
    }
}

/// The body of a string: each character escaped per the escape table,
/// all others passed through verbatim.
pub open spec fn escaped_body(t: Seq<char>, delim: char) -> Seq<char>
    decreases t.len(),
{
    if t.len() == 0 {
        Seq::empty()
    } else {
        (match spec_escape(delim, t[0]) {
            Some(e) => e,
            None => seq![t[0]],
        }) + escaped_body(t.drop_first(), delim)
    }
}

/// A quoted string: delimiter, escaped body, delimiter.
pub open spec fn quoted_string(t: Seq<char>) -> Seq<char> {
    seq![string_delim(t)] + escaped_body(t, string_delim(t)) + seq![string_delim(t)]
}

/// Whether key text can stand unquoted: a nonempty identifier.
pub open spec fn is_identifier_text(t: Seq<char>) -> bool {
    t.len() > 0 && spec_is_json5_identifier_start(t[0]) && (forall|i: int|
        1 <= i < t.len() ==> spec_is_json5_identifier(#[trigger] t[i]))
}

/// The text of an object key: unquoted exactly when it is an
/// identifier.
pub open spec fn key_text(t: Seq<char>) -> Seq<char> {
    if is_identifier_text(t) {
        t
    } else {
        quoted_string(t)
    }
}

/// One comment line: `//`, a space unless the recorded line is empty or
/// already starts with one, then the line.
pub open spec fn comment_line_text(line: Seq<char>) -> Seq<char> {
    seq!['/', '/'] + (if line.len() > 0 && line[0] != ' ' {
        seq![' ']
    } else {
        Seq::empty()
    }) + line
}

/// Comment lines from index `i` on: each line preceded by a newline and
/// the current indentation, except the first line of a document-open
/// comment, which stands at the start of the output.
pub open spec fn comment_lines_text(
    lines: Seq<Seq<char>>,
    i: int,
    ind: Seq<char>,
    at_open: bool,
) -> Seq<char>
    decreases lines.len() - i,
{
    if i < 0 || i >= lines.len() {
        Seq::empty()
    } else {
        (if at_open && i == 0 {
            Seq::empty()
        } else {
            seq!['\n'] + ind
        }) + comment_line_text(lines[i]) + comment_lines_text(lines, i + 1, ind, at_open)
    }
}

/// What a structural-path anchor emits: the comment lines recorded for
/// `path`, or nothing; a document-open comment is followed by a
/// newline.
pub open spec fn anchor_emit(cm: Option<&Comments>, path: Seq<SegView>, ind: Seq<char>) -> Seq<
    char,
> {
    match cm {
        None => Seq::empty(),
        Some(c) => match c.lookup(path) {
            None => Seq::empty(),
            Some(lines) => comment_lines_text(lines, 0, ind, path == seq![SegView::Open]) + (
            if path == seq![SegView::Open] {
                seq!['\n']
            } else {
                Seq::empty()
            }),
        },
    }
}

/// Whether an anchor has recorded comments.
pub open spec fn anchor_found(cm: Option<&Comments>, path: Seq<SegView>) -> bool {
    match cm {
        None => false,
        Some(c) => c.lookup(path) is Some,
    }
}

/// The serialized text of a value at indentation `ind`, addressed by
/// `path` for comment lookups.
pub open spec fn ser_value(
    sv: SpecValue,
    ind: Seq<char>,
    cm: Option<&Comments>,
    path: Seq<SegView>,
) -> Seq<char>
    decreases sv, 0int, 0int,
{
    match sv {
        SpecValue::Null => "null"@,
        SpecValue::Bool(b) => if b {
            "true"@
        } else {
            "false"@
        },
        SpecValue::Number(n) => number_text(n),
        SpecValue::Str(t) => quoted_string(t),
        SpecValue::Array(es) => {
            let inner = ind + seq![' ', ' '];
            let items = ser_array_items(es, 0, inner, cm, path);
            let close_cmt = anchor_emit(cm, path.push(SegView::Close), inner);
            seq!['['] + items + close_cmt + (if es.len() > 0 || anchor_found(
                cm,
                path.push(SegView::Close),
            ) {
                seq!['\n'] + ind
            } else {
                Seq::empty()
            }) + seq![']']
        },
        SpecValue::Object(ms) => {
            let inner = ind + seq![' ', ' '];
            let items = ser_object_items(ms, 0, inner, cm, path);
            let close_cmt = anchor_emit(cm, path.push(SegView::Close), inner);
            seq!['{'] + items + close_cmt + (if ms.len() > 0 || anchor_found(
                cm,
                path.push(SegView::Close),
            ) {
                seq!['\n'] + ind
            } else {
                Seq::empty()
            }) + seq!['}']
        },
    }
}

/// The element lines of an array from index `i` on: the element's
/// anchor comments, a newline and the inner indentation, the element,
/// and a comma.
pub open spec fn ser_array_items(
    es: Seq<SpecValue>,
    i: int,
    inner: Seq<char>,
    cm: Option<&Comments>,
    path: Seq<SegView>,
) -> Seq<char>
    decreases es, 1int, es.len() - i,
{
    if i < 0 || i >= es.len() {
        Seq::empty()
    } else {
        let p = path.push(SegView::Index(i));
        anchor_emit(cm, p, inner) + seq!['\n'] + inner + ser_value(es[i], inner, cm, p) + seq![
            ',',
        ] + ser_array_items(es, i + 1, inner, cm, path)
    }
}

/// The member lines of an object from index `i` on: the member's
/// anchor comments, a newline and the inner indentation, the key, a
/// colon and space, the value, and a comma.
pub open spec fn ser_object_items(
    ms: Seq<(Seq<char>, SpecValue)>,
    i: int,
    inner: Seq<char>,
    cm: Option<&Comments>,
    path: Seq<SegView>,
) -> Seq<char>
    decreases ms, 1int, ms.len() - i,
{
    if i < 0 || i >= ms.len() {
        Seq::empty()
    } else {
        let p = path.push(SegView::Key(ms[i].0));
        anchor_emit(cm, p, inner) + seq!['\n'] + inner + key_text(ms[i].0) + seq![':', ' ']
            + ser_value(ms[i].1, inner, cm, p) + seq![','] + ser_object_items(
            ms,
            i + 1,
            inner,
            cm,
            path,
        )
    }
}

/// A whole document: the document-open comments, the value, and the
/// end-of-document comments.
pub open spec fn ser_document(sv: SpecValue, cm: Option<&Comments>) -> Seq<char> {
    anchor_emit(cm, seq![SegView::Open], Seq::empty()) + ser_value(
        sv,
        Seq::empty(),
        cm,
        Seq::empty(),
    ) + anchor_emit(cm, seq![SegView::Eof], Seq::empty())
}


// ---------------------------------------------------------------------------
// Scalar output.
// ---------------------------------------------------------------------------

/// Appends the text of a float to `out`.
fn push_float(out: &mut Vec<char>, bits: u64)
    ensures
        final(out)@ == old(out)@ + float_text(bits),
{
    proof {
        reveal_strlit("Infinity");
        reveal_strlit("-Infinity");
        reveal_strlit("NaN");
        reveal_strlit("-NaN");
        reveal_strlit("0");
        reveal_strlit("-0");
    }
    if bits & 0x7FF0_0000_0000_0000u64 == 0x7FF0_0000_0000_0000u64 {
        if bits & 0x000F_FFFF_FFFF_FFFFu64 == 0u64 {
            if bits & 0x8000_0000_0000_0000u64 != 0u64 {
                push_str_chars(out, "-Infinity");
            } else {
                push_str_chars(out, "Infinity");
            }
        } else {
            if bits & 0x8000_0000_0000_0000u64 != 0u64 {
                push_str_chars(out, "-NaN");
            } else {
                push_str_chars(out, "NaN");
            }
        }
    } else if bits == 0u64 {
        push_str_chars(out, "0");
    } else if bits == 0x8000_0000_0000_0000u64 {
        push_str_chars(out, "-0");
    } else {
        let t = float_repr(bits);
        match reformat_float_text(t.as_str()) {
            Some(u) => {
                push_str_chars(out, u.as_str());
            },
            None => {
                push_str_chars(out, t.as_str());
            },
        }
    }
}

/// Appends the text of a number to `out`.
fn push_number(out: &mut Vec<char>, n: &NumberResult)
    ensures
        final(out)@ == old(out)@ + number_text(*n),
{
    match n {
        NumberResult::U128(u) => push_dec_u128(out, *u),
        NumberResult::I128(i) => push_dec_i128(out, *i),
        NumberResult::Float(bits) => push_float(out, *bits),
    }
}

/// Appends a quoted string to `out`: the delimiter is `'` only when the
/// text contains `"` and no `'`, and only the escape table's characters
/// are escaped.
fn push_quoted(out: &mut Vec<char>, text: &str)
    ensures
        final(out)@ == old(out)@ + quoted_string(text@),
{
    let cv = crate::chars::str_to_chars(text);
    let n = cv.len();
    let mut has_dq = false;
    let mut has_sq = false;
    let mut k: usize = 0;
    while k < n
        invariant
            k <= n,
            n == cv.len(),
            cv@ == text@,
            has_dq ==> cv@.contains('"'),
            !has_dq ==> forall|q: int| 0 <= q < k ==> cv@[q] != '"',
            has_sq ==> cv@.contains('\''),
            !has_sq ==> forall|q: int| 0 <= q < k ==> cv@[q] != '\'',
        decreases n - k,
    {
        let c = cv[k];
        if c == '"' {
            has_dq = true;
        }
        if c == '\'' {
            has_sq = true;
        }
        k = k + 1;
    }
    proof {
        if !has_dq {
            assert(forall|q: int| 0 <= q < cv@.len() ==> cv@[q] != '"');
            assert(!cv@.contains('"'));
        }
        if !has_sq {
            assert(forall|q: int| 0 <= q < cv@.len() ==> cv@[q] != '\'');
            assert(!cv@.contains('\''));
        }
    }
    let delim: char = if has_dq && !has_sq {
        '\''
    } else {
        '"'
    };
    assert(delim == string_delim(text@));
    out.push(delim);
    let ghost base = out@;
    proof {
        assert(cv@.skip(0) =~= cv@);
    }
    let mut k: usize = 0;
    while k < n
        invariant
            k <= n,
            n == cv.len(),
            cv@ == text@,
            base + escaped_body(cv@, delim) == out@ + escaped_body(cv@.skip(k as int), delim),
        decreases n - k,
    {
        let c = cv[k];
        assert(cv@.skip(k as int)[0] == c);
        let ghost pre = out@;
        match escape(delim, c) {
            Some(e) => {
                push_str_chars(out, e);
            },
            None => {
                out.push(c);
            },
        }
        k = k + 1;
        proof {
            assert(cv@.skip(k as int) =~= cv@.skip(k - 1 as int).drop_first());
            assert(base + escaped_body(cv@, delim) =~= out@ + escaped_body(
                cv@.skip(k as int),
                delim,
            ));
        }
    }
    proof {
        assert(cv@.skip(n as int) =~= Seq::<char>::empty());
    }
    out.push(delim);
    proof {
        assert(out@ =~= old(out)@ + quoted_string(text@));
    }
}

/// Appends key text to `out`: unquoted exactly when the key satisfies
/// the identifier classification, quoted otherwise.
fn push_key(out: &mut Vec<char>, text: &str)
    ensures
        final(out)@ == old(out)@ + key_text(text@),
{
    let cv = crate::chars::str_to_chars(text);
    let n = cv.len();
    let mut ok = n > 0 && crate::chars::is_json5_identifier_start(cv[0]);
    let mut k: usize = 1;
    while k < n && ok
        invariant
            1 <= k <= n || (n == 0 && k == 1),
            n == cv.len(),
            cv@ == text@,
            ok ==> (n > 0 && spec_is_json5_identifier_start(cv@[0]) && forall|q: int|
                1 <= q < k ==> spec_is_json5_identifier(#[trigger] cv@[q])),
            !ok ==> !is_identifier_text(cv@),
        decreases n - k,
    {
        if !crate::chars::is_json5_identifier(cv[k]) {
            ok = false;
        }
        k = k + 1;
    }
    if ok {
        assert(is_identifier_text(text@));
        push_str_chars(out, text);
    } else {
        assert(!is_identifier_text(text@));
        push_quoted(out, text);
    }
}

/// Appends the lowercase two-digit hexadecimal form of each byte.
pub open spec fn hex_bytes_text(bs: Seq<u8>) -> Seq<char>
    decreases bs.len(),
{
    if bs.len() == 0 {
        Seq::empty()
    } else {
        seq![
            crate::numbers::hex_char_of(bs[0] as int / 16),
            crate::numbers::hex_char_of(bs[0] as int % 16),
        ] + hex_bytes_text(bs.drop_first())
    }
}

/// Writes bytes as lowercase hex pairs, the encoding the parser's
/// hex-decoding accepts.
pub fn write_hex(out: &mut Vec<char>, bytes: &[u8])
    ensures
        final(out)@ == old(out)@ + hex_bytes_text(bytes@),
{
    let n = bytes.len();
    let ghost base = out@;
    proof {
        assert(bytes@.skip(0) =~= bytes@);
    }
    let mut k: usize = 0;
    while k < n
        invariant
            k <= n,
            n == bytes@.len(),
            base + hex_bytes_text(bytes@) == out@ + hex_bytes_text(bytes@.skip(k as int)),
        decreases n - k,
    {
        let b = bytes[k];
        assert(bytes@.skip(k as int)[0] == b);
        let hi = b / 16;
        let lo = b % 16;
        if hi < 10 {
            out.push((0x30 + hi) as char);
        } else {
            out.push((0x61 + (hi - 10)) as char);
        }
        if lo < 10 {
            out.push((0x30 + lo) as char);
        } else {
            out.push((0x61 + (lo - 10)) as char);
        }
        k = k + 1;
        proof {
            assert(bytes@.skip(k as int) =~= bytes@.skip(k - 1 as int).drop_first());
            assert(base + hex_bytes_text(bytes@) =~= out@ + hex_bytes_text(
                bytes@.skip(k as int),
            ));
        }
    }
    proof {
        assert(bytes@.skip(n as int) =~= Seq::<u8>::empty());
        assert(out@ =~= old(out)@ + hex_bytes_text(bytes@));
    }
}

// ---------------------------------------------------------------------------
// The serializer.
// ---------------------------------------------------------------------------

/// Options for a serialization: a comment table to write back.
pub struct SerializeOptions<'a> {
    pub comments: Option<&'a Comments>,
}

impl<'a> SerializeOptions<'a> {
    pub fn new() -> (r: Self)
        ensures
            r.comments is None,
    {
        SerializeOptions { comments: None }
    }

    /// Supplies a comment table gathered by a comment-retaining parse.
    #[must_use]
    pub fn comments(self, comments: &'a Comments) -> (r: Self)
        ensures
            r.comments == Some(comments),
    {
        SerializeOptions { comments: Some(comments) }
    }
}

impl<'a> Default for SerializeOptions<'a> {
    fn default() -> (r: Self)
        ensures
            r.comments is None,
    {
        SerializeOptions { comments: None }
    }
}

/// A serializer: the output buffer, the current indentation, the
/// structural path of the position being written, and the optional
/// comment table.
pub struct Serializer<'a> {
    pub out: Vec<char>,
    pub indent: Vec<char>,
    pub path: Vec<PathSegment>,
    pub comments: Option<&'a Comments>,
}

impl<'a> Serializer<'a> {
    pub fn new() -> (r: Self)
        ensures
            r.out@ == Seq::<char>::empty(),
            r.indent@ == Seq::<char>::empty(),
            path_view(r.path@) == Seq::<SegView>::empty(),
            r.comments is None,
    {
        let r = Serializer { out: Vec::new(), indent: Vec::new(), path: Vec::new(), comments: None };
        proof {
            assert(path_view(r.path@) =~= Seq::<SegView>::empty());
        }
        r
    }

    pub fn new_with_options(options: &SerializeOptions<'a>) -> (r: Self)
        ensures
            r.out@ == Seq::<char>::empty(),
            r.indent@ == Seq::<char>::empty(),
            path_view(r.path@) == Seq::<SegView>::empty(),
            r.comments == options.comments,
    {
        let r = Serializer {
            out: Vec::new(),
            indent: Vec::new(),
            path: Vec::new(),
            comments: options.comments,
        };
        proof {
            assert(path_view(r.path@) =~= Seq::<SegView>::empty());
        }
        r
    }

    /// Appends a newline and the current indentation.
    fn newline_indent(&mut self)
        ensures
            final(self).out@ == old(self).out@ + seq!['\n'] + old(self).indent@,
            final(self).indent == old(self).indent,
            final(self).path == old(self).path,
            final(self).comments == old(self).comments,
    {
        self.out.push('\n');
        let n = self.indent.len();
        let mut k: usize = 0;
        while k < n
            invariant
                k <= n,
                n == self.indent.len(),
                self.indent == old(self).indent,
                self.path == old(self).path,
                self.comments == old(self).comments,
                self.out@ == old(self).out@ + seq!['\n'] + self.indent@.take(k as int),
            decreases n - k,
        {
            let c = self.indent[k];
            self.out.push(c);
            k = k + 1;
            proof {
                assert(self.out@ =~= old(self).out@ + seq!['\n'] + self.indent@.take(k as int));
            }
        }
        proof {
            assert(self.out@ =~= old(self).out@ + seq!['\n'] + self.indent@);
        }
    }

    /// Pushes a structural-path step and writes the comment lines
    /// recorded for the new path, if any; a document-open comment's
    /// first line stands at the very start, and the block ends with a
    /// newline.
    pub fn push_path_segment(&mut self, seg: PathSegment) -> (found: bool)
        ensures
            final(self).indent == old(self).indent,
            final(self).comments == old(self).comments,
            final(self).path@ == old(self).path@.push(seg),
            path_view(final(self).path@) == path_view(old(self).path@).push(seg@),
            final(self).out@ == old(self).out@ + anchor_emit(
                old(self).comments,
                path_view(old(self).path@).push(seg@),
                old(self).indent@,
            ),
            found == anchor_found(old(self).comments, path_view(old(self).path@).push(seg@)),
    {
        let ghost segv = seg@;
        self.path.push(seg);
        proof {
            assert(path_view(self.path@) =~= path_view(old(self).path@).push(segv));
        }
        let ghost p = path_view(self.path@);
        let at_open = self.path.len() == 1 && (match &self.path[0] {
            PathSegment::Open => true,
            _ => false,
        });
        proof {
            if at_open {
                assert(p =~= seq![SegView::Open]);
            } else {
                if p.len() == 1 && p[0] == SegView::Open {
                    assert(self.path@[0]@ == SegView::Open);
                    assert(self.path@[0] is Open);
                    assert(false);
                }
            }
        }
        let cm = self.comments;
        match cm {
            None => false,
            Some(c) => {
                match c.get(&self.path) {
                    None => false,
                    Some(lines) => {
                        let ghost lv = crate::comments::lines_view(lines@);
                        let ghost base = self.out@;
                        let n = lines.len();
                        let mut i: usize = 0;
                        while i < n
                            invariant
                                i <= n,
                                n == lines@.len(),
                                lv == crate::comments::lines_view(lines@),
                                self.indent == old(self).indent,
                                self.path@ == old(self).path@.push(seg),
                                self.comments == old(self).comments,
                                base + comment_lines_text(lv, 0, self.indent@, at_open) == self.out@
                                    + comment_lines_text(lv, i as int, self.indent@, at_open),
                            decreases n - i,
                        {
                            let line = &lines[i];
                            let ghost pre = self.out@;
                            if !(at_open && i == 0) {
                                self.newline_indent();
                            }
                            proof {
                                reveal_strlit("//");
                            }
                            push_str_chars(&mut self.out, "//");
                            let lref = line.as_str();
                            if lref.unicode_len() > 0 && lref.get_char(0) != ' ' {
                                self.out.push(' ');
                            }
                            push_str_chars(&mut self.out, lref);
                            i = i + 1;
                            proof {
                                assert(lv[i - 1] == lines@[i - 1]@);
                                assert(base + comment_lines_text(lv, 0, self.indent@, at_open)
                                    =~= self.out@ + comment_lines_text(
                                    lv,
                                    i as int,
                                    self.indent@,
                                    at_open,
                                ));
                            }
                        }
                        if at_open {
                            self.out.push('\n');
                        }
                        proof {
                            assert(comment_lines_text(lv, n as int, self.indent@, at_open)
                                =~= Seq::<char>::empty());
                            assert(self.out@ =~= old(self).out@ + anchor_emit(
                                old(self).comments,
                                p,
                                old(self).indent@,
                            ));
                        }
                        true
                    },
                }
            },
        }
    }

    /// Pops the innermost structural-path step.
    pub fn pop_path_segment(&mut self)
        requires
            old(self).path@.len() > 0,
        ensures
            final(self).out == old(self).out,
            final(self).indent == old(self).indent,
            final(self).comments == old(self).comments,
            final(self).path@ == old(self).path@.drop_last(),
            path_view(final(self).path@) == path_view(old(self).path@).drop_last(),
    {
        let r = self.path.pop();
        proof {
            assert(self.path@ =~= old(self).path@.drop_last());
            assert(path_view(self.path@) =~= path_view(old(self).path@).drop_last());
        }
    }
}


// ---------------------------------------------------------------------------
// Values and collections.
// ---------------------------------------------------------------------------

/// An in-progress collection: how many elements have been written.
pub struct SerializeCollection {
    pub index: usize,
}

impl SerializeCollection {
    pub fn new() -> (r: Self)
        ensures
            r.index == 0,
    {
        SerializeCollection { index: 0 }
    }

    /// One array element: its anchor comments, a new line at the inner
    /// indentation, the element, and a comma.
    fn serialize_element(&mut self, ser: &mut Serializer, v: &Value)
        requires
            old(self).index < usize::MAX,
        ensures
            final(ser).indent@ == old(ser).indent@,
            final(ser).comments == old(ser).comments,
            final(ser).path@ == old(ser).path@,
            final(self).index == old(self).index + 1,
            forall|sv: SpecValue|
                value_rep(*v, sv) ==> final(ser).out@ == old(ser).out@ + anchor_emit(
                    old(ser).comments,
                    path_view(old(ser).path@).push(SegView::Index(old(self).index as int)),
                    old(ser).indent@,
                ) + seq!['\n'] + old(ser).indent@ + ser_value(
                    sv,
                    old(ser).indent@,
                    old(ser).comments,
                    path_view(old(ser).path@).push(SegView::Index(old(self).index as int)),
                ) + seq![','],
        decreases v, 1int,
    {
        let _ = ser.push_path_segment(PathSegment::Index(self.index));
        self.index = self.index + 1;
        ser.newline_indent();
        ser.serialize_value(v);
        ser.out.push(',');
        ser.pop_path_segment();
        proof {
            assert(ser.path@ =~= old(ser).path@);
        }
    }

    /// One object member: its anchor comments, a new line at the inner
    /// indentation, the key, a colon, the value, and a comma.
    fn serialize_member(&mut self, ser: &mut Serializer, key: &String, v: &Value)
        requires
            old(self).index < usize::MAX,
        ensures
            final(ser).indent@ == old(ser).indent@,
            final(ser).comments == old(ser).comments,
            final(ser).path@ == old(ser).path@,
            final(self).index == old(self).index + 1,
            forall|sv: SpecValue|
                value_rep(*v, sv) ==> final(ser).out@ == old(ser).out@ + anchor_emit(
                    old(ser).comments,
                    path_view(old(ser).path@).push(SegView::Key(key@)),
                    old(ser).indent@,
                ) + seq!['\n'] + old(ser).indent@ + key_text(key@) + seq![':', ' '] + ser_value(
                    sv,
                    old(ser).indent@,
                    old(ser).comments,
                    path_view(old(ser).path@).push(SegView::Key(key@)),
                ) + seq![','],
        decreases v, 1int,
    {
        let keyc = key.clone();
        let _ = ser.push_path_segment(PathSegment::Key(keyc));
        self.index = self.index + 1;
        ser.newline_indent();
        push_key(&mut ser.out, key.as_str());
        ser.out.push(':');
        ser.out.push(' ');
        ser.serialize_value(v);
        ser.out.push(',');
        ser.pop_path_segment();
        proof {
            assert(ser.path@ =~= old(ser).path@);
        }
    }

    /// Ends a collection: the closing anchor's comments at the inner
    /// indentation, then -- if anything was written -- a new line at
    /// the outer indentation, then the closing delimiter.
    fn close(&mut self, ser: &mut Serializer, delimiter: char)
        requires
            old(ser).indent@.len() >= 2,
        ensures
            final(ser).comments == old(ser).comments,
            final(ser).path@ == old(ser).path@,
            final(ser).indent@ == old(ser).indent@.drop_last().drop_last(),
            final(self).index == old(self).index,
            final(ser).out@ == old(ser).out@ + anchor_emit(
                old(ser).comments,
                path_view(old(ser).path@).push(SegView::Close),
                old(ser).indent@,
            ) + (if old(self).index > 0 || anchor_found(
                old(ser).comments,
                path_view(old(ser).path@).push(SegView::Close),
            ) {
                seq!['\n'] + old(ser).indent@.drop_last().drop_last()
            } else {
                Seq::<char>::empty()
            }) + seq![delimiter],
    {
        let found = ser.push_path_segment(PathSegment::Close);
        ser.pop_path_segment();
        let _ = ser.indent.pop();
        let _ = ser.indent.pop();
        proof {
            assert(ser.indent@ =~= old(ser).indent@.drop_last().drop_last());
        }
        if self.index > 0 || found {
            ser.newline_indent();
        }
        ser.out.push(delimiter);
    }
}

impl<'a> Serializer<'a> {
    /// Writes one value at the current indentation and path.
    #[verifier::rlimit(100)]
    pub fn serialize_value(&mut self, v: &Value)
        ensures
            final(self).indent@ == old(self).indent@,
            final(self).comments == old(self).comments,
            final(self).path@ == old(self).path@,
            forall|sv: SpecValue|
                value_rep(*v, sv) ==> final(self).out@ == old(self).out@ + ser_value(
                    sv,
                    old(self).indent@,
                    old(self).comments,
                    path_view(old(self).path@),
                ),
        decreases v, 0int,
    {
        match v {
            Value::Null => {
                proof {
                    reveal_strlit("null");
                }
                push_str_chars(&mut self.out, "null");
            },
            Value::Bool(b) => {
                proof {
                    reveal_strlit("true");
                    reveal_strlit("false");
                }
                if *b {
                    push_str_chars(&mut self.out, "true");
                } else {
                    push_str_chars(&mut self.out, "false");
                }
            },
            Value::Number(n) => {
                push_number(&mut self.out, n);
            },
            Value::Str(s) => {
                push_quoted(&mut self.out, s.as_str());
            },
            Value::Array(elems) => {
                proof {
                    crate::value::lemma_value_rep_exists(v);
                }
                let ghost sv0 = choose|sv: SpecValue| value_rep(*v, sv);
                let ghost es0 = sv0.arrow_Array_0();
                let ghost cm = self.comments;
                let ghost path0 = path_view(self.path@);
                let ghost ind0 = self.indent@;
                self.out.push('[');
                self.indent.push(' ');
                self.indent.push(' ');
                let ghost inner = self.indent@;
                let ghost base = self.out@;
                proof {
                    assert(inner =~= ind0 + seq![' ', ' ']);
                }
                let mut col = SerializeCollection::new();
                let n = elems.len();
                let mut i: usize = 0;
                while i < n
                    invariant
                        i <= n,
                        n == elems.len(),
                        col.index == i,
                        sv0 == SpecValue::Array(es0),
                        value_rep(*v, sv0),
                        v is Array,
                        elems == v.arrow_Array_0(),
                        es0.len() == n,
                        self.indent@ == inner,
                        self.comments == cm,
                        self.path@ == old(self).path@,
                        path_view(self.path@) == path0,
                        base + ser_array_items(es0, 0, inner, cm, path0) == self.out@
                            + ser_array_items(es0, i as int, inner, cm, path0),
                    decreases n - i,
                {
                    assert(value_rep(elems[i as int], es0[i as int]));
                    col.serialize_element(&mut *self, &elems[i]);
                    i = i + 1;
                    proof {
                        assert(base + ser_array_items(es0, 0, inner, cm, path0) =~= self.out@
                            + ser_array_items(es0, i as int, inner, cm, path0));
                    }
                }
                proof {
                    assert(ser_array_items(es0, n as int, inner, cm, path0)
                        =~= Seq::<char>::empty());
                }
                col.close(&mut *self, ']');
                proof {
                    assert(self.indent@ =~= ind0);
                    assert forall|sv: SpecValue| value_rep(*v, sv) implies self.out@ == old(
                        self,
                    ).out@ + ser_value(sv, ind0, cm, path0) by {
                        crate::value::lemma_value_rep_unique(v, sv, sv0);
                        assert(self.out@ =~= old(self).out@ + ser_value(sv0, ind0, cm, path0));
                    }
                }
            },
            Value::Object(members) => {
                proof {
                    crate::value::lemma_value_rep_exists(v);
                }
                let ghost sv0 = choose|sv: SpecValue| value_rep(*v, sv);
                let ghost ms0 = sv0.arrow_Object_0();
                let ghost cm = self.comments;
                let ghost path0 = path_view(self.path@);
                let ghost ind0 = self.indent@;
                self.out.push('{');
                self.indent.push(' ');
                self.indent.push(' ');
                let ghost inner = self.indent@;
                let ghost base = self.out@;
                proof {
                    assert(inner =~= ind0 + seq![' ', ' ']);
                }
                let mut col = SerializeCollection::new();
                let n = members.len();
                let mut i: usize = 0;
                while i < n
                    invariant
                        i <= n,
                        n == members.len(),
                        col.index == i,
                        sv0 == SpecValue::Object(ms0),
                        value_rep(*v, sv0),
                        v is Object,
                        members == v.arrow_Object_0(),
                        ms0.len() == n,
                        self.indent@ == inner,
                        self.comments == cm,
                        self.path@ == old(self).path@,
                        path_view(self.path@) == path0,
                        base + ser_object_items(ms0, 0, inner, cm, path0) == self.out@
                            + ser_object_items(ms0, i as int, inner, cm, path0),
                    decreases n - i,
                {
                    assert(ms0[i as int].0 == members[i as int].0@ && value_rep(
                        members[i as int].1,
                        ms0[i as int].1,
                    ));
                    col.serialize_member(&mut *self, &members[i].0, &members[i].1);
                    i = i + 1;
                    proof {
                        assert(base + ser_object_items(ms0, 0, inner, cm, path0) =~= self.out@
                            + ser_object_items(ms0, i as int, inner, cm, path0));
                    }
                }
                proof {
                    assert(ser_object_items(ms0, n as int, inner, cm, path0)
                        =~= Seq::<char>::empty());
                }
                col.close(&mut *self, '}');
                proof {
                    assert(self.indent@ =~= ind0);
                    assert forall|sv: SpecValue| value_rep(*v, sv) implies self.out@ == old(
                        self,
                    ).out@ + ser_value(sv, ind0, cm, path0) by {
                        crate::value::lemma_value_rep_unique(v, sv, sv0);
                        assert(self.out@ =~= old(self).out@ + ser_value(sv0, ind0, cm, path0));
                    }
                }
            },
        }
    }
}

/// Serializes a value to JSON5 text.
pub fn to_string(value: &Value) -> (r: Result<String, Error>)
    ensures
        r matches Ok(out) && (forall|sv: SpecValue|
            value_rep(*value, sv) ==> out@ == ser_document(sv, Option::<&Comments>::None)),
{
    let mut ser = Serializer::new();
    ser.serialize_value(value);
    let out = chars_to_string(&ser.out);
    proof {
        assert forall|sv: SpecValue| value_rep(*value, sv) implies out@ == ser_document(
            sv,
            Option::<&Comments>::None,
        ) by {
            assert(out@ =~= ser_document(sv, Option::<&Comments>::None));
        }
    }
    Ok(out)
}

/// Serializes a value to JSON5 text, writing back the comment lines of
/// the given table at their structural paths.
pub fn to_string_with_options(value: &Value, options: &SerializeOptions) -> (r: Result<
    String,
    Error,
>)
    ensures
        r matches Ok(out) && (forall|sv: SpecValue|
            value_rep(*value, sv) ==> out@ == ser_document(sv, options.comments)),
{
    let mut ser = Serializer::new_with_options(options);
    let ghost cm = ser.comments;
    let _ = ser.push_path_segment(PathSegment::Open);
    proof {
        assert(path_view(ser.path@) =~= seq![SegView::Open]);
        assert(Seq::<SegView>::empty().push(SegView::Open) =~= seq![SegView::Open]);
    }
    ser.pop_path_segment();
    proof {
        assert(path_view(ser.path@) =~= Seq::<SegView>::empty());
    }
    ser.serialize_value(value);
    let _ = ser.push_path_segment(PathSegment::Eof);
    proof {
        assert(Seq::<SegView>::empty().push(SegView::Eof) =~= seq![SegView::Eof]);
    }
    ser.pop_path_segment();
    let out = chars_to_string(&ser.out);
    proof {
        assert forall|sv: SpecValue| value_rep(*value, sv) implies out@ == ser_document(
            sv,
            options.comments,
        ) by {
            assert(out@ =~= ser_document(sv, options.comments));
        }
    }
    Ok(out)
}

} // verus!
