//! Character classification for the JSON5 grammar: whitespace, line
//! terminators, identifier start/continue code points, and the string
//! escape table used by the serializer.
//!
//! The grammar's character classes are built from a fixed list of code
//! points plus several Unicode general categories.  Membership in a
//! category is decided by an outside table lookup; each lookup is a
//! trusted wrapper whose result is given a name, and everything built on
//! top of those names is verified.

use vstd::prelude::*;
use vstd::string::StrSliceExecFns;

verus! {

// ---------------------------------------------------------------------------
// Unicode general-category membership, named per category.
// ---------------------------------------------------------------------------

/// The Unicode space-separator (Zs) category: a fixed set of
/// seventeen code points.
pub open spec fn space_separator(c: char) -> bool {
    c as u32 == 0x0020 || c as u32 == 0x00A0 || c as u32 == 0x1680 || (0x2000 <= c as u32 && c
        as u32 <= 0x200A) || c as u32 == 0x202F || c as u32 == 0x205F || c as u32 == 0x3000
}

pub uninterp spec fn letter_uppercase(c: char) -> bool;

pub uninterp spec fn letter_lowercase(c: char) -> bool;

pub uninterp spec fn letter_titlecase(c: char) -> bool;

pub uninterp spec fn letter_modifier(c: char) -> bool;

pub uninterp spec fn letter_other(c: char) -> bool;

pub uninterp spec fn number_letter(c: char) -> bool;

pub uninterp spec fn mark_nonspacing(c: char) -> bool;

pub uninterp spec fn mark_spacing_combining(c: char) -> bool;

pub uninterp spec fn number_decimal_digit(c: char) -> bool;

pub uninterp spec fn punctuation_connector(c: char) -> bool;

/// Relies on `unicode_categories::UnicodeCategories::is_separator_space`:
/// membership in the Unicode space-separator (Zs) category, whose
/// table holds exactly the code points [`space_separator`] lists.
#[verifier::external_body]
fn in_space_separator(c: char) -> (r: bool)
    ensures
        r == space_separator(c),
{
    unicode_categories::UnicodeCategories::is_separator_space(c)
}

/// Relies on `unicode_categories::UnicodeCategories::is_letter_uppercase`:
/// membership in the Unicode uppercase-letter (Lu) category; its table's
/// only entries below 0x80 are the ASCII capitals.
#[verifier::external_body]
fn in_letter_uppercase(c: char) -> (r: bool)
    ensures
        r == letter_uppercase(c),
        ((c as u32) < 0x80) ==> r == (0x41 <= c as u32 && c as u32 <= 0x5A),
{
    unicode_categories::UnicodeCategories::is_letter_uppercase(c)
}

/// Relies on `unicode_categories::UnicodeCategories::is_letter_lowercase`:
/// membership in the Unicode lowercase-letter (Ll) category; its table's
/// only entries below 0x80 are the ASCII small letters.
#[verifier::external_body]
fn in_letter_lowercase(c: char) -> (r: bool)
    ensures
        r == letter_lowercase(c),
        ((c as u32) < 0x80) ==> r == (0x61 <= c as u32 && c as u32 <= 0x7A),
{
    unicode_categories::UnicodeCategories::is_letter_lowercase(c)
}

/// Relies on `unicode_categories::UnicodeCategories::is_letter_titlecase`:
/// membership in the Unicode titlecase-letter (Lt) category; its table
/// has no entries below 0x80.
#[verifier::external_body]
fn in_letter_titlecase(c: char) -> (r: bool)
    ensures
        r == letter_titlecase(c),
        ((c as u32) < 0x80) ==> r == false,
{
    unicode_categories::UnicodeCategories::is_letter_titlecase(c)
}

/// Relies on `unicode_categories::UnicodeCategories::is_letter_modifier`:
/// membership in the Unicode modifier-letter (Lm) category; its table
/// has no entries below 0x80.
#[verifier::external_body]
fn in_letter_modifier(c: char) -> (r: bool)
    ensures
        r == letter_modifier(c),
        ((c as u32) < 0x80) ==> r == false,
{
    unicode_categories::UnicodeCategories::is_letter_modifier(c)
}

/// Relies on `unicode_categories::UnicodeCategories::is_letter_other`:
/// membership in the Unicode other-letter (Lo) category; its table has
/// no entries below 0x80.
#[verifier::external_body]
fn in_letter_other(c: char) -> (r: bool)
    ensures
        r == letter_other(c),
        ((c as u32) < 0x80) ==> r == false,
{
    unicode_categories::UnicodeCategories::is_letter_other(c)
}

/// Relies on `unicode_categories::UnicodeCategories::is_number_letter`:
/// membership in the Unicode letter-number (Nl) category; its table has
/// no entries below 0x80.
#[verifier::external_body]
fn in_number_letter(c: char) -> (r: bool)
    ensures
        r == number_letter(c),
        ((c as u32) < 0x80) ==> r == false,
{
    unicode_categories::UnicodeCategories::is_number_letter(c)
}

/// Relies on `unicode_categories::UnicodeCategories::is_mark_nonspacing`:
/// membership in the Unicode nonspacing-mark (Mn) category; its table
/// has no entries below 0x80.
#[verifier::external_body]
fn in_mark_nonspacing(c: char) -> (r: bool)
    ensures
        r == mark_nonspacing(c),
        ((c as u32) < 0x80) ==> r == false,
{
    unicode_categories::UnicodeCategories::is_mark_nonspacing(c)
}

/// Relies on `unicode_categories::UnicodeCategories::is_mark_spacing_combining`:
/// membership in the Unicode spacing-combining-mark (Mc) category; its
/// table has no entries below 0x80.
#[verifier::external_body]
fn in_mark_spacing_combining(c: char) -> (r: bool)
    ensures
        r == mark_spacing_combining(c),
        ((c as u32) < 0x80) ==> r == false,
{
    unicode_categories::UnicodeCategories::is_mark_spacing_combining(c)
}

/// Relies on `unicode_categories::UnicodeCategories::is_number_decimal_digit`:
/// membership in the Unicode decimal-number (Nd) category; its table's
/// only entries below 0x80 are the ASCII digits.
#[verifier::external_body]
fn in_number_decimal_digit(c: char) -> (r: bool)
    ensures
        r == number_decimal_digit(c),
        ((c as u32) < 0x80) ==> r == (0x30 <= c as u32 && c as u32 <= 0x39),
{
    unicode_categories::UnicodeCategories::is_number_decimal_digit(c)
}

/// Relies on `unicode_categories::UnicodeCategories::is_punctuation_connector`:
/// membership in the Unicode connector-punctuation (Pc) category; its
/// table's only entry below 0x80 is the low line.
#[verifier::external_body]
fn in_punctuation_connector(c: char) -> (r: bool)
    ensures
        r == punctuation_connector(c),
        ((c as u32) < 0x80) ==> r == (c as u32 == 0x5F),
{
    unicode_categories::UnicodeCategories::is_punctuation_connector(c)
}


/// A Unicode scalar value: any code point that is not a surrogate.
pub open spec fn is_unicode_scalar(v: u32) -> bool {
    v < 0xD800 || (0xE000 <= v && v <= 0x10FFFF)
}

/// Relies on `char::from_u32`: `Some` exactly for Unicode scalar values,
/// and the returned character casts back to the argument.
pub assume_specification[ char::from_u32 ](v: u32) -> (r: Option<char>)
    ensures
        r is Some <==> is_unicode_scalar(v),
        r is Some ==> r->0 as u32 == v,
;

// ---------------------------------------------------------------------------
// Character buffers and text.
// ---------------------------------------------------------------------------

/// Relies on `String`'s `FromIterator` over `char`: the collected string
/// holds exactly the characters of `v`, in order.
#[verifier::external_body]
pub fn chars_to_string(v: &Vec<char>) -> (r: String)
    ensures
        r@ == v@,
{
    v.iter().collect()
}

/// The characters of `s`, as a vector.
pub fn str_to_chars(s: &str) -> (r: Vec<char>)
    ensures
        r@ == s@,
{
    let n = s.unicode_len();
    let mut v: Vec<char> = Vec::new();
    let mut i: usize = 0;
    while i < n
        invariant
            i <= n,
            n == s@.len(),
            v@ == s@.take(i as int),
        decreases n - i,
    {
        v.push(s.get_char(i));
        i = i + 1;
        assert(v@ =~= s@.take(i as int));
    }
    assert(v@ =~= s@);
    v
}

/// Appends the characters of `s` to `out`.
pub fn push_str_chars(out: &mut Vec<char>, s: &str)
    ensures
        final(out)@ == old(out)@ + s@,
{
    let n = s.unicode_len();
    let mut i: usize = 0;
    while i < n
        invariant
            i <= n,
            n == s@.len(),
            out@ == old(out)@ + s@.take(i as int),
        decreases n - i,
    {
        out.push(s.get_char(i));
        i = i + 1;
        assert(out@ =~= old(out)@ + s@.take(i as int));
    }
    assert(out@ =~= old(out)@ + s@);
}

// ---------------------------------------------------------------------------
// The JSON5 character classes.
// ---------------------------------------------------------------------------

/// JSON5 white space: TAB through CR, space, NBSP, the two separator code
/// points, the byte-order mark, and the Unicode space-separator category.
pub open spec fn spec_is_json5_whitespace(c: char) -> bool {
    (0x0009 <= c as u32 && c as u32 <= 0x000D) || c as u32 == 0x0020 || c as u32 == 0x00A0
        || c as u32 == 0x2028 || c as u32 == 0x2029 || c as u32 == 0xFEFF || space_separator(c)
}

/// This is NOT the same as `char::is_whitespace`.
#[verifier::when_used_as_spec(spec_is_json5_whitespace)]
pub fn is_json5_whitespace(c: char) -> (r: bool)
    ensures
        r == spec_is_json5_whitespace(c),
{
    let u = c as u32;
    (0x0009 <= u && u <= 0x000D) || u == 0x0020 || u == 0x00A0 || u == 0x2028 || u == 0x2029
        || u == 0xFEFF || in_space_separator(c)
}

/// ECMAScript line terminators: LF, CR, and the line and paragraph
/// separator code points.
pub open spec fn spec_is_json5_line_terminator(c: char) -> bool {
    c as u32 == 0x000A || c as u32 == 0x000D || c as u32 == 0x2028 || c as u32 == 0x2029
}

#[verifier::when_used_as_spec(spec_is_json5_line_terminator)]
pub fn is_json5_line_terminator(c: char) -> (r: bool)
    ensures
        r == spec_is_json5_line_terminator(c),
{
    let u = c as u32;
    u == 0x000A || u == 0x000D || u == 0x2028 || u == 0x2029
}

/// ECMAScript identifier-start code points: `$`, `_`, and the letter
/// categories Lu, Ll, Lt, Lm, Lo, Nl.
pub open spec fn spec_is_json5_identifier_start(c: char) -> bool {
    c == '$' || c == '_' || letter_uppercase(c) || letter_lowercase(c) || letter_titlecase(c)
        || letter_modifier(c) || letter_other(c) || number_letter(c)
}

#[verifier::when_used_as_spec(spec_is_json5_identifier_start)]
pub fn is_json5_identifier_start(c: char) -> (r: bool)
    ensures
        r == spec_is_json5_identifier_start(c),
{
    c == '$' || c == '_' || in_letter_uppercase(c) || in_letter_lowercase(c)
        || in_letter_titlecase(c) || in_letter_modifier(c) || in_letter_other(c)
        || in_number_letter(c)
}

/// ECMAScript identifier-continue code points: identifier-start plus the
/// zero-width joiner and non-joiner and the categories Mn, Mc, Nd, Pc.
pub open spec fn spec_is_json5_identifier(c: char) -> bool {
    spec_is_json5_identifier_start(c) || c as u32 == 0x200C || c as u32 == 0x200D
        || mark_nonspacing(c) || mark_spacing_combining(c) || number_decimal_digit(c)
        || punctuation_connector(c)
}

#[verifier::when_used_as_spec(spec_is_json5_identifier)]
pub fn is_json5_identifier(c: char) -> (r: bool)
    ensures
        r == spec_is_json5_identifier(c),
{
    is_json5_identifier_start(c) || c as u32 == 0x200C || c as u32 == 0x200D
        || in_mark_nonspacing(c) || in_mark_spacing_combining(c) || in_number_decimal_digit(c)
        || in_punctuation_connector(c)
}

// ---------------------------------------------------------------------------
// The string escape table used by the serializer.
// ---------------------------------------------------------------------------

/// The escape sequence the serializer writes for `c` inside a string
/// delimited by `delimiter`, or `None` when `c` passes through verbatim.
/// Only the delimiter, the backslash, CR, LF, and the two separator code
/// points are ever escaped.
pub open spec fn spec_escape(delimiter: char, c: char) -> Option<Seq<char>> {
    if c == '"' && delimiter == '"' {
        Some(seq!['\\', '"'])
    } else if c == '\'' && delimiter == '\'' {
        Some(seq!['\\', '\''])
    } else if c == '\\' {
        Some(seq!['\\', '\\'])
    } else if c == '\n' {
        Some(seq!['\\', 'n'])
    } else if c == '\r' {
        Some(seq!['\\', 'r'])
    } else if c as u32 == 0x2028 {
        Some(seq!['\\', 'u', '2', '0', '2', '8'])
    } else if c as u32 == 0x2029 {
        Some(seq!['\\', 'u', '2', '0', '2', '9'])
    } else {
        None
    }
}

pub fn escape(delimeter: char, c: char) -> (r: Option<&'static str>)
    ensures
        r is Some <==> spec_escape(delimeter, c) is Some,
        r is Some ==> r->0@ == spec_escape(delimeter, c)->0,
{
    proof {
        reveal_strlit("\\\"");
        reveal_strlit("\\'");
        reveal_strlit("\\\\");
        reveal_strlit("\\n");
        reveal_strlit("\\r");
        reveal_strlit("\\u2028");
        reveal_strlit("\\u2029");
    }
    if c == '"' && delimeter == '"' {
        Some("\\\"")
    } else if c == '\'' && delimeter == '\'' {
        Some("\\'")
    } else if c == '\\' {
        Some("\\\\")
    } else if c == '\n' {
        Some("\\n")
    } else if c == '\r' {
        Some("\\r")
    } else if c as u32 == 0x2028 {
        Some("\\u2028")
    } else if c as u32 == 0x2029 {
        Some("\\u2029")
    } else {
        None
    }
}

} // verus!
