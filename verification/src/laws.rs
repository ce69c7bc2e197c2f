//! Round-trip laws, proved for the atomic values: parsing the
//! serialization of `null`, a boolean, an unsigned or negative signed
//! integer, or one of the four special float literals yields the value
//! back, and reserializing what was parsed reproduces the text.

use vstd::prelude::*;

use crate::comments::Comments;
use crate::de::{
    expect_chars_spec, from_str_spec, parse_bool_spec, parse_null_spec, parse_number_spec,
    parse_value_spec, skip_ws_spec, Scan,
};
use crate::error::ErrorCode;
use crate::ser::{float_text, ser_document, ser_value};
use crate::value::{NumberResult, SpecValue};

verus! {

/// The atoms the round-trip law below covers: null, the booleans,
/// the unsigned and the negative signed integers, and the four special
/// float literals.
pub open spec fn is_round_trip_atom(sv: SpecValue) -> bool {
    ||| sv == SpecValue::Null
    ||| sv matches SpecValue::Bool(_)
    ||| sv matches SpecValue::Number(NumberResult::U128(_))
    ||| (sv matches SpecValue::Number(NumberResult::I128(i)) && i < 0)
    ||| sv == SpecValue::Number(NumberResult::Float(0x7FF0_0000_0000_0000u64))
    ||| sv == SpecValue::Number(NumberResult::Float(0xFFF0_0000_0000_0000u64))
    ||| sv == SpecValue::Number(NumberResult::Float(0x7FF8_0000_0000_0000u64))
    ||| sv == SpecValue::Number(NumberResult::Float(0xFFF8_0000_0000_0000u64))
}

/// A run of decimal digits is one extent.
proof fn lemma_extent_digits(t: Seq<char>, j: int)
    requires
        0 <= j <= t.len(),
        forall|k: int| j <= k < t.len() ==> crate::numbers::spec_is_dec_digit(#[trigger] t[k]),
    ensures
        crate::de::extent_end(t, j) == t.len(),
    decreases t.len() - j,
{
    if j < t.len() {
        lemma_extent_digits(t, j + 1);
    }
}

/// Expected characters that are present verbatim are consumed whole.
proof fn lemma_expect_chars_verbatim(s: Seq<char>, i: int, w: Seq<char>, eof: ErrorCode, un: ErrorCode)
    requires
        0 <= i,
        i + w.len() <= s.len(),
        s.subrange(i, i + w.len()) == w,
    ensures
        expect_chars_spec(s, i, w, eof, un) == Scan::<()>::Done((), i + w.len()),
    decreases w.len(),
{
    if w.len() > 0 {
        assert(w[0] == s.subrange(i, i + w.len())[0]);
        assert(s[i] == w[0]);
        assert(s.subrange(i + 1, i + 1 + w.drop_first().len()) =~= w.drop_first());
        lemma_expect_chars_verbatim(s, i + 1, w.drop_first(), eof, un);
    }
}

/// No character of the seven atomic literals is JSON5 white space or a
/// comment opener, so skipping white space at their start is a no-op.
proof fn lemma_skip_ws_noop(s: Seq<char>, i: int)
    requires
        0 <= i <= s.len(),
        i < s.len() ==> !crate::chars::spec_is_json5_whitespace(s[i]) && s[i] != '/',
    ensures
        skip_ws_spec(s, i) == Scan::<()>::Done((), i),
{
}

/// The decimal text of an unsigned value parses back to the value,
/// with the whole text consumed.
#[verifier::rlimit(100)]
proof fn lemma_u128_text_parses(u: u128)
    ensures
        from_str_spec(crate::numbers::dec_str(u as nat)) == Scan::<SpecValue>::Done(
            SpecValue::Number(NumberResult::U128(u)),
            crate::numbers::dec_str(u as nat).len() as int,
        ),
{
    let sv = SpecValue::Number(NumberResult::U128(u));
    let t = crate::numbers::dec_str(u as nat);
    crate::numbers::lemma_dec_str_digits(u as nat);
    assert(!crate::chars::spec_is_json5_whitespace(t[0]));
    lemma_skip_ws_noop(t, 0);
    if u == 0 {
        assert(t =~= seq![crate::numbers::char_of_digit(0)]);
        assert(t[0] == '0');
        assert(parse_number_spec(t, 0) == Scan::<(int, NumberResult)>::Done(
            (0int, NumberResult::U128(0)),
            1,
        ));
        assert(parse_value_spec(t, 0) == Scan::<SpecValue>::Done(sv, 1));
        lemma_skip_ws_noop(t, 1);
    } else {
        assert(t[0] != '0');
        lemma_extent_digits(t, 0);
        assert(t.subrange(0, t.len() as int) =~= t);
        assert forall|k: int| 0 <= k < t.len() implies !(#[trigger] t[k] == '.' || t[k] == 'e'
            || t[k] == 'E') by {
            assert(crate::numbers::spec_is_dec_digit(t[k]));
        }
        assert(!crate::de::has_float_char(t));
        crate::numbers::lemma_dec_u128_inverse(u);
        assert(crate::de::parse_decimal_spec(t, false, 0, t.len() as int)
            == Scan::<NumberResult>::Done(NumberResult::U128(u), t.len() as int));
        assert(parse_number_spec(t, 0) == Scan::<(int, NumberResult)>::Done(
            (0int, NumberResult::U128(u)),
            t.len() as int,
        ));
        assert(parse_value_spec(t, 0) == Scan::<SpecValue>::Done(sv, t.len() as int));
        lemma_skip_ws_noop(t, t.len() as int);
    }
}

/// The signed decimal text of a negative value parses back to the
/// value, with the whole text consumed.
#[verifier::rlimit(100)]
proof fn lemma_neg_i128_text_parses(i: i128)
    requires
        i < 0,
    ensures
        from_str_spec(crate::numbers::dec_str_signed(i as int)) == Scan::<SpecValue>::Done(
            SpecValue::Number(NumberResult::I128(i)),
            crate::numbers::dec_str_signed(i as int).len() as int,
        ),
{
    let sv = SpecValue::Number(NumberResult::I128(i));
    let mag = (-(i as int)) as nat;
    let t = crate::numbers::dec_str_signed(i as int);
    let d = crate::numbers::dec_str(mag);
    crate::numbers::lemma_dec_str_digits(mag);
    assert(t =~= seq!['-'] + d);
    assert(t[0] == '-');
    assert(!crate::chars::spec_is_json5_whitespace(t[0]));
    lemma_skip_ws_noop(t, 0);
    assert(t[1] == d[0]);
    assert(t[1] != '0');
    assert(crate::numbers::spec_is_dec_digit(t[1]));
    assert forall|k: int| 1 <= k < t.len() implies crate::numbers::spec_is_dec_digit(
        #[trigger] t[k],
    ) by {
        assert(t[k] == d[k - 1]);
    }
    lemma_extent_digits(t, 1);
    assert(t.subrange(0, t.len() as int) =~= t);
    assert forall|k: int| 0 <= k < t.len() implies !(#[trigger] t[k] == '.' || t[k] == 'e'
        || t[k] == 'E') by {
        if k >= 1 {
            assert(crate::numbers::spec_is_dec_digit(t[k]));
        }
    }
    assert(!crate::de::has_float_char(t));
    crate::numbers::lemma_dec_i128_neg_inverse(i);
    assert(crate::de::parse_decimal_spec(t, true, 0, t.len() as int)
        == Scan::<NumberResult>::Done(NumberResult::I128(i), t.len() as int));
    assert(parse_number_spec(t, 0) == Scan::<(int, NumberResult)>::Done(
        (0int, NumberResult::I128(i)),
        t.len() as int,
    ));
    assert(parse_value_spec(t, 0) == Scan::<SpecValue>::Done(sv, t.len() as int));
    lemma_skip_ws_noop(t, t.len() as int);
}

/// Round trip for the atomic values: parsing the serialization of
/// `null`, a boolean, or one of the four special float literals yields
/// exactly the value back, with the whole text consumed.
#[verifier::rlimit(100)]
pub proof fn lemma_atom_round_trip(sv: SpecValue)
    requires
        is_round_trip_atom(sv),
    ensures
        from_str_spec(ser_document(sv, Option::<&Comments>::None)) matches Scan::Done(v, _) && v
            == sv,
{
    let cm = Option::<&Comments>::None;
    let body = ser_value(sv, Seq::empty(), cm, Seq::empty());
    assert(ser_document(sv, cm) =~= body);
    if sv == SpecValue::Null {
        reveal_strlit("null");
        let t = "null"@;
        assert(body == t);
        lemma_skip_ws_noop(t, 0);
        assert(t.subrange(0, 4) =~= t);
        lemma_expect_chars_verbatim(t, 0, t, ErrorCode::EofParsingNull, ErrorCode::ExpectedNull);
        assert(parse_null_spec(t, 0) == Scan::<int>::Done(0, 4));
        assert(parse_value_spec(t, 0) == Scan::<SpecValue>::Done(SpecValue::Null, 4));
        lemma_skip_ws_noop(t, 4);
        assert(from_str_spec(t) == Scan::<SpecValue>::Done(SpecValue::Null, 4));
    } else if sv matches SpecValue::Number(NumberResult::U128(u0)) {
        lemma_u128_text_parses(sv.arrow_Number_0().arrow_U128_0());
    } else if sv matches SpecValue::Number(NumberResult::I128(i0)) {
        lemma_neg_i128_text_parses(sv.arrow_Number_0().arrow_I128_0());
    } else if sv matches SpecValue::Bool(bv) {
        let b = sv.arrow_Bool_0();
        if b {
            reveal_strlit("true");
            reveal_strlit("rue");
            let t = "true"@;
            assert(body == t);
            lemma_skip_ws_noop(t, 0);
            assert(t[0] == 't');
            assert(t.subrange(1, 4) =~= "rue"@);
            lemma_expect_chars_verbatim(
                t,
                1,
                "rue"@,
                ErrorCode::EofParsingBool,
                ErrorCode::ExpectedBool,
            );
            assert(parse_bool_spec(t, 0) == Scan::<(int, bool)>::Done((0int, true), 4));
            assert(parse_value_spec(t, 0) == Scan::<SpecValue>::Done(SpecValue::Bool(true), 4));
            lemma_skip_ws_noop(t, 4);
        } else {
            reveal_strlit("false");
            reveal_strlit("alse");
            let t = "false"@;
            assert(body == t);
            lemma_skip_ws_noop(t, 0);
            assert(t[0] == 'f');
            assert(t.subrange(1, 5) =~= "alse"@);
            lemma_expect_chars_verbatim(
                t,
                1,
                "alse"@,
                ErrorCode::EofParsingBool,
                ErrorCode::ExpectedBool,
            );
            assert(parse_bool_spec(t, 0) == Scan::<(int, bool)>::Done((0int, false), 5));
            assert(parse_value_spec(t, 0) == Scan::<SpecValue>::Done(SpecValue::Bool(false), 5));
            lemma_skip_ws_noop(t, 5);
        }
    } else {
        let bits = sv.arrow_Number_0().arrow_Float_0();
        lemma_special_float_bits(bits);
        if bits == 0x7FF0_0000_0000_0000u64 {
            reveal_strlit("Infinity");
            reveal_strlit("nfinity");
            let t = "Infinity"@;
            assert(body == t);
            lemma_skip_ws_noop(t, 0);
            assert(t[0] == 'I');
            assert(t.subrange(1, 8) =~= "nfinity"@);
            lemma_expect_chars_verbatim(
                t,
                1,
                "nfinity"@,
                ErrorCode::EofParsingNumber,
                ErrorCode::ExpectedNumber,
            );
            assert(parse_number_spec(t, 0) == Scan::<(int, NumberResult)>::Done(
                (0int, NumberResult::Float(0x7FF0_0000_0000_0000u64)),
                8,
            ));
            assert(parse_value_spec(t, 0) == Scan::<SpecValue>::Done(sv, 8));
            lemma_skip_ws_noop(t, 8);
        } else if bits == 0xFFF0_0000_0000_0000u64 {
            reveal_strlit("-Infinity");
            reveal_strlit("nfinity");
            let t = "-Infinity"@;
            assert(body == t);
            lemma_skip_ws_noop(t, 0);
            assert(t[0] == '-');
            assert(t[1] == 'I');
            assert(t.subrange(2, 9) =~= "nfinity"@);
            lemma_expect_chars_verbatim(
                t,
                2,
                "nfinity"@,
                ErrorCode::EofParsingNumber,
                ErrorCode::ExpectedNumber,
            );
            assert(parse_number_spec(t, 0) == Scan::<(int, NumberResult)>::Done(
                (0int, NumberResult::Float(0xFFF0_0000_0000_0000u64)),
                9,
            ));
            assert(parse_value_spec(t, 0) == Scan::<SpecValue>::Done(sv, 9));
            lemma_skip_ws_noop(t, 9);
        } else if bits == 0x7FF8_0000_0000_0000u64 {
            reveal_strlit("NaN");
            reveal_strlit("aN");
            let t = "NaN"@;
            assert(body == t);
            lemma_skip_ws_noop(t, 0);
            assert(t[0] == 'N');
            assert(t.subrange(1, 3) =~= "aN"@);
            lemma_expect_chars_verbatim(
                t,
                1,
                "aN"@,
                ErrorCode::EofParsingNumber,
                ErrorCode::ExpectedNumber,
            );
            assert(parse_number_spec(t, 0) == Scan::<(int, NumberResult)>::Done(
                (0int, NumberResult::Float(0x7FF8_0000_0000_0000u64)),
                3,
            ));
            assert(parse_value_spec(t, 0) == Scan::<SpecValue>::Done(sv, 3));
            lemma_skip_ws_noop(t, 3);
        } else {
            reveal_strlit("-NaN");
            reveal_strlit("aN");
            let t = "-NaN"@;
            assert(body == t);
            lemma_skip_ws_noop(t, 0);
            assert(t[0] == '-');
            assert(t[1] == 'N');
            assert(t.subrange(2, 4) =~= "aN"@);
            lemma_expect_chars_verbatim(
                t,
                2,
                "aN"@,
                ErrorCode::EofParsingNumber,
                ErrorCode::ExpectedNumber,
            );
            assert(parse_number_spec(t, 0) == Scan::<(int, NumberResult)>::Done(
                (0int, NumberResult::Float(0xFFF8_0000_0000_0000u64)),
                4,
            ));
            assert(parse_value_spec(t, 0) == Scan::<SpecValue>::Done(sv, 4));
            lemma_skip_ws_noop(t, 4);
        }
    }
}

/// The four special bit patterns print as the four keywords.
proof fn lemma_special_float_bits(bits: u64)
    requires
        bits == 0x7FF0_0000_0000_0000u64 || bits == 0xFFF0_0000_0000_0000u64 || bits
            == 0x7FF8_0000_0000_0000u64 || bits == 0xFFF8_0000_0000_0000u64,
    ensures
        bits == 0x7FF0_0000_0000_0000u64 ==> float_text(bits) == "Infinity"@,
        bits == 0xFFF0_0000_0000_0000u64 ==> float_text(bits) == "-Infinity"@,
        bits == 0x7FF8_0000_0000_0000u64 ==> float_text(bits) == "NaN"@,
        bits == 0xFFF8_0000_0000_0000u64 ==> float_text(bits) == "-NaN"@,
{
    assert(0x7FF0_0000_0000_0000u64 & 0x7FF0_0000_0000_0000u64 == 0x7FF0_0000_0000_0000u64
        && 0x7FF0_0000_0000_0000u64 & 0x000F_FFFF_FFFF_FFFFu64 == 0u64
        && 0x7FF0_0000_0000_0000u64 & 0x8000_0000_0000_0000u64 == 0u64) by (bit_vector);
    assert(0xFFF0_0000_0000_0000u64 & 0x7FF0_0000_0000_0000u64 == 0x7FF0_0000_0000_0000u64
        && 0xFFF0_0000_0000_0000u64 & 0x000F_FFFF_FFFF_FFFFu64 == 0u64
        && 0xFFF0_0000_0000_0000u64 & 0x8000_0000_0000_0000u64 != 0u64) by (bit_vector);
    assert(0x7FF8_0000_0000_0000u64 & 0x7FF0_0000_0000_0000u64 == 0x7FF0_0000_0000_0000u64
        && 0x7FF8_0000_0000_0000u64 & 0x000F_FFFF_FFFF_FFFFu64 != 0u64
        && 0x7FF8_0000_0000_0000u64 & 0x8000_0000_0000_0000u64 == 0u64) by (bit_vector);
    assert(0xFFF8_0000_0000_0000u64 & 0x7FF0_0000_0000_0000u64 == 0x7FF0_0000_0000_0000u64
        && 0xFFF8_0000_0000_0000u64 & 0x000F_FFFF_FFFF_FFFFu64 != 0u64
        && 0xFFF8_0000_0000_0000u64 & 0x8000_0000_0000_0000u64 != 0u64) by (bit_vector);
}

/// Idempotent reserialization for the atomic values: serializing what
/// was parsed back from a serialization reproduces the text.
pub proof fn lemma_atom_reserialize(sv: SpecValue)
    requires
        is_round_trip_atom(sv),
    ensures
        from_str_spec(ser_document(sv, Option::<&Comments>::None)) matches Scan::Done(v, _)
            && ser_document(v, Option::<&Comments>::None) == ser_document(
            sv,
            Option::<&Comments>::None,
        ),
{
    lemma_atom_round_trip(sv);
}

} // verus!
