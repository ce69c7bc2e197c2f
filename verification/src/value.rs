//! The generic in-memory representation of a JSON5 document, and its
//! mathematical model.
//!
//! Numbers carry the widest lossless representation the lexer found:
//! unsigned or signed 128-bit integers, or a 64-bit float stored as its
//! IEEE 754 bit pattern (`Float` holds the bits, so that the grammar and
//! serializer logic on special values is ordinary integer logic).

use vstd::prelude::*;

verus! {

broadcast use vstd::std_specs::vec::axiom_vec_index_decreases;

/// A numeric literal's value: the widest lossless representation.
#[derive(Debug, Clone, Copy, PartialEq)]
pub enum NumberResult {
    U128(u128),
    I128(i128),
    /// A 64-bit IEEE 754 float, stored as its bit pattern.
    Float(u64),
}

/// A parsed JSON5 value.  Object member order is the order the members
/// appeared in the source text; a repeated key keeps the first position
/// and the last value.
#[derive(Debug, PartialEq)]
pub enum Value {
    Null,
    Bool(bool),
    Number(NumberResult),
    Str(String),
    Array(Vec<Value>),
    Object(Vec<(String, Value)>),
}

/// The mathematical model of a [`Value`]: strings are character
/// sequences, collections are sequences.
pub enum SpecValue {
    Null,
    Bool(bool),
    Number(NumberResult),
    Str(Seq<char>),
    Array(Seq<SpecValue>),
    Object(Seq<(Seq<char>, SpecValue)>),
}

/// Whether `sv` is the model of `v`: strings are their character
/// sequences, collections are the sequences of their members' models.
pub open spec fn value_rep(v: Value, sv: SpecValue) -> bool
    decreases v,
{
    match v {
        Value::Null => sv == SpecValue::Null,
        Value::Bool(b) => sv == SpecValue::Bool(b),
        Value::Number(n) => sv == SpecValue::Number(n),
        Value::Str(s) => sv == SpecValue::Str(s@),
        Value::Array(elems) => sv matches SpecValue::Array(es) && es.len() == elems.len() && (
        forall|i: int| 0 <= i < elems.len() ==> value_rep(elems[i], #[trigger] es[i])),
        Value::Object(members) => sv matches SpecValue::Object(ms) && ms.len() == members.len()
            && (forall|i: int|
            0 <= i < members.len() ==> (#[trigger] ms[i]).0 == members[i].0@ && value_rep(
                members[i].1,
                ms[i].1,
            )),
    }
}

/// Whether `svs` models `vs`, pointwise.
pub open spec fn vals_rep(vs: Seq<Value>, svs: Seq<SpecValue>) -> bool {
    svs.len() == vs.len() && (forall|i: int|
        0 <= i < vs.len() ==> value_rep(vs[i], #[trigger] svs[i]))
}

/// Whether `sms` models the members `ms`, pointwise.
pub open spec fn membs_rep(ms: Seq<(String, Value)>, sms: Seq<(Seq<char>, SpecValue)>) -> bool {
    sms.len() == ms.len() && (forall|i: int|
        0 <= i < ms.len() ==> #[trigger] sms[i].0 == ms[i].0@ && value_rep(ms[i].1, sms[i].1))
}


/// A value has at most one model.
pub proof fn lemma_value_rep_unique(v: &Value, sv1: SpecValue, sv2: SpecValue)
    requires
        value_rep(*v, sv1),
        value_rep(*v, sv2),
    ensures
        sv1 == sv2,
    decreases v,
{
    match v {
        Value::Array(elems) => {
            match (sv1, sv2) {
                (SpecValue::Array(es1), SpecValue::Array(es2)) => {
                    assert forall|i: int| 0 <= i < es1.len() implies #[trigger] es1[i]
                        == es2[i] by {
                        assert(value_rep(elems[i], es1[i]));
                        assert(value_rep(elems[i], es2[i]));
                        lemma_value_rep_unique(&elems[i], es1[i], es2[i]);
                    }
                    assert(es1 =~= es2);
                },
                _ => {},
            }
        },
        Value::Object(members) => {
            match (sv1, sv2) {
                (SpecValue::Object(ms1), SpecValue::Object(ms2)) => {
                    assert forall|i: int| 0 <= i < ms1.len() implies #[trigger] ms1[i]
                        == ms2[i] by {
                        assert(ms1[i].0 == members[i as int].0@ && value_rep(
                            members[i as int].1,
                            ms1[i].1,
                        ));
                        assert(ms2[i].0 == members[i as int].0@ && value_rep(
                            members[i as int].1,
                            ms2[i].1,
                        ));
                        lemma_value_rep_unique(&members[i as int].1, ms1[i].1, ms2[i].1);
                    }
                    assert(ms1 =~= ms2);
                },
                _ => {},
            }
        },
        _ => {},
    }
}

/// Every value has a model.
pub proof fn lemma_value_rep_exists(v: &Value)
    ensures
        exists|sv: SpecValue| value_rep(*v, sv),
    decreases v,
{
    match v {
        Value::Null => {
            assert(value_rep(*v, SpecValue::Null));
        },
        Value::Bool(b) => {
            assert(value_rep(*v, SpecValue::Bool(*b)));
        },
        Value::Number(n) => {
            assert(value_rep(*v, SpecValue::Number(*n)));
        },
        Value::Str(s) => {
            assert(value_rep(*v, SpecValue::Str(s@)));
        },
        Value::Array(elems) => {
            assert forall|i: int| 0 <= i < elems@.len() implies exists|sv: SpecValue|
                value_rep(#[trigger] elems@[i], sv) by {
                lemma_value_rep_exists(&elems[i]);
            }
            let es = Seq::new(
                elems@.len(),
                |i: int| choose|sv: SpecValue| value_rep(elems@[i], sv),
            );
            vstd::std_specs::vec::axiom_spec_len(elems);
            assert forall|i: int| 0 <= i < elems.len() implies value_rep(
                elems[i],
                #[trigger] es[i],
            ) by {
                let sv = choose|sv: SpecValue| value_rep(elems@[i], sv);
                assert(value_rep(elems@[i], sv));
            }
            assert(value_rep(*v, SpecValue::Array(es)));
        },
        Value::Object(members) => {
            assert forall|i: int| 0 <= i < members@.len() implies exists|sv: SpecValue|
                value_rep(#[trigger] members@[i].1, sv) by {
                lemma_value_rep_exists(&members[i].1);
            }
            let ms = Seq::new(
                members@.len(),
                |i: int|
                    (members@[i].0@, choose|sv: SpecValue| value_rep(members@[i].1, sv)),
            );
            vstd::std_specs::vec::axiom_spec_len(members);
            assert forall|i: int| 0 <= i < members.len() implies #[trigger] ms[i].0
                == members[i].0@ && value_rep(members[i].1, ms[i].1) by {
                let sv = choose|sv: SpecValue| value_rep(members@[i].1, sv);
                assert(value_rep(members@[i].1, sv));
            }
            assert(value_rep(*v, SpecValue::Object(ms)));
        },
    }
}

} // verus!
