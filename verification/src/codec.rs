//! Turning values of documents into values of cvars, and back.

use crate::document::{
    all_bools, all_integers, all_texts, decode_bool, decode_bool_list, decode_integer,
    decode_integer_list, decode_text, decode_text_list, encode_bool, encode_bool_list,
    encode_integer, encode_integer_list, encode_text, encode_text_list, encoded_bool,
    encoded_bool_list, encoded_integer, encoded_integer_list, encoded_text, encoded_text_list,
    is_bool_array, is_integer_array, is_text_array, value_kind, ValueKind,
};
use crate::value::{text_views, CVarType, CVarValue, ValueModel};
use toml_edit::Value;
use vstd::pervasive::unreached;
use vstd::prelude::*;

verus! {

/// The integers of an array of integer values, in order.
pub open spec fn integers_of(items: Seq<Value>) -> Seq<i64> {
    Seq::new(items.len(), |i: int| value_kind(items[i])->Integer_0)
}

/// The booleans of an array of boolean values, in order.
pub open spec fn bools_of(items: Seq<Value>) -> Seq<bool> {
    Seq::new(items.len(), |i: int| value_kind(items[i])->Boolean_0)
}

/// The strings of an array of string values, in order.
pub open spec fn texts_of(items: Seq<Value>) -> Seq<Seq<char>> {
    Seq::new(items.len(), |i: int| value_kind(items[i])->Text_0)
}

/// The cvar value of type `ty` that the document value `raw` stands for, if
/// it stands for one: a boolean for `Bool`, an integer for `Integer`, a string
/// for `Text`, and for a list type an array in which every value stands for
/// an item of the list.
pub open spec fn decoded(ty: CVarType, raw: Value) -> Option<ValueModel> {
    match (ty, value_kind(raw)) {
        (CVarType::Bool, ValueKind::Boolean(b)) => Some(ValueModel::Bool(b)),
        (CVarType::Integer, ValueKind::Integer(i)) => Some(ValueModel::Integer(i)),
        (CVarType::Text, ValueKind::Text(s)) => Some(ValueModel::Text(s)),
        (CVarType::IntegerList, ValueKind::Array(items)) => if all_integers(items) {
            Some(ValueModel::IntegerList(integers_of(items)))
        } else {
            None
        },
        (CVarType::BoolList, ValueKind::Array(items)) => if all_bools(items) {
            Some(ValueModel::BoolList(bools_of(items)))
        } else {
            None
        },
        (CVarType::TextList, ValueKind::Array(items)) => if all_texts(items) {
            Some(ValueModel::TextList(texts_of(items)))
        } else {
            None
        },
        _ => None,
    }
}

/// The document value `raw` stands for the cvar value `value`.
pub open spec fn encodes(raw: Value, value: ValueModel) -> bool {
    match value {
        ValueModel::Bool(b) => value_kind(raw) == ValueKind::Boolean(b),
        ValueModel::Integer(i) => value_kind(raw) == ValueKind::Integer(i),
        ValueModel::Text(s) => value_kind(raw) == ValueKind::Text(s),
        ValueModel::IntegerList(list) => value_kind(raw) is Array && is_integer_array(
            value_kind(raw)->Array_0,
            list,
        ),
        ValueModel::BoolList(list) => value_kind(raw) is Array && is_bool_array(
            value_kind(raw)->Array_0,
            list,
        ),
        ValueModel::TextList(list) => value_kind(raw) is Array && is_text_array(
            value_kind(raw)->Array_0,
            list,
        ),
    }
}

/// A value that was written into a document is read back as it was.
pub proof fn lemma_encoded_then_decoded(raw: Value, value: ValueModel)
    requires
        encodes(raw, value),
    ensures
        decoded(value.inner_type(), raw) == Some(value),
{
    match value {
        ValueModel::IntegerList(list) => {
            let items = value_kind(raw)->Array_0;
            assert(all_integers(items));
            assert(integers_of(items) =~= list);
        },
        ValueModel::BoolList(list) => {
            let items = value_kind(raw)->Array_0;
            assert(all_bools(items));
            assert(bools_of(items) =~= list);
        },
        ValueModel::TextList(list) => {
            let items = value_kind(raw)->Array_0;
            assert(all_texts(items));
            assert(texts_of(items) =~= list);
        },
        _ => {},
    }
}

/// A value that was read from a document has the type that was asked for.
pub proof fn lemma_decoded_type(ty: CVarType, raw: Value)
    requires
        decoded(ty, raw) is Some,
    ensures
        decoded(ty, raw).unwrap().inner_type() == ty,
{
}

/// Reads a cvar value of type `ty` from a document value. On failure the
/// error says what the deserializer found.
pub fn decode(ty: CVarType, raw: &Value) -> (r: Result<CVarValue, String>)
    ensures
        match r {
            Ok(value) => decoded(ty, *raw) == Some(value@),
            Err(_) => decoded(ty, *raw) is None,
        },
{
    match ty {
        CVarType::Bool => match decode_bool(raw) {
            Ok(b) => Ok(CVarValue::Bool(b)),
            Err(detail) => Err(detail),
        },
        CVarType::Integer => match decode_integer(raw) {
            Ok(i) => Ok(CVarValue::Integer(i)),
            Err(detail) => Err(detail),
        },
        CVarType::Text => match decode_text(raw) {
            Ok(s) => Ok(CVarValue::Text(s)),
            Err(detail) => Err(detail),
        },
        CVarType::IntegerList => match decode_integer_list(raw) {
            Ok(list) => {
                proof {
                    let items = value_kind(*raw)->Array_0;
                    assert(all_integers(items));
                    assert(integers_of(items) =~= list@);
                }
                Ok(CVarValue::IntegerList(list))
            },
            Err(detail) => Err(detail),
        },
        CVarType::BoolList => match decode_bool_list(raw) {
            Ok(list) => {
                proof {
                    let items = value_kind(*raw)->Array_0;
                    assert(all_bools(items));
                    assert(bools_of(items) =~= list@);
                }
                Ok(CVarValue::BoolList(list))
            },
            Err(detail) => Err(detail),
        },
        CVarType::TextList => match decode_text_list(raw) {
            Ok(list) => {
                proof {
                    let items = value_kind(*raw)->Array_0;
                    assert(all_texts(items));
                    assert(texts_of(items) =~= text_views(list@));
                }
                Ok(CVarValue::TextList(list))
            },
            Err(detail) => Err(detail),
        },
    }
}

/// The document value that the cvar value `value` is written as.
pub open spec fn encoded(value: ValueModel) -> Value {
    match value {
        ValueModel::Bool(b) => encoded_bool(b),
        ValueModel::Integer(i) => encoded_integer(i),
        ValueModel::Text(s) => encoded_text(s),
        ValueModel::IntegerList(list) => encoded_integer_list(list),
        ValueModel::BoolList(list) => encoded_bool_list(list),
        ValueModel::TextList(list) => encoded_text_list(list),
    }
}

/// Writes a cvar value as a document value: always the same document value
/// for the same cvar value, and one that stands for it.
pub fn encode(value: &CVarValue) -> (raw: Value)
    ensures
        raw == encoded(value@),
        encodes(raw, value@),
{
    let encoded = match value {
        CVarValue::Bool(b) => encode_bool(*b),
        CVarValue::Integer(i) => encode_integer(*i),
        CVarValue::Text(s) => encode_text(s.as_str()),
        CVarValue::IntegerList(list) => encode_integer_list(list),
        CVarValue::BoolList(list) => encode_bool_list(list),
        CVarValue::TextList(list) => encode_text_list(list),
    };
    match encoded {
        Some(raw) => raw,
        None => unreached(),
    }
}

} // verus!
