//! TOML documents, as `toml_edit` parses and edits them.
//!
//! The library reads and writes documents through the functions of this
//! module. Their contracts are taken from `toml_edit`'s source and are not
//! proved here.

use crate::value::text_views;
use serde::de::IntoDeserializer;
use serde::{Deserialize, Serialize};
use std::str::FromStr;
use toml_edit::ser::ValueSerializer;
use toml_edit::{DocumentMut, ImDocument, Item, Table, TomlError, Value};
use vstd::prelude::*;

verus! {

#[verifier::external_type_specification]
#[verifier::external_body]
pub struct ExTable(Table);

#[verifier::external_type_specification]
#[verifier::external_body]
pub struct ExItem(Item);

#[verifier::external_type_specification]
#[verifier::external_body]
pub struct ExValue(Value);

#[verifier::external_type_specification]
#[verifier::external_body]
pub struct ExDocumentMut(DocumentMut);

#[verifier::external_type_specification]
#[verifier::external_body]
#[verifier::reject_recursive_types(S)]
pub struct ExImDocument<S>(ImDocument<S>);

#[verifier::external_type_specification]
#[verifier::external_body]
pub struct ExTomlError(TomlError);

/// What an item of a document is.
pub enum ItemKind {
    /// Nothing: a key whose item was taken away.
    Empty,
    /// A value: a scalar, an array or an inline table.
    Value(Value),
    /// A table with a header of its own.
    Table(Table),
    /// An array of tables.
    ArrayOfTables,
}

/// What a value of a document is.
pub enum ValueKind {
    /// A string.
    Text(Seq<char>),
    /// An integer.
    Integer(i64),
    /// `true` or `false`.
    Boolean(bool),
    /// An array, with its values in order.
    Array(Seq<Value>),
    /// A float, a date or an inline table.
    Other,
}

/// The item stored under each key of a table.
pub uninterp spec fn table_items(t: Table) -> Map<Seq<char>, Item>;

/// The keys of a table in their order, which is the order in which they
/// were entered.
pub uninterp spec fn table_keys(t: Table) -> Seq<Seq<char>>;

/// What an item is.
pub uninterp spec fn item_kind(i: Item) -> ItemKind;

/// What a value is.
pub uninterp spec fn value_kind(v: Value) -> ValueKind;

/// The root item of an editable document.
pub uninterp spec fn document_root(d: DocumentMut) -> Item;

/// The root item of a parsed document.
pub uninterp spec fn parsed_root(d: ImDocument<String>) -> Item;

/// The text that an editable document is written out as.
pub uninterp spec fn document_text(d: DocumentMut) -> Seq<char>;

/// What parsing a text as a document gives.
pub uninterp spec fn parsed_document(text: Seq<char>) -> Result<ImDocument<String>, TomlError>;

/// What parsing a text as a single value gives.
pub uninterp spec fn parsed_value(text: Seq<char>) -> Result<Value, TomlError>;

/// The message of a parse error.
pub uninterp spec fn toml_error_text(e: TomlError) -> Seq<char>;

/// The value that `true` or `false` is serialized as.
pub uninterp spec fn encoded_bool(b: bool) -> Value;

/// The value that an integer is serialized as.
pub uninterp spec fn encoded_integer(i: i64) -> Value;

/// The value that a string is serialized as.
pub uninterp spec fn encoded_text(s: Seq<char>) -> Value;

/// The value that a list of integers is serialized as.
pub uninterp spec fn encoded_integer_list(list: Seq<i64>) -> Value;

/// The value that a list of booleans is serialized as.
pub uninterp spec fn encoded_bool_list(list: Seq<bool>) -> Value;

/// The value that a list of strings is serialized as.
pub uninterp spec fn encoded_text_list(list: Seq<Seq<char>>) -> Value;

/// The item that is the value `v`, as it is made for storing.
pub uninterp spec fn value_item(v: Value) -> Item;

/// The item that a lookup of `key` in `t` finds: the one stored under `key`,
/// unless it is empty.
pub open spec fn visible(t: Table, key: Seq<char>) -> Option<Item> {
    if table_items(t).contains_key(key) && !(item_kind(table_items(t)[key]) is Empty) {
        Some(table_items(t)[key])
    } else {
        None
    }
}

/// The item at the path `p` below a table that holds `items`: every segment
/// but the last names a table, and the last one names the item. Empty items
/// count as missing.
pub open spec fn item_below(items: Map<Seq<char>, Item>, p: Seq<Seq<char>>) -> Option<Item>
    decreases p.len(),
{
    if p.len() == 0 || !items.contains_key(p[0]) || item_kind(items[p[0]]) is Empty {
        None
    } else if p.len() == 1 {
        Some(items[p[0]])
    } else {
        match item_kind(items[p[0]]) {
            ItemKind::Table(sub) => item_below(table_items(sub), p.drop_first()),
            _ => None,
        }
    }
}

/// The item at the path `p` below the table `t`.
pub open spec fn item_at(t: Table, p: Seq<Seq<char>>) -> Option<Item> {
    item_below(table_items(t), p)
}

/// What a table holds: the item under each key, and the keys in order.
pub struct TableModel {
    /// The item stored under each key.
    pub items: Map<Seq<char>, Item>,
    /// The keys in the order in which they were entered.
    pub keys: Seq<Seq<char>>,
}

/// What the table `t` holds.
pub open spec fn model_of(t: Table) -> TableModel {
    TableModel { items: table_items(t), keys: table_keys(t) }
}

/// What a table without a key holds.
pub open spec fn empty_model() -> TableModel {
    TableModel { items: Map::empty(), keys: Seq::empty() }
}

/// A table without a key.
pub open spec fn is_empty_table(t: Table) -> bool {
    table_items(t).dom() == Set::<Seq<char>>::empty() && table_keys(t).len() == 0
}

/// An integer array holds integers only, and `list` holds them in order.
pub open spec fn is_integer_array(items: Seq<Value>, list: Seq<i64>) -> bool {
    &&& items.len() == list.len()
    &&& forall|i: int| 0 <= i < items.len() ==> value_kind(#[trigger] items[i]) == ValueKind::Integer(list[i])
}

/// Every value of the array is an integer.
pub open spec fn all_integers(items: Seq<Value>) -> bool {
    forall|i: int| 0 <= i < items.len() ==> value_kind(#[trigger] items[i]) is Integer
}

/// A boolean array holds booleans only, and `list` holds them in order.
pub open spec fn is_bool_array(items: Seq<Value>, list: Seq<bool>) -> bool {
    &&& items.len() == list.len()
    &&& forall|i: int| 0 <= i < items.len() ==> value_kind(#[trigger] items[i]) == ValueKind::Boolean(list[i])
}

/// Every value of the array is a boolean.
pub open spec fn all_bools(items: Seq<Value>) -> bool {
    forall|i: int| 0 <= i < items.len() ==> value_kind(#[trigger] items[i]) is Boolean
}

/// A string array holds strings only, and `list` holds them in order.
pub open spec fn is_text_array(items: Seq<Value>, list: Seq<Seq<char>>) -> bool {
    &&& items.len() == list.len()
    &&& forall|i: int| 0 <= i < items.len() ==> value_kind(#[trigger] items[i]) == ValueKind::Text(list[i])
}

/// Every value of the array is a string.
pub open spec fn all_texts(items: Seq<Value>) -> bool {
    forall|i: int| 0 <= i < items.len() ==> value_kind(#[trigger] items[i]) is Text
}

/// `ImDocument::as_item`: the root item of a parsed document.
#[verifier::external_body]
pub(crate) fn parsed_document_item(doc: &ImDocument<String>) -> (item: &Item)
    ensures
        *item == parsed_root(*doc),
{
    doc.as_item()
}

/// `Item::as_table`: the table, where the item is one.
#[verifier::external_body]
pub(crate) fn item_as_table(item: &Item) -> (r: Option<&Table>)
    ensures
        match r {
            Some(table) => item_kind(*item) == ItemKind::Table(*table),
            None => !(item_kind(*item) is Table),
        },
{
    item.as_table()
}

/// `Item::as_value`: the value, where the item is one.
#[verifier::external_body]
pub(crate) fn item_as_value(item: &Item) -> (r: Option<&Value>)
    ensures
        match r {
            Some(value) => item_kind(*item) == ItemKind::Value(*value),
            None => !(item_kind(*item) is Value),
        },
{
    item.as_value()
}

/// `Table::get_key_value`: the item stored under `key`, unless there is none
/// or it is empty.
#[verifier::external_body]
pub(crate) fn table_get<'a>(table: &'a Table, key: &str) -> (r: Option<&'a Item>)
    ensures
        match r {
            Some(item) => visible(*table, key@) == Some(*item),
            None => visible(*table, key@) is None,
        },
{
    table.get_key_value(key).map(|(_, item)| item)
}

/// `ImDocument::clone`: a document equal to the given one.
#[verifier::external_body]
pub(crate) fn parsed_document_clone(doc: &ImDocument<String>) -> (copy: ImDocument<String>)
    ensures
        copy == *doc,
{
    doc.clone()
}

/// `Item::clone`: an item equal to the given one.
#[verifier::external_body]
pub(crate) fn item_clone(item: &Item) -> (copy: Item)
    ensures
        copy == *item,
{
    item.clone()
}

/// `Value::clone`: a value equal to the given one.
#[verifier::external_body]
pub(crate) fn value_clone(value: &Value) -> (copy: Value)
    ensures
        copy == *value,
{
    value.clone()
}

/// `bool::deserialize` from a value, through `toml_edit`'s deserializer:
/// succeeds on a boolean and on nothing else. The error is the debug text
/// of the deserializer's error.
#[verifier::external_body]
pub(crate) fn decode_bool(raw: &Value) -> (r: Result<bool, String>)
    ensures
        match r {
            Ok(b) => value_kind(*raw) == ValueKind::Boolean(b),
            Err(_) => !(value_kind(*raw) is Boolean),
        },
{
    bool::deserialize(raw.clone().into_deserializer()).map_err(|e| format!("{e:?}"))
}

/// `i64::deserialize` from a value, through `toml_edit`'s deserializer:
/// succeeds on an integer and on nothing else. The error is the debug text
/// of the deserializer's error.
#[verifier::external_body]
pub(crate) fn decode_integer(raw: &Value) -> (r: Result<i64, String>)
    ensures
        match r {
            Ok(i) => value_kind(*raw) == ValueKind::Integer(i),
            Err(_) => !(value_kind(*raw) is Integer),
        },
{
    i64::deserialize(raw.clone().into_deserializer()).map_err(|e| format!("{e:?}"))
}

/// `String::deserialize` from a value, through `toml_edit`'s deserializer:
/// succeeds on a string and on nothing else. The error is the debug text
/// of the deserializer's error.
#[verifier::external_body]
pub(crate) fn decode_text(raw: &Value) -> (r: Result<String, String>)
    ensures
        match r {
            Ok(s) => value_kind(*raw) == ValueKind::Text(s@),
            Err(_) => !(value_kind(*raw) is Text),
        },
{
    String::deserialize(raw.clone().into_deserializer()).map_err(|e| format!("{e:?}"))
}

/// `Vec::<i64>::deserialize` from a value, through `toml_edit`'s
/// deserializer: succeeds on an array that holds integers only, and on
/// nothing else. The error is the debug text of the deserializer's error.
#[verifier::external_body]
pub(crate) fn decode_integer_list(raw: &Value) -> (r: Result<Vec<i64>, String>)
    ensures
        match r {
            Ok(list) => value_kind(*raw) is Array && is_integer_array(
                value_kind(*raw)->Array_0,
                list@,
            ),
            Err(_) => !(value_kind(*raw) is Array && all_integers(value_kind(*raw)->Array_0)),
        },
{
    Vec::<i64>::deserialize(raw.clone().into_deserializer()).map_err(|e| format!("{e:?}"))
}

/// `Vec::<bool>::deserialize` on the value, through the value's own
/// deserializer: succeeds on an array that holds booleans only, and on
/// nothing else. The error is the debug text of the deserializer's error.
#[verifier::external_body]
pub(crate) fn decode_bool_list(raw: &Value) -> (r: Result<Vec<bool>, String>)
    ensures
        match r {
            Ok(list) => value_kind(*raw) is Array && is_bool_array(
                value_kind(*raw)->Array_0,
                list@,
            ),
            Err(_) => !(value_kind(*raw) is Array && all_bools(value_kind(*raw)->Array_0)),
        },
{
    Vec::<bool>::deserialize(raw.clone().into_deserializer()).map_err(|e| format!("{e:?}"))
}

/// `Vec::<String>::deserialize` on the value, through the value's own
/// deserializer: succeeds on an array that holds strings only, and on
/// nothing else. The error is the debug text of the deserializer's error.
#[verifier::external_body]
pub(crate) fn decode_text_list(raw: &Value) -> (r: Result<Vec<String>, String>)
    ensures
        match r {
            Ok(list) => value_kind(*raw) is Array && is_text_array(
                value_kind(*raw)->Array_0,
                text_views(list@),
            ),
            Err(_) => !(value_kind(*raw) is Array && all_texts(value_kind(*raw)->Array_0)),
        },
{
    Vec::<String>::deserialize(raw.clone().into_deserializer()).map_err(|e| format!("{e:?}"))
}

/// `bool::serialize` with `ValueSerializer`: always the same boolean value
/// for the same input.
#[verifier::external_body]
pub(crate) fn encode_bool(b: bool) -> (r: Option<Value>)
    ensures
        r == Some(encoded_bool(b)),
        value_kind(r->0) == ValueKind::Boolean(b),
{
    b.serialize(ValueSerializer::new()).ok()
}

/// `i64::serialize` with `ValueSerializer`: always the same integer value
/// for the same input.
#[verifier::external_body]
pub(crate) fn encode_integer(i: i64) -> (r: Option<Value>)
    ensures
        r == Some(encoded_integer(i)),
        value_kind(r->0) == ValueKind::Integer(i),
{
    i.serialize(ValueSerializer::new()).ok()
}

/// `str::serialize` with `ValueSerializer`: always the same string value for
/// the same input.
#[verifier::external_body]
pub(crate) fn encode_text(s: &str) -> (r: Option<Value>)
    ensures
        r == Some(encoded_text(s@)),
        value_kind(r->0) == ValueKind::Text(s@),
{
    s.serialize(ValueSerializer::new()).ok()
}

/// `Vec::<i64>::serialize` with `ValueSerializer`: always the same array of
/// the integers, in order, for the same input.
#[verifier::external_body]
pub(crate) fn encode_integer_list(list: &Vec<i64>) -> (r: Option<Value>)
    ensures
        r == Some(encoded_integer_list(list@)),
        value_kind(r->0) is Array,
        is_integer_array(value_kind(r->0)->Array_0, list@),
{
    list.serialize(ValueSerializer::new()).ok()
}

/// `Vec::<bool>::serialize` with `ValueSerializer`: always the same array of
/// the booleans, in order, for the same input.
#[verifier::external_body]
pub(crate) fn encode_bool_list(list: &Vec<bool>) -> (r: Option<Value>)
    ensures
        r == Some(encoded_bool_list(list@)),
        value_kind(r->0) is Array,
        is_bool_array(value_kind(r->0)->Array_0, list@),
{
    list.serialize(ValueSerializer::new()).ok()
}

/// `Vec::<String>::serialize` with `ValueSerializer`: always the same array
/// of the strings, in order, for the same input.
#[verifier::external_body]
pub(crate) fn encode_text_list(list: &Vec<String>) -> (r: Option<Value>)
    ensures
        r == Some(encoded_text_list(text_views(list@))),
        value_kind(r->0) is Array,
        is_text_array(value_kind(r->0)->Array_0, text_views(list@)),
{
    list.serialize(ValueSerializer::new()).ok()
}

/// `Value::from_str`: parses a text as one value.
#[verifier::external_body]
pub(crate) fn parse_value(text: &str) -> (r: Result<Value, TomlError>)
    ensures
        r == parsed_value(text@),
{
    Value::from_str(text)
}

/// `ImDocument::parse`: parses a text as a document.
#[verifier::external_body]
pub(crate) fn parse_document(text: &str) -> (r: Result<ImDocument<String>, TomlError>)
    ensures
        r == parsed_document(text@),
{
    ImDocument::parse(text.to_owned())
}

/// `TomlError::to_string`: the message of a parse error.
#[verifier::external_body]
pub(crate) fn toml_error_message(e: &TomlError) -> (text: String)
    ensures
        text@ == toml_error_text(*e),
{
    e.to_string()
}

/// `DocumentMut::new`: a document whose root is an empty table.
#[verifier::external_body]
pub(crate) fn document_new() -> (doc: DocumentMut)
    ensures
        item_kind(document_root(doc)) is Table,
        is_empty_table(item_kind(document_root(doc))->Table_0),
{
    DocumentMut::new()
}

/// `DocumentMut::to_string`: the text of the document. The root of the
/// document must be a table: the outside function panics on any other root.
#[verifier::external_body]
pub(crate) fn document_to_string(doc: &DocumentMut) -> (text: String)
    requires
        item_kind(document_root(*doc)) is Table,
    ensures
        text@ == document_text(*doc),
{
    doc.to_string()
}

/// `DocumentMut::as_item`: the root item of the document.
#[verifier::external_body]
pub(crate) fn document_item(doc: &DocumentMut) -> (item: &Item)
    ensures
        *item == document_root(*doc),
{
    doc.as_item()
}

/// `DocumentMut::as_item_mut`: the root item of the document, to be edited
/// in place. A document whose root item is not changed stays as it is.
#[verifier::external_body]
pub(crate) fn document_item_mut(doc: &mut DocumentMut) -> (item: &mut Item)
    ensures
        *item == document_root(*old(doc)),
        document_root(*final(doc)) == *final(item),
        *final(item) == *item ==> *final(doc) == *old(doc),
{
    doc.as_item_mut()
}

/// `Item::as_table_mut`: the table, where the item is one, to be edited in
/// place. Any other item is left as it is, and so is an item whose table is
/// not changed.
#[verifier::external_body]
pub(crate) fn item_as_table_mut(item: &mut Item) -> (r: Option<&mut Table>)
    ensures
        match r {
            Some(table) => {
                &&& item_kind(*old(item)) == ItemKind::Table(*table)
                &&& item_kind(*final(item)) == ItemKind::Table(*final(table))
                &&& *final(table) == *table ==> *final(item) == *old(item)
            },
            None => !(item_kind(*old(item)) is Table) && *final(item) == *old(item),
        },
{
    item.as_table_mut()
}

/// `Table::entry` and `Entry::or_insert`: the item stored under `key`, to be
/// edited in place. Where the table has no such key, `default` is stored
/// under it first, and `key` becomes the last key. The other keys keep
/// their items and their order, and a table whose item under `key` is not
/// changed stays as it is.
#[verifier::external_body]
pub(crate) fn table_entry_or_insert<'a>(table: &'a mut Table, key: &str, default: Item) -> (item:
    &'a mut Item)
    ensures
        *item == (if table_items(*old(table)).contains_key(key@) {
            table_items(*old(table))[key@]
        } else {
            default
        }),
        table_items(*final(table)) == table_items(*old(table)).insert(key@, *final(item)),
        table_keys(*final(table)) == (if table_items(*old(table)).contains_key(key@) {
            table_keys(*old(table))
        } else {
            table_keys(*old(table)).push(key@)
        }),
        table_items(*old(table)).contains_key(key@) && *final(item) == *item ==> *final(table)
            == *old(table),
{
    table.entry(key).or_insert(default)
}

/// `Item::None`: the empty item.
#[verifier::external_body]
pub(crate) fn item_none() -> (item: Item)
    ensures
        item_kind(item) is Empty,
{
    Item::None
}

/// `Item::Table` of `Table::new`: an item that is an empty table.
#[verifier::external_body]
pub(crate) fn item_new_table() -> (item: Item)
    ensures
        item_kind(item) is Table,
        is_empty_table(item_kind(item)->Table_0),
{
    Item::Table(Table::new())
}

/// `Item::Value`: the item that is the given value.
#[verifier::external_body]
pub(crate) fn item_from_value(value: Value) -> (item: Item)
    ensures
        item == value_item(value),
        item_kind(item) == ItemKind::Value(value),
{
    Item::Value(value)
}

} // verus!
