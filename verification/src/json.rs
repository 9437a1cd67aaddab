//! JSON documents, and their canonical encoding: keys in lexicographic order,
//! no insignificant white space.

use vstd::prelude::*;

use crate::sorting::{
    in_rank_order, no_ties, only_equals_tie, sort_stably, stable_sorted, stable_sorted_commutes,
    stable_sorted_ignores_input_order, stable_sorted_is_an_ordered_permutation,
    stable_sorted_keeps_items_apart, stable_sorted_keeps_ordered_items, ties, Ranked, Sortable,
};
use crate::text::{text_comes_by, text_le, text_order_is_total, text_order_is_transitive};

verus! {

/// `serde_json::Value`, a JSON document.
#[verifier::external_type_specification]
#[verifier::external_body]
pub struct ExJsonValue(serde_json::Value);

/// `serde_json::Number`, a JSON number, carried as it is.
#[verifier::external_type_specification]
#[verifier::external_body]
pub struct ExJsonNumber(serde_json::Number);

/// `serde_json::Error`, why an encoding failed.
#[verifier::external_type_specification]
#[verifier::external_body]
pub struct ExJsonError(serde_json::Error);

/// `serde_json::Map`, the fields of a JSON object.
#[verifier::external_type_specification]
#[verifier::external_body]
#[verifier::reject_recursive_types(K)]
#[verifier::reject_recursive_types(V)]
pub struct ExJsonMap<K, V>(serde_json::Map<K, V>);

/// A JSON document as a plain value; an object's fields in their order.
pub enum JsonModel {
    Null,
    Bool(bool),
    Number(NumberModel),
    Text(Seq<char>),
    Array(Seq<JsonModel>),
    Object(Seq<FieldModel>),
}

/// A JSON number as a plain value, where it is an unsigned integer.
pub enum NumberModel {
    Unsigned(u64),
    Other(serde_json::Number),
}

/// An unsigned integer as a document.
pub open spec fn number(n: int) -> JsonModel {
    JsonModel::Number(NumberModel::Unsigned(n as u64))
}

/// One field of a JSON object.
pub struct FieldModel {
    pub key: Seq<char>,
    pub value: JsonModel,
}

/// What a `serde_json::Value` holds.
pub uninterp spec fn value_model(value: serde_json::Value) -> JsonModel;

/// What a `serde_json::Map` holds, in the order in which it is walked.
pub uninterp spec fn object_model(object: serde_json::Map<String, serde_json::Value>) -> Seq<
    FieldModel,
>;

/// What a `serde_json::Number` holds.
pub uninterp spec fn number_model(number: serde_json::Number) -> NumberModel;

/// The bytes that `serde_json::to_vec` writes for a document.
pub uninterp spec fn json_text(document: JsonModel) -> Seq<u8>;

/// Whether `text` is the text of `document` and of no other document.
pub open spec fn is_text_of_only(text: Seq<u8>, document: JsonModel) -> bool {
    &&& text == json_text(document)
    &&& forall|other: JsonModel| #[trigger] json_text(other) == text ==> other == document
}

/// Where a byte of a text stands, as to strings.
pub enum TextPlace {
    Outside,
    InString,
    BehindBackslash,
}

/// Where the byte at `at` of a text stands. A string starts and ends with a
/// quotation mark; one behind a backslash does not end it.
pub open spec fn place_of(text: Seq<u8>, at: int) -> TextPlace
    decreases at,
{
    if at <= 0 {
        TextPlace::Outside
    } else {
        let before = text[at - 1];
        match place_of(text, at - 1) {
            TextPlace::Outside => if before == 0x22u8 {
                TextPlace::InString
            } else {
                TextPlace::Outside
            },
            TextPlace::InString => if before == 0x22u8 {
                TextPlace::Outside
            } else if before == 0x5cu8 {
                TextPlace::BehindBackslash
            } else {
                TextPlace::InString
            },
            TextPlace::BehindBackslash => TextPlace::InString,
        }
    }
}

/// Whether no white space stands in a text outside of strings.
pub open spec fn is_compact(text: Seq<u8>) -> bool {
    forall|at: int|
        0 <= at < text.len() && place_of(text, at) is Outside ==> {
            let byte = #[trigger] text[at];
            byte != 0x20u8 && byte != 0x09u8 && byte != 0x0au8 && byte != 0x0du8
        }
}

/// One level of a JSON document.
enum JsonNode {
    Null,
    Bool(bool),
    Number(serde_json::Number),
    Text(String),
    Array(Vec<serde_json::Value>),
    Object(serde_json::Map<String, serde_json::Value>),
}

/// Documents as plain values.
pub open spec fn value_models(values: Seq<serde_json::Value>) -> Seq<JsonModel> {
    values.map_values(|value: serde_json::Value| value_model(value))
}

/// The document whose outermost level is `node`.
spec fn node_model(node: JsonNode) -> JsonModel {
    match node {
        JsonNode::Null => JsonModel::Null,
        JsonNode::Bool(flag) => JsonModel::Bool(flag),
        JsonNode::Number(number) => JsonModel::Number(number_model(number)),
        JsonNode::Text(text) => JsonModel::Text(text@),
        JsonNode::Array(items) => JsonModel::Array(value_models(items@)),
        JsonNode::Object(object) => JsonModel::Object(object_model(object)),
    }
}

/// A field of a JSON object, with the value still as `serde_json` holds it.
pub struct JsonField {
    pub key: String,
    pub value: serde_json::Value,
}

impl View for JsonField {
    type V = FieldModel;

    open spec fn view(&self) -> FieldModel {
        FieldModel { key: self.key@, value: value_model(self.value) }
    }
}

/// Fields as plain values.
pub open spec fn field_models(fields: Seq<JsonField>) -> Seq<FieldModel> {
    fields.map_values(|field: JsonField| field@)
}

/// Takes the variants of `serde_json::Value` apart, one level deep.
#[verifier::external_body]
fn open_value(value: serde_json::Value) -> (node: JsonNode)
    ensures
        node_model(node) == value_model(value),
{
    match value {
        serde_json::Value::Null => JsonNode::Null,
        serde_json::Value::Bool(flag) => JsonNode::Bool(flag),
        serde_json::Value::Number(number) => JsonNode::Number(number),
        serde_json::Value::String(text) => JsonNode::Text(text),
        serde_json::Value::Array(items) => JsonNode::Array(items),
        serde_json::Value::Object(object) => JsonNode::Object(object),
    }
}

/// Builds the variant of `serde_json::Value` that a level stands for.
#[verifier::external_body]
fn build_value(node: JsonNode) -> (value: serde_json::Value)
    ensures
        value_model(value) == node_model(node),
{
    match node {
        JsonNode::Null => serde_json::Value::Null,
        JsonNode::Bool(flag) => serde_json::Value::Bool(flag),
        JsonNode::Number(number) => serde_json::Value::Number(number),
        JsonNode::Text(text) => serde_json::Value::String(text),
        JsonNode::Array(items) => serde_json::Value::Array(items),
        JsonNode::Object(object) => serde_json::Value::Object(object),
    }
}

/// `serde_json::Map::new`: an object without fields.
#[verifier::external_body]
fn object_new() -> (object: serde_json::Map<String, serde_json::Value>)
    ensures
        object_model(object) == Seq::<FieldModel>::empty(),
{
    serde_json::Map::new()
}

/// `serde_json::Map::insert` of a key that is not there yet: the field comes
/// behind the others.
#[verifier::external_body]
fn object_insert(
    object: &mut serde_json::Map<String, serde_json::Value>,
    key: String,
    value: serde_json::Value,
)
    requires
        forall|i: int|
            0 <= i < object_model(*old(object)).len() ==> (#[trigger] object_model(
                *old(object),
            )[i]).key != key@,
    ensures
        object_model(*final(object)) == object_model(*old(object)).push(
            (FieldModel { key: key@, value: value_model(value) }),
        ),
{
    object.insert(key, value);
}

/// `serde_json::Map::into_iter`: the fields in their order, no two with the
/// same key.
#[verifier::external_body]
fn object_fields(object: serde_json::Map<String, serde_json::Value>) -> (fields: Vec<JsonField>)
    ensures
        field_models(fields@) == object_model(object),
        forall|i: int, j: int|
            0 <= i < j < fields@.len() ==> (#[trigger] fields@[i]).key@ != (
            #[trigger] fields@[j]).key@,
{
    object.into_iter().map(|(key, value)| JsonField { key, value }).collect()
}

/// `serde_json::Number::from` an unsigned integer: that integer.
#[verifier::external_body]
fn number_from(n: u64) -> (number: serde_json::Number)
    ensures
        number_model(number) == NumberModel::Unsigned(n),
{
    serde_json::Number::from(n)
}

/// `serde_json::to_value` of a document: the same document. It never fails on
/// one.
#[verifier::external_body]
fn copy_value(value: &serde_json::Value) -> (copy: Result<serde_json::Value, serde_json::Error>)
    ensures
        copy is Ok,
        value_model(copy->Ok_0) == value_model(*value),
{
    serde_json::to_value(value)
}

/// `serde_json::to_vec` of a document: its text. Different documents have
/// different texts: strings are escaped without loss, the punctuation shows
/// where every part ends, and numbers are written in a form that tells them
/// apart. Nothing is written between the parts but the punctuation itself. It
/// never fails on a document.
#[verifier::external_body]
fn encode_value(value: &serde_json::Value) -> (text: Result<Vec<u8>, serde_json::Error>)
    ensures
        text is Ok,
        text->Ok_0@ == json_text(value_model(*value)),
        forall|other: JsonModel| #[trigger]
            json_text(other) == text->Ok_0@ ==> other == value_model(*value),
        is_compact(text->Ok_0@),
{
    serde_json::to_vec(value)
}

/// Fields rank by their keys.
impl Ranked for FieldModel {
    open spec fn ranks_by(self, other: Self) -> bool {
        text_le(self.key, other.key)
    }

    proof fn lemma_total(a: Self, b: Self) {
        text_order_is_total(a.key, b.key);
    }

    proof fn lemma_transitive(a: Self, b: Self, c: Self) {
        text_order_is_transitive(a.key, b.key, c.key);
    }
}

impl Ranked for JsonField {
    open spec fn ranks_by(self, other: Self) -> bool {
        self@.ranks_by(other@)
    }

    proof fn lemma_total(a: Self, b: Self) {
        FieldModel::lemma_total(a@, b@);
    }

    proof fn lemma_transitive(a: Self, b: Self, c: Self) {
        FieldModel::lemma_transitive(a@, b@, c@);
    }
}

impl Sortable for JsonField {
    fn comes_by(&self, other: &Self) -> bool {
        text_comes_by(self.key.as_str(), other.key.as_str())
    }
}

/// A document with the fields of every object in the order of their keys.
pub open spec fn canonical(document: JsonModel) -> JsonModel
    decreases document,
{
    match document {
        JsonModel::Array(items) => JsonModel::Array(canonical_items(items)),
        JsonModel::Object(fields) => JsonModel::Object(stable_sorted(canonical_fields(fields))),
        other => other,
    }
}

/// The canonical forms of a sequence of documents.
pub open spec fn canonical_items(items: Seq<JsonModel>) -> Seq<JsonModel>
    decreases items,
{
    if items.len() == 0 {
        items
    } else {
        canonical_items(items.drop_last()).push(canonical(items.last()))
    }
}

/// Fields with their values in canonical form.
pub open spec fn canonical_fields(fields: Seq<FieldModel>) -> Seq<FieldModel>
    decreases fields,
{
    if fields.len() == 0 {
        fields
    } else {
        canonical_fields(fields.drop_last()).push(
            FieldModel { key: fields.last().key, value: canonical(fields.last().value) },
        )
    }
}

/// A field with its value in canonical form.
pub open spec fn canonical_field(field: FieldModel) -> FieldModel {
    FieldModel { key: field.key, value: canonical(field.value) }
}

proof fn lemma_canonical_items(items: Seq<JsonModel>)
    ensures
        canonical_items(items) == items.map_values(|item: JsonModel| canonical(item)),
    decreases items.len(),
{
    let f = |item: JsonModel| canonical(item);
    if items.len() > 0 {
        lemma_canonical_items(items.drop_last());
        assert(items =~= items.drop_last().push(items.last()));
    }
    assert(canonical_items(items) =~= items.map_values(f));
}

proof fn lemma_canonical_fields(fields: Seq<FieldModel>)
    ensures
        canonical_fields(fields) == fields.map_values(|field: FieldModel| canonical_field(field)),
    decreases fields.len(),
{
    let f = |field: FieldModel| canonical_field(field);
    if fields.len() > 0 {
        lemma_canonical_fields(fields.drop_last());
        assert(fields =~= fields.drop_last().push(fields.last()));
    }
    assert(canonical_fields(fields) =~= fields.map_values(f));
}

/// Sorting the fields and putting their values into canonical form can come in
/// either order.
proof fn lemma_sorting_canonical_fields(fields: Seq<FieldModel>)
    ensures
        stable_sorted(canonical_fields(fields)) == canonical_fields(stable_sorted(fields)),
{
    lemma_canonical_fields(fields);
    lemma_canonical_fields(stable_sorted(fields));
    stable_sorted_commutes(fields, |field: FieldModel| canonical_field(field));
}

/// Whether a document is an object that holds a field of the given key and value.
pub open spec fn holds_field(document: JsonModel, key: Seq<char>, value: JsonModel) -> bool {
    document matches JsonModel::Object(fields) && exists|i: int|
        0 <= i < fields.len() && (#[trigger] fields[i]).key == key && fields[i].value == value
}

/// Whether a document is an object of so many fields.
pub open spec fn has_fields(document: JsonModel, count: int) -> bool {
    document matches JsonModel::Object(fields) && fields.len() == count
}

/// No two fields of an object share a key.
pub open spec fn keys_differ(fields: Seq<FieldModel>) -> bool {
    forall|i: int, j: int|
        0 <= i < j < fields.len() ==> (#[trigger] fields[i]).key != (#[trigger] fields[j]).key
}

/// No two fields of any object in a document share a key.
pub open spec fn keys_differ_throughout(document: JsonModel) -> bool
    decreases document,
{
    match document {
        JsonModel::Array(items) => forall|i: int|
            0 <= i < items.len() ==> keys_differ_throughout(#[trigger] items[i]),
        JsonModel::Object(fields) => keys_differ(fields) && forall|i: int|
            0 <= i < fields.len() ==> keys_differ_throughout((#[trigger] fields[i]).value),
        _ => true,
    }
}

proof fn lemma_differing_keys_do_not_tie(fields: Seq<FieldModel>)
    ensures
        keys_differ(fields) <==> no_ties(fields),
{
    if keys_differ(fields) {
        assert forall|i: int, j: int| 0 <= i < j < fields.len() implies !ties(
            #[trigger] fields[i],
            #[trigger] fields[j],
        ) by {
            text_order_is_total(fields[i].key, fields[j].key);
        }
    }
    if no_ties(fields) {
        assert forall|i: int, j: int| 0 <= i < j < fields.len() implies (#[trigger] fields[i]).key
            != (#[trigger] fields[j]).key by {
            text_order_is_total(fields[i].key, fields[j].key);
        }
    }
}

/// The fields that an object held before its keys were put in order.
proof fn lemma_sorted_field_is_part_of(fields: Seq<FieldModel>, index: int)
    requires
        0 <= index < stable_sorted(fields).len(),
    ensures
        exists|i: int| 0 <= i < fields.len() && fields[i] == stable_sorted(fields)[index],
{
    broadcast use vstd::seq_lib::group_to_multiset_ensures;

    stable_sorted_is_an_ordered_permutation(fields);
    let sorted = stable_sorted(fields);
    assert(sorted.contains(sorted[index]));
    assert(fields.to_multiset().count(sorted[index]) > 0);
    assert(fields.contains(sorted[index]));
}

/// A field that an object holds is there once its keys were put in order.
proof fn lemma_field_is_part_of_sorted(fields: Seq<FieldModel>, index: int)
    requires
        0 <= index < fields.len(),
    ensures
        exists|i: int|
            0 <= i < stable_sorted(fields).len() && stable_sorted(fields)[i] == fields[index],
{
    broadcast use vstd::seq_lib::group_to_multiset_ensures;

    stable_sorted_is_an_ordered_permutation(fields);
    let sorted = stable_sorted(fields);
    assert(fields.contains(fields[index]));
    assert(sorted.to_multiset().count(fields[index]) > 0);
    assert(sorted.contains(fields[index]));
}

/// Puts the fields of every object in a document into the order of their keys.
fn canonicalize_value(value: serde_json::Value) -> (ordered: serde_json::Value)
    ensures
        value_model(ordered) == canonical(value_model(value)),
        keys_differ_throughout(value_model(value)),
    decreases value_model(value),
{
    let ghost document = value_model(value);
    match open_value(value) {
        JsonNode::Object(object) => {
            let fields = object_fields(object);
            let ghost before = field_models(fields@);
            let sorted = sort_stably(fields);
            let ghost models = field_models(sorted@);
            proof {
                stable_sorted_commutes(fields@, |field: JsonField| field@);
                assert(models == stable_sorted(before));
                assert(keys_differ(before)) by {
                    assert forall|i: int, j: int| 0 <= i < j < before.len() implies (
                    #[trigger] before[i]).key != (#[trigger] before[j]).key by {
                        assert(fields@[i].key@ != fields@[j].key@);
                    }
                }
                lemma_differing_keys_do_not_tie(before);
                stable_sorted_keeps_items_apart(before);
                lemma_differing_keys_do_not_tie(models);
                lemma_sorting_canonical_fields(before);
                lemma_canonical_fields(models);
                assert(canonical_fields(models).take(0) =~= Seq::<FieldModel>::empty());
            }
            let mut ordered = object_new();
            let ghost all = sorted@;
            for field in it: sorted
                invariant
                    it.seq() == all,
                    models == field_models(all),
                    models == stable_sorted(before),
                    keys_differ(models),
                    document == JsonModel::Object(before),
                    document == value_model(value),
                    canonical_fields(models) == models.map_values(
                        |field: FieldModel| canonical_field(field),
                    ),
                    object_model(ordered) == canonical_fields(models).take(it.index() as int),
                    forall|j: int|
                        0 <= j < it.index() ==> keys_differ_throughout(
                            (#[trigger] models[j]).value,
                        ),
            {
                let ghost i = it.index() as int;
                proof {
                    assert(models[i] == field@);
                    assert forall|j: int| 0 <= j < object_model(ordered).len() implies (
                    #[trigger] object_model(ordered)[j]).key != field.key@ by {
                        assert(models[j].key != models[i].key);
                    }
                    lemma_sorted_field_is_part_of(before, i);
                    let k = choose|k: int| 0 <= k < before.len() && before[k] == models[i];
                    assert(decreases_to!(document => document->Object_0));
                    assert(decreases_to!(document => document->Object_0[k]));
                    assert(decreases_to!(document => document->Object_0[k].value));
                }
                object_insert(&mut ordered, field.key, canonicalize_value(field.value));
                assert(object_model(ordered) =~= canonical_fields(models).take(i + 1));
            }
            proof {
                assert(canonical_fields(models).take(models.len() as int) =~= canonical_fields(
                    models,
                ));
                assert forall|k: int| 0 <= k < before.len() implies keys_differ_throughout(
                    (#[trigger] before[k]).value,
                ) by {
                    lemma_field_is_part_of_sorted(before, k);
                    let j = choose|j: int| 0 <= j < models.len() && models[j] == before[k];
                    assert(keys_differ_throughout(models[j].value));
                }
            }
            build_value(JsonNode::Object(ordered))
        },
        JsonNode::Array(items) => {
            let ghost all = items@;
            let mut ordered: Vec<serde_json::Value> = Vec::with_capacity(items.len());
            proof {
                lemma_canonical_items(value_models(all));
            }
            for item in it: items
                invariant
                    it.seq() == all,
                    document == JsonModel::Array(value_models(all)),
                    document == value_model(value),
                    canonical_items(value_models(all)) == value_models(all).map_values(
                        |item: JsonModel| canonical(item),
                    ),
                    value_models(ordered@) == canonical_items(value_models(all)).take(
                        it.index() as int,
                    ),
                    forall|j: int|
                        0 <= j < it.index() ==> keys_differ_throughout(
                            #[trigger] value_models(all)[j],
                        ),
            {
                let ghost i = it.index() as int;
                let ghost before = ordered@;
                assert(value_models(all)[i] == value_model(item));
                assert(decreases_to!(document => document->Array_0[i]));
                ordered.push(canonicalize_value(item));
                assert(value_models(ordered@) =~= value_models(before).push(
                    canonical(value_model(item)),
                ));
                assert(value_models(ordered@) =~= canonical_items(value_models(all)).take(i + 1));
            }
            assert(canonical_items(value_models(all)).take(all.len() as int)
                =~= canonical_items(value_models(all)));
            build_value(JsonNode::Array(ordered))
        },
        other => build_value(other),
    }
}

/// Why a document could not be encoded.
#[derive(Debug, Clone, Copy, PartialEq, Eq)]
pub struct EncodingError;

/// Encodes a document in canonical form: the keys of every object in
/// lexicographic order, no insignificant white space. Arrays keep their order.
/// Within a document no object holds two fields of the same key.
pub fn canonical_json(document: &serde_json::Value) -> (text: Result<Vec<u8>, EncodingError>)
    ensures
        text is Ok,
        is_text_of_only(text->Ok_0@, canonical(value_model(*document))),
        is_compact(text->Ok_0@),
        keys_differ_throughout(value_model(*document)),
{
    let copy = match copy_value(document) {
        Ok(copy) => copy,
        Err(_) => return Err(EncodingError),
    };
    let ordered = canonicalize_value(copy);
    match encode_value(&ordered) {
        Ok(text) => Ok(text),
        Err(_) => Err(EncodingError),
    }
}

/// Encodes a document as it is, its fields in their order.
pub fn plain_json(document: &serde_json::Value) -> (text: Result<Vec<u8>, EncodingError>)
    ensures
        text is Ok,
        is_text_of_only(text->Ok_0@, value_model(*document)),
        is_compact(text->Ok_0@),
{
    match encode_value(document) {
        Ok(text) => Ok(text),
        Err(_) => Err(EncodingError),
    }
}

/// A JSON number.
pub(crate) fn number_value(n: u64) -> (value: serde_json::Value)
    ensures
        value_model(value) == JsonModel::Number(NumberModel::Unsigned(n)),
{
    build_value(JsonNode::Number(number_from(n)))
}

/// A JSON string.
pub(crate) fn text_value(text: &str) -> (value: serde_json::Value)
    ensures
        value_model(value) == JsonModel::Text(text@),
{
    build_value(JsonNode::Text(text.to_owned()))
}

/// A JSON array.
pub(crate) fn array_value(items: Vec<serde_json::Value>) -> (value: serde_json::Value)
    ensures
        value_model(value) == JsonModel::Array(value_models(items@)),
{
    build_value(JsonNode::Array(items))
}

/// A field of a JSON object.
pub(crate) fn field(key: &str, value: serde_json::Value) -> (field: JsonField)
    ensures
        field@ == (FieldModel { key: key@, value: value_model(value) }),
{
    JsonField { key: key.to_owned(), value }
}

/// A JSON object with the given fields, in their order.
pub(crate) fn object_value(fields: Vec<JsonField>) -> (value: serde_json::Value)
    requires
        keys_differ(field_models(fields@)),
    ensures
        value_model(value) == JsonModel::Object(field_models(fields@)),
{
    let mut object = object_new();
    let ghost all = fields@;
    let ghost models = field_models(all);
    assert(models.take(0) =~= Seq::<FieldModel>::empty());
    for field in it: fields
        invariant
            it.seq() == all,
            models == field_models(all),
            keys_differ(models),
            object_model(object) == models.take(it.index() as int),
    {
        let ghost i = it.index() as int;
        assert(models[i] == field@);
        assert forall|j: int| 0 <= j < object_model(object).len() implies (#[trigger] object_model(
            object,
        )[j]).key != field.key@ by {
            assert(models[j].key != models[i].key);
        }
        object_insert(&mut object, field.key, field.value);
        assert(object_model(object) =~= models.take(i + 1));
    }
    assert(models.take(models.len() as int) =~= models);
    build_value(JsonNode::Object(object))
}

/// Whether the fields of every object stand in the order of their keys.
pub open spec fn keys_ascend(document: JsonModel) -> bool
    decreases document,
{
    match document {
        JsonModel::Array(items) => forall|i: int|
            0 <= i < items.len() ==> keys_ascend(#[trigger] items[i]),
        JsonModel::Object(fields) => {
            &&& forall|i: int, j: int|
                0 <= i <= j < fields.len() ==> text_le(
                    (#[trigger] fields[i]).key,
                    (#[trigger] fields[j]).key,
                )
            &&& forall|i: int| 0 <= i < fields.len() ==> keys_ascend((#[trigger] fields[i]).value)
        },
        _ => true,
    }
}

/// In a canonical document the keys of every object ascend.
pub proof fn canonical_keys_ascend(document: JsonModel)
    ensures
        keys_ascend(canonical(document)),
    decreases document,
{
    match document {
        JsonModel::Array(items) => {
            lemma_canonical_items(items);
            assert forall|i: int| 0 <= i < items.len() implies keys_ascend(
                #[trigger] canonical_items(items)[i],
            ) by {
                assert(decreases_to!(document => items[i]));
                canonical_keys_ascend(items[i]);
            }
        },
        JsonModel::Object(fields) => {
            let ordered = canonical_fields(fields);
            let sorted = stable_sorted(ordered);
            lemma_canonical_fields(fields);
            stable_sorted_is_an_ordered_permutation(ordered);
            assert forall|i: int, j: int| 0 <= i <= j < sorted.len() implies text_le(
                (#[trigger] sorted[i]).key,
                (#[trigger] sorted[j]).key,
            ) by {
                assert(sorted[i].ranks_by(sorted[j]));
            }
            assert forall|i: int| 0 <= i < sorted.len() implies keys_ascend(
                (#[trigger] sorted[i]).value,
            ) by {
                lemma_sorted_field_is_part_of(ordered, i);
                let j = choose|j: int| 0 <= j < ordered.len() && ordered[j] == sorted[i];
                assert(decreases_to!(document => fields[j]));
                assert(decreases_to!(document => fields[j].value));
                canonical_keys_ascend(fields[j].value);
            }
        },
        _ => {},
    }
}

/// A document whose keys ascend is canonical already.
pub proof fn ordered_documents_are_canonical(document: JsonModel)
    requires
        keys_ascend(document),
    ensures
        canonical(document) == document,
    decreases document,
{
    match document {
        JsonModel::Array(items) => {
            lemma_canonical_items(items);
            assert forall|i: int| 0 <= i < items.len() implies #[trigger] canonical_items(items)[i]
                == items[i] by {
                assert(decreases_to!(document => items[i]));
                ordered_documents_are_canonical(items[i]);
            }
            assert(canonical_items(items) =~= items);
        },
        JsonModel::Object(fields) => {
            lemma_canonical_fields(fields);
            assert forall|i: int| 0 <= i < fields.len() implies #[trigger] canonical_fields(
                fields,
            )[i] == fields[i] by {
                assert(decreases_to!(document => fields[i]));
                assert(decreases_to!(document => fields[i].value));
                ordered_documents_are_canonical(fields[i].value);
            }
            assert(canonical_fields(fields) =~= fields);
            assert(in_rank_order(fields));
            stable_sorted_keeps_ordered_items(fields);
        },
        _ => {},
    }
}

/// Canonical form is reached in one step.
pub proof fn canonical_is_idempotent(document: JsonModel)
    ensures
        canonical(canonical(document)) == canonical(document),
{
    canonical_keys_ascend(document);
    ordered_documents_are_canonical(canonical(document));
}

/// Whether two documents are equal up to the order of the fields in their
/// objects, at every depth: arrays agree item by item, and each field of either
/// object has a counterpart in the other.
pub open spec fn same_up_to_field_order(first: JsonModel, second: JsonModel) -> bool
    decreases first,
{
    match (first, second) {
        (JsonModel::Array(s), JsonModel::Array(t)) => s.len() == t.len() && forall|i: int|
            0 <= i < s.len() ==> same_up_to_field_order(#[trigger] s[i], t[i]),
        (JsonModel::Object(f), JsonModel::Object(g)) => {
            &&& forall|i: int|
                0 <= i < f.len() ==> exists|j: int|
                    0 <= j < g.len() && (#[trigger] f[i]).key == (#[trigger] g[j]).key
                        && same_up_to_field_order(f[i].value, g[j].value)
            &&& forall|j: int|
                0 <= j < g.len() ==> exists|i: int|
                    0 <= i < f.len() && (#[trigger] f[i]).key == (#[trigger] g[j]).key
                        && same_up_to_field_order(f[i].value, g[j].value)
        },
        _ => first == second,
    }
}

proof fn lemma_canonical_keys_differ(fields: Seq<FieldModel>)
    requires
        keys_differ(fields),
    ensures
        keys_differ(canonical_fields(fields)),
        canonical_fields(fields).no_duplicates(),
{
    lemma_canonical_fields(fields);
    let ordered = canonical_fields(fields);
    assert forall|i: int, j: int| 0 <= i < j < ordered.len() implies (#[trigger] ordered[i]).key
        != (#[trigger] ordered[j]).key by {
        assert(fields[i].key != fields[j].key);
    }
    assert forall|i: int, j: int|
        0 <= i < ordered.len() && 0 <= j < ordered.len() && i != j implies ordered[i]
        != ordered[j] by {
        if i < j {
            assert(ordered[i].key != ordered[j].key);
        } else {
            assert(ordered[j].key != ordered[i].key);
        }
    }
}

/// Two sequences without duplicates that hold the same items are permutations.
proof fn lemma_same_items_are_permutations(a: Seq<FieldModel>, b: Seq<FieldModel>)
    requires
        a.no_duplicates(),
        b.no_duplicates(),
        forall|i: int| 0 <= i < a.len() ==> b.contains(#[trigger] a[i]),
        forall|j: int| 0 <= j < b.len() ==> a.contains(#[trigger] b[j]),
    ensures
        a.to_multiset() == b.to_multiset(),
{
    broadcast use vstd::seq_lib::group_to_multiset_ensures;

    a.lemma_multiset_has_no_duplicates();
    b.lemma_multiset_has_no_duplicates();
    assert forall|item: FieldModel| #[trigger]
        a.to_multiset().count(item) == b.to_multiset().count(item) by {
        assert(a.contains(item) <==> b.contains(item));
        assert(a.to_multiset().contains(item) <==> a.contains(item));
        assert(b.to_multiset().contains(item) <==> b.contains(item));
    }
    assert(a.to_multiset() =~= b.to_multiset());
}

/// The order in which the fields of objects were put in, at any depth, does not
/// show in the canonical form.
pub proof fn canonical_ignores_field_order(first: JsonModel, second: JsonModel)
    requires
        same_up_to_field_order(first, second),
        keys_differ_throughout(first),
        keys_differ_throughout(second),
    ensures
        canonical(first) == canonical(second),
    decreases first,
{
    match (first, second) {
        (JsonModel::Array(s), JsonModel::Array(t)) => {
            lemma_canonical_items(s);
            lemma_canonical_items(t);
            assert forall|i: int| 0 <= i < s.len() implies #[trigger] canonical_items(s)[i]
                == canonical_items(t)[i] by {
                assert(decreases_to!(first => s[i]));
                assert(same_up_to_field_order(s[i], t[i]));
                assert(keys_differ_throughout(s[i]) && keys_differ_throughout(t[i]));
                canonical_ignores_field_order(s[i], t[i]);
            }
            assert(canonical_items(s) =~= canonical_items(t));
        },
        (JsonModel::Object(f), JsonModel::Object(g)) => {
            let (a, b) = (canonical_fields(f), canonical_fields(g));
            lemma_canonical_fields(f);
            lemma_canonical_fields(g);
            lemma_canonical_keys_differ(f);
            lemma_canonical_keys_differ(g);
            assert forall|i: int, j: int|
                0 <= i < f.len() && 0 <= j < g.len() && (#[trigger] f[i]).key == (
                #[trigger] g[j]).key && same_up_to_field_order(
                    f[i].value,
                    g[j].value,
                ) implies a[i] == b[j] by {
                assert(decreases_to!(first => f[i]));
                assert(decreases_to!(first => f[i].value));
                assert(keys_differ_throughout(f[i].value) && keys_differ_throughout(g[j].value));
                canonical_ignores_field_order(f[i].value, g[j].value);
            }
            assert forall|i: int| 0 <= i < a.len() implies b.contains(#[trigger] a[i]) by {
                let j = choose|j: int|
                    0 <= j < g.len() && f[i].key == (#[trigger] g[j]).key
                        && same_up_to_field_order(f[i].value, g[j].value);
                assert(a[i] == b[j]);
            }
            assert forall|j: int| 0 <= j < b.len() implies a.contains(#[trigger] b[j]) by {
                let i = choose|i: int|
                    0 <= i < f.len() && (#[trigger] f[i]).key == g[j].key
                        && same_up_to_field_order(f[i].value, g[j].value);
                assert(a[i] == b[j]);
            }
            lemma_same_items_are_permutations(a, b);
            lemma_differing_keys_do_not_tie(a);
            assert(only_equals_tie(a)) by {
                assert forall|i: int, j: int|
                    0 <= i < a.len() && 0 <= j < a.len() && ties(
                        #[trigger] a[i],
                        #[trigger] a[j],
                    ) implies a[i] == a[j] by {
                    if i < j {
                        assert(!ties(a[i], a[j]));
                    } else if j < i {
                        assert(!ties(a[j], a[i]));
                    }
                }
            }
            stable_sorted_ignores_input_order(a, b);
        },
        _ => {},
    }
}

proof fn lemma_canonical_field_has_a_source(
    first: Seq<FieldModel>,
    second: Seq<FieldModel>,
    index: int,
)
    requires
        canonical(JsonModel::Object(first)) == canonical(JsonModel::Object(second)),
        0 <= index < first.len(),
    ensures
        exists|j: int|
            0 <= j < second.len() && first[index].key == (#[trigger] second[j]).key && canonical(
                first[index].value,
            ) == canonical(second[j].value),
{
    let (a, b) = (canonical_fields(first), canonical_fields(second));
    lemma_canonical_fields(first);
    lemma_canonical_fields(second);
    lemma_field_is_part_of_sorted(a, index);
    let k = choose|k: int| 0 <= k < stable_sorted(a).len() && stable_sorted(a)[k] == a[index];
    assert(stable_sorted(a) == stable_sorted(b));
    lemma_sorted_field_is_part_of(b, k);
    let j = choose|j: int| 0 <= j < b.len() && b[j] == stable_sorted(b)[k];
    assert(b[j] == canonical_field(second[j]));
    assert(a[index] == canonical_field(first[index]));
}

/// The canonical form forgets nothing but the order of fields: documents with the
/// same canonical form are equal up to that order.
pub proof fn canonical_forgets_field_order_only(first: JsonModel, second: JsonModel)
    requires
        canonical(first) == canonical(second),
    ensures
        same_up_to_field_order(first, second),
    decreases first,
{
    match (first, second) {
        (JsonModel::Array(s), JsonModel::Array(t)) => {
            canonical_arrays_agree(s, t);
            assert forall|i: int| 0 <= i < s.len() implies same_up_to_field_order(
                #[trigger] s[i],
                t[i],
            ) by {
                assert(decreases_to!(first => s[i]));
                canonical_forgets_field_order_only(s[i], t[i]);
            }
        },
        (JsonModel::Object(f), JsonModel::Object(g)) => {
            assert forall|i: int| 0 <= i < f.len() implies exists|j: int|
                0 <= j < g.len() && (#[trigger] f[i]).key == (#[trigger] g[j]).key
                    && same_up_to_field_order(f[i].value, g[j].value) by {
                lemma_canonical_field_has_a_source(f, g, i);
                let j = choose|j: int|
                    0 <= j < g.len() && f[i].key == (#[trigger] g[j]).key && canonical(f[i].value)
                        == canonical(g[j].value);
                assert(decreases_to!(first => f[i]));
                assert(decreases_to!(first => f[i].value));
                canonical_forgets_field_order_only(f[i].value, g[j].value);
            }
            assert forall|j: int| 0 <= j < g.len() implies exists|i: int|
                0 <= i < f.len() && (#[trigger] f[i]).key == (#[trigger] g[j]).key
                    && same_up_to_field_order(f[i].value, g[j].value) by {
                lemma_canonical_field_has_a_source(g, f, j);
                let i = choose|i: int|
                    0 <= i < f.len() && g[j].key == (#[trigger] f[i]).key && canonical(g[j].value)
                        == canonical(f[i].value);
                assert(decreases_to!(first => f[i]));
                assert(decreases_to!(first => f[i].value));
                canonical_forgets_field_order_only(f[i].value, g[j].value);
            }
        },
        _ => {},
    }
}

/// A canonical document holds what the document held: arrays in their order,
/// objects with the same fields.
pub proof fn canonical_loses_nothing(document: JsonModel)
    ensures
        same_up_to_field_order(document, canonical(document)),
{
    canonical_is_idempotent(document);
    canonical_forgets_field_order_only(document, canonical(document));
}

/// Objects with the same canonical form have the same keys, and under each key
/// values with the same canonical form.
pub proof fn canonical_objects_agree(first: Seq<FieldModel>, second: Seq<FieldModel>)
    requires
        keys_differ(first),
        keys_differ(second),
        canonical(JsonModel::Object(first)) == canonical(JsonModel::Object(second)),
    ensures
        first.len() == second.len(),
        forall|i: int, j: int|
            0 <= i < first.len() && 0 <= j < second.len() && (#[trigger] first[i]).key == (
            #[trigger] second[j]).key ==> canonical(first[i].value) == canonical(second[j].value),
{
    broadcast use vstd::seq_lib::group_to_multiset_ensures;

    let (a, b) = (canonical_fields(first), canonical_fields(second));
    lemma_canonical_fields(first);
    lemma_canonical_fields(second);
    stable_sorted_is_an_ordered_permutation(a);
    stable_sorted_is_an_ordered_permutation(b);
    assert(a.to_multiset() == b.to_multiset());
    assert forall|i: int, j: int|
        0 <= i < first.len() && 0 <= j < second.len() && (#[trigger] first[i]).key == (
        #[trigger] second[j]).key implies canonical(first[i].value) == canonical(
        second[j].value,
    ) by {
        assert(a[i] == canonical_field(first[i]));
        assert(a.contains(a[i]));
        assert(b.to_multiset().count(a[i]) > 0);
        assert(b.contains(a[i]));
        let k = choose|k: int| 0 <= k < b.len() && b[k] == a[i];
        assert(b[k] == canonical_field(second[k]));
        if k < j {
            assert(second[k].key != second[j].key);
        } else if j < k {
            assert(second[j].key != second[k].key);
        }
    }
}

/// Arrays with the same canonical form are of the same length, and hold items
/// with the same canonical form.
pub proof fn canonical_arrays_agree(first: Seq<JsonModel>, second: Seq<JsonModel>)
    requires
        canonical(JsonModel::Array(first)) == canonical(JsonModel::Array(second)),
    ensures
        first.len() == second.len(),
        forall|i: int|
            0 <= i < first.len() ==> canonical(#[trigger] first[i]) == canonical(second[i]),
{
    lemma_canonical_items(first);
    lemma_canonical_items(second);
    assert(canonical_items(first) == canonical_items(second));
    assert forall|i: int| 0 <= i < first.len() implies canonical(#[trigger] first[i]) == canonical(
        second[i],
    ) by {
        assert(canonical_items(first)[i] == canonical(first[i]));
        assert(canonical_items(second)[i] == canonical(second[i]));
    }
}

/// A canonical array has as many items as the array, a canonical object as many
/// fields as the object, and what is neither is canonical as it is.
pub proof fn canonical_keeps_the_shape(document: JsonModel)
    ensures
        document matches JsonModel::Array(items) ==> (canonical(document) matches JsonModel::Array(
            ordered,
        ) && ordered.len() == items.len()),
        document matches JsonModel::Object(fields) ==> has_fields(
            canonical(document),
            fields.len() as int,
        ),
        !(document is Array) && !(document is Object) ==> canonical(document) == document,
{
    match document {
        JsonModel::Array(items) => lemma_canonical_items(items),
        JsonModel::Object(fields) => {
            lemma_canonical_fields(fields);
            stable_sorted_is_an_ordered_permutation(canonical_fields(fields));
        },
        _ => {},
    }
}

/// A canonical array holds the canonical forms of its items, each in its place, and
/// a canonical object holds under each key the canonical form of the value.
pub proof fn canonical_reaches_every_part(document: JsonModel, i: int)
    ensures
        document matches JsonModel::Array(items) ==> 0 <= i < items.len() ==> (canonical(
            document,
        ) matches JsonModel::Array(ordered) && ordered[i] == canonical(items[i])),
        document matches JsonModel::Object(fields) ==> 0 <= i < fields.len() ==> holds_field(
            canonical(document),
            fields[i].key,
            canonical(fields[i].value),
        ),
{
    match document {
        JsonModel::Array(items) => lemma_canonical_items(items),
        JsonModel::Object(fields) => {
            if 0 <= i < fields.len() {
                let ordered = canonical_fields(fields);
                lemma_canonical_fields(fields);
                lemma_field_is_part_of_sorted(ordered, i);
                let j = choose|j: int|
                    0 <= j < stable_sorted(ordered).len() && stable_sorted(ordered)[j]
                        == ordered[i];
                assert(stable_sorted(ordered)[j].key == fields[i].key);
            }
        },
        _ => {},
    }
}

/// The text of a document and of no other is what `serde_json` writes for it, and
/// tells it from every other.
pub proof fn texts_tell_documents_apart(text: Seq<u8>, document: JsonModel, other: JsonModel)
    requires
        is_text_of_only(text, document),
    ensures
        text == json_text(document),
        json_text(other) == text ==> other == document,
{
}

/// A plain field shows the whole key and the value, and plain values and fields stand
/// one for one.
pub proof fn plain_values_stand_one_for_one(
    values: Seq<serde_json::Value>,
    fields: Seq<JsonField>,
    i: int,
)
    ensures
        value_models(values).len() == values.len(),
        0 <= i < values.len() ==> value_models(values)[i] == value_model(values[i]),
        field_models(fields).len() == fields.len(),
        0 <= i < fields.len() ==> field_models(fields)[i].key == fields[i].key@,
        0 <= i < fields.len() ==> field_models(fields)[i].value == value_model(fields[i].value),
{
}

} // verus!
