//! JSON values, and their text.

use vstd::prelude::*;


verus! {

/// A JSON value.
#[derive(Debug, PartialEq)]
pub enum Json {
    Null,
    Bool(bool),
    /// A whole number of 64 bits.
    Number(u64),
    /// Any other number, as it is written.
    Literal(String),
    Text(String),
    Array(Vec<Json>),
    Object(Vec<JsonField>),
}

/// A key of an object, and its value.
#[derive(Debug, PartialEq)]
pub struct JsonField {
    pub key: String,
    pub value: Json,
}

/// What a JSON value is.
pub enum JsonView {
    Null,
    Bool(bool),
    Number(u64),
    Literal(Seq<char>),
    Text(Seq<char>),
    Array(Seq<JsonView>),
    Object(Seq<(Seq<char>, JsonView)>),
}

/// No fields.
pub open spec fn no_fields() -> Seq<(Seq<char>, JsonView)> {
    Seq::empty()
}

/// No items.
pub open spec fn no_items() -> Seq<JsonView> {
    Seq::empty()
}

/// What a JSON value is.
pub open spec fn json_view(json: Json) -> JsonView
    decreases json,
{
    match json {
        Json::Null => JsonView::Null,
        Json::Bool(b) => JsonView::Bool(b),
        Json::Number(n) => JsonView::Number(n),
        Json::Literal(s) => JsonView::Literal(s@),
        Json::Text(s) => JsonView::Text(s@),
        Json::Array(items) => JsonView::Array(
            Seq::new(
                items@.len(),
                |i: int|
                    if 0 <= i < items@.len() {
                        json_view(items[i])
                    } else {
                        JsonView::Null
                    },
            ),
        ),
        Json::Object(fields) => JsonView::Object(
            Seq::new(
                fields@.len(),
                |i: int|
                    if 0 <= i < fields@.len() {
                        (fields[i].key@, json_view(fields[i].value))
                    } else {
                        (Seq::empty(), JsonView::Null)
                    },
            ),
        ),
    }
}

impl View for Json {
    type V = JsonView;

    open spec fn view(&self) -> JsonView {
        json_view(*self)
    }
}

/// What a list of values is.
pub open spec fn item_views(items: Seq<Json>) -> Seq<JsonView> {
    Seq::new(items.len(), |i: int| items[i]@)
}

/// What the fields of an object are.
pub open spec fn field_views(fields: Seq<JsonField>) -> Seq<(Seq<char>, JsonView)> {
    Seq::new(fields.len(), |i: int| (fields[i].key@, fields[i].value@))
}

/// A list is its items.
pub proof fn lemma_array_view(items: Vec<Json>)
    ensures
        Json::Array(items)@ == JsonView::Array(item_views(items@)),
{
    let made = Json::Array(items)@;
    assert(made->Array_0 =~= item_views(items@));
}

/// An object is its fields.
pub proof fn lemma_object_view(fields: Vec<JsonField>)
    ensures
        Json::Object(fields)@ == JsonView::Object(field_views(fields@)),
{
    let made = Json::Object(fields)@;
    assert(made->Object_0 =~= field_views(fields@));
}

impl Json {
    /// A text.
    pub fn text(s: &str) -> (r: Json)
        ensures
            r@ == JsonView::Text(s@),
    {
        Json::Text(s.to_string())
    }
}

/// An object in the making.
pub struct JsonObject {
    pub fields: Vec<JsonField>,
}

impl View for JsonObject {
    type V = Seq<(Seq<char>, JsonView)>;

    open spec fn view(&self) -> Seq<(Seq<char>, JsonView)> {
        field_views(self.fields@)
    }
}

impl JsonObject {
    /// An object without fields.
    pub fn new() -> (r: JsonObject)
        ensures
            r@ == no_fields(),
    {
        let r = JsonObject { fields: Vec::new() };
        assert(r@ =~= Seq::empty());
        r
    }

    /// The object with one more field.
    pub fn with(self, key: &str, value: Json) -> (r: JsonObject)
        ensures
            r@ == self@.push((key@, value@)),
    {
        let mut fields: Vec<JsonField> = self.fields;
        fields.push(JsonField { key: key.to_string(), value });
        let r = JsonObject { fields };
        assert(r@ =~= self@.push((key@, value@)));
        r
    }

    /// The object with one more field that is a text.
    pub fn with_text(self, key: &str, value: &str) -> (r: JsonObject)
        ensures
            r@ == self@.push((key@, JsonView::Text(value@))),
    {
        self.with(key, Json::text(value))
    }

    /// The object as a value.
    pub fn done(self) -> (r: Json)
        ensures
            r@ == JsonView::Object(self@),
    {
        proof {
            lemma_object_view(self.fields);
        }
        Json::Object(self.fields)
    }
}

/// A list in the making.
pub struct JsonArray {
    pub items: Vec<Json>,
}

impl View for JsonArray {
    type V = Seq<JsonView>;

    open spec fn view(&self) -> Seq<JsonView> {
        item_views(self.items@)
    }
}

impl JsonArray {
    /// A list without items.
    pub fn new() -> (r: JsonArray)
        ensures
            r@ == no_items(),
    {
        let r = JsonArray { items: Vec::new() };
        assert(r@ =~= Seq::empty());
        r
    }

    /// The list with one more item.
    pub fn with(self, item: Json) -> (r: JsonArray)
        ensures
            r@ == self@.push(item@),
    {
        let mut items: Vec<Json> = self.items;
        items.push(item);
        let r = JsonArray { items };
        assert(r@ =~= self@.push(item@));
        r
    }

    /// The list as a value.
    pub fn done(self) -> (r: Json)
        ensures
            r@ == JsonView::Array(self@),
    {
        proof {
            lemma_array_view(self.items);
        }
        Json::Array(self.items)
    }
}

impl Json {
    /// Another value for the same JSON.
    pub fn duplicate(&self) -> (r: Json)
        ensures
            r@ == self@,
        decreases self,
    {
        match self {
            Json::Null => Json::Null,
            Json::Bool(b) => Json::Bool(*b),
            Json::Number(n) => Json::Number(*n),
            Json::Literal(s) => Json::Literal(s.as_str().to_string()),
            Json::Text(s) => Json::Text(s.as_str().to_string()),
            Json::Array(items) => {
                let mut out: Vec<Json> = Vec::new();
                let mut i: usize = 0;
                while i < items.len()
                    invariant
                        i <= items@.len(),
                        out@.len() == i,
                        *self == Json::Array(*items),
                        forall|j: int| 0 <= j < i ==> (#[trigger] out@[j])@ == items@[j]@,
                    decreases items@.len() - i,
                {
                    assert(self->Array_0 == *items);
                    assert(decreases_to!(*items => items[i as int]));
                    out.push(items[i].duplicate());
                    i = i + 1;
                }
                proof {
                    lemma_array_view(out);
                    lemma_array_view(*items);
                    assert(item_views(out@) =~= item_views(items@));
                }
                Json::Array(out)
            },
            Json::Object(fields) => {
                let mut out: Vec<JsonField> = Vec::new();
                let mut i: usize = 0;
                while i < fields.len()
                    invariant
                        i <= fields@.len(),
                        out@.len() == i,
                        *self == Json::Object(*fields),
                        forall|j: int|
                            #![trigger out@[j]]
                            0 <= j < i ==> out@[j].key@ == fields@[j].key@ && out@[j].value@ == fields@[j].value@,
                    decreases fields@.len() - i,
                {
                    let key: String = fields[i].key.as_str().to_string();
                    assert(self->Object_0 == *fields);
                    assert(decreases_to!(*fields => fields[i as int]));
                    let value: Json = fields[i].value.duplicate();
                    out.push(JsonField { key, value });
                    i = i + 1;
                }
                proof {
                    lemma_object_view(out);
                    lemma_object_view(*fields);
                    assert(field_views(out@) =~= field_views(fields@));
                }
                Json::Object(out)
            },
        }
    }
}

/// The bytes of a JSON value: what `serde_json::to_vec` writes for it.
pub uninterp spec fn json_bytes(json: JsonView) -> Seq<u8>;

/// The text of a JSON value: what `serde_json::to_string` writes for it.
pub uninterp spec fn json_text(json: JsonView) -> Seq<char>;

/// The value as a `serde_json::Value`, kind by kind; a number that is none of
/// 64 bits is read by `serde_json`, and is null where it is no number.
#[verifier::external_body]
fn json_value(json: &Json) -> serde_json::Value {
    match json {
        Json::Null => serde_json::Value::Null,
        Json::Bool(b) => serde_json::Value::Bool(*b),
        Json::Number(n) => serde_json::Value::from(*n),
        Json::Literal(s) => serde_json::from_str::<serde_json::Number>(s).map_or(serde_json::Value::Null, Into::into),
        Json::Text(s) => serde_json::Value::String(s.clone()),
        Json::Array(items) => items.iter().map(json_value).collect(),
        Json::Object(fields) => fields.iter().map(|field| (field.key.clone(), json_value(&field.value))).collect(),
    }
}

/// `serde_json::to_vec` on the value: a function of the value, by name.
#[verifier::external_body]
pub(crate) fn to_vec(json: &Json) -> (r: Vec<u8>)
    ensures
        r@ == json_bytes(json@),
{
    serde_json::to_vec(&json_value(json)).unwrap()
}

/// `serde_json::to_string` on the value: a function of the value, by name.
#[verifier::external_body]
pub(crate) fn to_string(json: &Json) -> (r: String)
    ensures
        r@ == json_text(json@),
{
    serde_json::to_string(&json_value(json)).unwrap()
}

/// The outside type of a JSON value.
#[verifier::external_type_specification]
#[verifier::external_body]
pub struct ExValue(serde_json::Value);

} // verus!
