//! JSON values.
use crate::text;
use vstd::prelude::*;

verus! {

/// A JSON number: an integer where it is one, else its spelling.
#[derive(Debug, PartialEq, Eq)]
pub enum JsonNumber {
    Unsigned(u64),
    Negative(i64),
    Other(String),
}

/// A JSON value. The fields of an object have distinct names.
#[derive(Debug, PartialEq, Eq)]
pub enum Json {
    Null,
    Bool(bool),
    Number(JsonNumber),
    Text(String),
    Array(Vec<Json>),
    Object(Vec<(String, Json)>),
}

/// A JSON number in mathematical terms.
pub ghost enum NumberView {
    Unsigned(u64),
    Negative(i64),
    Other(Seq<char>),
}

/// A JSON value in mathematical terms.
#[verifier::ext_equal]
pub ghost enum JsonView {
    Null,
    Bool(bool),
    Number(NumberView),
    Text(Seq<char>),
    Array(Seq<JsonView>),
    Object(Seq<(Seq<char>, JsonView)>),
}

impl View for JsonNumber {
    type V = NumberView;

    open spec fn view(&self) -> NumberView {
        match *self {
            JsonNumber::Unsigned(n) => NumberView::Unsigned(n),
            JsonNumber::Negative(n) => NumberView::Negative(n),
            JsonNumber::Other(s) => NumberView::Other(s@),
        }
    }
}

/// A value in mathematical terms.
pub open spec fn json_view(value: Json) -> JsonView
    decreases value,
{
    match value {
        Json::Null => JsonView::Null,
        Json::Bool(b) => JsonView::Bool(b),
        Json::Number(n) => JsonView::Number(n@),
        Json::Text(s) => JsonView::Text(s@),
        Json::Array(items) => JsonView::Array(
            Seq::new(
                items@.len(),
                |i: int|
                    if 0 <= i < items@.len() {
                        json_view(items[i])
                    } else {
                        JsonView::Null
                    },
            ),
        ),
        Json::Object(fields) => JsonView::Object(
            Seq::new(
                fields@.len(),
                |i: int|
                    if 0 <= i < fields@.len() {
                        (fields[i].0@, json_view(fields[i].1))
                    } else {
                        (Seq::empty(), JsonView::Null)
                    },
            ),
        ),
    }
}

impl View for Json {
    type V = JsonView;

    open spec fn view(&self) -> JsonView {
        json_view(*self)
    }
}

/// Values in mathematical terms.
pub open spec fn json_views(values: Seq<Json>) -> Seq<JsonView> {
    values.map_values(|v: Json| v@)
}

/// What reading a text as JSON gives: the value, or what is wrong with the text.
pub uninterp spec fn json_parse(text: Seq<char>) -> core::result::Result<JsonView, Seq<char>>;

/// What reading bytes as JSON gives: the value, or what is wrong with the bytes.
pub uninterp spec fn json_parse_bytes(bytes: Seq<u8>) -> core::result::Result<JsonView, Seq<char>>;

/// The compact spelling of a value.
pub uninterp spec fn json_spelling(value: JsonView) -> Seq<char>;

/// The type of values of `serde_json`.
#[verifier::external_type_specification]
#[verifier::external_body]
pub struct ExValue(serde_json::Value);

/// Turns a `serde_json::Value` into a value of this library, part for part.
/// Nothing is claimed of it; `parse_json` and `parse_json_bytes` use it for their
/// results.
#[verifier::external_body]
fn import_value(value: serde_json::Value) -> (r: Json)
{
    match value {
        serde_json::Value::Null => Json::Null,
        serde_json::Value::Bool(b) => Json::Bool(b),
        serde_json::Value::Number(n) => Json::Number(match (n.as_u64(), n.as_i64()) {
            (Some(u), _) => JsonNumber::Unsigned(u),
            (None, Some(i)) => JsonNumber::Negative(i),
            _ => JsonNumber::Other(n.to_string()),
        }),
        serde_json::Value::String(s) => Json::Text(s),
        serde_json::Value::Array(a) => Json::Array(a.into_iter().map(import_value).collect()),
        serde_json::Value::Object(o) => Json::Object(o.into_iter().map(|(k, v)| (k, import_value(v))).collect()),
    }
}

/// Turns a value of this library into a `serde_json::Value`, part for part.
/// Nothing is claimed of it; `spell_json` uses it for its argument.
#[verifier::external_body]
fn export_value(value: &Json) -> (r: serde_json::Value)
{
    match value {
        Json::Null => serde_json::Value::Null,
        Json::Bool(b) => serde_json::Value::Bool(*b),
        Json::Number(JsonNumber::Unsigned(n)) => serde_json::Value::from(*n),
        Json::Number(JsonNumber::Negative(n)) => serde_json::Value::from(*n),
        Json::Number(JsonNumber::Other(s)) => serde_json::from_str(s).unwrap_or_default(),
        Json::Text(s) => serde_json::Value::String(s.clone()),
        Json::Array(a) => serde_json::Value::Array(a.iter().map(export_value).collect()),
        Json::Object(o) => serde_json::Value::Object(o.iter().map(|(k, v)| (k.clone(), export_value(v))).collect()),
    }
}

/// What was read, in mathematical terms.
pub open spec fn result_view(r: core::result::Result<Json, String>) -> core::result::Result<
    JsonView,
    Seq<char>,
> {
    match r {
        Ok(v) => Ok(v@),
        Err(e) => Err(e@),
    }
}

/// Calls `serde_json::from_str`. Claims that the value, or the error text,
/// depends on the text alone.
#[verifier::external_body]
pub(crate) fn parse_json(text: &str) -> (r: core::result::Result<Json, String>)
    ensures
        match r {
            Ok(v) => json_parse(text@) == Ok::<JsonView, Seq<char>>(v@),
            Err(m) => json_parse(text@) == Err::<JsonView, Seq<char>>(m@),
        },
{
    match serde_json::from_str::<serde_json::Value>(text) {
        Ok(value) => Ok(import_value(value)),
        Err(error) => Err(error.to_string()),
    }
}

/// Calls `serde_json::from_slice`. Claims that the value, or the error text,
/// depends on the bytes alone.
#[verifier::external_body]
pub(crate) fn parse_json_bytes(bytes: &[u8]) -> (r: core::result::Result<Json, String>)
    ensures
        match r {
            Ok(v) => json_parse_bytes(bytes@) == Ok::<JsonView, Seq<char>>(v@),
            Err(m) => json_parse_bytes(bytes@) == Err::<JsonView, Seq<char>>(m@),
        },
{
    match serde_json::from_slice::<serde_json::Value>(bytes) {
        Ok(value) => Ok(import_value(value)),
        Err(error) => Err(error.to_string()),
    }
}

/// Calls the `Display` of `serde_json::Value`, which writes compact JSON with the
/// fields of an object in the order of their names. Claims that the spelling
/// depends on the value alone.
#[verifier::external_body]
pub(crate) fn spell_json(value: &Json) -> (r: String)
    ensures
        r@ == json_spelling(value@),
{
    export_value(value).to_string()
}

/// The first of `fields` from position `from` on that is named `key`.
pub open spec fn field_from(fields: Seq<(Seq<char>, JsonView)>, key: Seq<char>, from: int) -> Option<
    JsonView,
>
    decreases fields.len() - from,
{
    if from < 0 || from >= fields.len() {
        None
    } else if fields[from].0 == key {
        Some(fields[from].1)
    } else {
        field_from(fields, key, from + 1)
    }
}

/// The field `key` of a value, where it is an object that has one.
pub open spec fn field(value: JsonView, key: Seq<char>) -> Option<JsonView> {
    match value {
        JsonView::Object(fields) => field_from(fields, key, 0),
        _ => None,
    }
}

/// The field `key` of an optional value.
pub open spec fn opt_field(value: Option<JsonView>, key: Seq<char>) -> Option<JsonView> {
    match value {
        Some(v) => field(v, key),
        None => None,
    }
}

/// The text that a value is.
pub open spec fn text_of(value: Option<JsonView>) -> Option<Seq<char>> {
    match value {
        Some(JsonView::Text(s)) => Some(s),
        _ => None,
    }
}

/// The truth value that a value is.
pub open spec fn bool_of(value: Option<JsonView>) -> Option<bool> {
    match value {
        Some(JsonView::Bool(b)) => Some(b),
        _ => None,
    }
}

/// The number that a value is, where it is one that is not negative.
pub open spec fn number_of(value: Option<JsonView>) -> Option<u64> {
    match value {
        Some(JsonView::Number(NumberView::Unsigned(n))) => Some(n),
        _ => None,
    }
}

/// The items that a value has.
pub open spec fn items_of(value: Option<JsonView>) -> Option<Seq<JsonView>> {
    match value {
        Some(JsonView::Array(items)) => Some(items),
        _ => None,
    }
}

/// The text in field `key`.
pub open spec fn text_at(value: JsonView, key: Seq<char>) -> Option<Seq<char>> {
    text_of(field(value, key))
}

/// The view of an optional value.
pub open spec fn opt_view(value: Option<&Json>) -> Option<JsonView> {
    match value {
        Some(v) => Some(v@),
        None => None,
    }
}

/// The text of an optional slice.
pub open spec fn opt_str(value: Option<&str>) -> Option<Seq<char>> {
    match value {
        Some(s) => Some(s@),
        None => None,
    }
}

impl Json {
    /// The field `key`.
    pub fn get(&self, key: &str) -> (r: Option<&Json>)
        ensures
            opt_view(r) == field(self@, key@),
    {
        match self {
            Json::Object(fields) => {
                let ghost all = self@->Object_0;
                let mut i: usize = 0;
                while i < fields.len()
                    invariant
                        i <= fields@.len(),
                        *self == Json::Object(*fields),
                        self@ == JsonView::Object(all),
                        all.len() == fields@.len(),
                        field_from(all, key@, 0) == field_from(all, key@, i as int),
                    decreases fields@.len() - i,
                {
                    proof {
                        assert(all[i as int] == (fields[i as int].0@, fields[i as int].1@));
                    }
                    if text::same_text(fields[i].0.as_str(), key) {
                        return Some(&fields[i].1);
                    }
                    i += 1;
                }
                None
            },
            _ => None,
        }
    }

    /// The text, where the value is one.
    pub fn as_str(&self) -> (r: Option<&str>)
        ensures
            opt_str(r) == text_of(Some(self@)),
    {
        match self {
            Json::Text(s) => Some(s.as_str()),
            _ => None,
        }
    }

    /// The number, where the value is a natural number.
    pub fn as_u64(&self) -> (r: Option<u64>)
        ensures
            r == number_of(Some(self@)),
    {
        match self {
            Json::Number(JsonNumber::Unsigned(n)) => Some(*n),
            _ => None,
        }
    }

    /// The items, where the value is an array.
    pub fn as_array(&self) -> (r: Option<&Vec<Json>>)
        ensures
            match r {
                Some(items) => self@ == JsonView::Array(json_views(items@)),
                None => !(self@ is Array),
            },
    {
        match self {
            Json::Array(items) => {
                proof {
                    assert(self@->Array_0 =~= json_views(items@));
                }
                Some(items)
            },
            _ => None,
        }
    }

    /// The truth value that this is.
    pub fn as_bool(&self) -> (r: Option<bool>)
        ensures
            r == bool_of(Some(self@)),
    {
        match self {
            Json::Bool(b) => Some(*b),
            _ => None,
        }
    }

    /// Whether this is an object.
    pub fn is_object(&self) -> (r: bool)
        ensures
            r == self@ is Object,
    {
        matches!(self, Json::Object(_))
    }

    /// The text in field `key`.
    pub fn get_str(&self, key: &str) -> (r: Option<&str>)
        ensures
            opt_str(r) == text_at(self@, key@),
    {
        match self.get(key) {
            Some(v) => v.as_str(),
            None => None,
        }
    }

    /// The number in field `key`.
    pub fn get_u64(&self, key: &str) -> (r: Option<u64>)
        ensures
            r == number_of(field(self@, key@)),
    {
        match self.get(key) {
            Some(v) => v.as_u64(),
            None => None,
        }
    }

    /// The items in field `key`.
    pub fn get_array(&self, key: &str) -> (r: Option<&Vec<Json>>)
        ensures
            match r {
                Some(items) => items_of(field(self@, key@)) == Some(json_views(items@)),
                None => items_of(field(self@, key@)) is None,
            },
    {
        match self.get(key) {
            Some(v) => v.as_array(),
            None => None,
        }
    }

    /// A text value.
    pub fn text(s: &str) -> (r: Json)
        ensures
            r@ == JsonView::Text(s@),
    {
        Json::Text(text::owned(s))
    }
}

fn clone_number(n: &JsonNumber) -> (r: JsonNumber)
    ensures
        r@ == n@,
{
    match n {
        JsonNumber::Unsigned(u) => JsonNumber::Unsigned(*u),
        JsonNumber::Negative(i) => JsonNumber::Negative(*i),
        JsonNumber::Other(s) => JsonNumber::Other(text::owned(s.as_str())),
    }
}

impl Clone for Json {
    fn clone(&self) -> (r: Json)
        ensures
            r@ == self@,
        decreases self,
    {
        match self {
            Json::Null => Json::Null,
            Json::Bool(b) => Json::Bool(*b),
            Json::Number(n) => Json::Number(clone_number(n)),
            Json::Text(s) => Json::Text(text::owned(s.as_str())),
            Json::Array(items) => {
                let mut out: Vec<Json> = Vec::new();
                let mut i: usize = 0;
                while i < items.len()
                    invariant
                        i <= items@.len(),
                        *self == Json::Array(*items),
                        out@.len() == i,
                        forall|j: int| 0 <= j < i ==> (#[trigger] out@[j])@ == items@[j]@,
                    decreases items@.len() - i,
                {
                    proof {
                        assert(decreases_to!(*self => self->Array_0));
                        assert(decreases_to!(self->Array_0 => self->Array_0[i as int]));
                    }
                    out.push(items[i].clone());
                    i += 1;
                }
                let r = Json::Array(out);
                proof {
                    assert(r@->Array_0 =~= self@->Array_0);
                }
                r
            },
            Json::Object(fields) => {
                let mut out: Vec<(String, Json)> = Vec::new();
                let mut i: usize = 0;
                while i < fields.len()
                    invariant
                        i <= fields@.len(),
                        *self == Json::Object(*fields),
                        out@.len() == i,
                        forall|j: int|
                            0 <= j < i ==> (#[trigger] out@[j]).0@ == fields@[j].0@ && out@[j].1@
                                == fields@[j].1@,
                    decreases fields@.len() - i,
                {
                    proof {
                        assert(decreases_to!(*self => self->Object_0));
                        assert(decreases_to!(self->Object_0 => self->Object_0[i as int]));
                        assert(decreases_to!(self->Object_0[i as int] => self->Object_0[i as int].1));
                    }
                    out.push((text::owned(fields[i].0.as_str()), fields[i].1.clone()));
                    i += 1;
                }
                let r = Json::Object(out);
                proof {
                    assert(r@->Object_0 =~= self@->Object_0);
                }
                r
            },
        }
    }
}

/// `fields` with `key` set to `value`, in its place or at the end.
pub open spec fn with_field(
    fields: Seq<(Seq<char>, JsonView)>,
    key: Seq<char>,
    value: JsonView,
) -> Seq<(Seq<char>, JsonView)>
    decreases fields.len(),
{
    if fields.len() == 0 {
        seq![(key, value)]
    } else if fields[0].0 == key {
        seq![(key, value)] + fields.drop_first()
    } else {
        seq![fields[0]] + with_field(fields.drop_first(), key, value)
    }
}

/// The views of the fields of an object.
pub open spec fn field_views(fields: Seq<(String, Json)>) -> Seq<(Seq<char>, JsonView)> {
    fields.map_values(|f: (String, Json)| (f.0@, f.1@))
}

/// An object with the given fields.
pub fn object(fields: Vec<(String, Json)>) -> (r: Json)
    ensures
        r@ == JsonView::Object(field_views(fields@)),
{
    let r = Json::Object(fields);
    proof {
        assert(r@->Object_0 =~= field_views(fields@));
    }
    r
}

/// An array of the given items.
pub fn array(items: Vec<Json>) -> (r: Json)
    ensures
        r@ == JsonView::Array(json_views(items@)),
{
    let r = Json::Array(items);
    proof {
        assert(r@->Array_0 =~= json_views(items@));
    }
    r
}

/// Sets field `key` among `fields`.
pub fn set_field(fields: &mut Vec<(String, Json)>, key: &str, value: Json)
    ensures
        field_views(final(fields)@) == with_field(field_views(old(fields)@), key@, value@),
{
    let ghost all = field_views(fields@);
    let ghost v = value@;
    let mut i: usize = 0;
    proof {
        assert(all.skip(0) =~= all);
        assert(all.take(0) + with_field(all, key@, v) =~= with_field(all, key@, v));
    }
    while i < fields.len() && !text::same_text(fields[i].0.as_str(), key)
        invariant
            i <= fields@.len(),
            all == field_views(fields@),
            v == value@,
            with_field(all, key@, v) == all.take(i as int) + with_field(
                all.skip(i as int),
                key@,
                v,
            ),
        decreases fields@.len() - i,
    {
        proof {
            let rest = all.skip(i as int);
            assert(rest[0] == all[i as int]);
            assert(rest.drop_first() =~= all.skip(i + 1));
            assert(all.take(i as int) + (seq![rest[0]] + with_field(rest.drop_first(), key@, v))
                =~= all.take(i + 1) + with_field(all.skip(i + 1), key@, v));
        }
        i += 1;
    }
    if i < fields.len() {
        proof {
            let rest = all.skip(i as int);
            assert(rest[0] == all[i as int]);
            assert(all.take(i as int) + (seq![(key@, v)] + rest.drop_first()) =~= all.update(
                i as int,
                (key@, v),
            ));
        }
        fields.set(i, (text::owned(key), value));
        proof {
            assert(field_views(fields@) =~= all.update(i as int, (key@, v)));
        }
    } else {
        proof {
            assert(all.skip(i as int) =~= Seq::empty());
            assert(all.take(i as int) + seq![(key@, v)] =~= all.push((key@, v)));
        }
        fields.push((text::owned(key), value));
        proof {
            assert(field_views(fields@) =~= all.push((key@, v)));
        }
    }
}

/// An object that is put together field by field.
pub struct ObjectBuilder {
    pub fields: Vec<(String, Json)>,
}

impl ObjectBuilder {
    pub open spec fn view(&self) -> Seq<(Seq<char>, JsonView)> {
        field_views(self.fields@)
    }

    pub fn new() -> (r: Self)
        ensures
            r@ == Seq::<(Seq<char>, JsonView)>::empty(),
    {
        let r = ObjectBuilder { fields: Vec::new() };
        proof {
            assert(r@ =~= Seq::empty());
        }
        r
    }

    /// Adds a field.
    pub fn with(self, key: &str, value: Json) -> (r: Self)
        ensures
            r@ == self@.push((key@, value@)),
    {
        let ghost before = self@;
        let ghost pair = (key@, value@);
        let mut fields = self.fields;
        fields.push((text::owned(key), value));
        let r = ObjectBuilder { fields };
        proof {
            assert(r@ =~= before.push(pair));
        }
        r
    }

    /// The object.
    pub fn done(self) -> (r: Json)
        ensures
            r@ == JsonView::Object(self@),
    {
        object(self.fields)
    }
}

/// An array of texts.
pub fn text_array(items: &[&str]) -> (r: Json)
    ensures
        r@ == JsonView::Array(Seq::new(items@.len(), |i: int| JsonView::Text(items@[i]@))),
{
    let mut out: Vec<Json> = Vec::new();
    let mut i: usize = 0;
    while i < items.len()
        invariant
            i <= items@.len(),
            out@.len() == i,
            forall|j: int| 0 <= j < i ==> (#[trigger] out@[j])@ == JsonView::Text(items@[j]@),
        decreases items@.len() - i,
    {
        out.push(Json::text(items[i]));
        i += 1;
    }
    proof {
        assert(json_views(out@) =~= Seq::new(items@.len(), |i: int| JsonView::Text(items@[i]@)));
    }
    array(out)
}

// ---------------------------------------------------------------------------
// Schemas
// ---------------------------------------------------------------------------

/// Texts as an array.
pub open spec fn texts_view(list: Seq<Seq<char>>) -> JsonView {
    JsonView::Array(list.map_values(|t: Seq<char>| JsonView::Text(t)))
}

/// The schema of a text.
pub open spec fn string_type() -> JsonView {
    JsonView::Object(seq![("type"@, JsonView::Text("string"@))])
}

/// The schema of a text with a description.
pub open spec fn described_string(description: Seq<char>) -> JsonView {
    JsonView::Object(
        seq![
            ("type"@, JsonView::Text("string"@)),
            ("description"@, JsonView::Text(description)),
        ],
    )
}

/// The schema of an object.
pub open spec fn object_type(
    properties: Seq<(Seq<char>, JsonView)>,
    required: Seq<Seq<char>>,
) -> JsonView {
    JsonView::Object(
        seq![
            ("type"@, JsonView::Text("object"@)),
            ("properties"@, JsonView::Object(properties)),
            ("required"@, texts_view(required)),
        ],
    )
}

/// The schema of a text.
pub fn string_schema() -> (r: Json)
    ensures
        r@ == string_type(),
{
    let fields = ObjectBuilder::new().with("type", Json::text("string"));
    proof {
        assert(fields@ =~= string_type()->Object_0);
    }
    fields.done()
}

/// The schema of a text with a description.
pub fn described_string_schema(description: &str) -> (r: Json)
    ensures
        r@ == described_string(description@),
{
    let fields = ObjectBuilder::new().with("type", Json::text("string")).with(
        "description",
        Json::text(description),
    );
    proof {
        assert(fields@ =~= described_string(description@)->Object_0);
    }
    fields.done()
}

/// The schema of an object.
pub fn object_schema(properties: ObjectBuilder, required: &[&str]) -> (r: Json)
    ensures
        r@ == object_type(properties@, crate::text::slice_texts(required@)),
{
    let names = text_array(required);
    let ghost wanted = object_type(properties@, crate::text::slice_texts(required@))->Object_0;
    proof {
        assert(names@->Array_0 =~= texts_view(crate::text::slice_texts(required@))->Array_0);
    }
    let fields = ObjectBuilder::new().with("type", Json::text("object")).with(
        "properties",
        properties.done(),
    ).with("required", names);
    proof {
        assert(fields@ =~= wanted);
    }
    fields.done()
}

// ---------------------------------------------------------------------------
// Laws
// ---------------------------------------------------------------------------

/// A field is found under its name, at the first place where the name stands; a name
/// that no field has is not found, and only an object has fields.
pub proof fn law_fields_are_found(
    before: Seq<(Seq<char>, JsonView)>,
    key: Seq<char>,
    value: JsonView,
    after: Seq<(Seq<char>, JsonView)>,
    items: Seq<JsonView>,
    s: Seq<char>,
)
    requires
        forall|i: int| 0 <= i < before.len() ==> (#[trigger] before[i]).0 != key,
    ensures
        field(JsonView::Object(before.push((key, value)) + after), key) == Some(value),
        field(JsonView::Object(before), key) is None,
        field(JsonView::Array(items), key) is None,
        field(JsonView::Text(s), key) is None,
        field(JsonView::Null, key) is None,
{
    lemma_field_at(before.push((key, value)) + after, key, 0, before.len() as int);
    lemma_field_at(before, key, 0, before.len() as int);
}

proof fn lemma_field_at(fields: Seq<(Seq<char>, JsonView)>, key: Seq<char>, from: int, at: int)
    requires
        0 <= from <= at <= fields.len(),
        forall|i: int| from <= i < at ==> (#[trigger] fields[i]).0 != key,
        at < fields.len() ==> fields[at].0 == key,
    ensures
        field_from(fields, key, from) == (if at < fields.len() {
            Some(fields[at].1)
        } else {
            None
        }),
    decreases at - from,
{
    if from < at {
        assert(fields[from].0 != key);
        lemma_field_at(fields, key, from + 1, at);
    }
}

/// A field that is set has its new value, and every other field keeps the one it has.
pub proof fn law_setting_a_field_keeps_the_others(
    fields: Seq<(Seq<char>, JsonView)>,
    key: Seq<char>,
    value: JsonView,
    other: Seq<char>,
)
    ensures
        field(JsonView::Object(with_field(fields, key, value)), key) == Some(value),
        other != key ==> field(JsonView::Object(with_field(fields, key, value)), other) == field(
            JsonView::Object(fields),
            other,
        ),
        field(JsonView::Object(fields), key) is Some ==> with_field(fields, key, value).len()
            == fields.len(),
    decreases fields.len(),
{
    let new = with_field(fields, key, value);
    if fields.len() == 0 {
        assert(field_from(new, other, 1) is None);
    } else {
        let rest = fields.drop_first();
        law_setting_a_field_keeps_the_others(rest, key, value, other);
        lemma_field_shift(fields, key, 1);
        lemma_field_shift(fields, other, 1);
        lemma_field_shift(new, key, 1);
        lemma_field_shift(new, other, 1);
        if fields[0].0 == key {
            assert(new.drop_first() =~= rest);
        } else {
            assert(new.drop_first() =~= with_field(rest, key, value));
        }
    }
}

proof fn lemma_field_shift(fields: Seq<(Seq<char>, JsonView)>, key: Seq<char>, from: int)
    requires
        fields.len() > 0,
        from >= 1,
    ensures
        field_from(fields, key, from) == field_from(fields.drop_first(), key, from - 1),
    decreases fields.len() - from,
{
    if from < fields.len() {
        assert(fields.drop_first()[from - 1] == fields[from]);
        lemma_field_shift(fields, key, from + 1);
    }
}

/// A value is read as what it is, and as nothing else.
pub proof fn law_values_are_told_apart(
    s: Seq<char>,
    b: bool,
    n: u64,
    items: Seq<JsonView>,
    fields: Seq<(Seq<char>, JsonView)>,
    key: Seq<char>,
)
    ensures
        text_of(Some(JsonView::Text(s))) == Some(s),
        bool_of(Some(JsonView::Bool(b))) == Some(b),
        number_of(Some(JsonView::Number(NumberView::Unsigned(n)))) == Some(n),
        items_of(Some(JsonView::Array(items))) == Some(items),
        opt_field(Some(JsonView::Object(fields)), key) == field(JsonView::Object(fields), key),
        opt_field(None, key) is None,
        text_of(None) is None && bool_of(None) is None && number_of(None) is None && items_of(
            None,
        ) is None,
        text_of(Some(JsonView::Bool(b))) is None,
        text_of(Some(JsonView::Null)) is None,
        text_of(Some(JsonView::Number(NumberView::Unsigned(n)))) is None,
        bool_of(Some(JsonView::Text(s))) is None,
        bool_of(Some(JsonView::Null)) is None,
        number_of(Some(JsonView::Text(s))) is None,
        number_of(Some(JsonView::Null)) is None,
        items_of(Some(JsonView::Text(s))) is None,
        items_of(Some(JsonView::Object(fields))) is None,
{
}

/// A value of the library shows what it holds, and its parts in their order.
pub proof fn law_values_show_what_they_hold(value: Json, i: int)
    ensures
        value matches Json::Text(s) ==> value@ == JsonView::Text(s@),
        value matches Json::Bool(b) ==> value@ == JsonView::Bool(b),
        value is Null <==> value@ is Null,
        value matches Json::Array(items) ==> value@ is Array && value@->Array_0.len()
            == items@.len() && (0 <= i < items@.len() ==> value@->Array_0[i] == items@[i]@),
        value matches Json::Object(fields) ==> value@ is Object && value@->Object_0.len()
            == fields@.len() && (0 <= i < fields@.len() ==> value@->Object_0[i] == (
            fields@[i].0@,
            fields@[i].1@,
        )),
{
}

} // verus!
