//! JSON values as plain data.

use crate::numbers::{read_tenths, tenths_of, within_most};
use crate::seqs::{first_where, lemma_first_where, lemma_first_where_is};
use crate::text::same_text;
use vstd::prelude::*;

verus! {

/// A JSON value. A number that is no integer is kept as it is written.
#[derive(Debug)]
pub enum Json {
    Null,
    Bool(bool),
    Unsigned(u64),
    Negative(i64),
    Real(String),
    Str(String),
    Array(Vec<Json>),
    Object(Vec<(String, Json)>),
}

/// What a JSON value is, as a mathematical value.
#[verifier::ext_equal]
pub enum JsonView {
    Null,
    Bool(bool),
    Unsigned(u64),
    Negative(i64),
    Real(Seq<char>),
    Str(Seq<char>),
    Array(Seq<JsonView>),
    Object(Seq<(Seq<char>, JsonView)>),
}

impl Json {
    pub open spec fn model(&self) -> JsonView
        decreases self,
    {
        match self {
            Json::Null => JsonView::Null,
            Json::Bool(b) => JsonView::Bool(*b),
            Json::Unsigned(n) => JsonView::Unsigned(*n),
            Json::Negative(n) => JsonView::Negative(*n),
            Json::Real(text) => JsonView::Real(text@),
            Json::Str(s) => JsonView::Str(s@),
            Json::Array(items) => JsonView::Array(
                Seq::new(
                    items@.len(),
                    |i: int|
                        if 0 <= i < items@.len() {
                            items@[i].model()
                        } else {
                            arbitrary()
                        },
                ),
            ),
            Json::Object(entries) => JsonView::Object(
                Seq::new(
                    entries@.len(),
                    |i: int|
                        if 0 <= i < entries@.len() {
                            (entries@[i].0@, entries@[i].1.model())
                        } else {
                            arbitrary()
                        },
                ),
            ),
        }
    }
}

impl DeepView for Json {
    type V = JsonView;

    open spec fn deep_view(&self) -> JsonView {
        self.model()
    }
}

/// The items of an array's model are the models of its items.
pub proof fn lemma_items(items: &Vec<Json>)
    ensures
        Json::Array(*items).model() == JsonView::Array(items.deep_view()),
{
    assert(Json::Array(*items).model()->Array_0 =~= items.deep_view());
}

/// The entries of an object's model are the models of its entries.
pub proof fn lemma_entries(entries: &Vec<(String, Json)>)
    ensures
        Json::Object(*entries).model() == JsonView::Object(entries.deep_view()),
{
    assert(Json::Object(*entries).model()->Object_0 =~= entries.deep_view());
}

pub open spec fn json_key_test(key: Seq<char>) -> spec_fn((Seq<char>, JsonView)) -> bool {
    |entry: (Seq<char>, JsonView)| entry.0 == key
}

impl JsonView {
    /// The value that stands with a key, in an object that has the key.
    pub open spec fn field(self, key: Seq<char>) -> Option<JsonView> {
        match self {
            JsonView::Object(entries) => {
                let at = first_where(entries, json_key_test(key));
                if at < entries.len() {
                    Some(entries[at].1)
                } else {
                    None
                }
            },
            _ => None,
        }
    }

    /// The object with one more entry behind the others.
    pub open spec fn plus(self, key: Seq<char>, value: JsonView) -> JsonView {
        match self {
            JsonView::Object(entries) => JsonView::Object(entries.push((key, value))),
            _ => self,
        }
    }

    /// The text that a string holds.
    pub open spec fn text(self) -> Option<Seq<char>> {
        match self {
            JsonView::Str(s) => Some(s),
            _ => None,
        }
    }

    /// The text that stands with a key.
    pub open spec fn text_field(self, key: Seq<char>) -> Option<Seq<char>> {
        match self.field(key) {
            Some(value) => value.text(),
            None => None,
        }
    }

    /// The number that stands with a key, where it is an integer that is not
    /// negative.
    pub open spec fn unsigned_field(self, key: Seq<char>) -> Option<u64> {
        match self.field(key) {
            Some(JsonView::Unsigned(n)) => Some(n),
            _ => None,
        }
    }

    /// Whether `true` stands with a key.
    pub open spec fn flag_field(self, key: Seq<char>) -> bool {
        self.field(key) == Some(JsonView::Bool(true))
    }

    /// The whole tenths of the number that stands with a key; 0, if none
    /// does.
    pub open spec fn tenths_field(self, key: Seq<char>) -> int {
        match self.field(key) {
            Some(JsonView::Unsigned(n)) => 10 * n,
            Some(JsonView::Negative(n)) => 10 * n,
            Some(JsonView::Real(text)) => within_most(tenths_of(text)),
            _ => 0,
        }
    }
}

/// The object without entries.
pub open spec fn empty_object() -> JsonView {
    JsonView::Object(Seq::empty())
}

/// A string.
pub open spec fn json_str(s: Seq<char>) -> JsonView {
    JsonView::Str(s)
}

impl Json {
    /// An object without entries.
    pub fn object() -> (json: Json)
        ensures
            json.deep_view() == empty_object(),
    {
        let json = Json::Object(Vec::new());
        assert(json.model()->Object_0 =~= Seq::empty());
        json
    }

    /// The object with one more entry behind the others.
    pub fn with(self, key: &str, value: Json) -> (json: Json)
        ensures
            json.deep_view() == self.deep_view().plus(key@, value.deep_view()),
    {
        match self {
            Json::Object(entries) => {
                let ghost before = entries.deep_view();
                proof {
                    lemma_entries(&entries);
                }
                let mut entries = entries;
                entries.push((key.to_owned(), value));
                proof {
                    lemma_entries(&entries);
                    assert(entries.deep_view() =~= before.push((key@, value.deep_view())));
                }
                Json::Object(entries)
            },
            other => other,
        }
    }

    /// A string.
    pub fn string(s: &str) -> (json: Json)
        ensures
            json.deep_view() == json_str(s@),
    {
        Json::Str(s.to_owned())
    }

    /// An array.
    pub fn array(items: Vec<Json>) -> (json: Json)
        ensures
            json.deep_view() == JsonView::Array(items.deep_view()),
    {
        proof {
            lemma_items(&items);
        }
        Json::Array(items)
    }

    /// An array of strings.
    pub fn strings(texts: &Vec<String>) -> (json: Json)
        ensures
            json.deep_view() == json_strings(texts.deep_view()),
    {
        let mut items: Vec<Json> = Vec::new();
        for i in 0..texts.len()
            invariant
                items@.len() == i,
                forall|k: int|
                    0 <= k < i ==> (#[trigger] items@[k]).deep_view() == json_str(texts@[k]@),
        {
            items.push(Json::string(texts[i].as_str()));
        }
        assert(items.deep_view() =~= texts.deep_view().map_values(|s: Seq<char>| json_str(s)));
        Json::array(items)
    }

    /// A string, or null where there is none.
    pub fn optional_string(text: &Option<String>) -> (json: Json)
        ensures
            json.deep_view() == json_optional(text.deep_view()),
    {
        match text {
            Some(text) => Json::string(text.as_str()),
            None => Json::Null,
        }
    }

    /// The value that stands with a key.
    pub fn get(&self, key: &str) -> (found: Option<&Json>)
        ensures
            found.deep_view() == self.deep_view().field(key@),
    {
        match self {
            Json::Object(entries) => {
                let ghost test = json_key_test(key@);
                proof {
                    lemma_entries(entries);
                }
                for i in 0..entries.len()
                    invariant
                        test == json_key_test(key@),
                        self.deep_view() == JsonView::Object(entries.deep_view()),
                        forall|k: int| 0 <= k < i ==> !test(#[trigger] entries.deep_view()[k]),
                {
                    assert(entries.deep_view()[i as int] == entries@[i as int].deep_view());
                    if same_text(entries[i].0.as_str(), key) {
                        proof {
                            lemma_first_where_is(entries.deep_view(), test, i as int);
                        }
                        return Some(&entries[i].1);
                    }
                }
                proof {
                    lemma_first_where_is(entries.deep_view(), test, entries@.len() as int);
                }
                None
            },
            _ => None,
        }
    }

    /// The text that a string holds.
    pub fn as_str(&self) -> (text: Option<&str>)
        ensures
            text.deep_view() == self.deep_view().text(),
    {
        match self {
            Json::Str(s) => Some(s.as_str()),
            _ => None,
        }
    }

    /// The text that stands with a key.
    pub fn get_str(&self, key: &str) -> (text: Option<&str>)
        ensures
            text.deep_view() == self.deep_view().text_field(key@),
    {
        match self.get(key) {
            Some(value) => value.as_str(),
            None => None,
        }
    }

    /// The number that stands with a key, where it is an integer that is not
    /// negative.
    pub fn get_u64(&self, key: &str) -> (number: Option<u64>)
        ensures
            number == self.deep_view().unsigned_field(key@),
    {
        match self.get(key) {
            Some(Json::Unsigned(n)) => Some(*n),
            _ => None,
        }
    }

    /// Whether `true` stands with a key.
    pub fn get_flag(&self, key: &str) -> (yes: bool)
        ensures
            yes == self.deep_view().flag_field(key@),
    {
        match self.get(key) {
            Some(Json::Bool(b)) => *b,
            _ => false,
        }
    }

    /// The whole tenths of the number that stands with a key; 0, if none
    /// does.
    pub fn get_tenths(&self, key: &str) -> (tenths: i128)
        ensures
            tenths == self.deep_view().tenths_field(key@),
    {
        match self.get(key) {
            Some(Json::Unsigned(n)) => 10 * (*n as i128),
            Some(Json::Negative(n)) => 10 * (*n as i128),
            Some(Json::Real(text)) => read_tenths(text.as_str()),
            _ => 0,
        }
    }
}

impl Clone for Json {
    fn clone(&self) -> (copy: Self)
        ensures
            copy.deep_view() == self.deep_view(),
        decreases self,
    {
        match self {
            Json::Null => Json::Null,
            Json::Bool(b) => Json::Bool(*b),
            Json::Unsigned(n) => Json::Unsigned(*n),
            Json::Negative(n) => Json::Negative(*n),
            Json::Real(text) => Json::Real(text.clone()),
            Json::Str(s) => Json::Str(s.clone()),
            Json::Array(items) => {
                let mut copies: Vec<Json> = Vec::new();
                for i in 0..items.len()
                    invariant
                        *self == Json::Array(*items),
                        copies@.len() == i,
                        forall|k: int|
                            0 <= k < i ==> #[trigger] copies@[k].model() == items@[k].model(),
                {
                    assert(decreases_to!(*self => self->Array_0@[i as int]));
                    copies.push(items[i].clone());
                }
                proof {
                    lemma_items(items);
                    lemma_items(&copies);
                    assert(copies.deep_view() =~= items.deep_view());
                }
                Json::Array(copies)
            },
            Json::Object(entries) => {
                let mut copies: Vec<(String, Json)> = Vec::new();
                for i in 0..entries.len()
                    invariant
                        *self == Json::Object(*entries),
                        copies@.len() == i,
                        forall|k: int|
                            0 <= k < i ==> (#[trigger] copies@[k]).deep_view()
                                == entries@[k].deep_view(),
                {
                    assert(decreases_to!(*self => self->Object_0@[i as int]));
                    copies.push((entries[i].0.clone(), entries[i].1.clone()));
                }
                proof {
                    lemma_entries(entries);
                    lemma_entries(&copies);
                    assert(copies.deep_view() =~= entries.deep_view());
                }
                Json::Object(copies)
            },
        }
    }
}

/// An array of strings.
pub open spec fn json_strings(texts: Seq<Seq<char>>) -> JsonView {
    JsonView::Array(texts.map_values(|s: Seq<char>| json_str(s)))
}

/// A string, or null where there is none.
pub open spec fn json_optional(text: Option<Seq<char>>) -> JsonView {
    match text {
        Some(text) => json_str(text),
        None => JsonView::Null,
    }
}

/// How a value is written, without white space.
pub uninterp spec fn json_written(value: JsonView) -> Seq<char>;

/// A value of `serde_json`: opaque here.
#[verifier::external_type_specification]
#[verifier::external_body]
pub struct ExValue(serde_json::Value);

/// The converting half of [`json_text`]: turns a value into one of
/// `serde_json`, one for one. Nothing is claimed of the result.
#[verifier::external_body]
fn plain_value(json: &Json) -> serde_json::Value {
    match json {
        Json::Null => serde_json::Value::Null,
        Json::Bool(b) => serde_json::Value::from(*b),
        Json::Unsigned(n) => serde_json::Value::from(*n),
        Json::Negative(n) => serde_json::Value::from(*n),
        Json::Real(text) => serde_json::from_str(text).unwrap_or_default(),
        Json::Str(s) => serde_json::Value::from(s.as_str()),
        Json::Array(items) => items.iter().map(plain_value).collect(),
        Json::Object(entries) => entries.iter().map(|(k, v)| (k.clone(), plain_value(v))).collect(),
    }
}

/// Calls `serde_json::Value::to_string`. What comes back depends on the
/// value alone.
#[verifier::external_body]
pub(crate) fn json_text(json: &Json) -> (text: String)
    ensures
        text@ == json_written(json.deep_view()),
{
    plain_value(json).to_string()
}

/// Writes a value without white space.
pub fn write_json(json: &Json) -> (text: String)
    ensures
        text@ == json_written(json.deep_view()),
{
    json_text(json)
}

/// The value that a text writes down, or why it is none.
pub uninterp spec fn json_parsed(text: Seq<char>) -> Result<JsonView, Seq<char>>;

/// The converting half of [`parse_json`]: turns a value of `serde_json` into
/// one of the library, one for one. Nothing is claimed of the result.
#[verifier::external_body]
fn own_value(value: &serde_json::Value) -> Json {
    match value {
        serde_json::Value::Null => Json::Null,
        serde_json::Value::Bool(b) => Json::Bool(*b),
        serde_json::Value::Number(n) => n.as_u64().map(Json::Unsigned).or(n.as_i64().map(Json::Negative)).unwrap_or(Json::Real(n.to_string())),
        serde_json::Value::String(s) => Json::Str(s.clone()),
        serde_json::Value::Array(items) => Json::Array(items.iter().map(own_value).collect()),
        serde_json::Value::Object(entries) => Json::Object(entries.iter().map(|(k, v)| (k.clone(), own_value(v))).collect()),
    }
}

/// Calls `serde_json::from_str` for a `serde_json::Value`. What comes back,
/// be it the value or the error in words, depends on the text alone.
#[verifier::external_body]
pub(crate) fn parse_json(text: &str) -> (json: Result<Json, String>)
    ensures
        match json {
            Ok(json) => json_parsed(text@) == Ok::<JsonView, Seq<char>>(json.deep_view()),
            Err(error) => json_parsed(text@) == Err::<JsonView, Seq<char>>(error@),
        },
{
    match serde_json::from_str(text) {
        Ok(value) => Ok(own_value(&value)),
        Err(error) => Err(error.to_string()),
    }
}

/// What stands with a key in an object is what stands with its first entry
/// of that key; without such an entry, and in anything but an object, there
/// is nothing.
pub proof fn law_field_is_the_first_of_its_key(
    entries: Seq<(Seq<char>, JsonView)>,
    key: Seq<char>,
    at: int,
)
    requires
        0 <= at <= entries.len(),
        forall|k: int| 0 <= k < at ==> (#[trigger] entries[k]).0 != key,
        at < entries.len() ==> entries[at].0 == key,
    ensures
        JsonView::Object(entries).field(key) == if at < entries.len() {
            Some(entries[at].1)
        } else {
            None
        },
{
    lemma_first_where_is(entries, json_key_test(key), at);
}

/// An object with one more entry has what it had before, and what the entry
/// holds under its key, unless there was something under it already.
pub proof fn law_entries_are_kept(
    entries: Seq<(Seq<char>, JsonView)>,
    added: Seq<char>,
    value: JsonView,
    key: Seq<char>,
)
    ensures
        JsonView::Object(entries).plus(added, value).field(key) == match JsonView::Object(
            entries,
        ).field(key) {
            Some(held) => Some(held),
            None => if key == added {
                Some(value)
            } else {
                None
            },
        },
        empty_object().field(key) is None,
{
    let test = json_key_test(key);
    let at = first_where(entries, test);
    let more = entries.push((added, value));
    lemma_first_where(entries, test);
    if at < entries.len() {
        assert forall|k: int| 0 <= k < at implies !test(#[trigger] more[k]) by {
            assert(more[k] == entries[k]);
        }
        lemma_first_where_is(more, test, at);
    } else {
        assert forall|k: int| 0 <= k < entries.len() implies !test(#[trigger] more[k]) by {
            assert(more[k] == entries[k]);
        }
        if key == added {
            lemma_first_where_is(more, test, entries.len() as int);
        } else {
            lemma_first_where_is(more, test, more.len() as int);
        }
    }
    lemma_first_where_is(Seq::<(Seq<char>, JsonView)>::empty(), test, 0);
}

/// What stands with a key is read by its kind: a text only where a string
/// stands there, a number only where one stands that is whole and not
/// negative, a flag only where `true` stands.
pub proof fn law_fields_are_read_by_kind(
    json: JsonView,
    key: Seq<char>,
    text: Seq<char>,
    n: u64,
    negative: i64,
)
    ensures
        json.text_field(key) == Some(text) <==> json.field(key) == Some(JsonView::Str(text)),
        json.unsigned_field(key) == Some(n) <==> json.field(key) == Some(JsonView::Unsigned(n)),
        json.flag_field(key) <==> json.field(key) == Some(JsonView::Bool(true)),
        json.field(key) == Some(JsonView::Unsigned(n)) ==> json.tenths_field(key) == 10 * n,
        json.field(key) == Some(JsonView::Negative(negative)) ==> json.tenths_field(key) == 10
            * negative,
        json.field(key) is None ==> json.tenths_field(key) == 0,
        !(json is Object) ==> json.field(key) is None,
{
}

/// A number with a point or an exponent is read as its whole tenths, as far
/// as they are told apart.
pub proof fn law_real_numbers_are_read_in_tenths(json: JsonView, key: Seq<char>, text: Seq<char>)
    requires
        json.field(key) == Some(JsonView::Real(text)),
    ensures
        ({
            let most: int = 1000000000000000000000000000000;
            let tenths = tenths_of(text);
            &&& -most <= tenths <= most ==> json.tenths_field(key) == tenths
            &&& tenths > most ==> json.tenths_field(key) == most
            &&& tenths < -most ==> json.tenths_field(key) == -most
        }),
{
}

} // verus!
