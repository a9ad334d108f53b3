//! JSON documents as values of this library.

use vstd::prelude::*;
use crate::table::{key_index_from, value_of};

verus! {

/// A JSON value. A number is kept as its text; the members of an object are
/// kept in the order in which the document's reader hands them out.
#[derive(Debug)]
pub enum JsonValue {
    Null,
    Bool(bool),
    Number(String),
    Text(String),
    Array(Vec<JsonValue>),
    Object(Vec<(String, JsonValue)>),
}

/// A `JsonValue` as plain values.
pub enum JsonView {
    Null,
    Bool(bool),
    Number(Seq<char>),
    Text(Seq<char>),
    Array(Seq<JsonView>),
    Object(Seq<(Seq<char>, JsonView)>),
}

/// The plain value that a `JsonValue` holds.
pub open spec fn json_view(value: JsonValue) -> JsonView
    decreases value,
{
    match value {
        JsonValue::Null => JsonView::Null,
        JsonValue::Bool(b) => JsonView::Bool(b),
        JsonValue::Number(n) => JsonView::Number(n@),
        JsonValue::Text(s) => JsonView::Text(s@),
        JsonValue::Array(items) => JsonView::Array(
            Seq::new(
                items@.len(),
                |i: int|
                    if 0 <= i < items@.len() {
                        json_view(items@[i])
                    } else {
                        JsonView::Null
                    },
            ),
        ),
        JsonValue::Object(members) => JsonView::Object(
            Seq::new(
                members@.len(),
                |i: int|
                    if 0 <= i < members@.len() {
                        (members@[i].0@, json_view(members@[i].1))
                    } else {
                        (Seq::empty(), JsonView::Null)
                    },
            ),
        ),
    }
}

impl View for JsonValue {
    type V = JsonView;

    open spec fn view(&self) -> JsonView {
        json_view(*self)
    }
}

/// `serde_json::Value`, the document that `serde_json` reads a text into.
#[verifier::external_type_specification]
#[verifier::external_body]
pub struct ExJsonDocument(::serde_json::Value);

/// What a `serde_json::Value` holds: its variant, and for an array or an
/// object what each item or member holds; a number as its `Display`
/// writes it, the members of an object in the order of
/// `serde_json::Map::iter`.
pub uninterp spec fn document_of(value: ::serde_json::Value) -> JsonView;

/// What `serde_json::from_str` reads from `text`, or nothing where it
/// reports an error.
pub uninterp spec fn json_document(text: Seq<char>) -> Option<JsonView>;

/// Reads a JSON text with `serde_json::from_str`. The result is `None`
/// exactly when `serde_json` reports an error.
#[verifier::external_body]
fn read_json(text: &str) -> (r: Option<::serde_json::Value>)
    ensures
        match r {
            Some(v) => json_document(text@) == Some(document_of(v)),
            None => json_document(text@) is None,
        },
{
    ::serde_json::from_str::<::serde_json::Value>(text).ok()
}

/// Turns a `serde_json::Value` into a `JsonValue`, variant by variant.
#[verifier::external_body]
fn json_from(value: &::serde_json::Value) -> (r: JsonValue)
    ensures
        r@ == document_of(*value),
{
    match value {
        ::serde_json::Value::Null => JsonValue::Null,
        ::serde_json::Value::Bool(b) => JsonValue::Bool(*b),
        ::serde_json::Value::Number(n) => JsonValue::Number(n.to_string()),
        ::serde_json::Value::String(s) => JsonValue::Text(s.clone()),
        ::serde_json::Value::Array(items) => JsonValue::Array(
            items.iter().map(json_from).collect(),
        ),
        ::serde_json::Value::Object(members) => JsonValue::Object(
            members.iter().map(|(k, v)| (k.clone(), json_from(v))).collect(),
        ),
    }
}

impl JsonView {
    /// The member `name` of an object; nothing for any other value and for
    /// an object without that member.
    pub open spec fn member(self, name: Seq<char>) -> Option<JsonView> {
        match self {
            JsonView::Object(members) => value_of(members, name),
            _ => None,
        }
    }

    /// The text that a text value holds; nothing for any other value.
    pub open spec fn text(self) -> Option<Seq<char>> {
        match self {
            JsonView::Text(s) => Some(s),
            _ => None,
        }
    }

    /// The text of the member `name`, where there is such a member and it
    /// is a text.
    pub open spec fn text_member(self, name: Seq<char>) -> Option<Seq<char>> {
        match self.member(name) {
            Some(v) => v.text(),
            None => None,
        }
    }

    /// The texts of an array all of whose items are texts; nothing for any
    /// other value.
    pub open spec fn texts(self) -> Option<Seq<Seq<char>>> {
        match self {
            JsonView::Array(items) => if forall|i: int|
                0 <= i < items.len() ==> (#[trigger] items[i]).text() is Some {
                Some(Seq::new(items.len(), |i: int| items[i].text().unwrap()))
            } else {
                None
            },
            _ => None,
        }
    }
}

/// The view of an array is the views of its items, and the view of an
/// object the names and views of its members, each at its place.
pub proof fn lemma_view_unfolds(value: &JsonValue)
    ensures
        value matches JsonValue::Array(items) ==> value@ matches JsonView::Array(views)
            && views.len() == items@.len() && forall|i: int|
            0 <= i < items@.len() ==> #[trigger] views[i] == items@[i]@,
        value matches JsonValue::Object(members) ==> value@ matches JsonView::Object(pairs)
            && pairs.len() == members@.len() && forall|i: int|
            0 <= i < members@.len() ==> #[trigger] pairs[i] == (members@[i].0@, members@[i].1@),
{
    reveal_with_fuel(json_view, 2);
}

/// The JSON value of an optional text: the text, or `null`.
pub open spec fn text_or_null(o: Option<Seq<char>>) -> JsonView {
    match o {
        Some(s) => JsonView::Text(s),
        None => JsonView::Null,
    }
}

/// The JSON array of the texts.
pub open spec fn array_of_texts(items: Seq<Seq<char>>) -> JsonView {
    JsonView::Array(Seq::new(items.len(), |i: int| JsonView::Text(items[i])))
}

/// The names and views of a list of members.
pub open spec fn member_views(members: Seq<(String, JsonValue)>) -> Seq<(Seq<char>, JsonView)> {
    Seq::new(members.len(), |i: int| (members[i].0@, members[i].1@))
}

/// The array of texts holds its texts.
pub proof fn lemma_texts_of_array(items: Seq<Seq<char>>)
    ensures
        array_of_texts(items).texts() == Some(items),
{
    let values = array_of_texts(items)->Array_0;
    assert(forall|i: int| 0 <= i < values.len() ==> (#[trigger] values[i]).text() is Some);
    assert(array_of_texts(items).texts().unwrap() =~= items);
}

impl JsonValue {
    /// The JSON value of a text.
    pub fn text(s: &str) -> (r: JsonValue)
        ensures
            r@ == JsonView::Text(s@),
    {
        JsonValue::Text(s.to_string())
    }

    /// The JSON value of an optional text.
    pub fn optional_text(o: &Option<String>) -> (r: JsonValue)
        ensures
            r@ == text_or_null(
                match *o {
                    Some(s) => Some(s@),
                    None => None,
                },
            ),
    {
        match o {
            Some(s) => JsonValue::Text(s.clone()),
            None => JsonValue::Null,
        }
    }

    /// The JSON array of the texts.
    pub fn texts(items: &Vec<String>) -> (r: JsonValue)
        ensures
            r@ == array_of_texts(items.deep_view()),
    {
        let mut values: Vec<JsonValue> = Vec::new();
        let mut i: usize = 0;
        while i < items.len()
            invariant
                i <= items.len(),
                values.len() == i,
                forall|k: int|
                    0 <= k < i ==> (#[trigger] values@[k])@ == JsonView::Text(items@[k]@),
            decreases items.len() - i,
        {
            values.push(JsonValue::Text(items[i].clone()));
            i = i + 1;
        }
        let r = JsonValue::Array(values);
        proof {
            lemma_view_unfolds(&r);
            assert(r@->Array_0 =~= array_of_texts(items.deep_view())->Array_0);
        }
        r
    }

    /// The JSON object of the members, in their order.
    pub fn object(members: Vec<(String, JsonValue)>) -> (r: JsonValue)
        ensures
            r@ == JsonView::Object(member_views(members@)),
    {
        let r = JsonValue::Object(members);
        proof {
            lemma_view_unfolds(&r);
            assert(r@->Object_0 =~= member_views(members@));
        }
        r
    }

    /// Reads a JSON text; nothing where the text is no JSON.
    pub fn parse(text: &str) -> (r: Option<JsonValue>)
        ensures
            match r {
                Some(v) => json_document(text@) == Some(v@),
                None => json_document(text@) is None,
            },
    {
        match read_json(text) {
            Some(document) => Some(json_from(&document)),
            None => None,
        }
    }

    /// The member `name`, if this is an object that has it.
    pub fn get(&self, name: &str) -> (r: Option<&JsonValue>)
        ensures
            match r {
                Some(v) => self@.member(name@) == Some(v@),
                None => self@.member(name@) is None,
            },
    {
        match self {
            JsonValue::Object(members) => {
                let ghost pairs = self@->Object_0;
                proof {
                    lemma_view_unfolds(self);
                }
                let mut i: usize = 0;
                while i < members.len()
                    invariant
                        i <= members.len(),
                        self@ == JsonView::Object(pairs),
                        pairs.len() == members.len(),
                        forall|k: int|
                            0 <= k < members.len() ==> #[trigger] pairs[k] == (
                                members@[k].0@,
                                members@[k].1@,
                            ),
                        key_index_from(pairs, name@, i as int) == key_index_from(pairs, name@, 0),
                    decreases members.len() - i,
                {
                    assert(pairs[i as int] == (members@[i as int].0@, members@[i as int].1@));
                    if *members[i].0.as_str() == *name {
                        return Some(&members[i].1);
                    }
                    i = i + 1;
                }
                None
            },
            _ => None,
        }
    }

    /// The text, if this is a text.
    pub fn as_str(&self) -> (r: Option<&str>)
        ensures
            match r {
                Some(s) => self@.text() == Some(s@),
                None => self@.text() is None,
            },
    {
        match self {
            JsonValue::Text(s) => Some(s.as_str()),
            _ => None,
        }
    }

    /// The text of the member `name`, if there is such a member and it is a text.
    pub fn get_text(&self, name: &str) -> (r: Option<String>)
        ensures
            match r {
                Some(s) => self@.text_member(name@) == Some(s@),
                None => self@.text_member(name@) is None,
            },
    {
        match self.get(name) {
            Some(v) => match v.as_str() {
                Some(s) => Some(s.to_string()),
                None => None,
            },
            None => None,
        }
    }

    /// The texts, if this is an array of texts.
    pub fn as_texts(&self) -> (r: Option<Vec<String>>)
        ensures
            match r {
                Some(v) => self@.texts() == Some(v.deep_view()),
                None => self@.texts() is None,
            },
    {
        match self {
            JsonValue::Array(items) => {
                let ghost views = self@->Array_0;
                proof {
                    lemma_view_unfolds(self);
                }
                let mut texts: Vec<String> = Vec::new();
                let mut i: usize = 0;
                while i < items.len()
                    invariant
                        i <= items.len(),
                        self@ == JsonView::Array(views),
                        views.len() == items.len(),
                        forall|k: int| 0 <= k < items.len() ==> #[trigger] views[k] == items@[k]@,
                        texts.len() == i,
                        forall|k: int|
                            0 <= k < i ==> (#[trigger] views[k]).text() == Some(texts@[k]@),
                    decreases items.len() - i,
                {
                    assert(views[i as int] == items@[i as int]@);
                    match items[i].as_str() {
                        Some(s) => {
                            texts.push(s.to_string());
                        },
                        None => {
                            return None;
                        },
                    }
                    i = i + 1;
                }
                assert(texts.deep_view() =~= self@.texts().unwrap());
                Some(texts)
            },
            _ => None,
        }
    }
}

} // verus!
