//! JSON documents as plain values, and the parser that reads them.

use vstd::prelude::*;

verus! {

/// A JSON value. The members of an object come in the order in which the parser
/// hands them out; a number is kept as the parser prints it.
#[derive(Debug)]
pub enum Json {
    Null,
    Bool(bool),
    Number(String),
    Text(String),
    Array(Vec<Json>),
    Object(Vec<(String, Json)>),
}

/// A `Json` as plain values.
pub enum JsonView {
    Null,
    Bool(bool),
    Number(Seq<char>),
    Text(Seq<char>),
    Array(Seq<JsonView>),
    Object(Seq<(Seq<char>, JsonView)>),
}

/// What a `Json` holds, as plain values.
pub open spec fn json_view(json: Json) -> JsonView
    decreases json,
{
    match json {
        Json::Null => JsonView::Null,
        Json::Bool(b) => JsonView::Bool(b),
        Json::Number(n) => JsonView::Number(n@),
        Json::Text(s) => JsonView::Text(s@),
        Json::Array(items) => JsonView::Array(
            Seq::new(
                items@.len(),
                |i: int|
                    if 0 <= i < items@.len() {
                        json_view(items@[i])
                    } else {
                        JsonView::Null
                    },
            ),
        ),
        Json::Object(members) => JsonView::Object(
            Seq::new(
                members@.len(),
                |i: int|
                    if 0 <= i < members@.len() {
                        (members@[i].0@, json_view(members@[i].1))
                    } else {
                        (Seq::empty(), JsonView::Null)
                    },
            ),
        ),
    }
}

impl View for Json {
    type V = JsonView;

    open spec fn view(&self) -> JsonView {
        json_view(*self)
    }
}

/// Why a text is no JSON document, as the parser tells it.
#[verifier::external_type_specification]
#[verifier::external_body]
pub struct ExJsonError(serde_json::Error);

/// A JSON document as the parser hands it out.
#[verifier::external_type_specification]
#[verifier::external_body]
pub struct ExJsonValue(serde_json::Value);

/// The document that the parser reads from a text, if it reads one.
pub uninterp spec fn parsed(text: Seq<char>) -> Option<JsonView>;

/// What a document of the parser holds.
pub uninterp spec fn value_of(value: serde_json::Value) -> JsonView;

/// `serde_json::from_str` for a `serde_json::Value`: whether a text is a JSON
/// document, and which, depends on the text alone.
#[verifier::external_body]
pub(crate) fn parse_value(text: &str) -> (r: Result<serde_json::Value, serde_json::Error>)
    ensures
        r matches Ok(value) ==> parsed(text@) == Some(value_of(value)),
        r is Err ==> parsed(text@) is None,
{
    serde_json::from_str(text)
}

/// Tells the variants of `serde_json::Value` apart and moves what they hold into a
/// `Json`, members and items in the order in which the value hands them out.
#[verifier::external_body]
pub(crate) fn from_value(value: serde_json::Value) -> (json: Json)
    ensures
        json@ == value_of(value),
{
    match value {
        serde_json::Value::Null => Json::Null,
        serde_json::Value::Bool(b) => Json::Bool(b),
        serde_json::Value::Number(n) => Json::Number(n.to_string()),
        serde_json::Value::String(s) => Json::Text(s),
        serde_json::Value::Array(items) => Json::Array(items.into_iter().map(from_value).collect()),
        serde_json::Value::Object(members) => Json::Object(
            members.into_iter().map(|(k, v)| (k, from_value(v))).collect(),
        ),
    }
}

/// Reads a JSON document from a text.
pub fn parse(text: &str) -> (r: Option<Json>)
    ensures
        r matches Some(json) ==> parsed(text@) == Some(json@),
        r is None ==> parsed(text@) is None,
{
    match parse_value(text) {
        Ok(value) => Some(from_value(value)),
        Err(_) => None,
    }
}

/// The value of the first of `members`, at or after `from`, that is named `key`.
pub open spec fn member_from(members: Seq<(Seq<char>, JsonView)>, key: Seq<char>, from: int) -> Option<
    JsonView,
>
    decreases members.len() - from,
{
    if from >= members.len() {
        None
    } else if members[from].0 == key {
        Some(members[from].1)
    } else {
        member_from(members, key, from + 1)
    }
}

/// The value of the first of `members` that is named `key`.
pub open spec fn member_of(members: Seq<(Seq<char>, JsonView)>, key: Seq<char>) -> Option<JsonView> {
    member_from(members, key, 0)
}

/// The members of an object as plain values.
pub open spec fn members_view(members: Seq<(String, Json)>) -> Seq<(Seq<char>, JsonView)> {
    Seq::new(members.len(), |i: int| (members[i].0@, members[i].1@))
}

/// The items of an array as plain values.
pub open spec fn items_view(items: Seq<Json>) -> Seq<JsonView> {
    Seq::new(items.len(), |i: int| items[i]@)
}

/// What the view of an object and of an array is made of.
pub proof fn lemma_view(json: Json)
    ensures
        json matches Json::Object(members) ==> json@ == JsonView::Object(members_view(members@)),
        json matches Json::Array(items) ==> json@ == JsonView::Array(items_view(items@)),
{
    match json {
        Json::Object(members) => {
            assert(json@->Object_0 =~= members_view(members@));
        },
        Json::Array(items) => {
            assert(json@->Array_0 =~= items_view(items@));
        },
        _ => {},
    }
}

/// Looks a member of an object up by its name.
pub fn find_member<'a>(members: &'a Vec<(String, Json)>, key: &str) -> (r: Option<&'a Json>)
    ensures
        r matches Some(json) ==> member_of(members_view(members@), key@) == Some(json@),
        r is None ==> member_of(members_view(members@), key@) is None,
{
    let needle = crate::text::to_chars(key);
    let mut i: usize = 0;
    while i < members.len()
        invariant
            i <= members.len(),
            needle@ == key@,
            member_of(members_view(members@), key@) == member_from(
                members_view(members@),
                key@,
                i as int,
            ),
        decreases members.len() - i,
    {
        let name = crate::text::to_chars(members[i].0.as_str());
        match crate::text::rank_chars(&name, &needle) {
            crate::text::Rank::Same => {
                return Some(&members[i].1);
            },
            _ => {},
        }
        i += 1;
    }
    None
}

} // verus!
