//! JSON texts, taken apart one level at a time.
use crate::text::{same_text, text_option_view, text_views};
use serde_json::Value;
use vstd::prelude::*;

verus! {

/// A JSON value. The items of an array and the members of an object are JSON texts of their own.
#[derive(Debug)]
pub enum Json {
    Null,
    Bool(bool),
    /// A number, known where it is an unsigned integer of 64 bits.
    Number(Option<u64>),
    Text(String),
    Array(Vec<String>),
    /// The members by name, each name once.
    Object(Vec<(String, String)>),
}

/// What a JSON value holds.
pub ghost enum JsonView {
    Null,
    Bool(bool),
    Number(Option<u64>),
    Text(Seq<char>),
    Array(Seq<Seq<char>>),
    Object(Map<Seq<char>, Seq<char>>),
}

/// The members of an object by name; of two with one name the later counts.
pub open spec fn member_map(members: Seq<(String, String)>) -> Map<Seq<char>, Seq<char>>
    decreases members.len(),
{
    if members.len() == 0 {
        Map::empty()
    } else {
        let (name, text) = members.last();
        member_map(members.drop_last()).insert(name@, text@)
    }
}

impl View for Json {
    type V = JsonView;

    open spec fn view(&self) -> JsonView {
        match *self {
            Json::Null => JsonView::Null,
            Json::Bool(value) => JsonView::Bool(value),
            Json::Number(value) => JsonView::Number(value),
            Json::Text(text) => JsonView::Text(text@),
            Json::Array(items) => JsonView::Array(text_views(items@)),
            Json::Object(members) => JsonView::Object(member_map(members@)),
        }
    }
}

pub open spec fn json_option_view(json: Option<Json>) -> Option<JsonView> {
    match json {
        Some(json) => Some(json@),
        None => None,
    }
}

/// The value that a text denotes, where it is JSON.
pub uninterp spec fn json_of(text: Seq<char>) -> Option<JsonView>;

/// The JSON text of a string.
pub uninterp spec fn json_string(text: Seq<char>) -> Seq<char>;

/// `serde_json::from_str`: the value that the text denotes, or nothing where it is not JSON. The
/// items of an array and the members of an object are handed out as the texts that
/// `serde_json::Value` displays as.
#[verifier::external_body]
pub(crate) fn parse_json(text: &str) -> (json: Option<Json>)
    ensures
        json_option_view(json) == json_of(text@),
{
    let display = |(name, item): (String, Value)| (name, item.to_string());
    Some(match serde_json::from_str::<Value>(text).ok()? {
        Value::Null => Json::Null,
        Value::Bool(value) => Json::Bool(value),
        Value::Number(number) => Json::Number(number.as_u64()),
        Value::String(text) => Json::Text(text),
        Value::Array(items) => Json::Array(items.iter().map(Value::to_string).collect()),
        Value::Object(members) => Json::Object(members.into_iter().map(display).collect()),
    })
}

/// `serde_json::Value`'s `to_string` of a string: its JSON text, in quotes and with what needs
/// it escaped.
#[verifier::external_body]
pub(crate) fn write_string(text: &str) -> (json: String)
    ensures
        json@ == json_string(text@),
{
    Value::from(text).to_string()
}

impl JsonView {
    /// The text of a member, where the value is an object that has one of that name.
    pub open spec fn member_text(self, name: Seq<char>) -> Option<Seq<char>> {
        match self {
            JsonView::Object(members) => if members.contains_key(name) {
                Some(members[name])
            } else {
                None
            },
            _ => None,
        }
    }

    /// A member, where the value is an object that has one of that name.
    pub open spec fn member(self, name: Seq<char>) -> Option<JsonView> {
        match self.member_text(name) {
            Some(text) => json_of(text),
            None => None,
        }
    }

    /// An item, where the value is an array that has one of that position.
    pub open spec fn item(self, position: int) -> Option<JsonView> {
        match self {
            JsonView::Array(items) => if position < items.len() {
                json_of(items[position])
            } else {
                None
            },
            _ => None,
        }
    }
}

/// The string that a value is, if it is one.
pub open spec fn as_string(json: Option<JsonView>) -> Option<Seq<char>> {
    match json {
        Some(JsonView::Text(text)) => Some(text),
        _ => None,
    }
}

fn find_member(members: &Vec<(String, String)>, name: &str) -> (text: Option<String>)
    ensures
        match text {
            Some(text) => member_map(members@).contains_key(name@) && member_map(members@)[name@]
                == text@,
            None => !member_map(members@).contains_key(name@),
        },
{
    let ghost all = members@;
    let mut left = members.len();
    assert(all.take(all.len() as int) =~= all);
    while left > 0
        invariant
            left <= members@.len(),
            all == members@,
            member_map(all).contains_key(name@) <==> member_map(all.take(left as int)).contains_key(
                name@,
            ),
            member_map(all).contains_key(name@) ==> member_map(all)[name@] == member_map(
                all.take(left as int),
            )[name@],
        decreases left,
    {
        proof {
            assert(all.take(left as int).drop_last() =~= all.take(left - 1));
            assert(all.take(left as int).last() == all[left - 1]);
        }
        let member = &members[left - 1];
        if same_text(member.0.as_str(), name) {
            return Some(member.1.clone());
        }
        left -= 1;
    }
    assert(all.take(0) =~= Seq::empty());
    None
}

impl Json {
    /// The text of a member, where the value is an object that has one of that name.
    pub fn member_text(&self, name: &str) -> (text: Option<String>)
        ensures
            text_option_view(text) == self@.member_text(name@),
    {
        match self {
            Json::Object(members) => find_member(members, name),
            _ => None,
        }
    }

    /// A member, where the value is an object that has one of that name.
    pub fn member(&self, name: &str) -> (json: Option<Json>)
        ensures
            json_option_view(json) == self@.member(name@),
    {
        match self.member_text(name) {
            Some(text) => parse_json(text.as_str()),
            None => None,
        }
    }

    /// An item, where the value is an array that has one of that position.
    pub fn item(&self, position: usize) -> (json: Option<Json>)
        ensures
            json_option_view(json) == self@.item(position as int),
    {
        match self {
            Json::Array(items) => if position < items.len() {
                parse_json(items[position].as_str())
            } else {
                None
            },
            _ => None,
        }
    }
}

/// The string that a value is, if it is one.
pub fn into_string(json: Option<Json>) -> (text: Option<String>)
    ensures
        text_option_view(text) == as_string(json_option_view(json)),
{
    match json {
        Some(Json::Text(text)) => Some(text),
        _ => None,
    }
}

/// Takes a JSON text apart.
pub fn read_json(text: &str) -> (json: Option<Json>)
    ensures
        json_option_view(json) == json_of(text@),
{
    parse_json(text)
}

/// An object has the members that it is made of; of several with one name the last one counts.
pub proof fn the_last_member_of_a_name_counts(
    members: Seq<(String, String)>,
    name: Seq<char>,
    position: int,
)
    ensures
        member_map(members).contains_key(name) <==> exists|i: int|
            0 <= i < members.len() && (#[trigger] members[i]).0@ == name,
        0 <= position < members.len() && members[position].0@ == name && (forall|i: int|
            position < i < members.len() ==> (#[trigger] members[i]).0@ != name) ==> member_map(
            members,
        )[name] == members[position].1@,
    decreases members.len(),
{
    if members.len() > 0 {
        let shorter = members.drop_last();
        let last = members.len() - 1;
        the_last_member_of_a_name_counts(shorter, name, position);
        assert(members.last() == members[last]);
        assert forall|i: int| 0 <= i < last implies #[trigger] shorter[i] == members[i] by {}
        if exists|i: int| 0 <= i < members.len() && (#[trigger] members[i]).0@ == name {
            let i = choose|i: int| 0 <= i < members.len() && (#[trigger] members[i]).0@ == name;
            if i < last {
                assert(shorter[i].0@ == name);
            }
        }
        if exists|i: int| 0 <= i < shorter.len() && (#[trigger] shorter[i]).0@ == name {
            let i = choose|i: int| 0 <= i < shorter.len() && (#[trigger] shorter[i]).0@ == name;
            assert(members[i].0@ == name);
        }
        if 0 <= position < last && (forall|i: int|
            position < i < members.len() ==> (#[trigger] members[i]).0@ != name) {
            assert(members[last].0@ != name);
            assert forall|i: int| position < i < shorter.len() implies (#[trigger] shorter[i]).0@
                != name by {
                assert(members[i].0@ != name);
            }
        }
    }
}

/// The members of an object are found by name, and the items of an array by position; other values
/// have neither.
pub proof fn members_and_items_are_found(
    members: Map<Seq<char>, Seq<char>>,
    items: Seq<Seq<char>>,
    name: Seq<char>,
    position: int,
)
    ensures
        JsonView::Object(members).member_text(name) is Some <==> members.contains_key(name),
        members.contains_key(name) ==> {
            &&& JsonView::Object(members).member_text(name) == Some(members[name])
            &&& JsonView::Object(members).member(name) == json_of(members[name])
        },
        !members.contains_key(name) ==> JsonView::Object(members).member(name) is None,
        0 <= position < items.len() ==> JsonView::Array(items).item(position) == json_of(
            items[position],
        ),
        position >= items.len() ==> JsonView::Array(items).item(position) is None,
        forall|json: JsonView|
            !(json is Object) ==> (#[trigger] json.member_text(name)) is None && json.member(
                name,
            ) is None,
        forall|json: JsonView| !(json is Array) ==> (#[trigger] json.item(position)) is None,
{
}

/// A value is a string exactly where it is a JSON string, and then that one.
pub proof fn strings_are_told_from_other_values(json: Option<JsonView>, text: Seq<char>)
    ensures
        as_string(json) == Some(text) <==> json == Some(JsonView::Text(text)),
        as_string(json) is None <==> !(json is Some && json->0 is Text),
{
}

} // verus!
