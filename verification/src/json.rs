//! JSON documents as trees of plain values.

use vstd::prelude::*;
use crate::text::str_eq;

verus! {

/// A JSON value. A number is kept as it is written.
#[derive(Debug)]
pub enum Json {
    Null,
    Bool(bool),
    Number(String),
    Text(String),
    List(Vec<Json>),
    Table(Vec<(String, Json)>),
}

#[verifier::external_type_specification]
#[verifier::external_body]
pub struct ExJsonValue(serde_json::Value);

/// The tree of plain values that a parsed document stands for.
pub uninterp spec fn json_tree(value: serde_json::Value) -> Json;

/// What the parser makes of a text: the tree of the document, or the
/// message of its error.
pub uninterp spec fn json_parsed(text: Seq<char>) -> Result<Json, Seq<char>>;

/// Turns a parsed document into a tree of plain values.
///
/// Trusted: reads a `serde_json::Value`, variant by variant. A number is
/// written out in the notation of `serde_json`; the members of an object
/// come in the order in which `serde_json` holds them. The tree depends
/// on the document alone.
#[verifier::external_body]
fn json_of(value: &serde_json::Value) -> (r: Json)
    ensures
        r == json_tree(*value),
{
    match value {
        serde_json::Value::Null => Json::Null,
        serde_json::Value::Bool(b) => Json::Bool(*b),
        serde_json::Value::Number(n) => Json::Number(n.to_string()),
        serde_json::Value::String(s) => Json::Text(s.clone()),
        serde_json::Value::Array(a) => Json::List(a.iter().map(json_of).collect()),
        serde_json::Value::Object(o) => Json::Table(
            o.iter().map(|(k, v)| (k.clone(), json_of(v))).collect(),
        ),
    }
}

/// Parses a document.
///
/// Trusted: `serde_json::from_str`, whose result depends on the text
/// alone; on failure the result is the error's message.
#[verifier::external_body]
fn json_value(text: &str) -> (r: Result<serde_json::Value, String>)
    ensures
        match r {
            Ok(v) => json_parsed(text@) == Ok::<Json, Seq<char>>(json_tree(v)),
            Err(e) => json_parsed(text@) == Err::<Json, Seq<char>>(e@),
        },
{
    serde_json::from_str::<serde_json::Value>(text).map_err(|e| e.to_string())
}

/// Parses a JSON document. The error is the parser's message.
pub fn parse_json(text: &str) -> (r: Result<Json, String>)
    ensures
        match r {
            Ok(j) => json_parsed(text@) == Ok::<Json, Seq<char>>(j),
            Err(e) => json_parsed(text@) == Err::<Json, Seq<char>>(e@),
        },
{
    match json_value(text) {
        Ok(value) => Ok(json_of(&value)),
        Err(e) => Err(e),
    }
}

/// The position of the last member called `key`.
pub open spec fn member_position(members: Seq<(String, Json)>, key: Seq<char>) -> Option<int>
    decreases members.len(),
{
    if members.len() == 0 {
        None
    } else if members.last().0@ == key {
        Some(members.len() - 1)
    } else {
        member_position(members.drop_last(), key)
    }
}

/// The member `key` of a value: that of a table which has one, where the
/// last one of that name counts; nothing otherwise.
pub open spec fn member(j: Json, key: Seq<char>) -> Option<Json> {
    match j {
        Json::Table(members) => match member_position(members@, key) {
            Some(i) => Some(members@[i].1),
            None => None,
        },
        _ => None,
    }
}

/// The text of a value that is a text.
pub open spec fn text_of(j: Option<Json>) -> Option<Seq<char>> {
    match j {
        Some(Json::Text(s)) => Some(s@),
        _ => None,
    }
}

/// The items of a value that is a list.
pub open spec fn items_of(j: Option<Json>) -> Option<Seq<Json>> {
    match j {
        Some(Json::List(items)) => Some(items@),
        _ => None,
    }
}

/// The first item of a value that is a list with items.
pub open spec fn first_of(j: Option<Json>) -> Option<Json> {
    match items_of(j) {
        Some(items) => if items.len() > 0 {
            Some(items[0])
        } else {
            None
        },
        None => None,
    }
}

impl Json {
    /// The member `key` of this value.
    pub fn get(&self, key: &str) -> (r: Option<&Json>)
        ensures
            match r {
                Some(j) => member(*self, key@) == Some(*j),
                None => member(*self, key@) is None,
            },
    {
        match self {
            Json::Table(members) => {
                let mut i: usize = members.len();
                assert(members@.take(i as int) =~= members@);
                while i > 0
                    invariant
                        i <= members@.len(),
                        *self == Json::Table(*members),
                        member_position(members@, key@) == member_position(
                            members@.take(i as int),
                            key@,
                        ),
                    decreases i,
                {
                    proof {
                        let t = members@.take(i as int);
                        assert(t.last() == members@[i - 1]);
                        assert(t.drop_last() =~= members@.take(i - 1));
                    }
                    if str_eq(members[i - 1].0.as_str(), key) {
                        return Some(&members[i - 1].1);
                    }
                    i = i - 1;
                }
                None
            },
            _ => None,
        }
    }

    /// This value as a text.
    pub fn as_str(&self) -> (r: Option<&str>)
        ensures
            match r {
                Some(s) => text_of(Some(*self)) == Some(s@),
                None => text_of(Some(*self)) is None,
            },
    {
        match self {
            Json::Text(s) => Some(s.as_str()),
            _ => None,
        }
    }

    /// This value as a list.
    pub fn as_array(&self) -> (r: Option<&Vec<Json>>)
        ensures
            match r {
                Some(items) => items_of(Some(*self)) == Some(items@),
                None => items_of(Some(*self)) is None,
            },
    {
        match self {
            Json::List(items) => Some(items),
            _ => None,
        }
    }
}

/// The member `key` of a value that may be missing.
pub fn get_in<'a>(j: Option<&'a Json>, key: &str) -> (r: Option<&'a Json>)
    ensures
        match r {
            Some(x) => j matches Some(v) && member(*v, key@) == Some(*x),
            None => j matches Some(v) ==> member(*v, key@) is None,
        },
{
    match j {
        Some(v) => v.get(key),
        None => None,
    }
}

/// The model of an optional reference.
pub open spec fn deref(j: Option<&Json>) -> Option<Json> {
    match j {
        Some(v) => Some(*v),
        None => None,
    }
}

/// The text of a value that may be missing.
pub fn str_in<'a>(j: Option<&'a Json>) -> (r: Option<&'a str>)
    ensures
        match r {
            Some(s) => text_of(deref(j)) == Some(s@),
            None => text_of(deref(j)) is None,
        },
{
    match j {
        Some(v) => v.as_str(),
        None => None,
    }
}

/// The first item of a value that may be missing.
pub fn first_in<'a>(j: Option<&'a Json>) -> (r: Option<&'a Json>)
    ensures
        deref(r) == first_of(deref(j)),
{
    match j {
        Some(v) => match v.as_array() {
            Some(items) => if items.len() > 0 {
                Some(&items[0])
            } else {
                None
            },
            None => None,
        },
        None => None,
    }
}

} // verus!
