//! JSON values.
//!
//! The values are those of `serde_json`.

use crate::path;
use serde_json::Value;
use vstd::prelude::*;

verus! {

#[verifier::external_type_specification]
#[verifier::external_body]
pub struct ExValue(Value);

/// What a JSON value is, apart from how it is stored.
pub enum JsonView {
    Null,
    Number(nat),
    Text(Seq<char>),
    List(Seq<JsonView>),
    Record(Map<Seq<char>, JsonView>),
}

/// What a value of `serde_json` is.
pub uninterp spec fn json_view(value: Value) -> JsonView;

/// What the values of a list are.
pub open spec fn list_views(values: Seq<Value>) -> Seq<JsonView> {
    Seq::new(values.len(), |i: int| json_view(values[i]))
}

/// The record with the first `n` members. Of two members with one name the later one
/// counts.
pub open spec fn record_of(members: Seq<(Seq<char>, JsonView)>, n: int) -> Map<Seq<char>, JsonView>
    decreases n,
{
    if 0 < n <= members.len() {
        record_of(members, n - 1).insert(members[n - 1].0, members[n - 1].1)
    } else {
        Map::empty()
    }
}

/// The record with the given members.
pub open spec fn record(members: Seq<(Seq<char>, JsonView)>) -> JsonView {
    JsonView::Record(record_of(members, members.len() as int))
}

/// What the members of a record are.
pub open spec fn member_views(members: Seq<(&str, Value)>) -> Seq<(Seq<char>, JsonView)> {
    Seq::new(members.len(), |i: int| (members[i].0@, json_view(members[i].1)))
}

/// The list of texts.
pub open spec fn texts(strings: Seq<Seq<char>>) -> JsonView {
    JsonView::List(Seq::new(strings.len(), |i: int| JsonView::Text(strings[i])))
}

/// The null value, `Value::Null`.
#[verifier::external_body]
pub(crate) fn json_null() -> (value: Value)
    ensures
        json_view(value) == JsonView::Null,
{
    Value::Null
}

/// A number, by `Value::from`.
#[verifier::external_body]
pub(crate) fn json_number(n: usize) -> (value: Value)
    ensures
        json_view(value) == JsonView::Number(n as nat),
{
    Value::from(n)
}

/// A text, by `Value::from`.
#[verifier::external_body]
pub(crate) fn json_text(text: &str) -> (value: Value)
    ensures
        json_view(value) == JsonView::Text(text@),
{
    Value::from(text)
}

/// A list, by `Value::Array`.
///
/// Taken on trust: it holds the given values in their order.
#[verifier::external_body]
pub(crate) fn json_list(values: Vec<Value>) -> (value: Value)
    ensures
        json_view(value) == JsonView::List(list_views(values@)),
{
    Value::Array(values)
}

/// A record without members, by `Value::Object` on an empty `Map`.
///
/// Taken on trust: it has no members.
#[verifier::external_body]
fn json_empty_record() -> (value: Value)
    ensures
        json_view(value) == JsonView::Record(Map::empty()),
{
    Value::Object(serde_json::Map::new())
}

/// Sets a member of a record, by `Value`'s `IndexMut`.
///
/// Taken on trust: the member is added, or replaces the one of that name, and no other
/// member changes.
#[verifier::external_body]
fn json_set(record: &mut Value, name: &str, value: Value)
    requires
        json_view(*old(record)) is Record,
    ensures
        json_view(*final(record)) == JsonView::Record(
            json_view(*old(record))->Record_0.insert(name@, json_view(value)),
        ),
{
    record[name] = value;
}

/// A record with the given members, set one after the other.
pub(crate) fn json_record(members: Vec<(&str, Value)>) -> (value: Value)
    ensures
        json_view(value) == record(member_views(members@)),
{
    let mut value = json_empty_record();
    let ghost views = member_views(members@);
    for member in it: members
        invariant
            it.seq() == members@,
            views == member_views(members@),
            json_view(value) == JsonView::Record(record_of(views, it.index() as int)),
    {
        assert(views[it.index() as int] == (member.0@, json_view(member.1)));
        let (name, part) = member;
        json_set(&mut value, name, part);
    }
    value
}

/// A list of texts.
pub(crate) fn json_texts(strings: &Vec<String>) -> (value: Value)
    ensures
        json_view(value) == texts(path::string_views(strings@)),
{
    let mut values: Vec<Value> = Vec::new();
    let mut i: usize = 0;
    while i < strings.len()
        invariant
            i <= strings@.len(),
            values@.len() == i,
            forall|j: int|
                0 <= j < i ==> json_view(#[trigger] values@[j]) == JsonView::Text(strings@[j]@),
        decreases strings.len() - i,
    {
        values.push(json_text(strings[i].as_str()));
        i += 1;
    }
    proof {
        let views = path::string_views(strings@);
        assert(list_views(values@) =~= Seq::new(
            views.len(),
            |i: int| JsonView::Text(views[i]),
        ));
    }
    json_list(values)
}

} // verus!
