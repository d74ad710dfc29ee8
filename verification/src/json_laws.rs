//! What holds of every diagnostic as JSON.

use crate::diagnostic::{DiagnosticView, RangeView};
use crate::diagnostic_json;
use crate::json;
use crate::json::JsonView;
use crate::path::SegmentView;
use crate::validation_error;
use crate::validation_error::KindView;
use vstd::prelude::*;

verus! {

/// Whether no two members have one name.
pub open spec fn distinct_names(members: Seq<(Seq<char>, JsonView)>) -> bool {
    forall|i: int, j: int|
        0 <= i < j < members.len() ==> #[trigger] members[i].0 != #[trigger] members[j].0
}

proof fn lemma_record_holds(members: Seq<(Seq<char>, JsonView)>, n: int)
    requires
        0 <= n <= members.len(),
        distinct_names(members),
    ensures
        forall|i: int|
            0 <= i < n ==> json::record_of(members, n).contains_key(#[trigger] members[i].0)
                && json::record_of(members, n)[members[i].0] == members[i].1,
        forall|name: Seq<char>| #[trigger]
            json::record_of(members, n).contains_key(name) ==> exists|i: int|
                0 <= i < n && #[trigger] members[i].0 == name,
    decreases n,
{
    if n > 0 {
        lemma_record_holds(members, n - 1);
        assert forall|i: int| 0 <= i < n implies json::record_of(members, n).contains_key(
            #[trigger] members[i].0,
        ) && json::record_of(members, n)[members[i].0] == members[i].1 by {
            if i < n - 1 {
                assert(members[i].0 != members[n - 1].0);
            }
        }
        assert forall|name: Seq<char>| #[trigger]
            json::record_of(members, n).contains_key(name) implies exists|i: int|
            0 <= i < n && #[trigger] members[i].0 == name by {
            if name == members[n - 1].0 {
                assert(members[n - 1].0 == name);
            } else {
                assert(json::record_of(members, n - 1).contains_key(name));
                let i = choose|i: int| 0 <= i < n - 1 && #[trigger] members[i].0 == name;
                assert(members[i].0 == name);
            }
        }
    }
}

/// Whether `value` is a record that holds `part` under `name`.
pub open spec fn has_member(value: JsonView, name: Seq<char>, part: JsonView) -> bool {
    value matches JsonView::Record(record) && record.contains_key(name) && record[name] == part
}

/// Whether `value` is a record whose members are among those of the given names.
pub open spec fn has_only(value: JsonView, names: Seq<Seq<char>>) -> bool {
    value matches JsonView::Record(record) && forall|name: Seq<char>| #[trigger]
        record.contains_key(name) ==> names.contains(name)
}

/// A record holds each of its members under its name, and no others.
pub proof fn law_record_holds_its_members(
    members: Seq<(Seq<char>, JsonView)>,
    i: int,
    name: Seq<char>,
)
    requires
        distinct_names(members),
        0 <= i < members.len(),
    ensures
        has_member(json::record(members), members[i].0, members[i].1),
        json::record(members)->Record_0.contains_key(name) ==> exists|k: int|
            0 <= k < members.len() && #[trigger] members[k].0 == name,
{
    lemma_record_holds(members, members.len() as int);
}

/// A list of texts holds the texts in their order.
pub proof fn law_texts_keep_their_order(strings: Seq<Seq<char>>)
    ensures
        json::texts(strings) matches JsonView::List(values) && values.len() == strings.len()
            && forall|i: int|
            0 <= i < strings.len() ==> #[trigger] values[i] == JsonView::Text(strings[i]),
{
}

proof fn lemma_range_names()
    ensures
        "filename"@.len() == 8,
        "start_offset"@.len() == 12,
        "end_offset"@.len() == 10,
        "start_line"@.len() == 10,
        "start_column"@.len() == 12,
        "end_line"@.len() == 8,
        "end_column"@.len() == 10,
        "filename"@[0] == 'f',
        "end_line"@[0] == 'e',
        "start_offset"@[6] == 'o',
        "start_column"@[6] == 'c',
        "end_offset"@[4] == 'o',
        "end_column"@[4] == 'c',
        "start_line"@[4] == 't',
{
    reveal_strlit("filename");
    reveal_strlit("start_offset");
    reveal_strlit("end_offset");
    reveal_strlit("start_line");
    reveal_strlit("start_column");
    reveal_strlit("end_line");
    reveal_strlit("end_column");
}

/// A range as JSON holds each of its seven parts under the name of that part.
pub proof fn law_range_json_holds_every_part(range: RangeView)
    ensures
        has_member(
            diagnostic_json::range_json(range),
            "filename"@,
            JsonView::Text(range.filename),
        ),
        has_member(
            diagnostic_json::range_json(range),
            "start_offset"@,
            JsonView::Number(range.start_offset),
        ),
        has_member(
            diagnostic_json::range_json(range),
            "end_offset"@,
            JsonView::Number(range.end_offset),
        ),
        has_member(
            diagnostic_json::range_json(range),
            "start_line"@,
            JsonView::Number(range.start_line),
        ),
        has_member(
            diagnostic_json::range_json(range),
            "start_column"@,
            JsonView::Number(range.start_column),
        ),
        has_member(
            diagnostic_json::range_json(range),
            "end_line"@,
            JsonView::Number(range.end_line),
        ),
        has_member(
            diagnostic_json::range_json(range),
            "end_column"@,
            JsonView::Number(range.end_column),
        ),
        has_only(
            diagnostic_json::range_json(range),
            seq![
                "filename"@,
                "start_offset"@,
                "end_offset"@,
                "start_line"@,
                "start_column"@,
                "end_line"@,
                "end_column"@,
            ],
        ),
{
    lemma_range_names();
    let members = seq![
        ("filename"@, JsonView::Text(range.filename)),
        ("start_offset"@, JsonView::Number(range.start_offset)),
        ("end_offset"@, JsonView::Number(range.end_offset)),
        ("start_line"@, JsonView::Number(range.start_line)),
        ("start_column"@, JsonView::Number(range.start_column)),
        ("end_line"@, JsonView::Number(range.end_line)),
        ("end_column"@, JsonView::Number(range.end_column)),
    ];
    let names = seq![
        "filename"@,
        "start_offset"@,
        "end_offset"@,
        "start_line"@,
        "start_column"@,
        "end_line"@,
        "end_column"@,
    ];
    assert(diagnostic_json::range_json(range) == json::record(members));
    assert(distinct_names(members));
    lemma_record_holds(members, 7);
    assert(members[0].0 == names[0] && members[1].0 == names[1] && members[2].0 == names[2]);
    assert(members[3].0 == names[3] && members[4].0 == names[4] && members[5].0 == names[5]);
    assert(members[6].0 == names[6]);
    lemma_only(members, names);
}

proof fn lemma_only(members: Seq<(Seq<char>, JsonView)>, names: Seq<Seq<char>>)
    requires
        distinct_names(members),
        members.len() == names.len(),
        forall|i: int| 0 <= i < members.len() ==> #[trigger] members[i].0 == names[i],
    ensures
        has_only(json::record(members), names),
{
    lemma_record_holds(members, members.len() as int);
    let record = json::record(members)->Record_0;
    assert forall|name: Seq<char>| #[trigger] record.contains_key(name) implies names.contains(
        name,
    ) by {
        let i = choose|i: int| 0 <= i < members.len() && #[trigger] members[i].0 == name;
        assert(names[i] == name);
    }
}

/// A range can be read back from its JSON: ranges that differ have JSON that differs.
pub proof fn law_range_json_tells_ranges_apart(a: RangeView, b: RangeView)
    ensures
        diagnostic_json::range_json(a) == diagnostic_json::range_json(b) ==> a == b,
{
    law_range_json_holds_every_part(a);
    law_range_json_holds_every_part(b);
}

/// A step as JSON tells which of the two it is, and its key or its index.
pub proof fn law_segment_json(segment: SegmentView)
    ensures
        match segment {
            SegmentView::Key(key) => {
                let value = diagnostic_json::segment_json(segment);
                &&& has_member(value, "type"@, JsonView::Text("Key"@))
                &&& has_member(value, "value"@, JsonView::Text(key))
                &&& has_only(value, seq!["type"@, "value"@])
            },
            SegmentView::Index(index) => {
                let value = diagnostic_json::segment_json(segment);
                &&& has_member(value, "type"@, JsonView::Text("Index"@))
                &&& has_member(value, "value"@, JsonView::Number(index))
                &&& has_only(value, seq!["type"@, "value"@])
            },
        },
{
    reveal_strlit("type");
    reveal_strlit("value");
    assert("type"@.len() == 4 && "value"@.len() == 5);
    match segment {
        SegmentView::Key(key) => {
            lemma_two("type"@, JsonView::Text("Key"@), "value"@, JsonView::Text(key));
        },
        SegmentView::Index(index) => {
            lemma_two("type"@, JsonView::Text("Index"@), "value"@, JsonView::Number(index));
        },
    }
}

/// Steps that differ have JSON that differs.
pub proof fn law_segment_json_tells_steps_apart(a: SegmentView, b: SegmentView)
    ensures
        diagnostic_json::segment_json(a) == diagnostic_json::segment_json(b) ==> a == b,
{
    law_segment_json(a);
    law_segment_json(b);
}

proof fn lemma_two(first: Seq<char>, one: JsonView, second: Seq<char>, other: JsonView)
    requires
        first != second,
    ensures
        has_member(json::record(seq![(first, one), (second, other)]), first, one),
        has_member(json::record(seq![(first, one), (second, other)]), second, other),
        has_only(json::record(seq![(first, one), (second, other)]), seq![first, second]),
{
    let members = seq![(first, one), (second, other)];
    assert(distinct_names(members));
    lemma_record_holds(members, 2);
    assert(members[0].0 == first && members[1].0 == second);
    lemma_only(members, seq![first, second]);
}

/// Whether `value` is what stands for a kind of the given name, with the given data.
pub open spec fn is_kind_json(value: JsonView, name: Seq<char>, data: JsonView) -> bool {
    &&& has_member(value, "type"@, JsonView::Text(name))
    &&& has_member(value, "data"@, data)
    &&& has_only(value, seq!["type"@, "data"@])
}

proof fn lemma_tagged(name: Seq<char>, data: Seq<(Seq<char>, JsonView)>)
    ensures
        is_kind_json(diagnostic_json::tagged_json(name, data), name, json::record(data)),
{
    reveal_strlit("type");
    reveal_strlit("data");
    assert("type"@[0] == 't' && "data"@[0] == 'd');
    lemma_two("type"@, JsonView::Text(name), "data"@, json::record(data));
}

/// Whether `data` holds two texts under two names, and nothing else.
pub open spec fn has_two_texts(
    data: JsonView,
    first: Seq<char>,
    one: Seq<char>,
    second: Seq<char>,
    other: Seq<char>,
) -> bool {
    &&& has_member(data, first, JsonView::Text(one))
    &&& has_member(data, second, JsonView::Text(other))
    &&& has_only(data, seq![first, second])
}

/// The data of a kind as JSON.
pub open spec fn kind_data(kind: KindView) -> JsonView {
    match diagnostic_json::kind_json(kind) {
        JsonView::Record(record) => record["data"@],
        _ => JsonView::Null,
    }
}

/// A kind as JSON tells its name under `type`, and each of its parts under the part's name in
/// `data`. A kind without parts has no data, and a part that is missing is null.
pub proof fn law_kind_json(kind: KindView)
    ensures
        ({
            let value = diagnostic_json::kind_json(kind);
            let data = kind_data(kind);
            match kind {
                KindView::MissingRequiredProperty { property, allowed, expected_type } => {
                    &&& is_kind_json(value, "MissingRequiredProperty"@, data)
                    &&& has_member(data, "property"@, JsonView::Text(property))
                    &&& allowed matches Some(values) ==> has_member(
                        data,
                        "allowed"@,
                        json::texts(values),
                    )
                    &&& allowed is None ==> has_member(data, "allowed"@, JsonView::Null)
                    &&& expected_type matches Some(expected) ==> has_member(
                        data,
                        "expected_type"@,
                        JsonView::Text(expected),
                    )
                    &&& expected_type is None ==> has_member(data, "expected_type"@, JsonView::Null)
                    &&& has_only(data, seq!["property"@, "allowed"@, "expected_type"@])
                },
                KindView::TypeMismatch { expected, got } => {
                    &&& is_kind_json(value, "TypeMismatch"@, data)
                    &&& has_two_texts(data, "expected"@, expected, "got"@, got)
                },
                KindView::InvalidEnumValue { value: wrong, allowed } => {
                    &&& is_kind_json(value, "InvalidEnumValue"@, data)
                    &&& has_member(data, "value"@, JsonView::Text(wrong))
                    &&& has_member(data, "allowed"@, json::texts(allowed))
                    &&& has_only(data, seq!["value"@, "allowed"@])
                },
                KindView::StringPatternMismatch { value: wrong, pattern } => {
                    &&& is_kind_json(value, "StringPatternMismatch"@, data)
                    &&& has_two_texts(data, "value"@, wrong, "pattern"@, pattern)
                },
                KindView::NumberOutOfRange { value: wrong, range } => {
                    &&& is_kind_json(value, "NumberOutOfRange"@, data)
                    &&& has_two_texts(data, "value"@, wrong, "range"@, range)
                },
                KindView::NumberNotMultipleOf { value: wrong, multiple_of } => {
                    &&& is_kind_json(value, "NumberNotMultipleOf"@, data)
                    &&& has_two_texts(data, "value"@, wrong, "multiple_of"@, multiple_of)
                },
                KindView::UnknownProperty { property } => {
                    &&& is_kind_json(value, "UnknownProperty"@, data)
                    &&& has_member(data, "property"@, JsonView::Text(property))
                    &&& has_only(data, seq!["property"@])
                },
                KindView::ArrayItemsNotUnique => {
                    &&& has_member(value, "type"@, JsonView::Text("ArrayItemsNotUnique"@))
                    &&& has_only(value, seq!["type"@])
                },
                KindView::Other { code, message } => {
                    &&& is_kind_json(value, "Other"@, data)
                    &&& has_two_texts(data, "code"@, code, "message"@, message)
                },
            }
        }),
{
    reveal_strlit("type");
    reveal_strlit("data");
    reveal_strlit("property");
    reveal_strlit("allowed");
    reveal_strlit("expected_type");
    reveal_strlit("expected");
    reveal_strlit("got");
    reveal_strlit("value");
    reveal_strlit("pattern");
    reveal_strlit("range");
    reveal_strlit("multiple_of");
    reveal_strlit("code");
    reveal_strlit("message");
    assert("property"@.len() == 8 && "allowed"@.len() == 7 && "expected_type"@.len() == 13);
    assert("expected"@.len() == 8 && "got"@.len() == 3 && "pattern"@.len() == 7);
    assert("value"@.len() == 5 && "value"@[0] == 'v' && "range"@[0] == 'r');
    assert("multiple_of"@.len() == 11 && "code"@.len() == 4 && "message"@.len() == 7);
    match kind {
        KindView::MissingRequiredProperty { property, allowed, expected_type } => {
            let members = seq![
                ("property"@, JsonView::Text(property)),
                ("allowed"@, diagnostic_json::optional_texts(allowed)),
                ("expected_type"@, diagnostic_json::optional_text(expected_type)),
            ];
            let names = seq!["property"@, "allowed"@, "expected_type"@];
            lemma_tagged("MissingRequiredProperty"@, members);
            assert(distinct_names(members));
            lemma_record_holds(members, 3);
            assert(members[0].0 == names[0]);
            assert(members[1].0 == names[1]);
            assert(members[2].0 == names[2]);
            lemma_only(members, names);
        },
        KindView::TypeMismatch { expected, got } => {
            let members = seq![
                ("expected"@, JsonView::Text(expected)),
                ("got"@, JsonView::Text(got)),
            ];
            lemma_tagged("TypeMismatch"@, members);
            lemma_two("expected"@, JsonView::Text(expected), "got"@, JsonView::Text(got));
        },
        KindView::InvalidEnumValue { value, allowed } => {
            let members = seq![
                ("value"@, JsonView::Text(value)),
                ("allowed"@, json::texts(allowed)),
            ];
            lemma_tagged("InvalidEnumValue"@, members);
            lemma_two("value"@, JsonView::Text(value), "allowed"@, json::texts(allowed));
        },
        KindView::StringPatternMismatch { value, pattern } => {
            let members = seq![
                ("value"@, JsonView::Text(value)),
                ("pattern"@, JsonView::Text(pattern)),
            ];
            lemma_tagged("StringPatternMismatch"@, members);
            lemma_two("value"@, JsonView::Text(value), "pattern"@, JsonView::Text(pattern));
        },
        KindView::NumberOutOfRange { value, range } => {
            let members = seq![
                ("value"@, JsonView::Text(value)),
                ("range"@, JsonView::Text(range)),
            ];
            lemma_tagged("NumberOutOfRange"@, members);
            lemma_two("value"@, JsonView::Text(value), "range"@, JsonView::Text(range));
        },
        KindView::NumberNotMultipleOf { value, multiple_of } => {
            let members = seq![
                ("value"@, JsonView::Text(value)),
                ("multiple_of"@, JsonView::Text(multiple_of)),
            ];
            lemma_tagged("NumberNotMultipleOf"@, members);
            lemma_two(
                "value"@,
                JsonView::Text(value),
                "multiple_of"@,
                JsonView::Text(multiple_of),
            );
        },
        KindView::UnknownProperty { property } => {
            let members = seq![("property"@, JsonView::Text(property))];
            lemma_tagged("UnknownProperty"@, members);
            assert(distinct_names(members));
            lemma_record_holds(members, 1);
            assert(members[0].0 == "property"@);
            lemma_only(members, seq!["property"@]);
        },
        KindView::ArrayItemsNotUnique => {
            let members = seq![("type"@, JsonView::Text("ArrayItemsNotUnique"@))];
            assert(distinct_names(members));
            lemma_record_holds(members, 1);
            assert(members[0].0 == "type"@);
            lemma_only(members, seq!["type"@]);
        },
        KindView::Other { code, message } => {
            let members = seq![
                ("code"@, JsonView::Text(code)),
                ("message"@, JsonView::Text(message)),
            ];
            lemma_tagged("Other"@, members);
            lemma_two("code"@, JsonView::Text(code), "message"@, JsonView::Text(message));
        },
    }
}

/// A diagnostic as JSON holds its kind, its code, each step of its paths, its message, its
/// range where it is known, and its hints where there are any, each under its own name.
pub proof fn law_diagnostic_json_holds_every_part(diagnostic: DiagnosticView)
    ensures
        ({
            let value = json::record(diagnostic_json::diagnostic_members(diagnostic));
            let steps = diagnostic.instance_path;
            &&& has_member(value, "error_kind"@, diagnostic_json::kind_json(diagnostic.kind))
            &&& has_member(value, "code"@, JsonView::Text(diagnostic.code))
            &&& value->Record_0.contains_key("instance_path"@)
            &&& value->Record_0["instance_path"@] matches JsonView::List(list) && list.len()
                == steps.len() && forall|i: int|
                0 <= i < steps.len() ==> #[trigger] list[i] == diagnostic_json::segment_json(
                    steps[i],
                )
            &&& has_member(value, "schema_path"@, json::texts(diagnostic.schema_path))
            &&& has_member(
                value,
                "message"@,
                JsonView::Text(validation_error::kind_message(diagnostic.kind)),
            )
            &&& diagnostic.source_range matches Some(range) ==> has_member(
                value,
                "source_range"@,
                diagnostic_json::range_json(range),
            )
            &&& diagnostic.hints().len() > 0 ==> has_member(
                value,
                "hints"@,
                json::texts(diagnostic.hints()),
            )
            &&& has_only(
                value,
                seq![
                    "error_kind"@,
                    "code"@,
                    "instance_path"@,
                    "schema_path"@,
                    "source_range"@,
                    "message"@,
                    "hints"@,
                ],
            )
        }),
{
    reveal_strlit("error_kind");
    reveal_strlit("code");
    reveal_strlit("instance_path");
    reveal_strlit("schema_path");
    reveal_strlit("source_range");
    reveal_strlit("message");
    reveal_strlit("hints");
    assert("error_kind"@.len() == 10);
    assert("code"@.len() == 4);
    assert("instance_path"@.len() == 13);
    assert("schema_path"@.len() == 11);
    assert("source_range"@.len() == 12);
    assert("message"@.len() == 7);
    assert("hints"@.len() == 5);
    let members = diagnostic_json::diagnostic_members(diagnostic);
    let told: int = if diagnostic.source_range is Some {
        5
    } else {
        4
    };
    assert(members[0].0 == "error_kind"@);
    assert(members[1].0 == "code"@);
    assert(members[2].0 == "instance_path"@);
    assert(members[3].0 == "schema_path"@);
    if diagnostic.source_range is Some {
        assert(members[4].0 == "source_range"@);
    }
    assert(members[told].0 == "message"@);
    if diagnostic.hints().len() > 0 {
        assert(members.len() == told + 2);
        assert(members[told + 1].0 == "hints"@);
    } else {
        assert(members.len() == told + 1);
    }
    assert forall|i: int, j: int| 0 <= i < j < members.len() implies #[trigger] members[i].0
        != #[trigger] members[j].0 by {
        assert(members[i].0.len() != members[j].0.len());
    }
    lemma_record_holds(members, members.len() as int);
    let value = json::record(members);
    assert(has_member(value, members[0].0, members[0].1));
    assert(has_member(value, members[1].0, members[1].1));
    assert(has_member(value, members[2].0, members[2].1));
    assert(has_member(value, members[3].0, members[3].1));
    assert(has_member(value, members[told].0, members[told].1));
    let names = seq![
        "error_kind"@,
        "code"@,
        "instance_path"@,
        "schema_path"@,
        "source_range"@,
        "message"@,
        "hints"@,
    ];
    assert(names[0] == "error_kind"@ && names[1] == "code"@ && names[2] == "instance_path"@);
    assert(names[3] == "schema_path"@ && names[4] == "source_range"@ && names[5] == "message"@);
    assert(names[6] == "hints"@);
    let record = value->Record_0;
    assert forall|name: Seq<char>| #[trigger] record.contains_key(name) implies names.contains(
        name,
    ) by {
        let i = choose|i: int| 0 <= i < members.len() && #[trigger] members[i].0 == name;
        assert(i == 0 || i == 1 || i == 2 || i == 3 || i == 4 || i == 5 || i == 6);
    }
}

} // verus!
