//! Diagnostics as JSON values.

use crate::diagnostic::{DiagnosticView, RangeView, SourceRange};
use crate::json;
use crate::json::{json_list, json_null, json_number, json_record, json_text, json_texts, JsonView};
use crate::path;
use crate::path::{PathSegment, SegmentView};
use crate::validation_error;
use crate::validation_error::{KindView, ValidationErrorKind};
use serde_json::Value;
use vstd::prelude::*;

verus! {

/// A step of a path as JSON.
pub open spec fn segment_json(segment: SegmentView) -> JsonView {
    match segment {
        SegmentView::Key(key) => json::record(
            seq![("type"@, JsonView::Text("Key"@)), ("value"@, JsonView::Text(key))],
        ),
        SegmentView::Index(index) => json::record(
            seq![("type"@, JsonView::Text("Index"@)), ("value"@, JsonView::Number(index))],
        ),
    }
}

/// A range as JSON.
pub open spec fn range_json(range: RangeView) -> JsonView {
    json::record(
        seq![
            ("filename"@, JsonView::Text(range.filename)),
            ("start_offset"@, JsonView::Number(range.start_offset)),
            ("end_offset"@, JsonView::Number(range.end_offset)),
            ("start_line"@, JsonView::Number(range.start_line)),
            ("start_column"@, JsonView::Number(range.start_column)),
            ("end_line"@, JsonView::Number(range.end_line)),
            ("end_column"@, JsonView::Number(range.end_column)),
        ],
    )
}

/// A kind with its name and its data.
pub open spec fn tagged_json(name: Seq<char>, data: Seq<(Seq<char>, JsonView)>) -> JsonView {
    json::record(seq![("type"@, JsonView::Text(name)), ("data"@, json::record(data))])
}

/// Texts that may be missing.
pub open spec fn optional_texts(strings: Option<Seq<Seq<char>>>) -> JsonView {
    match strings {
        Some(s) => json::texts(s),
        None => JsonView::Null,
    }
}

/// A text that may be missing.
pub open spec fn optional_text(string: Option<Seq<char>>) -> JsonView {
    match string {
        Some(s) => JsonView::Text(s),
        None => JsonView::Null,
    }
}

/// A kind as JSON.
pub open spec fn kind_json(kind: KindView) -> JsonView {
    match kind {
        KindView::MissingRequiredProperty { property, allowed, expected_type } => tagged_json(
            "MissingRequiredProperty"@,
            seq![
                ("property"@, JsonView::Text(property)),
                ("allowed"@, optional_texts(allowed)),
                ("expected_type"@, optional_text(expected_type)),
            ],
        ),
        KindView::TypeMismatch { expected, got } => tagged_json(
            "TypeMismatch"@,
            seq![("expected"@, JsonView::Text(expected)), ("got"@, JsonView::Text(got))],
        ),
        KindView::InvalidEnumValue { value, allowed } => tagged_json(
            "InvalidEnumValue"@,
            seq![("value"@, JsonView::Text(value)), ("allowed"@, json::texts(allowed))],
        ),
        KindView::StringPatternMismatch { value, pattern } => tagged_json(
            "StringPatternMismatch"@,
            seq![("value"@, JsonView::Text(value)), ("pattern"@, JsonView::Text(pattern))],
        ),
        KindView::NumberOutOfRange { value, range } => tagged_json(
            "NumberOutOfRange"@,
            seq![("value"@, JsonView::Text(value)), ("range"@, JsonView::Text(range))],
        ),
        KindView::NumberNotMultipleOf { value, multiple_of } => tagged_json(
            "NumberNotMultipleOf"@,
            seq![("value"@, JsonView::Text(value)), ("multiple_of"@, JsonView::Text(multiple_of))],
        ),
        KindView::UnknownProperty { property } => tagged_json(
            "UnknownProperty"@,
            seq![("property"@, JsonView::Text(property))],
        ),
        KindView::ArrayItemsNotUnique => json::record(
            seq![("type"@, JsonView::Text("ArrayItemsNotUnique"@))],
        ),
        KindView::Other { code, message } => tagged_json(
            "Other"@,
            seq![("code"@, JsonView::Text(code)), ("message"@, JsonView::Text(message))],
        ),
    }
}

/// The members of a diagnostic as JSON. The range and the hints are left out where there
/// are none.
pub open spec fn diagnostic_members(diagnostic: DiagnosticView) -> Seq<(Seq<char>, JsonView)> {
    let path = diagnostic.instance_path;
    let first = seq![
        ("error_kind"@, kind_json(diagnostic.kind)),
        ("code"@, JsonView::Text(diagnostic.code)),
        ("instance_path"@, JsonView::List(Seq::new(path.len(), |i: int| segment_json(path[i])))),
        ("schema_path"@, json::texts(diagnostic.schema_path)),
    ];
    let ranged = match diagnostic.source_range {
        Some(range) => first.push(("source_range"@, range_json(range))),
        None => first,
    };
    let told = ranged.push(
        ("message"@, JsonView::Text(validation_error::kind_message(diagnostic.kind))),
    );
    if diagnostic.hints().len() > 0 {
        told.push(("hints"@, json::texts(diagnostic.hints())))
    } else {
        told
    }
}

/// A record of two members.
fn json_pair(first: &str, one: Value, second: &str, other: Value) -> (value: Value)
    ensures
        json::json_view(value) == json::record(
            seq![(first@, json::json_view(one)), (second@, json::json_view(other))],
        ),
{
    let mut members: Vec<(&str, Value)> = Vec::new();
    members.push((first, one));
    members.push((second, other));
    assert(json::member_views(members@) =~= seq![
        (first@, json::json_view(one)),
        (second@, json::json_view(other)),
    ]);
    json_record(members)
}

impl PathSegment {
    /// The step as JSON: its type and its value.
    pub fn to_json(&self) -> (value: Value)
        ensures
            json::json_view(value) == segment_json(self@),
    {
        match self {
            PathSegment::Key(key) => json_pair(
                "type",
                json_text("Key"),
                "value",
                json_text(key.as_str()),
            ),
            PathSegment::Index(index) => json_pair(
                "type",
                json_text("Index"),
                "value",
                json_number(*index),
            ),
        }
    }
}

impl SourceRange {
    /// The range as JSON.
    pub fn to_json(&self) -> (value: Value)
        ensures
            json::json_view(value) == range_json(self@),
    {
        let mut members: Vec<(&str, Value)> = Vec::new();
        members.push(("filename", json_text(self.filename.as_str())));
        members.push(("start_offset", json_number(self.start_offset)));
        members.push(("end_offset", json_number(self.end_offset)));
        members.push(("start_line", json_number(self.start_line)));
        members.push(("start_column", json_number(self.start_column)));
        members.push(("end_line", json_number(self.end_line)));
        members.push(("end_column", json_number(self.end_column)));
        assert(json::member_views(members@) =~= seq![
            ("filename"@, JsonView::Text(self@.filename)),
            ("start_offset"@, JsonView::Number(self@.start_offset)),
            ("end_offset"@, JsonView::Number(self@.end_offset)),
            ("start_line"@, JsonView::Number(self@.start_line)),
            ("start_column"@, JsonView::Number(self@.start_column)),
            ("end_line"@, JsonView::Number(self@.end_line)),
            ("end_column"@, JsonView::Number(self@.end_column)),
        ]);
        json_record(members)
    }
}

/// A kind with its name and two texts.
fn two_texts(name: &str, first: &str, one: &str, second: &str, other: &str) -> (value: Value)
    ensures
        json::json_view(value) == tagged_json(
            name@,
            seq![(first@, JsonView::Text(one@)), (second@, JsonView::Text(other@))],
        ),
{
    let data = json_pair(first, json_text(one), second, json_text(other));
    json_pair("type", json_text(name), "data", data)
}

impl ValidationErrorKind {
    /// The kind as JSON: its type and its data.
    pub fn to_json(&self) -> (value: Value)
        ensures
            json::json_view(value) == kind_json(self@),
    {
        match self {
            ValidationErrorKind::MissingRequiredProperty { property, allowed, expected_type } => {
                let allowed = match allowed {
                    Some(values) => json_texts(values),
                    None => json_null(),
                };
                let expected_type = match expected_type {
                    Some(expected) => json_text(expected.as_str()),
                    None => json_null(),
                };
                let mut members: Vec<(&str, Value)> = Vec::new();
                members.push(("property", json_text(property.as_str())));
                members.push(("allowed", allowed));
                members.push(("expected_type", expected_type));
                assert(json::member_views(members@) =~= seq![
                    ("property"@, JsonView::Text(property@)),
                    ("allowed"@, json::json_view(allowed)),
                    ("expected_type"@, json::json_view(expected_type)),
                ]);
                json_pair(
                    "type",
                    json_text("MissingRequiredProperty"),
                    "data",
                    json_record(members),
                )
            },
            ValidationErrorKind::TypeMismatch { expected, got } => two_texts(
                "TypeMismatch",
                "expected",
                expected.as_str(),
                "got",
                got.as_str(),
            ),
            ValidationErrorKind::InvalidEnumValue { value, allowed } => {
                let data = json_pair(
                    "value",
                    json_text(value.as_str()),
                    "allowed",
                    json_texts(allowed),
                );
                json_pair("type", json_text("InvalidEnumValue"), "data", data)
            },
            ValidationErrorKind::StringPatternMismatch { value, pattern } => two_texts(
                "StringPatternMismatch",
                "value",
                value.as_str(),
                "pattern",
                pattern.as_str(),
            ),
            ValidationErrorKind::NumberOutOfRange { value, range } => two_texts(
                "NumberOutOfRange",
                "value",
                value.as_str(),
                "range",
                range.as_str(),
            ),
            ValidationErrorKind::NumberNotMultipleOf { value, multiple_of } => two_texts(
                "NumberNotMultipleOf",
                "value",
                value.as_str(),
                "multiple_of",
                multiple_of.as_str(),
            ),
            ValidationErrorKind::UnknownProperty { property } => {
                let mut members: Vec<(&str, Value)> = Vec::new();
                members.push(("property", json_text(property.as_str())));
                assert(json::member_views(members@) =~= seq![
                    ("property"@, JsonView::Text(property@)),
                ]);
                json_pair("type", json_text("UnknownProperty"), "data", json_record(members))
            },
            ValidationErrorKind::ArrayItemsNotUnique => {
                let mut members: Vec<(&str, Value)> = Vec::new();
                members.push(("type", json_text("ArrayItemsNotUnique")));
                assert(json::member_views(members@) =~= seq![
                    ("type"@, JsonView::Text("ArrayItemsNotUnique"@)),
                ]);
                json_record(members)
            },
            ValidationErrorKind::Other { code, message } => two_texts(
                "Other",
                "code",
                code.as_str(),
                "message",
                message.as_str(),
            ),
        }
    }
}

/// A path as JSON.
pub(crate) fn path_to_json(segments: &Vec<PathSegment>) -> (value: Value)
    ensures
        ({
            let views = path::segment_views(segments@);
            json::json_view(value) == JsonView::List(
                Seq::new(views.len(), |i: int| segment_json(views[i])),
            )
        }),
{
    let mut values: Vec<Value> = Vec::new();
    let mut i: usize = 0;
    while i < segments.len()
        invariant
            i <= segments@.len(),
            values@.len() == i,
            forall|j: int|
                0 <= j < i ==> json::json_view(#[trigger] values@[j]) == segment_json(
                    segments@[j]@,
                ),
        decreases segments.len() - i,
    {
        values.push(segments[i].to_json());
        i += 1;
    }
    proof {
        let views = path::segment_views(segments@);
        assert(json::list_views(values@) =~= Seq::new(
            views.len(),
            |i: int| segment_json(views[i]),
        ));
    }
    json_list(values)
}

} // verus!
