//! What holds of every value and of its view: nothing that is stored is lost or exchanged.

use crate::diagnostic::SourceRange;
use crate::error::{Error, ErrorView};
use crate::event;
use crate::event::{Event, EventView, Tag};
use crate::node;
use crate::node::{Children, ChildrenView, NodeView, YamlHashEntry, YamlWithSourceInfo};
use crate::parser;
use crate::path;
use crate::path::{PathSegment, SegmentView};
use crate::source_info::{SourceInfo, SourceView};
use crate::source_map::MappedPoint;
use crate::source_text::Marker;
use crate::stream::ScanFailure;
use crate::validation_error::{KindView, ValidationError, ValidationErrorKind};
use crate::yaml;
use crate::yaml::{Yaml, YamlView};
use vstd::prelude::*;

verus! {

/// A range is viewed with each of its parts in its own place.
pub proof fn law_range_view(range: SourceRange)
    ensures
        range@.filename == range.filename@,
        range@.start_offset == range.start_offset,
        range@.end_offset == range.end_offset,
        range@.start_line == range.start_line,
        range@.start_column == range.start_column,
        range@.end_line == range.end_line,
        range@.end_column == range.end_column,
{
}

/// A place is viewed with each of its parts in its own place.
pub proof fn law_point_view(point: MappedPoint)
    ensures
        point@.file_id == point.file_id,
        point@.offset == point.offset,
        point@.row == point.row,
        point@.column == point.column,
{
}

/// Texts are viewed one by one.
pub proof fn law_text_views(strings: Seq<String>)
    ensures
        path::string_views(strings).len() == strings.len(),
        forall|i: int|
            0 <= i < strings.len() ==> #[trigger] path::string_views(strings)[i] == strings[i]@,
{
}

/// A step is viewed as the key or the index that it is, and the steps of a path one by one.
pub proof fn law_segment_views(segments: Seq<PathSegment>, i: int)
    requires
        0 <= i < segments.len(),
    ensures
        path::segment_views(segments).len() == segments.len(),
        match segments[i] {
            PathSegment::Key(key) => path::segment_views(segments)[i] == SegmentView::Key(key@),
            PathSegment::Index(index) => path::segment_views(segments)[i] == SegmentView::Index(
                index as nat,
            ),
        },
{
}

/// Whether a view of texts that may be missing is the view of those.
pub open spec fn views_texts(view: Option<Seq<Seq<char>>>, strings: Option<Vec<String>>) -> bool {
    match strings {
        Some(s) => view == Some(path::string_views(s@)),
        None => view is None,
    }
}

/// Whether a view of a text that may be missing is the view of that.
pub open spec fn views_text(view: Option<Seq<char>>, string: Option<String>) -> bool {
    match string {
        Some(s) => view == Some(s@),
        None => view is None,
    }
}

/// A kind is viewed as the kind that it is, with each of its parts in its own place.
pub proof fn law_kind_view(kind: ValidationErrorKind)
    ensures
        match (kind, kind@) {
            (
                ValidationErrorKind::MissingRequiredProperty { property, allowed, expected_type },
                KindView::MissingRequiredProperty { property: p, allowed: a, expected_type: e },
            ) => p == property@ && views_texts(a, allowed) && views_text(e, expected_type),
            (
                ValidationErrorKind::TypeMismatch { expected, got },
                KindView::TypeMismatch { expected: e, got: g },
            ) => e == expected@ && g == got@,
            (
                ValidationErrorKind::InvalidEnumValue { value, allowed },
                KindView::InvalidEnumValue { value: v, allowed: a },
            ) => v == value@ && a == path::string_views(allowed@),
            (
                ValidationErrorKind::StringPatternMismatch { value, pattern },
                KindView::StringPatternMismatch { value: v, pattern: p },
            ) => v == value@ && p == pattern@,
            (
                ValidationErrorKind::NumberOutOfRange { value, range },
                KindView::NumberOutOfRange { value: v, range: r },
            ) => v == value@ && r == range@,
            (
                ValidationErrorKind::NumberNotMultipleOf { value, multiple_of },
                KindView::NumberNotMultipleOf { value: v, multiple_of: m },
            ) => v == value@ && m == multiple_of@,
            (
                ValidationErrorKind::UnknownProperty { property },
                KindView::UnknownProperty { property: p },
            ) => p == property@,
            (ValidationErrorKind::ArrayItemsNotUnique, KindView::ArrayItemsNotUnique) => true,
            (
                ValidationErrorKind::Other { code, message },
                KindView::Other { code: c, message: m },
            ) => c == code@ && m == message@,
            _ => false,
        },
{
}

/// An error is viewed with each of its parts in its own place.
pub proof fn law_error_view(error: ValidationError)
    ensures
        error@.kind == error.kind@,
        error@.instance_path == error.instance_path@,
        error@.schema_path == error.schema_path@,
        views_text(error@.custom_hint, error.custom_hint),
        match error.yaml_node {
            Some(node) => error@.node == Some(node@),
            None => error@.node is None,
        },
{
}

/// What went wrong in parsing is viewed with what is wrong, and where.
pub proof fn law_failure_views(error: Error, failure: ScanFailure)
    ensures
        error matches Error::ParseError { message, location } ==> error@
            == (ErrorView::ParseError { message: message@, location }),
        failure@.message == failure.message@,
        failure@.marker == failure.marker,
{
}

/// Whether a view of a tag that may be missing is the view of that.
pub open spec fn views_tag(view: Option<event::TagView>, tag: Option<Tag>) -> bool {
    match tag {
        Some(t) => view matches Some(v) && v.handle == t.handle@ && v.suffix == t.suffix@,
        None => view is None,
    }
}

/// Events are viewed one by one, each as the event that it is, with all that it carries and
/// with its place.
pub proof fn law_event_views(events: Seq<(Event, Marker)>, i: int)
    requires
        0 <= i < events.len(),
    ensures
        event::event_views(events).len() == events.len(),
        event::event_views(events)[i].1 == events[i].1,
        match (events[i].0, event::event_views(events)[i].0) {
            (
                Event::Scalar(value, style, tag),
                EventView::Scalar { value: v, style: s, tag: t },
            ) => v == value@ && s == style && views_tag(t, tag),
            (Event::SequenceStart(tag), EventView::SequenceStart { tag: t }) => views_tag(t, tag),
            (Event::MappingStart(tag), EventView::MappingStart { tag: t }) => views_tag(t, tag),
            (Event::Nothing, EventView::Nothing) => true,
            (Event::StreamStart, EventView::StreamStart) => true,
            (Event::StreamEnd, EventView::StreamEnd) => true,
            (Event::DocumentStart, EventView::DocumentStart) => true,
            (Event::DocumentEnd, EventView::DocumentEnd) => true,
            (Event::Alias, EventView::Alias) => true,
            (Event::SequenceEnd, EventView::SequenceEnd) => true,
            (Event::MappingEnd, EventView::MappingEnd) => true,
            _ => false,
        },
{
}

/// A value is viewed as the value that it is: a scalar with what it holds, a sequence with its
/// items in their order, and a mapping with its keys and values in their order.
pub proof fn law_yaml_view(yaml: Yaml, i: int)
    ensures
        match (yaml, yaml@) {
            (Yaml::Real(s), YamlView::Real(v)) => v == s@,
            (Yaml::Integer(n), YamlView::Integer(v)) => v == n,
            (Yaml::String(s), YamlView::String(v)) => v == s@,
            (Yaml::Boolean(b), YamlView::Boolean(v)) => v == b,
            (Yaml::Array(items), YamlView::Array(views)) => {
                &&& views.len() == items@.len()
                &&& 0 <= i < items@.len() ==> views[i] == items@[i]@
            },
            (Yaml::Hash(pairs), YamlView::Hash(views)) => {
                &&& views.len() == pairs@.len()
                &&& 0 <= i < pairs@.len() ==> views[i].0 == pairs@[i].0@ && views[i].1
                    == pairs@[i].1@
            },
            (Yaml::Null, YamlView::Null) => true,
            (Yaml::BadValue, YamlView::BadValue) => true,
            _ => false,
        },
{
    match yaml {
        Yaml::Array(items) => {
            yaml::lemma_array_view(items);
        },
        Yaml::Hash(pairs) => {
            yaml::lemma_hash_view(pairs);
        },
        _ => {},
    }
}

/// A source info is viewed as what it is, with its offsets and with its pieces in their order.
pub proof fn law_source_view(info: SourceInfo, i: int)
    ensures
        match (info, info@) {
            (
                SourceInfo::Original { file_id, start_offset, end_offset },
                SourceView::Original { file_id: id, start, end },
            ) => id == file_id && start == start_offset && end == end_offset,
            (
                SourceInfo::Substring { parent, start_offset, end_offset },
                SourceView::Substring { parent: whole, start, end },
            ) => *whole == (*parent)@ && start == start_offset && end == end_offset,
            (SourceInfo::Concat { pieces }, SourceView::Concat { pieces: views }) => {
                &&& views.len() == pieces@.len()
                &&& 0 <= i < pieces@.len() ==> views[i].0 == pieces@[i].source_info@ && views[i].1
                    == pieces@[i].length
            },
            (SourceInfo::Generated { kind }, SourceView::Generated { kind: k }) => k == kind@,
            _ => false,
        },
{
}

/// A node is viewed with its value, its place, its tag with the tag's place, and its parts in
/// their order.
pub proof fn law_node_view(node: YamlWithSourceInfo, i: int)
    ensures
        node@.yaml == node.yaml@,
        node@.span == node.source_info@,
        match node.tag {
            Some((suffix, span)) => node@.tag == Some((suffix@, span@)),
            None => node@.tag is None,
        },
        match (node.children, node@.children) {
            (Children::Leaf, ChildrenView::Leaf) => true,
            (Children::Items(items), ChildrenView::Items(views)) => {
                &&& views.len() == items@.len()
                &&& 0 <= i < items@.len() ==> views[i] == items@[i]@
            },
            (Children::Entries(entries), ChildrenView::Entries(views)) => {
                &&& views.len() == entries@.len()
                &&& 0 <= i < entries@.len() ==> views[i] == entries@[i]@
            },
            _ => false,
        },
{
    match node.children {
        Children::Items(_) => {
            node::lemma_items_view(node);
        },
        Children::Entries(_) => {
            node::lemma_entries_view(node);
        },
        Children::Leaf => {},
    }
}

/// An entry is viewed with its key, its value and the places of both and of the whole.
pub proof fn law_entry_view(entry: YamlHashEntry)
    ensures
        entry@.key == entry.key@,
        entry@.value == entry.value@,
        entry@.key_span == entry.key_span@,
        entry@.value_span == entry.value_span@,
        entry@.entry_span == entry.entry_span@,
{
}

/// What parsing gives is viewed as the tree or the error that it is.
pub proof fn law_result_view(result: Result<YamlWithSourceInfo, Error>)
    ensures
        match result {
            Ok(node) => parser::result_view(result) == Ok::<NodeView, ErrorView>(node@),
            Err(error) => parser::result_view(result) == Err::<NodeView, ErrorView>(error@),
        },
{
}

} // verus!
