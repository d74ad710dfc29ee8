//! What holds of every tree that is parsed.

use crate::event::{EventView, ScalarStyle, TagView};
use crate::extent;
use crate::node;
use crate::node::{ChildrenView, EntryView, NodeView};
use crate::source_info;
use crate::source_info::{FileId, SourceView};
use crate::source_map;
use crate::source_text;
use crate::source_text::Marker;
use crate::text;
use crate::tree;
use crate::tree::Origin;
use crate::yaml;
use crate::yaml::YamlView;
use vstd::prelude::*;
use vstd::utf8::*;

verus! {

/// Whether `span` is a range of the text that the text can be sliced with: it starts
/// and ends at a boundary between characters, and does not end before it starts.
pub open spec fn sliceable(origin: Origin, span: SourceView) -> bool {
    let bytes = encode_utf8(origin.source);
    &&& origin.owns(span)
    &&& 0 <= span.start_offset() <= span.end_offset() <= bytes.len()
    &&& is_char_boundary(bytes, span.start_offset())
    &&& is_char_boundary(bytes, span.end_offset())
}

/// Whether the text can be sliced with the places of a node, of its tag and of
/// everything inside of it.
pub open spec fn places_hold(origin: Origin, node: NodeView) -> bool
    decreases node,
{
    &&& sliceable(origin, node.span)
    &&& node.tag matches Some((_, span)) ==> sliceable(origin, span)
    &&& match node.children {
        ChildrenView::Leaf => true,
        ChildrenView::Items(items) => forall|i: int|
            0 <= i < items.len() ==> places_hold(origin, #[trigger] items[i]),
        ChildrenView::Entries(entries) => forall|i: int|
            0 <= i < entries.len() ==> entry_places_hold(origin, #[trigger] entries[i]),
    }
}

/// Whether the places of an entry are those of its key and its value, and the text can
/// be sliced with the places inside of it.
pub open spec fn entry_places_hold(origin: Origin, entry: EntryView) -> bool
    decreases entry,
{
    &&& entry.key_span == entry.key.span
    &&& entry.value_span == entry.value.span
    &&& entry.entry_span == origin.span(
        entry.key.span.start_offset(),
        entry.value.span.end_offset(),
    )
    &&& places_hold(origin, entry.key)
    &&& places_hold(origin, entry.value)
}

/// A range of characters can be sliced.
proof fn lemma_char_span_sliceable(origin: Origin, i: int, j: int)
    requires
        0 <= i <= j <= origin.source.len(),
    ensures
        sliceable(origin, origin.char_span(i, j)),
{
    text::lemma_byte_len_range(origin.source, i, j);
    text::lemma_byte_len_is_encoding(origin.source);
    text::lemma_char_boundary(origin.source, i);
    text::lemma_char_boundary(origin.source, j);
}

/// A range from a boundary to a marker can be sliced, or is empty.
proof fn lemma_later_sliceable(origin: Origin, from: int, marker: Marker)
    requires
        0 <= from <= encode_utf8(origin.source).len(),
        is_char_boundary(encode_utf8(origin.source), from),
    ensures
        sliceable(origin, origin.span(from, tree::later(from, origin.offset(marker)))),
{
    let at = source_text::char_position(origin.source, marker);
    source_text::lemma_char_position(origin.source, marker);
    text::lemma_char_boundary(origin.source, at);
    text::lemma_byte_len_range(origin.source, at, at);
    text::lemma_byte_len_is_encoding(origin.source);
}

proof fn lemma_marker_boundary(origin: Origin, marker: Marker)
    ensures
        0 <= origin.offset(marker) <= encode_utf8(origin.source).len(),
        is_char_boundary(encode_utf8(origin.source), origin.offset(marker)),
{
    let at = source_text::char_position(origin.source, marker);
    source_text::lemma_char_position(origin.source, marker);
    text::lemma_char_boundary(origin.source, at);
    text::lemma_byte_len_range(origin.source, at, at);
    text::lemma_byte_len_is_encoding(origin.source);
}

/// The tag of a mapping is looked for in the text.
proof fn lemma_mapping_position(origin: Origin, start: Marker, pairs: Seq<(NodeView, NodeView)>)
    ensures
        0 <= tree::mapping_position(origin, start, pairs) <= origin.source.len(),
{
    let from = if pairs.len() > 0 && pairs[0].0.first_offset() < origin.offset(start) {
        pairs[0].0.first_offset()
    } else {
        origin.offset(start)
    };
    source_text::lemma_clip(origin.source, 0, from as nat);
}

/// Where a tag is found, or taken to stand, can be sliced.
proof fn lemma_tag_sliceable(origin: Origin, at: int, tag: Option<TagView>)
    requires
        0 <= at <= origin.source.len(),
    ensures
        tree::located_tag(origin, at, tag) matches Some((_, span)) ==> sliceable(origin, span),
{
    if let Some(t) = tag {
        let limit = 1 + text::byte_len(t.suffix);
        source_text::lemma_clip(origin.source, at, limit);
        lemma_char_span_sliceable(origin, at, source_text::clip(origin.source, at, limit));
        extent::lemma_tag_range(origin.source, at);
        if let Some((start, end)) = extent::tag_range(origin.source, at) {
            lemma_char_span_sliceable(origin, start, end);
        }
    }
}

proof fn lemma_node_places(origin: Origin, events: Seq<(EventView, Marker)>, i: int)
    requires
        tree::node_end(events, i) is Some,
    ensures
        places_hold(origin, tree::node_at(origin, events, i)),
    decreases events.len() - i, 0int,
{
    let (event, marker) = events[i];
    let built = tree::node_at(origin, events, i);
    let at = source_text::char_position(origin.source, marker);
    source_text::lemma_char_position(origin.source, marker);
    lemma_marker_boundary(origin, marker);
    match event {
        EventView::Scalar { value, style, tag } => {
            let len = tree::measured_len(origin.source, marker, value, style);
            source_text::lemma_clip(origin.source, at, len);
            lemma_char_span_sliceable(origin, at, source_text::clip(origin.source, at, len));
            lemma_tag_sliceable(origin, at, tag);
            assert(sliceable(origin, built.span));
        },
        EventView::Alias => {
            lemma_char_span_sliceable(origin, at, at);
        },
        EventView::SequenceStart { tag } => {
            let end = tree::items_end(events, i + 1)->0;
            extent::lemma_indicator_start(origin.source, at);
            lemma_tag_sliceable(origin, tree::sequence_position(origin, marker), tag);
            let items = tree::items_at(origin, events, i + 1);
            lemma_items_places(origin, events, i + 1);
            lemma_later_sliceable(origin, origin.offset(marker), events[end].1);
            assert(built.children == ChildrenView::Items(items));
            assert forall|k: int| 0 <= k < items.len() implies places_hold(
                origin,
                #[trigger] items[k],
            ) by {}
        },
        EventView::MappingStart { tag } => {
            let end = tree::pairs_end(events, i + 1)->0;
            let pairs = tree::pairs_at(origin, events, i + 1);
            let from = tree::mapping_position(origin, marker, pairs);
            lemma_pairs_places(origin, events, i + 1);
            lemma_mapping_position(origin, marker, pairs);
            lemma_tag_sliceable(origin, from, tag);
            if pairs.len() > 0 {
                assert(places_hold(origin, pairs[0].0));
                lemma_later_sliceable(origin, pairs[0].0.span.start_offset(), events[end].1);
            } else {
                lemma_later_sliceable(origin, origin.offset(marker), events[end].1);
            }
            let entries = tree::entries_of(pairs);
            assert forall|k: int| 0 <= k < entries.len() implies entry_places_hold(
                origin,
                #[trigger] entries[k],
            ) by {
                assert(places_hold(origin, pairs[k].0) && places_hold(origin, pairs[k].1));
            }
        },
        _ => {},
    }
}

proof fn lemma_items_places(origin: Origin, events: Seq<(EventView, Marker)>, i: int)
    requires
        tree::items_end(events, i) is Some,
    ensures
        forall|k: int|
            0 <= k < tree::items_at(origin, events, i).len() ==> places_hold(
                origin,
                #[trigger] tree::items_at(origin, events, i)[k],
            ),
    decreases events.len() - i, 1int,
{
    if !(events[i].0 is SequenceEnd) {
        let next = tree::node_end(events, i)->0;
        let rest = tree::items_at(origin, events, next);
        lemma_node_places(origin, events, i);
        lemma_items_places(origin, events, next);
        let items = tree::items_at(origin, events, i);
        assert forall|k: int| 0 <= k < items.len() implies places_hold(
            origin,
            #[trigger] items[k],
        ) by {
            if k > 0 {
                assert(items[k] == rest[k - 1]);
            }
        }
    }
}

proof fn lemma_pairs_places(origin: Origin, events: Seq<(EventView, Marker)>, i: int)
    requires
        tree::pairs_end(events, i) is Some,
    ensures
        forall|k: int|
            0 <= k < tree::pairs_at(origin, events, i).len() ==> places_hold(
                origin,
                (#[trigger] tree::pairs_at(origin, events, i)[k]).0,
            ) && places_hold(origin, tree::pairs_at(origin, events, i)[k].1),
    decreases events.len() - i, 1int,
{
    if !(events[i].0 is MappingEnd) {
        let at = tree::node_end(events, i)->0;
        let next = tree::node_end(events, at)->0;
        let rest = tree::pairs_at(origin, events, next);
        lemma_node_places(origin, events, i);
        lemma_node_places(origin, events, at);
        lemma_pairs_places(origin, events, next);
        let pairs = tree::pairs_at(origin, events, i);
        assert forall|k: int| 0 <= k < pairs.len() implies places_hold(
            origin,
            (#[trigger] pairs[k]).0,
        ) && places_hold(origin, pairs[k].1) by {
            if k > 0 {
                assert(pairs[k] == rest[k - 1]);
            }
        }
    }
}

/// Every place in a document is a range of its text, and the text can be sliced with
/// it. Every entry reaches from the start of its key to the end of its value.
pub proof fn law_places_stay_in_the_source(origin: Origin, events: Seq<(EventView, Marker)>)
    requires
        tree::is_document_stream(events),
    ensures
        tree::document(origin, events) matches Some(root) ==> places_hold(origin, root),
{
    if events[1].0 is DocumentStart {
        lemma_node_places(origin, events, 2);
    }
}

/// Whether the places of a node, of its tag and of the nodes inside of it can be followed to
/// their files within the limits of the machine.
pub open spec fn can_be_followed(node: NodeView) -> bool
    decreases node,
{
    &&& source_map::mappable(node.span)
    &&& node.tag matches Some((_, span)) ==> source_map::mappable(span)
    &&& match node.children {
        ChildrenView::Leaf => true,
        ChildrenView::Items(items) => forall|i: int|
            0 <= i < items.len() ==> can_be_followed(#[trigger] items[i]),
        ChildrenView::Entries(entries) => forall|i: int|
            0 <= i < entries.len() ==> entry_can_be_followed(#[trigger] entries[i]),
    }
}

/// Whether the places of a key and a value can be followed.
pub open spec fn entry_can_be_followed(entry: EntryView) -> bool
    decreases entry,
{
    can_be_followed(entry.key) && can_be_followed(entry.value)
}

/// Whether a text, together with what it is a part of, is small enough for the offsets of
/// the machine.
pub open spec fn within_limits(origin: Origin) -> bool {
    match origin.parent {
        Some(parent) => {
            &&& source_map::walkable(parent)
            &&& 4 * text::byte_len(origin.source) + 2 * source_map::weight(parent) <= usize::MAX
        },
        None => 4 * text::byte_len(origin.source) <= usize::MAX,
    }
}

proof fn lemma_sliceable_can_be_followed(origin: Origin, span: SourceView)
    requires
        sliceable(origin, span),
        within_limits(origin),
    ensures
        source_map::mappable(span),
{
    text::lemma_byte_len_is_encoding(origin.source);
    if let Some(parent) = origin.parent {
        assert(span == (SourceView::Substring {
            parent: Box::new(parent),
            start: span.start_offset(),
            end: span.end_offset(),
        }));
        assert(source_map::weight(span) == span.start_offset() + span.end_offset()
            + source_map::weight(parent));
    }
}

/// The places in a document whose text is within the limits of the machine can be followed
/// to their files.
pub proof fn law_places_can_be_followed(origin: Origin, node: NodeView)
    requires
        places_hold(origin, node),
        within_limits(origin),
    ensures
        can_be_followed(node),
    decreases node,
{
    lemma_sliceable_can_be_followed(origin, node.span);
    if let Some((_, span)) = node.tag {
        lemma_sliceable_can_be_followed(origin, span);
    }
    match node.children {
        ChildrenView::Leaf => {},
        ChildrenView::Items(items) => {
            assert forall|i: int| 0 <= i < items.len() implies can_be_followed(
                #[trigger] items[i],
            ) by {
                assert(places_hold(origin, items[i]));
                law_places_can_be_followed(origin, items[i]);
            }
        },
        ChildrenView::Entries(entries) => {
            assert forall|i: int| 0 <= i < entries.len() implies entry_can_be_followed(
                #[trigger] entries[i],
            ) by {
                assert(entry_places_hold(origin, entries[i]));
                law_places_can_be_followed(origin, entries[i].key);
                law_places_can_be_followed(origin, entries[i].value);
            }
        },
    }
}

/// The keys and values of entries, without their places.
pub open spec fn entry_pairs(entries: Seq<EntryView>) -> Seq<(YamlView, YamlView)> {
    Seq::new(entries.len(), |i: int| (entries[i].key.yaml, entries[i].value.yaml))
}

/// Whether the value of a node and what the node is made of say the same, all the way
/// down.
pub open spec fn parallel(node: NodeView) -> bool
    decreases node,
{
    match node.children {
        ChildrenView::Leaf => !(node.yaml is Array) && !(node.yaml is Hash),
        ChildrenView::Items(items) => {
            &&& node.yaml == YamlView::Array(Seq::new(items.len(), |i: int| items[i].yaml))
            &&& forall|i: int| 0 <= i < items.len() ==> parallel(#[trigger] items[i])
        },
        ChildrenView::Entries(entries) => {
            &&& node.yaml == YamlView::Hash(yaml::collect_pairs(entry_pairs(entries)))
            &&& forall|i: int| 0 <= i < entries.len() ==> parallel_entry(#[trigger] entries[i])
        },
    }
}

/// Whether the key and the value of an entry agree with what they are made of.
pub open spec fn parallel_entry(entry: EntryView) -> bool
    decreases entry,
{
    parallel(entry.key) && parallel(entry.value)
}

proof fn lemma_node_parallel(origin: Origin, events: Seq<(EventView, Marker)>, i: int)
    requires
        tree::node_end(events, i) is Some,
    ensures
        parallel(tree::node_at(origin, events, i)),
    decreases events.len() - i, 0int,
{
    let built = tree::node_at(origin, events, i);
    match events[i].0 {
        EventView::SequenceStart { .. } => {
            let items = tree::items_at(origin, events, i + 1);
            lemma_items_parallel(origin, events, i + 1);
            assert(built.children == ChildrenView::Items(items));
            assert forall|k: int| 0 <= k < items.len() implies parallel(#[trigger] items[k]) by {}
        },
        EventView::MappingStart { .. } => {
            let pairs = tree::pairs_at(origin, events, i + 1);
            let entries = tree::entries_of(pairs);
            lemma_pairs_parallel(origin, events, i + 1);
            assert(built.children == ChildrenView::Entries(entries));
            assert(entry_pairs(entries) =~= tree::yaml_pairs(pairs));
            assert forall|k: int| 0 <= k < entries.len() implies parallel_entry(
                #[trigger] entries[k],
            ) by {
                assert(parallel(pairs[k].0) && parallel(pairs[k].1));
            }
        },
        _ => {},
    }
}

proof fn lemma_items_parallel(origin: Origin, events: Seq<(EventView, Marker)>, i: int)
    requires
        tree::items_end(events, i) is Some,
    ensures
        forall|k: int|
            0 <= k < tree::items_at(origin, events, i).len() ==> parallel(
                #[trigger] tree::items_at(origin, events, i)[k],
            ),
    decreases events.len() - i, 1int,
{
    if !(events[i].0 is SequenceEnd) {
        let next = tree::node_end(events, i)->0;
        let rest = tree::items_at(origin, events, next);
        lemma_node_parallel(origin, events, i);
        lemma_items_parallel(origin, events, next);
        let items = tree::items_at(origin, events, i);
        assert forall|k: int| 0 <= k < items.len() implies parallel(#[trigger] items[k]) by {
            if k > 0 {
                assert(items[k] == rest[k - 1]);
            }
        }
    }
}

proof fn lemma_pairs_parallel(origin: Origin, events: Seq<(EventView, Marker)>, i: int)
    requires
        tree::pairs_end(events, i) is Some,
    ensures
        forall|k: int|
            0 <= k < tree::pairs_at(origin, events, i).len() ==> parallel(
                (#[trigger] tree::pairs_at(origin, events, i)[k]).0,
            ) && parallel(tree::pairs_at(origin, events, i)[k].1),
    decreases events.len() - i, 1int,
{
    if !(events[i].0 is MappingEnd) {
        let at = tree::node_end(events, i)->0;
        let next = tree::node_end(events, at)->0;
        let rest = tree::pairs_at(origin, events, next);
        lemma_node_parallel(origin, events, i);
        lemma_node_parallel(origin, events, at);
        lemma_pairs_parallel(origin, events, next);
        let pairs = tree::pairs_at(origin, events, i);
        assert forall|k: int| 0 <= k < pairs.len() implies parallel((#[trigger] pairs[k]).0)
            && parallel(pairs[k].1) by {
            if k > 0 {
                assert(pairs[k] == rest[k - 1]);
            }
        }
    }
}

/// In a document the value of every node and what the node is made of say the same.
pub proof fn law_values_and_children_agree(origin: Origin, events: Seq<(EventView, Marker)>)
    requires
        tree::is_document_stream(events),
    ensures
        tree::document(origin, events) matches Some(root) ==> parallel(root),
{
    if events[1].0 is DocumentStart {
        lemma_node_parallel(origin, events, 2);
    }
}

/// Whether two ranges have the same offsets.
pub open spec fn same_offsets(a: SourceView, b: SourceView) -> bool {
    a.start_offset() == b.start_offset() && a.end_offset() == b.end_offset()
}

/// Whether two nodes say the same and stand at the same offsets, all the way down.
pub open spec fn agree(a: NodeView, b: NodeView) -> bool
    decreases a,
{
    &&& a.yaml == b.yaml
    &&& same_offsets(a.span, b.span)
    &&& match (a.tag, b.tag) {
        (Some((one, at)), Some((other, there))) => one == other && same_offsets(at, there),
        (None, None) => true,
        _ => false,
    }
    &&& match (a.children, b.children) {
        (ChildrenView::Leaf, ChildrenView::Leaf) => true,
        (ChildrenView::Items(x), ChildrenView::Items(y)) => x.len() == y.len() && forall|i: int|
            0 <= i < x.len() ==> agree(#[trigger] x[i], y[i]),
        (ChildrenView::Entries(x), ChildrenView::Entries(y)) => x.len() == y.len() && forall|
            i: int,
        |
            0 <= i < x.len() ==> entries_agree(#[trigger] x[i], y[i]),
        _ => false,
    }
}

/// Whether two entries say the same and stand at the same offsets, all the way down.
pub open spec fn entries_agree(a: EntryView, b: EntryView) -> bool
    decreases a,
{
    &&& agree(a.key, b.key)
    &&& agree(a.value, b.value)
    &&& same_offsets(a.key_span, b.key_span)
    &&& same_offsets(a.value_span, b.value_span)
    &&& same_offsets(a.entry_span, b.entry_span)
}

/// Wherever a text comes from, its document says the same and stands at the same offsets.
pub proof fn law_origin_changes_no_offset(
    source: Seq<char>,
    first: Option<SourceView>,
    second: Option<SourceView>,
    events: Seq<(EventView, Marker)>,
)
    requires
        tree::is_document_stream(events),
    ensures
        match (
            tree::document(Origin { source, parent: first }, events),
            tree::document(Origin { source, parent: second }, events),
        ) {
            (Some(a), Some(b)) => agree(a, b),
            (None, None) => true,
            _ => false,
        },
{
    if events[1].0 is DocumentStart {
        lemma_nodes_agree(
            Origin { source, parent: first },
            Origin { source, parent: second },
            events,
            2,
        );
    }
}

proof fn lemma_nodes_agree(
    first: Origin,
    second: Origin,
    events: Seq<(EventView, Marker)>,
    i: int,
)
    requires
        first.source == second.source,
        tree::node_end(events, i) is Some,
    ensures
        agree(tree::node_at(first, events, i), tree::node_at(second, events, i)),
    decreases events.len() - i, 0int,
{
    let a = tree::node_at(first, events, i);
    let b = tree::node_at(second, events, i);
    match events[i].0 {
        EventView::Scalar { tag, .. } => {
            assert(same_offsets(a.span, b.span));
            if let Some(t) = tag {
                let at = source_text::char_position(first.source, events[i].1);
                assert(same_offsets(
                    tree::tag_span(first, at, t.suffix),
                    tree::tag_span(second, at, t.suffix),
                ));
            }
        },
        EventView::SequenceStart { .. } => {
            let x = tree::items_at(first, events, i + 1);
            let y = tree::items_at(second, events, i + 1);
            lemma_items_agree(first, second, events, i + 1);
            assert(Seq::new(x.len(), |k: int| x[k].yaml) =~= Seq::new(
                y.len(),
                |k: int| y[k].yaml,
            )) by {
                assert forall|k: int| 0 <= k < x.len() implies x[k].yaml == y[k].yaml by {
                    assert(agree(x[k], y[k]));
                }
            }
            assert(a.children == ChildrenView::Items(x) && b.children == ChildrenView::Items(y));
            assert forall|k: int| 0 <= k < x.len() implies agree(#[trigger] x[k], y[k]) by {}
        },
        EventView::MappingStart { .. } => {
            let x = tree::pairs_at(first, events, i + 1);
            let y = tree::pairs_at(second, events, i + 1);
            lemma_pairs_agree(first, second, events, i + 1);
            lemma_pairs_places(first, events, i + 1);
            lemma_pairs_places(second, events, i + 1);
            assert(tree::yaml_pairs(x) =~= tree::yaml_pairs(y)) by {
                assert forall|k: int| 0 <= k < x.len() implies tree::yaml_pairs(x)[k]
                    == tree::yaml_pairs(y)[k] by {
                    assert(agree(x[k].0, y[k].0) && agree(x[k].1, y[k].1));
                }
            }
            if x.len() > 0 {
                assert(agree(x[0].0, y[0].0));
            }
            let left = tree::entries_of(x);
            let right = tree::entries_of(y);
            assert(a.children == ChildrenView::Entries(left));
            assert(b.children == ChildrenView::Entries(right));
            assert forall|k: int| 0 <= k < left.len() implies entries_agree(
                #[trigger] left[k],
                right[k],
            ) by {
                assert(agree(x[k].0, y[k].0) && agree(x[k].1, y[k].1));
                assert(places_hold(first, x[k].0) && places_hold(first, x[k].1));
                assert(places_hold(second, y[k].0) && places_hold(second, y[k].1));
            }
        },
        _ => {},
    }
}

proof fn lemma_items_agree(
    first: Origin,
    second: Origin,
    events: Seq<(EventView, Marker)>,
    i: int,
)
    requires
        first.source == second.source,
        tree::items_end(events, i) is Some,
    ensures
        ({
            let a = tree::items_at(first, events, i);
            let b = tree::items_at(second, events, i);
            a.len() == b.len() && forall|k: int|
                0 <= k < a.len() ==> agree(#[trigger] a[k], b[k])
        }),
    decreases events.len() - i, 1int,
{
    if !(events[i].0 is SequenceEnd) {
        let next = tree::node_end(events, i)->0;
        lemma_nodes_agree(first, second, events, i);
        lemma_items_agree(first, second, events, next);
        let a = tree::items_at(first, events, i);
        let b = tree::items_at(second, events, i);
        assert forall|k: int| 0 <= k < a.len() implies agree(#[trigger] a[k], b[k]) by {
            if k > 0 {
                assert(a[k] == tree::items_at(first, events, next)[k - 1]);
                assert(b[k] == tree::items_at(second, events, next)[k - 1]);
            }
        }
    }
}

proof fn lemma_pairs_agree(
    first: Origin,
    second: Origin,
    events: Seq<(EventView, Marker)>,
    i: int,
)
    requires
        first.source == second.source,
        tree::pairs_end(events, i) is Some,
    ensures
        ({
            let a = tree::pairs_at(first, events, i);
            let b = tree::pairs_at(second, events, i);
            a.len() == b.len() && forall|k: int|
                0 <= k < a.len() ==> agree((#[trigger] a[k]).0, b[k].0) && agree(a[k].1, b[k].1)
        }),
    decreases events.len() - i, 1int,
{
    if !(events[i].0 is MappingEnd) {
        let at = tree::node_end(events, i)->0;
        let next = tree::node_end(events, at)->0;
        lemma_nodes_agree(first, second, events, i);
        lemma_nodes_agree(first, second, events, at);
        lemma_pairs_agree(first, second, events, next);
        let a = tree::pairs_at(first, events, i);
        let b = tree::pairs_at(second, events, i);
        assert forall|k: int| 0 <= k < a.len() implies agree((#[trigger] a[k]).0, b[k].0)
            && agree(a[k].1, b[k].1) by {
            if k > 0 {
                assert(a[k] == tree::pairs_at(first, events, next)[k - 1]);
                assert(b[k] == tree::pairs_at(second, events, next)[k - 1]);
            }
        }
    }
}

/// Looking a text up in a mapping finds something just where the value of the mapping
/// has that text as a key.
pub proof fn law_lookup_agrees_with_the_value(node: NodeView, key: Seq<char>)
    requires
        node.children is Entries,
        parallel(node),
    ensures
        node::hash_value(node, key) is Some <==> yaml::has_key(
            node.yaml->Hash_0,
            YamlView::String(key),
        ),
{
    let entries = node.children->Entries_0;
    let pairs = entry_pairs(entries);
    let wanted = YamlView::String(key);
    yaml::law_mapping_holds_each_key_once(pairs);
    lemma_entry_index(entries, key, 0);
    let found = node::entry_index(entries, key, 0);
    assert(yaml::has_key(node.yaml->Hash_0, wanted) <==> yaml::has_key(pairs, wanted));
    if found < entries.len() {
        assert(pairs[found].0 == wanted);
    } else if yaml::has_key(pairs, wanted) {
        let at = choose|at: int| 0 <= at < pairs.len() && #[trigger] pairs[at].0 == wanted;
        assert(entries[at].key.yaml == wanted);
    }
}

proof fn lemma_entry_index(entries: Seq<EntryView>, key: Seq<char>, i: int)
    requires
        0 <= i <= entries.len(),
    ensures
        i <= node::entry_index(entries, key, i) <= entries.len(),
        forall|k: int|
            i <= k < node::entry_index(entries, key, i) ==> (#[trigger] entries[k]).key.yaml
                != YamlView::String(key),
        node::entry_index(entries, key, i) < entries.len() ==> entries[node::entry_index(
            entries,
            key,
            i,
        )].key.yaml == YamlView::String(key),
    decreases entries.len() - i,
{
    if i < entries.len() && entries[i].key.yaml != YamlView::String(key) {
        lemma_entry_index(entries, key, i + 1);
    }
}

/// The text that a chain of ranges stands for, given what the files hold.
pub open spec fn text_behind(span: SourceView, files: Map<FileId, Seq<u8>>) -> Option<Seq<u8>>
    decreases span,
{
    match span {
        SourceView::Original { file_id, start, end } => if files.contains_key(file_id) && 0 <= start
            <= end <= files[file_id].len() {
            Some(files[file_id].subrange(start, end))
        } else {
            None
        },
        SourceView::Substring { parent, start, end } => match text_behind(*parent, files) {
            Some(whole) => if 0 <= start <= end <= whole.len() {
                Some(whole.subrange(start, end))
            } else {
                None
            },
            None => None,
        },
        _ => None,
    }
}

/// The text behind a chain of ranges stands in the file where the offsets of the chain
/// add up to.
pub proof fn law_offsets_add_up(span: SourceView, files: Map<FileId, Seq<u8>>)
    requires
        text_behind(span, files) is Some,
    ensures
        ({
            let t = text_behind(span, files)->0;
            source_info::absolute_start(span) matches Some((file_id, at)) && {
                &&& files.contains_key(file_id)
                &&& 0 <= at <= at + t.len() <= files[file_id].len()
                &&& files[file_id].subrange(at, at + t.len() as int) == t
            }
        }),
    decreases span,
{
    if let SourceView::Substring { parent, start, end } = span {
        law_offsets_add_up(*parent, files);
        let whole = text_behind(*parent, files)->0;
        let (file_id, base) = source_info::absolute_start(*parent)->0;
        assert(files[file_id].subrange(base + start, base + end) =~= whole.subrange(start, end));
    }
}

/// A place in a text that comes from a file leads back to the same text in that file.
pub proof fn law_places_lead_back_to_the_file(
    origin: Origin,
    span: SourceView,
    files: Map<FileId, Seq<u8>>,
)
    requires
        sliceable(origin, span),
        origin.parent is Some,
        text_behind(origin.parent->0, files) == Some(encode_utf8(origin.source)),
    ensures
        text_behind(span, files) == Some(
            encode_utf8(origin.source).subrange(span.start_offset(), span.end_offset()),
        ),
        ({
            let len = span.end_offset() - span.start_offset();
            source_info::absolute_start(span) matches Some((file_id, at)) && files[file_id].subrange(
                at,
                at + len,
            ) == encode_utf8(origin.source).subrange(span.start_offset(), span.end_offset())
        }),
{
    law_offsets_add_up(span, files);
}

/// A mapping starts where its first key starts.
pub proof fn law_mapping_starts_at_its_first_key(
    origin: Origin,
    start: Marker,
    tag: Option<TagView>,
    end: Marker,
    pairs: Seq<(NodeView, NodeView)>,
)
    requires
        pairs.len() > 0,
    ensures
        tree::mapping_between(origin, start, tag, end, pairs).span.start_offset()
            == pairs[0].0.span.start_offset(),
{
}

/// A tag leaves a sequence what it is: its value, its place and its items are those that it
/// has without a tag.
pub proof fn law_tag_leaves_a_sequence_as_it_is(
    origin: Origin,
    start: Marker,
    tag: Option<TagView>,
    end: Marker,
    items: Seq<NodeView>,
)
    ensures
        tree::sequence_between(origin, start, tag, end, items).with_tag(None)
            == tree::sequence_between(origin, start, None, end, items),
        tree::sequence_between(origin, start, tag, end, items).tag is Some <==> tag is Some,
{
}

/// A tag leaves a mapping what it is: its value, its place and its entries are those that it
/// has without a tag.
pub proof fn law_tag_leaves_a_mapping_as_it_is(
    origin: Origin,
    start: Marker,
    tag: Option<TagView>,
    end: Marker,
    pairs: Seq<(NodeView, NodeView)>,
)
    ensures
        tree::mapping_between(origin, start, tag, end, pairs).with_tag(None)
            == tree::mapping_between(origin, start, None, end, pairs),
        tree::mapping_between(origin, start, tag, end, pairs).tag is Some <==> tag is Some,
{
}

/// A quoted scalar that is closed is measured from its opening quote to its closing
/// quote, both of them counted.
pub proof fn law_quotes_are_counted(bytes: Seq<u8>, start: int, quote: u8)
    requires
        0 <= start,
    ensures
        extent::quoted_len(bytes, start, quote) matches Some(len) ==> {
            &&& 2 <= len <= bytes.len() - start
            &&& bytes[start] == quote
            &&& bytes[start + len - 1] == quote
        },
{
    if start < bytes.len() {
        lemma_closing_quote(bytes, start + 1, quote);
    }
}

proof fn lemma_closing_quote(bytes: Seq<u8>, i: int, quote: u8)
    requires
        0 <= i,
    ensures
        extent::closing_quote(bytes, i, quote) matches Some(end) ==> i < end <= bytes.len()
            && bytes[end - 1] == quote,
    decreases bytes.len() - i + 1,
{
    if i < bytes.len() {
        if bytes[i] == 0x5c && quote == 0x22 {
            lemma_closing_quote(bytes, i + 2, quote);
        } else if bytes[i] == quote {
            if quote == 0x27 && i + 1 < bytes.len() && bytes[i + 1] == quote {
                lemma_closing_quote(bytes, i + 2, quote);
            }
        } else {
            lemma_closing_quote(bytes, i + 1, quote);
        }
    }
}

/// A plain scalar on one line is as long as its value.
pub proof fn law_plain_scalar_on_one_line(source: Seq<char>, start: int, value: Seq<char>)
    requires
        0 <= start,
        start + value.len() <= source.len(),
        source.subrange(start, start + value.len() as int) == value,
        forall|i: int| 0 <= i < value.len() ==> !text::line_break(#[trigger] value[i]),
        value.len() > 0 ==> !text::white_space(value.last()),
    ensures
        extent::plain_len(source, start, value) == text::byte_len(value),
{
    lemma_plain_end_on_one_line(source, start, value, 0);
}

proof fn lemma_plain_end_on_one_line(source: Seq<char>, start: int, value: Seq<char>, k: int)
    requires
        0 <= start,
        0 <= k <= value.len(),
        start + value.len() <= source.len(),
        source.subrange(start, start + value.len() as int) == value,
        forall|i: int| 0 <= i < value.len() ==> !text::line_break(#[trigger] value[i]),
        value.len() > 0 ==> !text::white_space(value.last()),
    ensures
        extent::plain_end(source, start + k, value, k, start + k, false) == Some(
            start + value.len() as int,
        ),
    decreases value.len() - k,
{
    if k < value.len() {
        let at = start + k;
        let last = start + value.len() - 1;
        let run = extent::run_end(source, at);
        assert(source[last] == value[value.len() - 1]);
        lemma_run_stops(source, at, last);
        assert forall|j: int| at <= j < run implies !text::line_break(#[trigger] source[j]) by {
            assert(source[j] == value[j - start]);
        }
        assert(source[at] == value[k]);
        lemma_plain_end_on_one_line(source, start, value, k + 1);
    }
}

proof fn lemma_run_stops(source: Seq<char>, i: int, last: int)
    requires
        0 <= i <= last < source.len(),
        !text::white_space(source[last]),
    ensures
        i <= extent::white_end(source, i, source.len() as int) <= last,
    decreases last - i,
{
    if text::white_space(source[i]) {
        lemma_run_stops(source, i + 1, last);
    }
}

/// A run of line breaks in the source, however many blank lines it holds, lines up with
/// the space or the line feeds that it is folded to.
pub proof fn law_blank_lines_line_up(
    source: Seq<char>,
    at: int,
    value: Seq<char>,
    k: int,
    feeds: int,
    end: int,
)
    requires
        0 <= k < feeds <= value.len(),
        value[k] == ' ' || value[k] == '\n',
        forall|i: int| k < i < feeds ==> value[i] == '\n',
        extent::has_line_break(source, at, extent::run_end(source, at)),
    ensures
        extent::plain_end(source, at, value, k, end, false) == extent::plain_end(
            source,
            extent::run_end(source, at),
            value,
            feeds,
            end,
            true,
        ),
{
    lemma_feeds_line_up(source, extent::run_end(source, at), value, k + 1, feeds, end);
}

proof fn lemma_feeds_line_up(
    source: Seq<char>,
    at: int,
    value: Seq<char>,
    k: int,
    feeds: int,
    end: int,
)
    requires
        0 <= k <= feeds <= value.len(),
        forall|i: int| k <= i < feeds ==> value[i] == '\n',
    ensures
        extent::plain_end(source, at, value, k, end, true) == extent::plain_end(
            source,
            at,
            value,
            feeds,
            end,
            true,
        ),
    decreases feeds - k,
{
    if k < feeds {
        lemma_feeds_line_up(source, at, value, k + 1, feeds, end);
    }
}

/// The content of a block scalar ends in a character that is not white space, so that
/// blank lines at its end do not count.
pub proof fn law_block_ends_in_content(source: Seq<char>, start: int, indent: nat)
    requires
        0 <= start <= source.len(),
    ensures
        ({
            let end = extent::block_end(source, start, indent, true, start);
            &&& start <= end <= source.len()
            &&& start < end ==> !text::white_space(source[end - 1])
        }),
{
    lemma_block_end_in_content(source, start, start, indent, true, start);
}

proof fn lemma_block_end_in_content(
    source: Seq<char>,
    start: int,
    at: int,
    indent: nat,
    first: bool,
    end: int,
)
    requires
        0 <= start <= end <= at,
        end <= source.len(),
        start < end ==> !text::white_space(source[end - 1]),
    ensures
        ({
            let found = extent::block_end(source, at, indent, first, end);
            &&& end <= found <= source.len()
            &&& start < found ==> !text::white_space(source[found - 1])
        }),
    decreases source.len() - at + 1,
{
    if at < source.len() {
        let stop = extent::line_end(source, at);
        let content = extent::white_end(source, at, stop);
        extent::lemma_line_end(source, at);
        extent::lemma_white_end(source, at, stop);
        if content == stop {
            lemma_block_end_in_content(source, start, stop + 1, indent, false, end);
        } else if first || extent::indent_end(source, at, stop) - at >= indent {
            lemma_white_end_holds_content(source, at, stop);
            lemma_trimmed_end_in_content(source, at, stop, content);
            lemma_block_end_in_content(
                source,
                start,
                stop + 1,
                indent,
                false,
                extent::trimmed_end(source, at, stop),
            );
        }
    }
}

proof fn lemma_white_end_holds_content(source: Seq<char>, i: int, hi: int)
    requires
        0 <= i <= hi,
    ensures
        ({
            let content = extent::white_end(source, i, hi);
            content < hi ==> !text::white_space(source[content])
        }),
    decreases hi - i,
{
    if i < hi && text::white_space(source[i]) {
        lemma_white_end_holds_content(source, i + 1, hi);
    }
}

proof fn lemma_trimmed_end_in_content(source: Seq<char>, lo: int, hi: int, content: int)
    requires
        0 <= lo <= content < hi,
        !text::white_space(source[content]),
    ensures
        content < extent::trimmed_end(source, lo, hi) <= hi,
        !text::white_space(source[extent::trimmed_end(source, lo, hi) - 1]),
    decreases hi - lo,
{
    if text::white_space(source[hi - 1]) {
        lemma_trimmed_end_in_content(source, lo, hi - 1, content);
    }
}

/// A quoted scalar that is closed stands from its opening quote to its closing quote.
pub proof fn law_quoted_scalar_stands_with_its_quotes(
    origin: Origin,
    marker: Marker,
    value: Seq<char>,
    style: ScalarStyle,
    len: int,
)
    requires
        style is SingleQuoted || style is DoubleQuoted,
        extent::quoted_len(
            encode_utf8(origin.source),
            origin.offset(marker),
            if style is SingleQuoted {
                0x27
            } else {
                0x22
            },
        ) == Some(len),
    ensures
        tree::scalar_span(origin, marker, value, style) == origin.span(
            origin.offset(marker),
            origin.offset(marker) + len,
        ),
{
    let s = origin.source;
    let bytes = encode_utf8(s);
    let at = source_text::char_position(s, marker);
    let offset = origin.offset(marker);
    let quote: u8 = if style is SingleQuoted {
        0x27
    } else {
        0x22
    };
    source_text::lemma_char_position(s, marker);
    law_quotes_are_counted(bytes, offset, quote);
    let last = text::lemma_ascii_byte(s, offset + len - 1);
    if last < at {
        text::lemma_byte_len_range(s, last + 1, at);
    }
    text::lemma_byte_len_range(s, at, last + 1);
    source_text::lemma_clip_exact(s, at, last + 1);
}

/// A plain scalar whose value lines up with the source stands where it lines up.
pub proof fn law_plain_scalar_stands_where_it_lines_up(
    origin: Origin,
    marker: Marker,
    value: Seq<char>,
    end: int,
)
    requires
        ({
            let at = source_text::char_position(origin.source, marker);
            extent::plain_end(origin.source, at, value, 0, at, false) == Some(end)
        }),
    ensures
        tree::scalar_span(origin, marker, value, ScalarStyle::Plain) == origin.char_span(
            source_text::char_position(origin.source, marker),
            end,
        ),
{
    let at = source_text::char_position(origin.source, marker);
    source_text::lemma_char_position(origin.source, marker);
    extent::lemma_plain_end(origin.source, at, value, 0, at, false);
    source_text::lemma_clip_exact(origin.source, at, end);
}

/// A block scalar stands over all the lines of its content.
pub proof fn law_block_scalar_stands_over_its_content(
    origin: Origin,
    marker: Marker,
    value: Seq<char>,
    style: ScalarStyle,
)
    requires
        style is Literal || style is Folded,
    ensures
        ({
            let at = source_text::char_position(origin.source, marker);
            tree::scalar_span(origin, marker, value, style) == origin.char_span(
                at,
                extent::block_end(origin.source, at, marker.col as nat, true, at),
            )
        }),
{
    let at = source_text::char_position(origin.source, marker);
    source_text::lemma_char_position(origin.source, marker);
    extent::lemma_block_end(origin.source, at, marker.col as nat, true, at);
    source_text::lemma_clip_exact(
        origin.source,
        at,
        extent::block_end(origin.source, at, marker.col as nat, true, at),
    );
}

/// A tag that is found before its value is one token that starts with `!`.
pub proof fn law_tag_is_one_token(source: Seq<char>, at: int)
    requires
        0 <= at <= source.len(),
    ensures
        extent::tag_range(source, at) matches Some((start, end)) ==> {
            &&& 0 <= start < end <= at
            &&& source[start] == '!'
            &&& forall|k: int| start <= k < end ==> !text::white_space(#[trigger] source[k])
        },
    decreases at,
{
    let end = extent::trimmed_end(source, 0, at);
    let start = extent::token_start(source, end);
    let property = extent::flow_prefix_end(source, start, end);
    extent::lemma_trimmed_end(source, 0, at);
    extent::lemma_token_start(source, end);
    extent::lemma_flow_prefix_end(source, start, end);
    lemma_token_holds_no_white_space(source, end);
    if property < end && source[property] == '&' {
        law_tag_is_one_token(source, start);
    }
}

proof fn lemma_token_holds_no_white_space(source: Seq<char>, hi: int)
    requires
        0 <= hi <= source.len(),
    ensures
        forall|k: int|
            extent::token_start(source, hi) <= k < hi ==> !text::white_space(#[trigger] source[k]),
    decreases hi,
{
    if hi > 0 && !text::white_space(source[hi - 1]) {
        lemma_token_holds_no_white_space(source, hi - 1);
    }
}

} // verus!
