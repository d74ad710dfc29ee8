//! The tree that a stream of events describes.

use crate::event::{EventView, ScalarStyle, TagView};
use crate::extent;
use crate::node;
use crate::node::{EntryView, NodeView};
use crate::scalar;
use crate::source_info::{FileId, SourceView};
use crate::source_text;
use crate::source_text::Marker;
use crate::text;
use crate::yaml;
use crate::yaml::YamlView;
use vstd::prelude::*;

verus! {

/// The text that is parsed, and where it comes from if it is part of another.
pub struct Origin {
    pub source: Seq<char>,
    pub parent: Option<SourceView>,
}

impl Origin {
    /// The bytes from `start` to `end` of the text. Without a parent they count as
    /// a range of the anonymous file.
    pub open spec fn span(self, start: int, end: int) -> SourceView {
        match self.parent {
            Some(parent) => SourceView::Substring { parent: Box::new(parent), start, end },
            None => SourceView::Original { file_id: FileId(0), start, end },
        }
    }

    /// Whether `span` is a range of the text.
    pub open spec fn owns(self, span: SourceView) -> bool {
        span == self.span(span.start_offset(), span.end_offset())
    }

    /// The characters from `start` to `end` of the text.
    pub open spec fn char_span(self, start: int, end: int) -> SourceView {
        self.span(
            text::byte_len(self.source.take(start)) as int,
            text::byte_len(self.source.take(end)) as int,
        )
    }

    /// The byte offset that `marker` points at.
    pub open spec fn offset(self, marker: Marker) -> int {
        source_text::byte_position(self.source, marker) as int
    }
}

/// How many bytes a scalar takes up, measured in the way that its style asks for.
pub open spec fn measured_len(
    source: Seq<char>,
    marker: Marker,
    value: Seq<char>,
    style: ScalarStyle,
) -> nat {
    let start = source_text::char_position(source, marker);
    let bytes = vstd::utf8::encode_utf8(source);
    let offset = source_text::byte_position(source, marker) as int;
    match style {
        ScalarStyle::Plain => extent::plain_len(source, start, value),
        ScalarStyle::SingleQuoted => match extent::quoted_len(bytes, offset, 0x27) {
            Some(len) => len as nat,
            None => text::byte_len(value),
        },
        ScalarStyle::DoubleQuoted => match extent::quoted_len(bytes, offset, 0x22) {
            Some(len) => len as nat,
            None => text::byte_len(value),
        },
        ScalarStyle::Literal => extent::block_len(source, start, marker.col as nat),
        ScalarStyle::Folded => extent::block_len(source, start, marker.col as nat),
    }
}

/// Where a scalar ends: no further than measured, and no further than the text.
pub open spec fn scalar_end(
    source: Seq<char>,
    marker: Marker,
    value: Seq<char>,
    style: ScalarStyle,
) -> int {
    source_text::clip(
        source,
        source_text::char_position(source, marker),
        measured_len(source, marker, value, style),
    )
}

/// Where a scalar stands.
pub open spec fn scalar_span(
    origin: Origin,
    marker: Marker,
    value: Seq<char>,
    style: ScalarStyle,
) -> SourceView {
    origin.char_span(
        source_text::char_position(origin.source, marker),
        scalar_end(origin.source, marker, value, style),
    )
}

/// Where the tag of the node at `at` stands. A tag that is not found before the node is
/// taken to stand at the node, with the length of its suffix and a `!`.
pub open spec fn tag_span(origin: Origin, at: int, suffix: Seq<char>) -> SourceView {
    match extent::tag_range(origin.source, at) {
        Some((start, end)) => origin.char_span(start, end),
        None => origin.char_span(
            at,
            source_text::clip(origin.source, at, 1 + text::byte_len(suffix)),
        ),
    }
}

/// The suffix of the tag of the node at `at`, and where the tag stands.
pub open spec fn located_tag(origin: Origin, at: int, tag: Option<TagView>) -> Option<
    (Seq<char>, SourceView),
> {
    match tag {
        Some(t) => Some((t.suffix, tag_span(origin, at, t.suffix))),
        None => None,
    }
}

/// The node of a scalar.
pub open spec fn scalar_at(
    origin: Origin,
    marker: Marker,
    value: Seq<char>,
    style: ScalarStyle,
    tag: Option<TagView>,
) -> NodeView {
    node::scalar_node(
        scalar::scalar_value(value, style, tag),
        scalar_span(origin, marker, value, style),
        located_tag(origin, source_text::char_position(origin.source, marker), tag),
    )
}

/// The node of an alias: null, without any extent.
pub open spec fn alias_at(origin: Origin, marker: Marker) -> NodeView {
    node::scalar_node(
        YamlView::Null,
        origin.span(origin.offset(marker), origin.offset(marker)),
        None,
    )
}

/// The larger one of two offsets.
pub open spec fn later(a: int, b: int) -> int {
    if a < b {
        b
    } else {
        a
    }
}

/// Where the tag of a sequence is looked for: before its first marker. In a block sequence
/// that is not indented, the first marker points behind the first entry indicator.
pub open spec fn sequence_position(origin: Origin, start: Marker) -> int {
    extent::indicator_start(origin.source, source_text::char_position(origin.source, start))
}

/// The node of a sequence between two markers.
pub open spec fn sequence_between(
    origin: Origin,
    start: Marker,
    tag: Option<TagView>,
    end: Marker,
    items: Seq<NodeView>,
) -> NodeView {
    node::array_node(
        YamlView::Array(Seq::new(items.len(), |i: int| items[i].yaml)),
        origin.span(origin.offset(start), later(origin.offset(start), origin.offset(end))),
        items,
    ).with_tag(located_tag(origin, sequence_position(origin, start), tag))
}

/// The range from the start of one range to the end of another.
pub open spec fn contiguous_span(start: SourceView, end: SourceView) -> SourceView {
    match (start, end) {
        (
            SourceView::Original { file_id, start: from, .. },
            SourceView::Original { end: to, .. },
        ) => SourceView::Original { file_id, start: from, end: to },
        (
            SourceView::Substring { parent, start: from, .. },
            SourceView::Substring { end: to, .. },
        ) => SourceView::Substring { parent, start: from, end: to },
        _ => start.combine(end),
    }
}

/// The entry of a key and a value. It reaches from the start of the key to the end
/// of the value.
pub open spec fn entry_of(key: NodeView, value: NodeView) -> EntryView {
    EntryView {
        key,
        value,
        key_span: key.span,
        value_span: value.span,
        entry_span: contiguous_span(key.span, value.span),
    }
}

/// The entries of keys and values.
pub open spec fn entries_of(pairs: Seq<(NodeView, NodeView)>) -> Seq<EntryView> {
    Seq::new(pairs.len(), |i: int| entry_of(pairs[i].0, pairs[i].1))
}

/// The keys and values without their places.
pub open spec fn yaml_pairs(pairs: Seq<(NodeView, NodeView)>) -> Seq<(YamlView, YamlView)> {
    Seq::new(pairs.len(), |i: int| (pairs[i].0.yaml, pairs[i].1.yaml))
}

/// Where the tag of a mapping is looked for: before its first marker and before its first
/// key. The first marker of a block mapping points behind the first key.
pub open spec fn mapping_position(
    origin: Origin,
    start: Marker,
    pairs: Seq<(NodeView, NodeView)>,
) -> int {
    let from = if pairs.len() > 0 && pairs[0].0.first_offset() < origin.offset(start) {
        pairs[0].0.first_offset()
    } else {
        origin.offset(start)
    };
    source_text::clip(origin.source, 0, from as nat)
}

/// The node of a mapping between two markers. It starts at its first key: where
/// that is missing, at the first marker.
pub open spec fn mapping_between(
    origin: Origin,
    start: Marker,
    tag: Option<TagView>,
    end: Marker,
    pairs: Seq<(NodeView, NodeView)>,
) -> NodeView {
    let from = if pairs.len() > 0 {
        pairs[0].0.span.start_offset()
    } else {
        origin.offset(start)
    };
    node::hash_node(
        YamlView::Hash(yaml::collect_pairs(yaml_pairs(pairs))),
        origin.span(from, later(from, origin.offset(end))),
        entries_of(pairs),
    ).with_tag(located_tag(origin, mapping_position(origin, start, pairs), tag))
}

/// Where the node ends that starts at `i`, if there is one: the index of the event
/// after it.
pub open spec fn node_end(events: Seq<(EventView, Marker)>, i: int) -> Option<int>
    decreases events.len() - i, 0int,
{
    if !(0 <= i < events.len()) {
        None
    } else {
        match events[i].0 {
            EventView::Scalar { .. } => Some(i + 1),
            EventView::Alias => Some(i + 1),
            EventView::SequenceStart { .. } => match items_end(events, i + 1) {
                Some(j) => Some(j + 1),
                None => None,
            },
            EventView::MappingStart { .. } => match pairs_end(events, i + 1) {
                Some(j) => Some(j + 1),
                None => None,
            },
            _ => None,
        }
    }
}

/// Where the sequence ends whose next item starts at `i`: the index of its last
/// event.
pub open spec fn items_end(events: Seq<(EventView, Marker)>, i: int) -> Option<int>
    decreases events.len() - i, 1int,
{
    if !(0 <= i < events.len()) {
        None
    } else if events[i].0 is SequenceEnd {
        Some(i)
    } else {
        match node_end(events, i) {
            Some(next) => if i < next <= events.len() {
                items_end(events, next)
            } else {
                None
            },
            None => None,
        }
    }
}

/// Where the mapping ends whose next key starts at `i`: the index of its last event.
pub open spec fn pairs_end(events: Seq<(EventView, Marker)>, i: int) -> Option<int>
    decreases events.len() - i, 1int,
{
    if !(0 <= i < events.len()) {
        None
    } else if events[i].0 is MappingEnd {
        Some(i)
    } else {
        match node_end(events, i) {
            Some(at) => if i < at <= events.len() {
                match node_end(events, at) {
                    Some(next) => if at < next <= events.len() {
                        pairs_end(events, next)
                    } else {
                        None
                    },
                    None => None,
                }
            } else {
                None
            },
            None => None,
        }
    }
}

/// Whether the events are those of a stream read up to the end of its first
/// document: the start of the stream, and then either its end or one document with
/// one node, whose parts are nested in each other.
pub open spec fn is_document_stream(events: Seq<(EventView, Marker)>) -> bool {
    &&& events.len() >= 2
    &&& events[0].0 is StreamStart
    &&& {
        ||| events.len() == 2 && events[1].0 is StreamEnd
        ||| {
            &&& events[1].0 is DocumentStart
            &&& node_end(events, 2) == Some(events.len() - 1)
            &&& events[events.len() - 1].0 is DocumentEnd
        }
    }
}

/// The node that starts at `i`.
pub open spec fn node_at(origin: Origin, events: Seq<(EventView, Marker)>, i: int) -> NodeView
    decreases events.len() - i, 0int,
{
    if !(0 <= i < events.len()) {
        node::no_node()
    } else {
        let marker = events[i].1;
        match events[i].0 {
            EventView::Scalar { value, style, tag } => scalar_at(origin, marker, value, style, tag),
            EventView::Alias => alias_at(origin, marker),
            EventView::SequenceStart { tag } => match items_end(events, i + 1) {
                Some(end) => sequence_between(
                    origin,
                    marker,
                    tag,
                    events[end].1,
                    items_at(origin, events, i + 1),
                ),
                None => node::no_node(),
            },
            EventView::MappingStart { tag } => match pairs_end(events, i + 1) {
                Some(end) => mapping_between(
                    origin,
                    marker,
                    tag,
                    events[end].1,
                    pairs_at(origin, events, i + 1),
                ),
                None => node::no_node(),
            },
            _ => node::no_node(),
        }
    }
}

/// The items of a sequence from the one on that starts at `i`.
pub open spec fn items_at(origin: Origin, events: Seq<(EventView, Marker)>, i: int) -> Seq<NodeView>
    decreases events.len() - i, 1int,
{
    if !(0 <= i < events.len()) || events[i].0 is SequenceEnd {
        Seq::empty()
    } else {
        match node_end(events, i) {
            Some(next) => if i < next <= events.len() {
                seq![node_at(origin, events, i)] + items_at(origin, events, next)
            } else {
                Seq::empty()
            },
            None => Seq::empty(),
        }
    }
}

/// The keys and values of a mapping from the key on that starts at `i`.
pub open spec fn pairs_at(origin: Origin, events: Seq<(EventView, Marker)>, i: int) -> Seq<
    (NodeView, NodeView),
>
    decreases events.len() - i, 1int,
{
    if !(0 <= i < events.len()) || events[i].0 is MappingEnd {
        Seq::empty()
    } else {
        match node_end(events, i) {
            Some(at) => if i < at <= events.len() {
                match node_end(events, at) {
                    Some(next) => if at < next <= events.len() {
                        seq![(node_at(origin, events, i), node_at(origin, events, at))] + pairs_at(
                            origin,
                            events,
                            next,
                        )
                    } else {
                        Seq::empty()
                    },
                    None => Seq::empty(),
                }
            } else {
                Seq::empty()
            },
            None => Seq::empty(),
        }
    }
}

/// The document of a stream, if it holds one.
pub open spec fn document(origin: Origin, events: Seq<(EventView, Marker)>) -> Option<NodeView> {
    if events.len() > 1 && events[1].0 is DocumentStart {
        Some(node_at(origin, events, 2))
    } else {
        None
    }
}

} // verus!
