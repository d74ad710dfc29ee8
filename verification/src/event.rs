//! The events of a YAML stream.

use crate::source_text::Marker;
use vstd::prelude::*;

verus! {

/// How a scalar is written in the source.
#[derive(Debug, Clone, Copy, PartialEq, Eq, Structural)]
pub enum ScalarStyle {
    /// Without any indicator.
    Plain,
    /// Between single quotes.
    SingleQuoted,
    /// Between double quotes.
    DoubleQuoted,
    /// A block that keeps its line breaks.
    Literal,
    /// A block that folds its line breaks.
    Folded,
}

/// A tag, resolved into its handle and its suffix.
#[derive(Debug)]
pub struct Tag {
    /// What the handle stands for.
    pub handle: String,
    /// What follows the handle.
    pub suffix: String,
}

/// What a tag says, apart from how it is stored.
pub struct TagView {
    pub handle: Seq<char>,
    pub suffix: Seq<char>,
}

impl View for Tag {
    type V = TagView;

    open spec fn view(&self) -> TagView {
        TagView { handle: self.handle@, suffix: self.suffix@ }
    }
}

/// The view of an optional tag.
pub open spec fn tag_view(tag: Option<Tag>) -> Option<TagView> {
    match tag {
        Some(t) => Some(t@),
        None => None,
    }
}

/// One step through a YAML stream.
#[derive(Debug)]
pub enum Event {
    /// Nothing of interest.
    Nothing,
    /// The stream begins.
    StreamStart,
    /// The stream ends.
    StreamEnd,
    /// A document begins.
    DocumentStart,
    /// A document ends.
    DocumentEnd,
    /// A reference to an anchored node.
    Alias,
    /// A scalar: its value, its style and its tag.
    Scalar(String, ScalarStyle, Option<Tag>),
    /// A sequence begins: its tag.
    SequenceStart(Option<Tag>),
    /// A sequence ends.
    SequenceEnd,
    /// A mapping begins: its tag.
    MappingStart(Option<Tag>),
    /// A mapping ends.
    MappingEnd,
}

/// What an event says, apart from how it is stored.
pub enum EventView {
    Nothing,
    StreamStart,
    StreamEnd,
    DocumentStart,
    DocumentEnd,
    Alias,
    Scalar { value: Seq<char>, style: ScalarStyle, tag: Option<TagView> },
    SequenceStart { tag: Option<TagView> },
    SequenceEnd,
    MappingStart { tag: Option<TagView> },
    MappingEnd,
}

impl View for Event {
    type V = EventView;

    open spec fn view(&self) -> EventView {
        match self {
            Event::Nothing => EventView::Nothing,
            Event::StreamStart => EventView::StreamStart,
            Event::StreamEnd => EventView::StreamEnd,
            Event::DocumentStart => EventView::DocumentStart,
            Event::DocumentEnd => EventView::DocumentEnd,
            Event::Alias => EventView::Alias,
            Event::Scalar(value, style, tag) => EventView::Scalar {
                value: value@,
                style: *style,
                tag: tag_view(*tag),
            },
            Event::SequenceStart(tag) => EventView::SequenceStart { tag: tag_view(*tag) },
            Event::SequenceEnd => EventView::SequenceEnd,
            Event::MappingStart(tag) => EventView::MappingStart { tag: tag_view(*tag) },
            Event::MappingEnd => EventView::MappingEnd,
        }
    }
}

/// The events of a stream, each with the place that it was found at.
pub open spec fn event_views(events: Seq<(Event, Marker)>) -> Seq<(EventView, Marker)> {
    Seq::new(events.len(), |i: int| (events[i].0@, events[i].1))
}

} // verus!
