//! Reading the events of a YAML stream.
//!
//! Scanning and parsing YAML is the work of `yaml_rust2`. Its events arrive here as
//! values of this library.

use crate::event;
use crate::event::{Event, EventView, ScalarStyle, Tag};
use crate::source_text::Marker;
use crate::tree;
use vstd::prelude::*;
use yaml_rust2::parser::{Event as RawEvent, MarkedEventReceiver, Parser, Tag as RawTag};
use yaml_rust2::scanner::{Marker as RawMarker, TScalarStyle};

verus! {

#[verifier::external_type_specification]
#[verifier::external_body]
pub struct ExRawEvent(RawEvent);

#[verifier::external_type_specification]
#[verifier::external_body]
pub struct ExRawTag(RawTag);

#[verifier::external_type_specification]
#[verifier::external_body]
pub struct ExScalarStyle(TScalarStyle);

#[verifier::external_type_specification]
#[verifier::external_body]
pub struct ExRawMarker(RawMarker);

/// Why a text is not a YAML stream, and where.
#[derive(Debug)]
pub struct ScanFailure {
    /// What is wrong.
    pub message: String,
    /// Where it is wrong.
    pub marker: Marker,
}

/// What a failure says, apart from how it is stored.
pub struct FailureView {
    pub message: Seq<char>,
    pub marker: Marker,
}

impl View for ScanFailure {
    type V = FailureView;

    open spec fn view(&self) -> FailureView {
        FailureView { message: self.message@, marker: self.marker }
    }
}

/// What `yaml_rust2`'s `Parser::load` reports of a text when it is asked for one
/// document: the events, or the failure.
pub uninterp spec fn yaml_events(content: Seq<char>) -> Result<
    Seq<(EventView, Marker)>,
    FailureView,
>;

/// The events that were reported so far.
struct Recorder {
    events: Vec<(Event, Marker)>,
}

/// `yaml_rust2`'s `TScalarStyle` as a style of this library: the one of the same name.
#[verifier::external_body]
fn style_from(style: TScalarStyle) -> (converted: ScalarStyle) {
    match style {
        TScalarStyle::Plain => ScalarStyle::Plain,
        TScalarStyle::SingleQuoted => ScalarStyle::SingleQuoted,
        TScalarStyle::DoubleQuoted => ScalarStyle::DoubleQuoted,
        TScalarStyle::Literal => ScalarStyle::Literal,
        TScalarStyle::Folded => ScalarStyle::Folded,
    }
}

/// `yaml_rust2`'s `Tag` as a tag of this library, with the same handle and suffix.
#[verifier::external_body]
fn tag_from(tag: RawTag) -> (converted: Tag) {
    Tag { handle: tag.handle, suffix: tag.suffix }
}

/// `yaml_rust2`'s `Event` as an event of this library: the one of the same name. The
/// numbers of anchors are dropped.
#[verifier::external_body]
fn event_from(raw: RawEvent) -> (converted: Event) {
    match raw {
        RawEvent::Nothing => Event::Nothing,
        RawEvent::StreamStart => Event::StreamStart,
        RawEvent::StreamEnd => Event::StreamEnd,
        RawEvent::DocumentStart => Event::DocumentStart,
        RawEvent::DocumentEnd => Event::DocumentEnd,
        RawEvent::Alias(_) => Event::Alias,
        RawEvent::Scalar(s, style, _, tag) => Event::Scalar(s, style_from(style), tag.map(tag_from)),
        RawEvent::SequenceStart(_, tag) => Event::SequenceStart(tag.map(tag_from)),
        RawEvent::SequenceEnd => Event::SequenceEnd,
        RawEvent::MappingStart(_, tag) => Event::MappingStart(tag.map(tag_from)),
        RawEvent::MappingEnd => Event::MappingEnd,
    }
}

impl MarkedEventReceiver for Recorder {
    /// Keeps an event, with the line and the column of its marker.
    #[verifier::external_body]
    fn on_event(&mut self, raw: RawEvent, at: RawMarker) {
        self.events.push((event_from(raw), Marker { line: at.line(), col: at.col() }));
    }
}

/// Reads the events of the first document in `content` with `yaml_rust2`'s
/// `Parser::new_from_str` and `Parser::load`.
///
/// Taken on trust: what comes back depends on `content` alone, and the events of a
/// successful call are those of a stream read up to the end of its first document,
/// each node nested in the one around it, as `load` reports them. A marker carries the
/// line and the column that `yaml_rust2` gives. Nothing is said of how the events
/// follow from the text: that is YAML's grammar. `load` calls itself for every level of
/// nesting, and the stack that this takes is not accounted for.
#[verifier::external_body]
pub(crate) fn load_events(content: &str) -> (result: Result<Vec<(Event, Marker)>, ScanFailure>)
    ensures
        match result {
            Ok(events) => {
                &&& yaml_events(content@) == Ok::<Seq<(EventView, Marker)>, FailureView>(
                    event::event_views(events@),
                )
                &&& tree::is_document_stream(event::event_views(events@))
            },
            Err(failure) => yaml_events(content@) == Err::<
                Seq<(EventView, Marker)>,
                FailureView,
            >(failure@),
        },
{
    let mut recorder = Recorder { events: Vec::new() };
    match Parser::new_from_str(content).load(&mut recorder, false) {
        Ok(()) => Ok(recorder.events),
        Err(error) => Err(
            ScanFailure {
                message: error.info().to_string(),
                marker: Marker { line: error.marker().line(), col: error.marker().col() },
            },
        ),
    }
}

} // verus!
