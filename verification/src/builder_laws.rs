//! What holds of every tree that is being built, whatever the events.

use crate::builder::{BuilderView, FrameView};
use crate::event::EventView;
use crate::node::NodeView;
use crate::source_text::Marker;
use crate::tree;
use crate::tree::Origin;
use vstd::prelude::*;

verus! {

/// Whether two states differ in no more than the innermost open collection.
pub open spec fn same_around(a: BuilderView, b: BuilderView) -> bool {
    &&& a.root == b.root
    &&& a.stack.len() == b.stack.len()
    &&& forall|i: int| 0 <= i < a.stack.len() - 1 ==> #[trigger] a.stack[i] == b.stack[i]
}

/// Outside of any collection a complete node is the root, whatever was the root before.
pub proof fn law_node_outside_is_the_root(state: BuilderView, node: NodeView)
    requires
        state.stack.len() == 0,
    ensures
        state.with_node(node).root == Some(node),
        state.with_node(node).stack.len() == 0,
{
}

/// Inside of a collection a complete node is added to the innermost one, and nothing else
/// changes: to a sequence as its last item, and to a mapping as the value that its last key lacks,
/// or else as its next key.
pub proof fn law_node_goes_to_the_innermost_collection(state: BuilderView, node: NodeView)
    requires
        state.stack.len() > 0,
    ensures
        same_around(state, state.with_node(node)),
        match (state.stack.last(), state.with_node(node).stack.last()) {
            (
                FrameView::Sequence { start, tag, items },
                FrameView::Sequence { start: from, tag: kept, items: more },
            ) => {
                &&& from == start && kept == tag
                &&& more.len() == items.len() + 1
                &&& more.last() == node
                &&& forall|i: int| 0 <= i < items.len() ==> #[trigger] more[i] == items[i]
            },
            (
                FrameView::Mapping { start, tag, entries },
                FrameView::Mapping { start: from, tag: kept, entries: more },
            ) => {
                let lacks = entries.len() > 0 && entries.last().1 is None;
                &&& from == start && kept == tag
                &&& lacks ==> more.len() == entries.len() && more.last().0 == entries.last().0
                    && more.last().1 == Some(node)
                &&& !lacks ==> more.len() == entries.len() + 1 && more.last().0 == node
                    && more.last().1 is None
                &&& forall|i: int|
                    0 <= i < more.len() - 1 ==> #[trigger] more[i] == entries[i]
            },
            _ => false,
        },
{
    let after = state.with_node(node);
    assert forall|i: int| 0 <= i < state.stack.len() - 1 implies #[trigger] state.stack[i]
        == after.stack[i] by {}
}

/// The first event of a collection opens one that holds nothing yet, inside of those that are
/// open.
pub proof fn law_collection_opens(
    state: BuilderView,
    origin: Origin,
    event: EventView,
    marker: Marker,
)
    requires
        event is SequenceStart || event is MappingStart,
    ensures
        ({
            let after = state.step(origin, event, marker);
            &&& after.root == state.root
            &&& after.stack.len() == state.stack.len() + 1
            &&& after.stack.drop_last() == state.stack
            &&& match (event, after.stack.last()) {
                (
                    EventView::SequenceStart { tag },
                    FrameView::Sequence { start, tag: kept, items },
                ) => start == marker && kept == tag && items.len() == 0,
                (
                    EventView::MappingStart { tag },
                    FrameView::Mapping { start, tag: kept, entries },
                ) => start == marker && kept == tag && entries.len() == 0,
                _ => false,
            }
        }),
{
    let after = state.step(origin, event, marker);
    assert(after.stack.drop_last() =~= state.stack);
}

/// The last event of a collection closes it: the collection becomes a node with all that it
/// holds, and is added to what is open around it.
pub proof fn law_collection_closes(
    state: BuilderView,
    origin: Origin,
    event: EventView,
    marker: Marker,
)
    requires
        state.accepts(event),
        event is SequenceEnd || event is MappingEnd,
    ensures
        state.stack.len() > 0,
        ({
            let around = BuilderView { stack: state.stack.drop_last(), root: state.root };
            let after = state.step(origin, event, marker);
            match state.stack.last() {
                FrameView::Sequence { start, tag, items } => {
                    &&& event is SequenceEnd
                    &&& after == around.with_node(
                        tree::sequence_between(origin, start, tag, marker, items),
                    )
                },
                FrameView::Mapping { start, tag, entries } => {
                    let pairs = Seq::new(entries.len(), |i: int| (entries[i].0, entries[i].1->0));
                    &&& event is MappingEnd
                    &&& forall|i: int|
                        0 <= i < entries.len() ==> (#[trigger] entries[i]).1 is Some
                    &&& after == around.with_node(
                        tree::mapping_between(origin, start, tag, marker, pairs),
                    )
                },
            }
        }),
{
}

/// A collection can end just where one of its kind is open inside of all others, and a mapping
/// only behind a value. Every other event can come at any time.
pub proof fn law_events_that_can_come(state: BuilderView, event: EventView)
    ensures
        !(event is SequenceEnd || event is MappingEnd) ==> state.accepts(event),
        state.stack.len() == 0 && (event is SequenceEnd || event is MappingEnd)
            ==> !state.accepts(event),
        state.stack.len() > 0 && event is SequenceEnd ==> (state.accepts(event) <==>
            state.stack.last() is Sequence),
        state.stack.len() > 0 && event is MappingEnd ==> (state.accepts(event) <==> (
        state.stack.last() matches FrameView::Mapping { entries, .. } && forall|i: int|
            0 <= i < entries.len() ==> (#[trigger] entries[i]).1 is Some)),
{
}

/// A scalar and an alias are complete nodes at once. Events that are no part of a node change
/// nothing.
pub proof fn law_other_events(
    state: BuilderView,
    origin: Origin,
    event: EventView,
    marker: Marker,
)
    ensures
        event matches EventView::Scalar { value, style, tag } ==> state.step(origin, event, marker)
            == state.with_node(tree::scalar_at(origin, marker, value, style, tag)),
        event is Alias ==> state.step(origin, event, marker) == state.with_node(
            tree::alias_at(origin, marker),
        ),
        event is Nothing || event is StreamStart || event is StreamEnd || event is DocumentStart
            || event is DocumentEnd ==> state.step(origin, event, marker) == state,
{
}

/// Before any event nothing is open, and there is no root.
pub proof fn law_nothing_is_built_at_first()
    ensures
        BuilderView::empty().stack.len() == 0,
        BuilderView::empty().root is None,
{
}

} // verus!
