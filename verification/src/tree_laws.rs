//! What holds of the nodes of every tree, stated over the events and the characters that they
//! come from.

use crate::error::ErrorView;
use crate::event::{EventView, ScalarStyle, TagView};
use crate::extent;
use crate::extent_laws;
use crate::node;
use crate::node::{ChildrenView, EntryView, NodeView};
use crate::parser;
use crate::scalar;
use crate::source_info;
use crate::source_info::SourceView;
use crate::source_text;
use crate::source_text::Marker;
use crate::stream;
use crate::stream::FailureView;
use crate::text;
use crate::tree;
use crate::tree::Origin;
use crate::yaml::YamlView;
use vstd::prelude::*;

verus! {

/// Clipping takes in as many whole characters as the limit has bytes for, and no more.
pub proof fn law_clip_takes_what_fits(s: Seq<char>, i: int, limit: nat)
    requires
        0 <= i <= s.len(),
    ensures
        ({
            let end = source_text::clip(s, i, limit);
            &&& i <= end <= s.len()
            &&& text::byte_len(s.subrange(i, end)) <= limit
            &&& end < s.len() ==> limit < text::byte_len(s.subrange(i, end + 1))
        }),
    decreases s.len() - i,
{
    if i >= s.len() || text::utf8_width(s[i]) > limit {
        assert(s.subrange(i, i) =~= Seq::<char>::empty());
        if i < s.len() {
            text::lemma_byte_len_step(s, i);
            text::lemma_byte_len_range(s, i, i + 1);
        }
    } else {
        let rest = (limit - text::utf8_width(s[i])) as nat;
        let end = source_text::clip(s, i + 1, rest);
        law_clip_takes_what_fits(s, i + 1, rest);
        text::lemma_byte_len_step(s, i);
        text::lemma_byte_len_range(s, i, end);
        text::lemma_byte_len_range(s, i + 1, end);
        if end < s.len() {
            text::lemma_byte_len_range(s, i, end + 1);
            text::lemma_byte_len_range(s, i + 1, end + 1);
        }
    }
}

/// Whether the character at `i` is the last one of its line: a line feed, or a carriage return
/// that no line feed follows.
pub open spec fn is_last_of_line(s: Seq<char>, i: int) -> bool {
    ||| s[i] == '\u{a}'
    ||| s[i] == '\u{d}' && (i + 1 >= s.len() || s[i + 1] != '\u{a}')
}

/// How many lines end within the first `n` characters.
pub open spec fn lines_before(s: Seq<char>, n: int) -> int
    decreases n,
{
    if n <= 0 {
        0
    } else {
        lines_before(s, n - 1) + if is_last_of_line(s, n - 1) {
            1int
        } else {
            0int
        }
    }
}

proof fn lemma_line_starts(s: Seq<char>, n: int, p: int)
    requires
        0 <= p <= n <= s.len(),
        p == 0 || is_last_of_line(s, p - 1),
    ensures
        0 <= lines_before(s, p) <= lines_before(s, n),
        source_text::line_starts(s, n).len() == lines_before(s, n) + 1,
        source_text::line_starts(s, n)[lines_before(s, p)] == p,
    decreases n,
{
    if n > 0 {
        if p < n {
            lemma_line_starts(s, n - 1, p);
        } else {
            lemma_line_starts(s, n - 1, 0);
        }
    }
}

proof fn lemma_text_end_at(s: Seq<char>, i: int, end: int)
    requires
        0 <= i <= end <= s.len(),
        forall|k: int| i <= k < end ==> #[trigger] s[k] != '\0',
        end == s.len() || s[end] == '\0',
    ensures
        source_text::text_end(s, i) == end,
    decreases end - i,
{
    if i < end {
        lemma_text_end_at(s, i + 1, end);
    }
}

/// A marker points at the character in its line and its column: lines are counted from one,
/// and the column is the number of characters before it in its line. The text ends at a NUL.
pub proof fn law_marker_points_at_its_character(
    s: Seq<char>,
    end: int,
    p: int,
    i: int,
    marker: Marker,
)
    requires
        0 <= p <= i <= end <= s.len(),
        forall|k: int| 0 <= k < end ==> #[trigger] s[k] != '\0',
        end == s.len() || s[end] == '\0',
        p == 0 || is_last_of_line(s, p - 1),
        marker.line == lines_before(s, p) + 1,
        marker.col == i - p,
    ensures
        source_text::char_position(s, marker) == i,
        source_text::byte_position(s, marker) == text::byte_len(s.take(i)),
{
    lemma_text_end_at(s, 0, end);
    lemma_line_starts(s, end, p);
}

/// A marker that points behind the text points at its end, and one that points before the first
/// line points at its start.
pub proof fn law_marker_stays_in_the_text(s: Seq<char>, end: int, p: int, marker: Marker)
    requires
        0 <= p <= end <= s.len(),
        forall|k: int| 0 <= k < end ==> #[trigger] s[k] != '\0',
        end == s.len() || s[end] == '\0',
        p == 0 || is_last_of_line(s, p - 1),
    ensures
        marker.line == 0 ==> source_text::char_position(s, marker) == 0,
        marker.line > lines_before(s, end) + 1 ==> source_text::char_position(s, marker) == end,
        marker.line == lines_before(s, p) + 1 && p + marker.col > end
            ==> source_text::char_position(s, marker) == end,
{
    lemma_text_end_at(s, 0, end);
    lemma_line_starts(s, end, p);
}

/// A range of the text belongs to what the text is a part of, and to the anonymous file where
/// it is a part of nothing.
pub proof fn law_span_belongs_to_its_origin(origin: Origin, start: int, end: int)
    ensures
        match origin.span(start, end) {
            SourceView::Original { file_id, start: from, end: to } => {
                &&& origin.parent is None
                &&& file_id.0 == 0
                &&& from == start
                &&& to == end
            },
            SourceView::Substring { parent, start: from, end: to } => {
                &&& origin.parent == Some(*parent)
                &&& from == start
                &&& to == end
            },
            _ => false,
        },
{
}

/// The node of a scalar has the value of the scalar, starts where its marker points, and has no
/// parts. It has a tag just where the scalar has one, of the same name. The tag depends neither
/// on the style nor on the text.
pub proof fn law_scalar_node(
    origin: Origin,
    marker: Marker,
    value: Seq<char>,
    style: ScalarStyle,
    tag: Option<TagView>,
    other_value: Seq<char>,
    other_style: ScalarStyle,
)
    ensures
        ({
            let built = tree::scalar_at(origin, marker, value, style, tag);
            &&& built.yaml == scalar::scalar_value(value, style, tag)
            &&& built.children is Leaf
            &&& origin.owns(built.span)
            &&& built.span.start_offset() == text::byte_len(
                origin.source.take(source_text::char_position(origin.source, marker)),
            )
            &&& built.tag is Some <==> tag is Some
            &&& tag matches Some(t) ==> tag_name(built.tag) == Some(t.suffix)
            &&& built.tag == tree::scalar_at(origin, marker, other_value, other_style, tag).tag
        }),
{
}

proof fn lemma_located_at(
    origin: Origin,
    at: int,
    tag: TagView,
    from: int,
    p: int,
    end: int,
)
    requires
        extent_laws::is_property_at(origin.source, at, from, p, end),
        origin.source[p] == '!',
    ensures
        tree::located_tag(origin, at, Some(tag)) == Some(
            (
                tag.suffix,
                origin.span(
                    text::byte_len(origin.source.take(p)) as int,
                    text::byte_len(origin.source.take(end)) as int,
                ),
            ),
        ),
{
    extent_laws::law_tag_before_a_node_is_found(origin.source, at, from, p, end);
}

proof fn lemma_located_behind_anchor(
    origin: Origin,
    at: int,
    tag: TagView,
    anchor: (int, int, int),
    from: int,
    p: int,
    end: int,
)
    requires
        extent_laws::is_property_at(origin.source, at, anchor.0, anchor.1, anchor.2),
        origin.source[anchor.1] == '&',
        extent_laws::is_property_at(origin.source, anchor.0, from, p, end),
        origin.source[p] == '!',
    ensures
        tree::located_tag(origin, at, Some(tag)) == Some(
            (
                tag.suffix,
                origin.span(
                    text::byte_len(origin.source.take(p)) as int,
                    text::byte_len(origin.source.take(end)) as int,
                ),
            ),
        ),
{
    extent_laws::law_anchor_is_passed_over(origin.source, at, anchor.0, anchor.1, anchor.2);
    extent_laws::law_tag_before_a_node_is_found(origin.source, anchor.0, from, p, end);
}

/// The tag of a scalar of any style stands where the token stands that starts with `!` and
/// comes before the scalar.
pub proof fn law_scalar_tag_stands_at_its_token(
    origin: Origin,
    marker: Marker,
    value: Seq<char>,
    style: ScalarStyle,
    tag: TagView,
    from: int,
    p: int,
    end: int,
)
    requires
        extent_laws::is_property_at(
            origin.source,
            source_text::char_position(origin.source, marker),
            from,
            p,
            end,
        ),
        origin.source[p] == '!',
    ensures
        tree::scalar_at(origin, marker, value, style, Some(tag)).tag == Some(
            (
                tag.suffix,
                origin.span(
                    text::byte_len(origin.source.take(p)) as int,
                    text::byte_len(origin.source.take(end)) as int,
                ),
            ),
        ),
{
    let at = source_text::char_position(origin.source, marker);
    lemma_located_at(origin, at, tag, from, p, end);
}

/// So does the tag of a scalar with an anchor between them.
pub proof fn law_scalar_tag_stands_before_its_anchor(
    origin: Origin,
    marker: Marker,
    value: Seq<char>,
    style: ScalarStyle,
    tag: TagView,
    anchor: (int, int, int),
    from: int,
    p: int,
    end: int,
)
    requires
        extent_laws::is_property_at(
            origin.source,
            source_text::char_position(origin.source, marker),
            anchor.0,
            anchor.1,
            anchor.2,
        ),
        origin.source[anchor.1] == '&',
        extent_laws::is_property_at(origin.source, anchor.0, from, p, end),
        origin.source[p] == '!',
    ensures
        tree::scalar_at(origin, marker, value, style, Some(tag)).tag == Some(
            (
                tag.suffix,
                origin.span(
                    text::byte_len(origin.source.take(p)) as int,
                    text::byte_len(origin.source.take(end)) as int,
                ),
            ),
        ),
{
    let at = source_text::char_position(origin.source, marker);
    lemma_located_behind_anchor(origin, at, tag, anchor, from, p, end);
}

/// A tag that is not found stands at its node, and is no longer than its name and a `!`.
pub proof fn law_lost_tag_stands_at_its_node(origin: Origin, at: int, tag: TagView)
    requires
        0 <= at <= origin.source.len(),
        extent::tag_range(origin.source, at) is None,
    ensures
        tree::located_tag(origin, at, Some(tag)) matches Some((suffix, span)) && {
            let start = text::byte_len(origin.source.take(at)) as int;
            &&& suffix == tag.suffix
            &&& span == origin.span(start, span.end_offset())
            &&& start <= span.end_offset() <= start + 1 + text::byte_len(tag.suffix)
            &&& span.end_offset() <= text::byte_len(origin.source)
        },
{
    let limit = 1 + text::byte_len(tag.suffix);
    let end = source_text::clip(origin.source, at, limit);
    law_clip_takes_what_fits(origin.source, at, limit);
    text::lemma_byte_len_range(origin.source, at, end);
    text::lemma_byte_len_split(origin.source, end);
}

/// An alias is null, has no extent, no tag and no parts.
pub proof fn law_alias_node(origin: Origin, marker: Marker)
    ensures
        ({
            let built = tree::alias_at(origin, marker);
            let at = text::byte_len(
                origin.source.take(source_text::char_position(origin.source, marker)),
            ) as int;
            &&& built.yaml is Null
            &&& built.children is Leaf
            &&& built.tag is None
            &&& built.span == origin.span(at, at)
        }),
{
}

/// The node of a sequence is made of its items, in their order. It reaches from its first
/// marker to its last, and not back where the last comes first. It has a tag just where the
/// sequence has one, of the same name.
pub proof fn law_sequence_node(
    origin: Origin,
    start: Marker,
    tag: Option<TagView>,
    end: Marker,
    items: Seq<NodeView>,
)
    ensures
        ({
            let built = tree::sequence_between(origin, start, tag, end, items);
            let from = source_text::byte_position(origin.source, start) as int;
            let to = source_text::byte_position(origin.source, end) as int;
            &&& built.children == ChildrenView::Items(items)
            &&& built.yaml matches YamlView::Array(values) && values.len() == items.len()
                && forall|i: int|
                0 <= i < items.len() ==> #[trigger] values[i] == items[i].yaml
            &&& from <= to ==> built.span == origin.span(from, to)
            &&& to < from ==> built.span == origin.span(from, from)
            &&& built.tag is Some <==> tag is Some
            &&& tag matches Some(t) ==> tag_name(built.tag) == Some(t.suffix)
        }),
{
}

/// The tag of a sequence stands where the token stands that starts with `!` and comes before
/// the sequence.
pub proof fn law_sequence_tag_stands_at_its_token(
    origin: Origin,
    start: Marker,
    tag: TagView,
    last: Marker,
    items: Seq<NodeView>,
    from: int,
    p: int,
    end: int,
)
    requires
        extent_laws::is_property_at(
            origin.source,
            source_text::char_position(origin.source, start),
            from,
            p,
            end,
        ),
        origin.source[p] == '!',
    ensures
        tree::sequence_between(origin, start, Some(tag), last, items).tag == Some(
            (
                tag.suffix,
                origin.span(
                    text::byte_len(origin.source.take(p)) as int,
                    text::byte_len(origin.source.take(end)) as int,
                ),
            ),
        ),
{
    let at = source_text::char_position(origin.source, start);
    assert(origin.source[p] != '-');
    if end == from + 1 {
        assert(p == from);
    }
    extent_laws::law_nothing_else_is_an_entry_indicator(origin.source, at, from, end);
    lemma_located_at(origin, at, tag, from, p, end);
}

/// The tag of a sequence whose marker stands behind its first entry indicator stands where the
/// token stands that starts with `!` and comes before the indicator.
pub proof fn law_sequence_tag_stands_before_its_indicator(
    origin: Origin,
    start: Marker,
    tag: TagView,
    last: Marker,
    items: Seq<NodeView>,
    dash: int,
    from: int,
    p: int,
    end: int,
)
    requires
        ({
            let s = origin.source;
            let at = source_text::char_position(s, start);
            &&& 0 <= dash < at <= s.len()
            &&& s[dash] == '-'
            &&& dash == 0 || text::white_space(s[dash - 1])
            &&& forall|i: int| dash < i < at ==> text::white_space(#[trigger] s[i])
            &&& extent_laws::is_property_at(s, dash, from, p, end)
            &&& s[p] == '!'
        }),
    ensures
        tree::sequence_between(origin, start, Some(tag), last, items).tag == Some(
            (
                tag.suffix,
                origin.span(
                    text::byte_len(origin.source.take(p)) as int,
                    text::byte_len(origin.source.take(end)) as int,
                ),
            ),
        ),
{
    let at = source_text::char_position(origin.source, start);
    extent_laws::law_entry_indicator_is_found(origin.source, at, dash);
    lemma_located_at(origin, dash, tag, from, p, end);
}

/// The node of a mapping is made of its entries, in their order. It reaches from its first key,
/// or from its first marker without one, to its last marker. It has a tag just where the mapping
/// has one, of the same name.
pub proof fn law_mapping_node(
    origin: Origin,
    start: Marker,
    tag: Option<TagView>,
    end: Marker,
    pairs: Seq<(NodeView, NodeView)>,
)
    ensures
        ({
            let built = tree::mapping_between(origin, start, tag, end, pairs);
            let from = if pairs.len() == 0 {
                source_text::byte_position(origin.source, start) as int
            } else {
                pairs[0].0.span.start_offset()
            };
            let to = source_text::byte_position(origin.source, end) as int;
            &&& built.children matches ChildrenView::Entries(entries) && entries.len()
                == pairs.len() && forall|i: int|
                0 <= i < pairs.len() ==> (#[trigger] entries[i]).key == pairs[i].0
                    && entries[i].value == pairs[i].1
            &&& from <= to ==> built.span == origin.span(from, to)
            &&& to < from ==> built.span == origin.span(from, from)
            &&& built.tag is Some <==> tag is Some
            &&& tag matches Some(t) ==> tag_name(built.tag) == Some(t.suffix)
        }),
{
    let built = tree::mapping_between(origin, start, tag, end, pairs);
    assert(built.children == ChildrenView::Entries(tree::entries_of(pairs)));
}

/// A node begins with its tag, where that stands before it.
pub proof fn law_node_begins_with_its_tag(node: NodeView)
    ensures
        node.first_offset() <= node.span.start_offset(),
        node.tag matches Some((_, span)) ==> node.first_offset() <= span.start_offset(),
        node.first_offset() == node.span.start_offset() || (node.tag matches Some((_, span))
            && node.first_offset() == span.start_offset()),
{
}

/// The tag of a mapping stands where the token stands that starts with `!` and comes before
/// the mapping: before its first marker, or before its first key where that comes first.
pub proof fn law_mapping_tag_stands_at_its_token(
    origin: Origin,
    start: Marker,
    tag: TagView,
    last: Marker,
    pairs: Seq<(NodeView, NodeView)>,
    at: int,
    from: int,
    p: int,
    end: int,
)
    requires
        0 <= at <= origin.source.len(),
        ({
            let marked = source_text::byte_position(origin.source, start) as int;
            text::byte_len(origin.source.take(at)) == if pairs.len() > 0
                && pairs[0].0.first_offset() < marked {
                pairs[0].0.first_offset()
            } else {
                marked
            }
        }),
        extent_laws::is_property_at(origin.source, at, from, p, end),
        origin.source[p] == '!',
    ensures
        tree::mapping_between(origin, start, Some(tag), last, pairs).tag == Some(
            (
                tag.suffix,
                origin.span(
                    text::byte_len(origin.source.take(p)) as int,
                    text::byte_len(origin.source.take(end)) as int,
                ),
            ),
        ),
{
    source_text::lemma_clip_exact(origin.source, 0, at);
    assert(origin.source.subrange(0, at) =~= origin.source.take(at));
    lemma_located_at(origin, at, tag, from, p, end);
}

/// An entry has its key and its value, with their places. It reaches from the start of the key
/// to the end of the value where both are ranges of one text.
pub proof fn law_entry(origin: Origin, key: NodeView, value: NodeView)
    requires
        origin.owns(key.span),
        origin.owns(value.span),
    ensures
        ({
            let entry = tree::entry_of(key, value);
            &&& entry.key == key
            &&& entry.value == value
            &&& entry.key_span == key.span
            &&& entry.value_span == value.span
            &&& entry.entry_span == origin.span(key.span.start_offset(), value.span.end_offset())
        }),
{
}

/// A step through a tree: a leaf, or that a collection opens or closes.
pub enum Step {
    Leaf(NodeView),
    Open { mapping: bool, tag: Option<Seq<char>> },
    Close { mapping: bool },
}

/// The name of a tag, if there is one.
pub open spec fn tag_name(tag: Option<(Seq<char>, SourceView)>) -> Option<Seq<char>> {
    match tag {
        Some((suffix, _)) => Some(suffix),
        None => None,
    }
}

/// The steps through a tree, keys before their values.
pub open spec fn outline(node: NodeView) -> Seq<Step>
    decreases node, 0int,
{
    match node.children {
        ChildrenView::Leaf => seq![Step::Leaf(node)],
        ChildrenView::Items(items) => seq![Step::Open { mapping: false, tag: tag_name(node.tag) }]
            + outline_of_items(items, 0) + seq![Step::Close { mapping: false }],
        ChildrenView::Entries(entries) => seq![
            Step::Open { mapping: true, tag: tag_name(node.tag) },
        ] + outline_of_entries(entries, 0) + seq![Step::Close { mapping: true }],
    }
}

/// The steps through the items from the `k`-th on.
pub open spec fn outline_of_items(items: Seq<NodeView>, k: int) -> Seq<Step>
    decreases items, items.len() - k,
{
    if 0 <= k < items.len() {
        outline(items[k]) + outline_of_items(items, k + 1)
    } else {
        Seq::empty()
    }
}

/// The steps through the entries from the `k`-th on.
pub open spec fn outline_of_entries(entries: Seq<EntryView>, k: int) -> Seq<Step>
    decreases entries, entries.len() - k,
{
    if 0 <= k < entries.len() {
        outline(entries[k].key) + outline(entries[k].value) + outline_of_entries(entries, k + 1)
    } else {
        Seq::empty()
    }
}

/// The step that an event stands for.
pub open spec fn step_of(origin: Origin, event: EventView, marker: Marker) -> Step {
    match event {
        EventView::Scalar { value, style, tag } => Step::Leaf(
            tree::scalar_at(origin, marker, value, style, tag),
        ),
        EventView::SequenceStart { tag } => Step::Open {
            mapping: false,
            tag: match tag {
                Some(t) => Some(t.suffix),
                None => None,
            },
        },
        EventView::MappingStart { tag } => Step::Open {
            mapping: true,
            tag: match tag {
                Some(t) => Some(t.suffix),
                None => None,
            },
        },
        EventView::SequenceEnd => Step::Close { mapping: false },
        EventView::MappingEnd => Step::Close { mapping: true },
        _ => Step::Leaf(tree::alias_at(origin, marker)),
    }
}

/// The steps that the events from `i` to `n` stand for.
pub open spec fn steps(
    origin: Origin,
    events: Seq<(EventView, Marker)>,
    i: int,
    n: int,
) -> Seq<Step> {
    Seq::new((n - i) as nat, |k: int| step_of(origin, events[i + k].0, events[i + k].1))
}

proof fn lemma_steps_split(
    origin: Origin,
    events: Seq<(EventView, Marker)>,
    i: int,
    m: int,
    n: int,
)
    requires
        i <= m <= n,
    ensures
        steps(origin, events, i, n) == steps(origin, events, i, m) + steps(origin, events, m, n),
{
    assert(steps(origin, events, i, n) =~= steps(origin, events, i, m) + steps(
        origin,
        events,
        m,
        n,
    ));
}

proof fn lemma_items_behind(first: NodeView, rest: Seq<NodeView>, k: int)
    requires
        0 <= k <= rest.len(),
    ensures
        outline_of_items(seq![first] + rest, k + 1) == outline_of_items(rest, k),
    decreases rest.len() - k,
{
    if k < rest.len() {
        lemma_items_behind(first, rest, k + 1);
        assert((seq![first] + rest)[k + 1] == rest[k]);
    }
}

proof fn lemma_entries_behind(
    first: (NodeView, NodeView),
    rest: Seq<(NodeView, NodeView)>,
    k: int,
)
    requires
        0 <= k <= rest.len(),
    ensures
        outline_of_entries(tree::entries_of(seq![first] + rest), k + 1) == outline_of_entries(
            tree::entries_of(rest),
            k,
        ),
    decreases rest.len() - k,
{
    if k < rest.len() {
        lemma_entries_behind(first, rest, k + 1);
        assert(tree::entries_of(seq![first] + rest)[k + 1] == tree::entries_of(rest)[k]);
    }
}

#[verifier::spinoff_prover]
#[verifier::rlimit(60)]
proof fn lemma_node_outline(
    origin: Origin,
    events: Seq<(EventView, Marker)>,
    i: int,
    n: int,
)
    requires
        tree::node_end(events, i) == Some(n),
    ensures
        i < n <= events.len(),
        outline(tree::node_at(origin, events, i)) == steps(origin, events, i, n),
    decreases events.len() - i, 0int,
{
    let built = tree::node_at(origin, events, i);
    let all = steps(origin, events, i, n);
    match events[i].0 {
        EventView::SequenceStart { tag } => {
            let end = n - 1;
            let items = tree::items_at(origin, events, i + 1);
            lemma_items_outline(origin, events, i + 1, end);
            assert(built.children == ChildrenView::Items(items));
            lemma_steps_split(origin, events, i, i + 1, n);
            lemma_steps_split(origin, events, i + 1, end, n);
            assert(steps(origin, events, i, i + 1) =~= seq![
                Step::Open { mapping: false, tag: tag_name(built.tag) },
            ]);
            assert(steps(origin, events, end, n) =~= seq![Step::Close { mapping: false }]);
            assert(outline(built) =~= all);
        },
        EventView::MappingStart { tag } => {
            let end = n - 1;
            let pairs = tree::pairs_at(origin, events, i + 1);
            lemma_pairs_outline(origin, events, i + 1, end);
            assert(built.children == ChildrenView::Entries(tree::entries_of(pairs)));
            lemma_steps_split(origin, events, i, i + 1, n);
            lemma_steps_split(origin, events, i + 1, end, n);
            assert(steps(origin, events, i, i + 1) =~= seq![
                Step::Open { mapping: true, tag: tag_name(built.tag) },
            ]);
            assert(steps(origin, events, end, n) =~= seq![Step::Close { mapping: true }]);
            assert(outline(built) =~= all);
        },
        _ => {
            assert(outline(built) =~= all);
        },
    }
}

proof fn lemma_items_outline(
    origin: Origin,
    events: Seq<(EventView, Marker)>,
    i: int,
    end: int,
)
    requires
        tree::items_end(events, i) == Some(end),
    ensures
        i <= end < events.len(),
        events[end].0 is SequenceEnd,
        outline_of_items(tree::items_at(origin, events, i), 0) == steps(origin, events, i, end),
    decreases events.len() - i, 1int,
{
    let items = tree::items_at(origin, events, i);
    if events[i].0 is SequenceEnd {
        assert(steps(origin, events, i, end) =~= Seq::empty());
    } else {
        let next = tree::node_end(events, i)->0;
        let first = tree::node_at(origin, events, i);
        let rest = tree::items_at(origin, events, next);
        lemma_node_outline(origin, events, i, next);
        lemma_items_outline(origin, events, next, end);
        assert(items == seq![first] + rest);
        assert(items[0] == first);
        lemma_items_behind(first, rest, 0);
        lemma_steps_split(origin, events, i, next, end);
        assert(outline_of_items(items, 0) == outline(first) + outline_of_items(items, 1));
    }
}

proof fn lemma_pairs_outline(
    origin: Origin,
    events: Seq<(EventView, Marker)>,
    i: int,
    end: int,
)
    requires
        tree::pairs_end(events, i) == Some(end),
    ensures
        i <= end < events.len(),
        events[end].0 is MappingEnd,
        outline_of_entries(tree::entries_of(tree::pairs_at(origin, events, i)), 0) == steps(
            origin,
            events,
            i,
            end,
        ),
    decreases events.len() - i, 1int,
{
    let pairs = tree::pairs_at(origin, events, i);
    if events[i].0 is MappingEnd {
        assert(steps(origin, events, i, end) =~= Seq::empty());
    } else {
        let at = tree::node_end(events, i)->0;
        let next = tree::node_end(events, at)->0;
        let key = tree::node_at(origin, events, i);
        let value = tree::node_at(origin, events, at);
        let rest = tree::pairs_at(origin, events, next);
        lemma_node_outline(origin, events, i, at);
        lemma_node_outline(origin, events, at, next);
        lemma_pairs_outline(origin, events, next, end);
        assert(pairs == seq![(key, value)] + rest);
        let entries = tree::entries_of(pairs);
        assert(entries[0].key == key && entries[0].value == value);
        lemma_entries_behind((key, value), rest, 0);
        lemma_steps_split(origin, events, i, at, end);
        lemma_steps_split(origin, events, at, next, end);
        assert(outline_of_entries(entries, 0) == outline(key) + outline(value)
            + outline_of_entries(entries, 1));
        assert(outline_of_entries(entries, 0) =~= steps(origin, events, i, end));
    }
}

/// Nothing of a document is lost, added or moved: walking through its tree gives back the
/// events that it was made of, with the name of each tag.
pub proof fn law_tree_gives_back_its_events(origin: Origin, events: Seq<(EventView, Marker)>)
    requires
        tree::is_document_stream(events),
    ensures
        tree::document(origin, events) is Some <==> events[1].0 is DocumentStart,
        tree::document(origin, events) matches Some(root) ==> outline(root) == steps(
            origin,
            events,
            2,
            events.len() - 1,
        ),
{
    if events[1].0 is DocumentStart {
        lemma_node_outline(origin, events, 2, events.len() - 1);
    }
}

/// A collection starts at its first marker, or a mapping at its first key, and ends at the
/// marker of its last event where that comes later.
pub proof fn law_collection_ends_at_its_last_event(
    origin: Origin,
    events: Seq<(EventView, Marker)>,
    i: int,
    n: int,
)
    requires
        tree::node_end(events, i) == Some(n),
        events[i].0 is SequenceStart || events[i].0 is MappingStart,
    ensures
        ({
            let built = tree::node_at(origin, events, i);
            let to = source_text::byte_position(origin.source, events[n - 1].1) as int;
            let from = built.span.start_offset();
            &&& built.span.end_offset() == if from < to {
                to
            } else {
                from
            }
            &&& events[i].0 is SequenceStart ==> from == source_text::byte_position(
                origin.source,
                events[i].1,
            )
            &&& events[i].0 is MappingStart && tree::node_end(events, i + 1) is Some ==> from
                == tree::node_at(origin, events, i + 1).span.start_offset()
        }),
{
    if events[i].0 is MappingStart {
        lemma_pairs_outline(origin, events, i + 1, n - 1);
    } else {
        lemma_items_outline(origin, events, i + 1, n - 1);
    }
}

/// What parsing gives is the document, that there is none, or the failure of the scanner with
/// its message and its place.
pub proof fn law_parsing_tells_what_failed(
    origin: Origin,
    events: Result<Seq<(EventView, Marker)>, FailureView>,
)
    ensures
        match (events, parser::parsed(origin, events)) {
            (Ok(list), Ok(root)) => {
                &&& tree::document(origin, list) == Some(root)
                &&& list.len() > 1 && list[1].0 is DocumentStart
            },
            (Ok(list), Err(ErrorView::ParseError { message, location })) => {
                &&& tree::document(origin, list) is None
                &&& !(list.len() > 1 && list[1].0 is DocumentStart)
                &&& message == "No YAML document found"@
                &&& location is None
            },
            (Err(failure), Err(ErrorView::ParseError { message, location })) => message
                == failure.message && location == Some(failure.marker),
            (Err(_), Ok(_)) => false,
        },
{
}

/// Parsing a text gives what its events give: a text that cannot be read gives the failure of
/// reading it, whatever the text is a part of, and a text that can be read gives its document.
pub proof fn law_parsing_reads_the_text(origin: Origin, other: Origin)
    requires
        origin.source == other.source,
    ensures
        parser::parse_result(origin) is Ok <==> parser::parse_result(other) is Ok,
        parser::parse_result(origin) matches Err(error) ==> parser::parse_result(other) == Err::<
            NodeView,
            ErrorView,
        >(error),
        match stream::yaml_events(origin.source) {
            Ok(list) => {
                &&& parser::parse_result(origin) is Ok <==> list.len() > 1
                    && list[1].0 is DocumentStart
                &&& parser::parse_result(origin) matches Ok(root) ==> Some(root) == tree::document(
                    origin,
                    list,
                )
            },
            Err(failure) => parser::parse_result(origin) == Err::<NodeView, ErrorView>(
                ErrorView::ParseError { message: failure.message, location: Some(failure.marker) },
            ),
        },
{
}

/// The text of a file is all of it, and each of its places leads to the file of that name, at
/// the same offsets.
pub proof fn law_file_holds_its_text(
    content: Seq<char>,
    filename: Seq<char>,
    start: int,
    end: int,
)
    ensures
        ({
            let origin = parser::file_origin(content, filename);
            &&& origin.source == content
            &&& origin.parent matches Some(whole) && whole.length() == text::byte_len(content)
                && source_info::absolute_start(whole) == Some((parser::filename_id(filename), 0int))
            &&& source_info::absolute_start(origin.span(start, end)) == Some(
                (parser::filename_id(filename), start),
            )
            &&& origin.span(start, end).length() == end - start
        }),
{
    reveal_with_fuel(source_info::absolute_start, 2);
}

/// Looking a text up in a mapping gives the value of the first entry that has the text for its
/// key, and nothing where there is no such entry.
pub proof fn law_lookup_finds_the_first(node: NodeView, key: Seq<char>)
    ensures
        match (node.children, node::hash_value(node, key)) {
            (ChildrenView::Entries(entries), Some(value)) => exists|i: int|
                {
                    &&& 0 <= i < entries.len()
                    &&& (#[trigger] entries[i]).key.yaml == YamlView::String(key)
                    &&& entries[i].value == value
                    &&& forall|j: int|
                        0 <= j < i ==> (#[trigger] entries[j]).key.yaml != YamlView::String(key)
                },
            (ChildrenView::Entries(entries), None) => forall|i: int|
                0 <= i < entries.len() ==> (#[trigger] entries[i]).key.yaml != YamlView::String(key),
            (_, found) => found is None,
        },
{
    if let ChildrenView::Entries(entries) = node.children {
        let i = node::entry_index(entries, key, 0);
        lemma_entry_index(entries, key, 0);
        if i < entries.len() {
            assert(entries[i].key.yaml == YamlView::String(key));
        }
    }
}

proof fn lemma_entry_index(entries: Seq<EntryView>, key: Seq<char>, i: int)
    requires
        0 <= i <= entries.len(),
    ensures
        ({
            let found = node::entry_index(entries, key, i);
            &&& i <= found <= entries.len()
            &&& forall|j: int|
                i <= j < found ==> (#[trigger] entries[j]).key.yaml != YamlView::String(key)
            &&& found < entries.len() ==> entries[found].key.yaml == YamlView::String(key)
        }),
    decreases entries.len() - i,
{
    if i < entries.len() && entries[i].key.yaml != YamlView::String(key) {
        lemma_entry_index(entries, key, i + 1);
    }
}

/// A node counts its items or its entries. A scalar has none.
pub proof fn law_node_counts_its_parts(node: NodeView)
    ensures
        node.len() == match node.children {
            ChildrenView::Leaf => 0nat,
            ChildrenView::Items(items) => items.len(),
            ChildrenView::Entries(entries) => entries.len(),
        },
{
}

/// Two texts together are as long as both, and a range is as long as its offsets are apart.
pub proof fn law_lengths_add_up(a: SourceView, b: SourceView)
    ensures
        a.combine(b).length() == a.length() + b.length(),
        a.combine(b).start_offset() == 0,
        a.length() == a.end_offset() - a.start_offset(),
{
    let pieces = seq![(a, a.length()), (b, b.length())];
    assert(pieces.drop_last() =~= seq![(a, a.length())]);
    assert(seq![(a, a.length())].drop_last() =~= Seq::empty());
    reveal_with_fuel(source_info::pieces_length, 3);
}

/// One range from the start of one to the end of another is a range of what both are ranges of.
/// Where they are ranges of nothing in common, both stand one after the other.
pub proof fn law_contiguous_span(start: SourceView, end: SourceView)
    ensures
        match (start, end) {
            (
                SourceView::Original { file_id, start: from, .. },
                SourceView::Original { end: to, .. },
            ) => tree::contiguous_span(start, end) == (SourceView::Original {
                file_id,
                start: from,
                end: to,
            }),
            (
                SourceView::Substring { parent, start: from, .. },
                SourceView::Substring { end: to, .. },
            ) => tree::contiguous_span(start, end) == (SourceView::Substring {
                parent,
                start: from,
                end: to,
            }),
            _ => {
                let span = tree::contiguous_span(start, end);
                &&& span.length() == start.length() + end.length()
                &&& span matches SourceView::Concat { pieces } && pieces.len() == 2
                    && pieces[0].0 == start && pieces[1].0 == end
            },
        },
{
    law_lengths_add_up(start, end);
}

/// A quoted scalar that is not opened where it should stand, or not closed, is taken to be as
/// long as its value.
pub proof fn law_scalar_without_quotes_falls_back_on_its_value(
    source: Seq<char>,
    marker: Marker,
    value: Seq<char>,
    style: ScalarStyle,
    quote: u8,
)
    requires
        style is SingleQuoted && quote == 0x27 || style is DoubleQuoted && quote == 0x22,
        forall|units: Seq<Seq<u8>>, len: int|
            !(#[trigger] extent_laws::is_quoted(
                vstd::utf8::encode_utf8(source),
                source_text::byte_position(source, marker) as int,
                quote,
                units,
                len,
            )),
    ensures
        tree::measured_len(source, marker, value, style) == text::byte_len(value),
        tree::scalar_end(source, marker, value, style) == source_text::clip(
            source,
            source_text::char_position(source, marker),
            text::byte_len(value),
        ),
{
    let bytes = vstd::utf8::encode_utf8(source);
    let offset = source_text::byte_position(source, marker) as int;
    extent_laws::law_measured_scalar_is_quoted(bytes, offset, quote);
}

} // verus!
