//! Building the tree of a document, one event after the other.

use crate::error::{Error, ErrorView};
use crate::event;
use crate::event::{Event, EventView, ScalarStyle, Tag, TagView};
use crate::extent;
use crate::extent::{block_len_at, indicator_before, plain_len_at, quoted_len_at, tag_range_before};
use crate::laws;
use crate::node;
use crate::node::{NodeView, YamlHashEntry, YamlWithSourceInfo};
use crate::scalar::resolve_scalar;
use crate::source_info::{FileId, SourceInfo, SourceView};
use crate::source_text;
use crate::source_text::{Marker, SourceText};
use crate::text;
use crate::text::str_len;
use crate::tree;
use crate::tree::Origin;
use crate::yaml;
use crate::yaml::{insert_into_hash, Yaml};
use vstd::prelude::*;

verus! {

/// A collection that is not complete yet.
pub enum BuildNode {
    /// A sequence, with the items that it has so far.
    Sequence {
        /// Where it starts.
        start_marker: Marker,
        /// Its tag.
        tag: Option<Tag>,
        /// The items so far.
        items: Vec<YamlWithSourceInfo>,
    },
    /// A mapping, with the entries that it has so far. The value of the last one may
    /// still be missing.
    Mapping {
        /// Where it starts.
        start_marker: Marker,
        /// Its tag.
        tag: Option<Tag>,
        /// The keys and values so far.
        entries: Vec<(YamlWithSourceInfo, Option<YamlWithSourceInfo>)>,
    },
}

/// What a collection that is not complete yet holds.
pub enum FrameView {
    Sequence { start: Marker, tag: Option<TagView>, items: Seq<NodeView> },
    Mapping { start: Marker, tag: Option<TagView>, entries: Seq<(NodeView, Option<NodeView>)> },
}

/// The view of a value that may be missing.
pub open spec fn value_view(value: Option<YamlWithSourceInfo>) -> Option<NodeView> {
    match value {
        Some(v) => Some(v@),
        None => None,
    }
}

/// The keys and values of a mapping that is not complete yet.
pub open spec fn partial_views(
    entries: Seq<(YamlWithSourceInfo, Option<YamlWithSourceInfo>)>,
) -> Seq<(NodeView, Option<NodeView>)> {
    Seq::new(entries.len(), |i: int| (entries[i].0@, value_view(entries[i].1)))
}

impl View for BuildNode {
    type V = FrameView;

    open spec fn view(&self) -> FrameView {
        match self {
            BuildNode::Sequence { start_marker, tag, items } => FrameView::Sequence {
                start: *start_marker,
                tag: event::tag_view(*tag),
                items: node::node_views(items@),
            },
            BuildNode::Mapping { start_marker, tag, entries } => FrameView::Mapping {
                start: *start_marker,
                tag: event::tag_view(*tag),
                entries: partial_views(entries@),
            },
        }
    }
}

/// How far a tree is built: the collections that are open, outermost first, and the
/// root, once it is complete.
pub struct BuilderView {
    pub stack: Seq<FrameView>,
    pub root: Option<NodeView>,
}

/// Whether every key has its value.
pub open spec fn all_complete(entries: Seq<(NodeView, Option<NodeView>)>) -> bool {
    forall|i: int| 0 <= i < entries.len() ==> (#[trigger] entries[i]).1 is Some
}

/// The keys and values of a complete mapping.
pub open spec fn complete_pairs(entries: Seq<(NodeView, Option<NodeView>)>) -> Seq<
    (NodeView, NodeView),
> {
    Seq::new(entries.len(), |i: int| (entries[i].0, entries[i].1->0))
}

/// A collection with one more node: an item, a key, or the value of the last key.
pub open spec fn frame_with(frame: FrameView, node: NodeView) -> FrameView {
    match frame {
        FrameView::Sequence { start, tag, items } => FrameView::Sequence {
            start,
            tag,
            items: items.push(node),
        },
        FrameView::Mapping { start, tag, entries } => FrameView::Mapping {
            start,
            tag,
            entries: if entries.len() > 0 && entries.last().1 is None {
                entries.drop_last().push((entries.last().0, Some(node)))
            } else {
                entries.push((node, None))
            },
        },
    }
}

impl BuilderView {
    /// Before any event.
    pub open spec fn empty() -> BuilderView {
        BuilderView { stack: Seq::empty(), root: None }
    }

    /// With a complete node added to the innermost open collection. Outside of any
    /// collection it is the root.
    pub open spec fn with_node(self, node: NodeView) -> BuilderView {
        if self.stack.len() == 0 {
            BuilderView { stack: self.stack, root: Some(node) }
        } else {
            self.without_frame().with_frame(frame_with(self.stack.last(), node))
        }
    }

    /// With one more collection open.
    pub open spec fn with_frame(self, frame: FrameView) -> BuilderView {
        BuilderView { stack: self.stack.push(frame), root: self.root }
    }

    /// Without the innermost open collection.
    pub open spec fn without_frame(self) -> BuilderView {
        BuilderView { stack: self.stack.drop_last(), root: self.root }
    }

    /// Whether the event can come next: a collection ends only where one of its kind
    /// is open, and a mapping only after a value.
    pub open spec fn accepts(self, event: EventView) -> bool {
        match event {
            EventView::SequenceEnd => self.stack.len() > 0 && self.stack.last() is Sequence,
            EventView::MappingEnd => self.stack.len() > 0 && match self.stack.last() {
                FrameView::Mapping { entries, .. } => all_complete(entries),
                FrameView::Sequence { .. } => false,
            },
            _ => true,
        }
    }

    /// After one more event.
    pub open spec fn step(self, origin: Origin, event: EventView, marker: Marker) -> BuilderView {
        match event {
            EventView::Scalar { value, style, tag } => self.with_node(
                tree::scalar_at(origin, marker, value, style, tag),
            ),
            EventView::Alias => self.with_node(tree::alias_at(origin, marker)),
            EventView::SequenceStart { tag } => self.with_frame(
                FrameView::Sequence { start: marker, tag, items: Seq::empty() },
            ),
            EventView::MappingStart { tag } => self.with_frame(
                FrameView::Mapping { start: marker, tag, entries: Seq::empty() },
            ),
            EventView::SequenceEnd => match self.stack.last() {
                FrameView::Sequence { start, tag, items } => self.without_frame().with_node(
                    tree::sequence_between(origin, start, tag, marker, items),
                ),
                FrameView::Mapping { .. } => self,
            },
            EventView::MappingEnd => match self.stack.last() {
                FrameView::Mapping { start, tag, entries } => self.without_frame().with_node(
                    tree::mapping_between(origin, start, tag, marker, complete_pairs(entries)),
                ),
                FrameView::Sequence { .. } => self,
            },
            _ => self,
        }
    }
}

/// Whether one range can be drawn from the start of `start` to the end of `end`:
/// ranges of files are of one file, and what has to be put together has a length.
pub open spec fn can_span(start: SourceView, end: SourceView) -> bool {
    match (start, end) {
        (
            SourceView::Original { file_id: first, .. },
            SourceView::Original { file_id: last, .. },
        ) => first == last,
        (SourceView::Substring { .. }, SourceView::Substring { .. }) => true,
        _ => start.has_length() && end.has_length(),
    }
}

/// The range from the start of `start_info` to the end of `end_info`.
pub fn create_contiguous_span(start_info: &SourceInfo, end_info: &SourceInfo) -> (span: SourceInfo)
    requires
        can_span(start_info@, end_info@),
    ensures
        span@ == tree::contiguous_span(start_info@, end_info@),
{
    match (start_info, end_info) {
        (
            SourceInfo::Original { file_id, start_offset, .. },
            SourceInfo::Original { end_offset, .. },
        ) => SourceInfo::original(*file_id, *start_offset, *end_offset),
        (
            SourceInfo::Substring { parent, start_offset, .. },
            SourceInfo::Substring { end_offset, .. },
        ) => SourceInfo::substring((&**parent).clone(), *start_offset, *end_offset),
        _ => start_info.combine(end_info),
    }
}

/// The collections that are open.
pub open spec fn frame_views(stack: Seq<BuildNode>) -> Seq<FrameView> {
    Seq::new(stack.len(), |i: int| stack[i]@)
}

/// Whether the key and the value, if it is there, stand in the text.
pub open spec fn owns_entry(origin: Origin, entry: (NodeView, Option<NodeView>)) -> bool {
    origin.owns(entry.0.span) && (entry.1 matches Some(value) ==> origin.owns(value.span))
}

/// Whether all keys and values stand in the text.
pub open spec fn owns_entries(origin: Origin, entries: Seq<(NodeView, Option<NodeView>)>) -> bool {
    forall|i: int| 0 <= i < entries.len() ==> owns_entry(origin, #[trigger] entries[i])
}

/// Whether the keys and values of an open mapping stand in the text.
pub open spec fn owns_frame(origin: Origin, frame: FrameView) -> bool {
    match frame {
        FrameView::Sequence { .. } => true,
        FrameView::Mapping { entries, .. } => owns_entries(origin, entries),
    }
}

/// Builds the tree of a document from the events of its stream.
pub struct YamlBuilder<'a> {
    source: &'a str,
    text: SourceText,
    parent: Option<SourceInfo>,
    stack: Vec<BuildNode>,
    root: Option<YamlWithSourceInfo>,
}

impl<'a> View for YamlBuilder<'a> {
    type V = BuilderView;

    closed spec fn view(&self) -> BuilderView {
        BuilderView { stack: frame_views(self.stack@), root: value_view(self.root) }
    }
}

impl<'a> YamlBuilder<'a> {
    /// The text that is parsed, and where it comes from.
    pub closed spec fn origin(self) -> Origin {
        origin_of(self.source@, self.parent)
    }

    /// The text is indexed, and the keys and values of open mappings stand in it.
    pub closed spec fn wf(self) -> bool {
        &&& self.text.wf()
        &&& self.text@ == self.source@
        &&& forall|i: int|
            0 <= i < self@.stack.len() ==> owns_frame(self.origin(), #[trigger] self@.stack[i])
    }

    /// A builder that has seen no event.
    pub fn new(source: &'a str, parent: Option<SourceInfo>) -> (builder: Self)
        ensures
            builder.wf(),
            builder@ == BuilderView::empty(),
            builder.origin() == origin_of(source@, parent),
    {
        let builder = YamlBuilder {
            source,
            text: SourceText::new(source),
            parent,
            stack: Vec::new(),
            root: None,
        };
        assert(builder@.stack =~= Seq::empty());
        builder
    }

    /// The tree. There is an error where the stream held no document.
    pub fn result(self) -> (result: Result<YamlWithSourceInfo, Error>)
        ensures
            match result {
                Ok(node) => self@.root == Some(node@),
                Err(error) => self@.root is None && error@ == no_document(),
            },
    {
        match self.root {
            Some(node) => Ok(node),
            None => Err(
                Error::ParseError {
                    message: "No YAML document found".to_string(),
                    location: None,
                },
            ),
        }
    }

    /// Adds a complete node to the innermost open collection. Outside of any
    /// collection it is the root.
    pub fn push_complete(&mut self, node: YamlWithSourceInfo)
        requires
            old(self).wf(),
            old(self).origin().owns(node@.span),
        ensures
            final(self).wf(),
            final(self).origin() == old(self).origin(),
            final(self)@ == old(self)@.with_node(node@),
    {
        let ghost before = self@;
        let ghost origin = self.origin();
        match self.stack.pop() {
            None => {
                self.root = Some(node);
                assert(self@.stack =~= before.stack);
            },
            Some(BuildNode::Sequence { start_marker, tag, mut items }) => {
                let ghost seen = node::node_views(items@);
                let ghost frame = FrameView::Sequence {
                    start: start_marker,
                    tag: event::tag_view(tag),
                    items: seen,
                };
                assert(before.stack.last() == frame);
                items.push(node);
                assert(node::node_views(items@) =~= seen.push(node@));
                self.stack.push(BuildNode::Sequence { start_marker, tag, items });
                assert(self@.stack =~= before.stack.drop_last().push(frame_with(frame, node@)));
            },
            Some(BuildNode::Mapping { start_marker, tag, mut entries }) => {
                let ghost seen = partial_views(entries@);
                let ghost frame = FrameView::Mapping {
                    start: start_marker,
                    tag: event::tag_view(tag),
                    entries: seen,
                };
                assert(before.stack.last() == frame);
                assert(owns_frame(origin, before.stack[before.stack.len() - 1]));
                match entries.pop() {
                    Some((key, None)) => {
                        assert(seen.last() == (key@, None::<NodeView>));
                        assert(owns_entry(origin, seen[seen.len() - 1]));
                        entries.push((key, Some(node)));
                        assert(partial_views(entries@) =~= seen.drop_last().push(
                            (key@, Some(node@)),
                        ));
                    },
                    Some((key, Some(value))) => {
                        assert(seen.last() == (key@, Some(value@)));
                        entries.push((key, Some(value)));
                        entries.push((node, None));
                        assert(partial_views(entries@) =~= seen.push((node@, None)));
                    },
                    None => {
                        entries.push((node, None));
                        assert(partial_views(entries@) =~= seen.push((node@, None)));
                    },
                }
                assert(frame_with(frame, node@) == (FrameView::Mapping {
                    start: start_marker,
                    tag: event::tag_view(tag),
                    entries: partial_views(entries@),
                }));
                let ghost grown = partial_views(entries@);
                assert forall|i: int| 0 <= i < grown.len() implies owns_entry(
                    origin,
                    #[trigger] grown[i],
                ) by {
                    if i < seen.len() {
                        assert(owns_entry(origin, seen[i]));
                    }
                }
                self.stack.push(BuildNode::Mapping { start_marker, tag, entries });
                assert(self@.stack =~= before.stack.drop_last().push(frame_with(frame, node@)));
            },
        }
        assert forall|i: int| 0 <= i < self@.stack.len() implies owns_frame(
            self.origin(),
            #[trigger] self@.stack[i],
        ) by {
            if i < before.stack.len() - 1 {
                assert(self@.stack[i] == before.stack[i]);
            }
        }
    }

    /// The bytes from `start_offset` on, `len` of them.
    fn make_source_info_at_offset(&self, start_offset: usize, len: usize) -> (info: SourceInfo)
        requires
            start_offset + len <= usize::MAX,
        ensures
            info@ == self.origin().span(start_offset as int, start_offset + len),
            self.origin().owns(info@),
    {
        let end_offset: usize = start_offset + len;
        match &self.parent {
            Some(parent) => SourceInfo::substring(parent.clone(), start_offset, end_offset),
            None => SourceInfo::original(FileId(0), start_offset, end_offset),
        }
    }

    /// The bytes from a marker on, `len` of them.
    fn make_source_info(&self, marker: &Marker, len: usize) -> (info: SourceInfo)
        requires
            self.wf(),
            self.origin().offset(*marker) + len <= usize::MAX,
        ensures
            info@ == self.origin().span(
                self.origin().offset(*marker),
                self.origin().offset(*marker) + len,
            ),
            self.origin().owns(info@),
    {
        self.make_source_info_at_offset(self.byte_offset(marker), len)
    }

    /// The byte offset that a marker points at.
    fn byte_offset(&self, marker: &Marker) -> (offset: usize)
        requires
            self.wf(),
        ensures
            offset == self.origin().offset(*marker),
    {
        self.text.offset(self.text.position(marker))
    }

    /// The bytes of a tag, from `tag_start_offset` on.
    fn make_tag_source_info(&self, tag_start_offset: usize, tag_len: usize) -> (info: SourceInfo)
        requires
            tag_start_offset + tag_len <= usize::MAX,
        ensures
            info@ == self.origin().span(tag_start_offset as int, tag_start_offset + tag_len),
            self.origin().owns(info@),
    {
        self.make_source_info_at_offset(tag_start_offset, tag_len)
    }

    /// How many bytes of source a scalar occupies.
    ///
    /// The extent is measured against the source in the way that the style asks for,
    /// and cut off at the end of the source. A quoted scalar counts with its quotes.
    fn compute_scalar_len(&self, marker: &Marker, value: &str, style: ScalarStyle) -> (len: usize)
        requires
            self.wf(),
        ensures
            self.origin().offset(*marker) + len == text::byte_len(
                self.origin().source.take(
                    tree::scalar_end(self.origin().source, *marker, value@, style),
                ),
            ),
            self.origin().offset(*marker) + len <= usize::MAX,
    {
        let start: usize = self.text.position(marker);
        let bytes = self.source.as_bytes();
        let offset: usize = self.text.offset(start);
        let measured: usize = match style {
            ScalarStyle::Plain => plain_len_at(&self.text, start, value),
            ScalarStyle::SingleQuoted => match quoted_len_at(bytes, offset, 0x27) {
                Some(len) => len,
                None => str_len(value),
            },
            ScalarStyle::DoubleQuoted => match quoted_len_at(bytes, offset, 0x22) {
                Some(len) => len,
                None => str_len(value),
            },
            ScalarStyle::Literal => block_len_at(&self.text, start, marker.col),
            ScalarStyle::Folded => block_len_at(&self.text, start, marker.col),
        };
        let end: usize = self.text.clip_from(start, measured);
        proof {
            text::lemma_byte_len_range(self.text@, start as int, end as int);
        }
        self.text.offset(end) - offset
    }

    /// Where the tag stands that precedes the node at `at`: its byte offset and its length.
    ///
    /// The spelling of a tag in the source cannot be told from the tag. So the tokens before
    /// the node are looked at: the tag is the one that starts with `!`, and only an anchor
    /// may stand between it and the node.
    fn find_tag_span(&self, at: usize) -> (found: Option<(usize, usize)>)
        requires
            self.wf(),
            at <= self.origin().source.len(),
        ensures
            match found {
                Some((offset, len)) => {
                    let s = self.origin().source;
                    &&& extent::tag_range(s, at as int) matches Some((start, end))
                    &&& offset == text::byte_len(s.take(start))
                    &&& offset + len == text::byte_len(s.take(end))
                    &&& offset + len <= usize::MAX
                },
                None => extent::tag_range(self.origin().source, at as int) is None,
            },
    {
        match tag_range_before(&self.text, at) {
            Some((start, end)) => {
                proof {
                    text::lemma_byte_len_range(self.text@, start as int, end as int);
                }
                Some((self.text.offset(start), self.text.offset(end) - self.text.offset(start)))
            },
            None => None,
        }
    }

    /// Where the tag of the node at `at` stands. A tag that is not found before the node is
    /// taken to stand at the node, with the length of its suffix and a `!`, as far as
    /// the source goes.
    fn locate_tag(&self, at: usize, tag: &Tag) -> (info: SourceInfo)
        requires
            self.wf(),
            at <= self.origin().source.len(),
        ensures
            info@ == tree::tag_span(self.origin(), at as int, tag.suffix@),
    {
        match self.find_tag_span(at) {
            Some((offset, len)) => self.make_tag_source_info(offset, len),
            None => {
                let suffix: usize = str_len(tag.suffix.as_str());
                let total: usize = str_len(self.source);
                let end: usize = if suffix < total {
                    self.text.clip_from(at, 1 + suffix)
                } else {
                    self.text.len()
                };
                proof {
                    let len = self.text@.len() as int;
                    text::lemma_byte_len_range(self.text@, at as int, len);
                    if suffix >= total {
                        source_text::lemma_clip_beyond(self.text@, at as int, 1 + suffix as nat);
                    }
                    text::lemma_byte_len_range(self.text@, at as int, end as int);
                }
                let offset: usize = self.text.offset(at);
                self.make_tag_source_info(offset, self.text.offset(end) - offset)
            },
        }
    }

    /// The suffix of the tag of the node at `at`, and where the tag stands.
    fn make_tag_info(&self, at: usize, tag: &Option<Tag>) -> (info: Option<(String, SourceInfo)>)
        requires
            self.wf(),
            at <= self.origin().source.len(),
        ensures
            node::node_tag_view(info) == tree::located_tag(
                self.origin(),
                at as int,
                event::tag_view(*tag),
            ),
    {
        match tag {
            Some(t) => Some((t.suffix.clone(), self.locate_tag(at, t))),
            None => None,
        }
    }

    /// The node of a scalar.
    fn build_scalar(
        &self,
        value: &str,
        style: ScalarStyle,
        tag: &Option<Tag>,
        marker: &Marker,
    ) -> (node: YamlWithSourceInfo)
        requires
            self.wf(),
        ensures
            node@ == tree::scalar_at(
                self.origin(),
                *marker,
                value@,
                style,
                event::tag_view(*tag),
            ),
            self.origin().owns(node@.span),
    {
        let tag_info = self.make_tag_info(self.text.position(marker), tag);
        let len: usize = self.compute_scalar_len(marker, value, style);
        let source_info = self.make_source_info(marker, len);
        let yaml = resolve_scalar(value, style, tag.as_ref());
        YamlWithSourceInfo::new_scalar_with_tag(yaml, source_info, tag_info)
    }

    /// The node of a sequence that ends at `marker`.
    fn build_sequence(
        &self,
        start_marker: &Marker,
        tag: &Option<Tag>,
        items: Vec<YamlWithSourceInfo>,
        marker: &Marker,
    ) -> (node: YamlWithSourceInfo)
        requires
            self.wf(),
        ensures
            node@ == tree::sequence_between(
                self.origin(),
                *start_marker,
                event::tag_view(*tag),
                *marker,
                node::node_views(items@),
            ),
            self.origin().owns(node@.span),
    {
        let start: usize = self.byte_offset(start_marker);
        let end: usize = self.byte_offset(marker);
        let len: usize = if start < end { end - start } else { 0 };
        let source_info = self.make_source_info(start_marker, len);
        let mut yaml_items: Vec<Yaml> = Vec::new();
        let mut i: usize = 0;
        while i < items.len()
            invariant
                i <= items@.len(),
                yaml_items@.len() == i,
                forall|j: int| 0 <= j < i ==> (#[trigger] yaml_items@[j])@ == items@[j].yaml@,
            decreases items.len() - i,
        {
            yaml_items.push(items[i].yaml.clone());
            i += 1;
        }
        proof {
            let views = node::node_views(items@);
            yaml::lemma_array_view(yaml_items);
            assert(yaml::item_views(yaml_items@) =~= Seq::new(
                views.len(),
                |i: int| views[i].yaml,
            ));
        }
        let at: usize = indicator_before(&self.text, self.text.position(start_marker));
        let tag_info = self.make_tag_info(at, tag);
        let node = YamlWithSourceInfo::new_array(Yaml::Array(yaml_items), source_info, items);
        node.with_tag(tag_info)
    }

    /// The node of a mapping that ends at `marker`.
    fn build_mapping(
        &self,
        start_marker: &Marker,
        tag: &Option<Tag>,
        entries: Vec<(YamlWithSourceInfo, Option<YamlWithSourceInfo>)>,
        marker: &Marker,
    ) -> (node: YamlWithSourceInfo)
        requires
            self.wf(),
            all_complete(partial_views(entries@)),
            owns_entries(self.origin(), partial_views(entries@)),
        ensures
            node@ == tree::mapping_between(
                self.origin(),
                *start_marker,
                event::tag_view(*tag),
                *marker,
                complete_pairs(partial_views(entries@)),
            ),
            self.origin().owns(node@.span),
    {
        let ghost pairs = complete_pairs(partial_views(entries@));
        let mut hash_entries: Vec<YamlHashEntry> = Vec::new();
        let mut hash: Vec<(Yaml, Yaml)> = Vec::new();
        assert(yaml::pair_views(hash@) =~= Seq::empty());
        assert(tree::yaml_pairs(pairs.take(0)) =~= Seq::empty());
        for entry in it: entries
            invariant
                it.seq() == entries@,
                pairs == complete_pairs(partial_views(entries@)),
                all_complete(partial_views(entries@)),
                owns_entries(self.origin(), partial_views(entries@)),
                hash_entries@.len() == it.index(),
                forall|j: int|
                    0 <= j < it.index() ==> (#[trigger] hash_entries@[j])@ == tree::entry_of(
                        pairs[j].0,
                        pairs[j].1,
                    ),
                yaml::pair_views(hash@) == yaml::collect_pairs(
                    tree::yaml_pairs(pairs.take(it.index() as int)),
                ),
                yaml::distinct_keys(yaml::pair_views(hash@)),
        {
            let ghost i = it.index() as int;
            let ghost partial = partial_views(entries@)[i];
            assert(partial == (entry.0@, value_view(entry.1)));
            assert(partial.1 is Some);
            assert(owns_entry(self.origin(), partial));
            if let (key, Some(value)) = entry {
                assert(pairs[i] == (key@, value@));
                let key_span = key.source_info.clone();
                let value_span = value.source_info.clone();
                let entry_span = create_contiguous_span(&key_span, &value_span);
                insert_into_hash(&mut hash, key.yaml.clone(), value.yaml.clone());
                proof {
                    let done = tree::yaml_pairs(pairs.take(i + 1));
                    assert(done.drop_last() =~= tree::yaml_pairs(pairs.take(i)));
                    assert(done.last() == (key@.yaml, value@.yaml));
                }
                hash_entries.push(YamlHashEntry::new(key, value, key_span, value_span, entry_span));
            }
        }
        assert(pairs.take(pairs.len() as int) =~= pairs);
        assert(node::entry_views(hash_entries@) =~= tree::entries_of(pairs));
        let end: usize = self.byte_offset(marker);
        let mut tag_offset: usize = self.byte_offset(start_marker);
        let source_info = if hash_entries.len() > 0 {
            let start: usize = hash_entries[0].key.source_info.start_offset();
            assert(hash_entries@[0]@.key == pairs[0].0);
            let first: usize = hash_entries[0].key.first_offset();
            if first < tag_offset {
                tag_offset = first;
            }
            let len: usize = if start < end { end - start } else { 0 };
            self.make_source_info_at_offset(start, len)
        } else {
            let start: usize = self.byte_offset(start_marker);
            let len: usize = if start < end { end - start } else { 0 };
            self.make_source_info(start_marker, len)
        };
        proof {
            yaml::lemma_hash_view(hash);
        }
        let tag_info = self.make_tag_info(self.text.index_at(tag_offset), tag);
        let node = YamlWithSourceInfo::new_hash(Yaml::Hash(hash), source_info, hash_entries);
        node.with_tag(tag_info)
    }

    /// Takes in one event.
    ///
    /// A scalar is a complete node. A collection is opened by its first event and is a
    /// complete node with its last one. An alias stands for null.
    pub fn on_event(&mut self, ev: Event, marker: Marker)
        requires
            old(self).wf(),
            old(self)@.accepts(ev@),
        ensures
            final(self).wf(),
            final(self).origin() == old(self).origin(),
            final(self)@ == old(self)@.step(old(self).origin(), ev@, marker),
    {
        let ghost before = self@;
        match ev {
            Event::Scalar(value, style, tag) => {
                let node = self.build_scalar(value.as_str(), style, &tag, &marker);
                self.push_complete(node);
            },
            Event::SequenceStart(tag) => {
                let ghost tag_view = event::tag_view(tag);
                self.stack.push(
                    BuildNode::Sequence { start_marker: marker, tag, items: Vec::new() },
                );
                proof {
                    let frame = FrameView::Sequence {
                        start: marker,
                        tag: tag_view,
                        items: Seq::empty(),
                    };
                    assert(node::node_views(Seq::empty()) =~= Seq::<NodeView>::empty());
                    assert(self@.stack =~= before.stack.push(frame));
                }
            },
            Event::SequenceEnd => {
                assert(self.stack@.last()@ == before.stack.last());
                if let Some(BuildNode::Sequence { start_marker, tag, items }) = self.stack.pop() {
                    assert(self@.stack =~= before.stack.drop_last());
                    assert(self.wf());
                    let node = self.build_sequence(&start_marker, &tag, items, &marker);
                    self.push_complete(node);
                }
            },
            Event::MappingStart(tag) => {
                let ghost tag_view = event::tag_view(tag);
                self.stack.push(
                    BuildNode::Mapping { start_marker: marker, tag, entries: Vec::new() },
                );
                proof {
                    let frame = FrameView::Mapping {
                        start: marker,
                        tag: tag_view,
                        entries: Seq::empty(),
                    };
                    assert(partial_views(Seq::empty()) =~= Seq::<
                        (NodeView, Option<NodeView>),
                    >::empty());
                    assert(self@.stack =~= before.stack.push(frame));
                }
            },
            Event::MappingEnd => {
                assert(self.stack@.last()@ == before.stack.last());
                assert(owns_frame(self.origin(), before.stack[before.stack.len() - 1]));
                if let Some(BuildNode::Mapping { start_marker, tag, entries }) = self.stack.pop() {
                    assert(self@.stack =~= before.stack.drop_last());
                    assert(self.wf());
                    let node = self.build_mapping(&start_marker, &tag, entries, &marker);
                    self.push_complete(node);
                }
            },
            Event::Alias => {
                let source_info = self.make_source_info_at_offset(self.byte_offset(&marker), 0);
                self.push_complete(YamlWithSourceInfo::new_scalar(Yaml::Null, source_info));
            },
            _ => {},
        }
    }
}

/// After the events from `i` to `n`, if each of them can come where it comes.
pub open spec fn run(
    origin: Origin,
    state: BuilderView,
    events: Seq<(EventView, Marker)>,
    i: int,
    n: int,
) -> Option<BuilderView>
    decreases n - i,
{
    if i >= n {
        Some(state)
    } else if state.accepts(events[i].0) {
        run(origin, state.step(origin, events[i].0, events[i].1), events, i + 1, n)
    } else {
        None
    }
}

proof fn lemma_run_split(
    origin: Origin,
    state: BuilderView,
    events: Seq<(EventView, Marker)>,
    i: int,
    m: int,
    n: int,
)
    requires
        i <= m <= n,
        run(origin, state, events, i, m) is Some,
    ensures
        run(origin, state, events, i, n) == run(
            origin,
            run(origin, state, events, i, m)->0,
            events,
            m,
            n,
        ),
    decreases m - i,
{
    if i < m {
        lemma_run_split(
            origin,
            state.step(origin, events[i].0, events[i].1),
            events,
            i + 1,
            m,
            n,
        );
    }
}

/// The entries of a mapping whose keys all have their values.
pub open spec fn completed(pairs: Seq<(NodeView, NodeView)>) -> Seq<
    (NodeView, Option<NodeView>),
> {
    Seq::new(pairs.len(), |i: int| (pairs[i].0, Some(pairs[i].1)))
}

/// The events of a node add that node, whatever is open around it.
proof fn lemma_run_node(
    origin: Origin,
    state: BuilderView,
    events: Seq<(EventView, Marker)>,
    i: int,
    n: int,
)
    requires
        tree::node_end(events, i) == Some(n),
    ensures
        i < n <= events.len(),
        run(origin, state, events, i, n) == Some(
            state.with_node(tree::node_at(origin, events, i)),
        ),
    decreases events.len() - i, 0int,
{
    let (event, marker) = events[i];
    let opened = state.step(origin, event, marker);
    match event {
        EventView::SequenceStart { tag } => {
            let end = n - 1;
            lemma_run_items(origin, state, events, i + 1, end, marker, tag, Seq::empty());
            let items = tree::items_at(origin, events, i + 1);
            assert(Seq::<NodeView>::empty() + items =~= items);
            let filled = state.with_frame(FrameView::Sequence { start: marker, tag, items });
            assert(run(origin, opened, events, i + 1, end) == Some(filled));
            assert(run(origin, state, events, i, end) == Some(filled));
            lemma_run_split(origin, state, events, i, end, n);
            assert(filled.without_frame().stack =~= state.stack);
            assert(run(origin, filled, events, end, n) == run(
                origin,
                filled.step(origin, events[end].0, events[end].1),
                events,
                n,
                n,
            ));
        },
        EventView::MappingStart { tag } => {
            let end = n - 1;
            lemma_run_pairs(origin, state, events, i + 1, end, marker, tag, Seq::empty());
            let pairs = tree::pairs_at(origin, events, i + 1);
            assert(Seq::<(NodeView, NodeView)>::empty() + pairs =~= pairs);
            assert(completed(Seq::empty()) =~= Seq::empty());
            let filled = state.with_frame(
                FrameView::Mapping { start: marker, tag, entries: completed(pairs) },
            );
            assert(run(origin, opened, events, i + 1, end) == Some(filled));
            assert(run(origin, state, events, i, end) == Some(filled));
            lemma_run_split(origin, state, events, i, end, n);
            assert(filled.without_frame().stack =~= state.stack);
            assert(complete_pairs(completed(pairs)) =~= pairs);
            assert(all_complete(completed(pairs)));
            assert(run(origin, filled, events, end, n) == run(
                origin,
                filled.step(origin, events[end].0, events[end].1),
                events,
                n,
                n,
            ));
        },
        _ => {
            assert(run(origin, state, events, i, n) == run(origin, opened, events, i + 1, n));
        },
    }
}

/// The events of a sequence's items add those items to it.
proof fn lemma_run_items(
    origin: Origin,
    state: BuilderView,
    events: Seq<(EventView, Marker)>,
    i: int,
    end: int,
    start: Marker,
    tag: Option<TagView>,
    before: Seq<NodeView>,
)
    requires
        tree::items_end(events, i) == Some(end),
    ensures
        i <= end < events.len(),
        events[end].0 is SequenceEnd,
        run(
            origin,
            state.with_frame(FrameView::Sequence { start, tag, items: before }),
            events,
            i,
            end,
        ) == Some(
            state.with_frame(
                FrameView::Sequence { start, tag, items: before + tree::items_at(origin, events, i) },
            ),
        ),
    decreases events.len() - i, 1int,
{
    let open = state.with_frame(FrameView::Sequence { start, tag, items: before });
    if events[i].0 is SequenceEnd {
        assert(before + tree::items_at(origin, events, i) =~= before);
    } else {
        let next = tree::node_end(events, i)->0;
        let node = tree::node_at(origin, events, i);
        lemma_run_node(origin, open, events, i, next);
        lemma_run_items(origin, state, events, next, end, start, tag, before.push(node));
        lemma_run_split(origin, open, events, i, next, end);
        assert(open.without_frame().stack =~= state.stack);
        assert(open.with_node(node) == state.with_frame(
            FrameView::Sequence { start, tag, items: before.push(node) },
        ));
        assert(before.push(node) + tree::items_at(origin, events, next) =~= before
            + tree::items_at(origin, events, i));
    }
}

/// The events of a mapping's keys and values add those to it.
proof fn lemma_run_pairs(
    origin: Origin,
    state: BuilderView,
    events: Seq<(EventView, Marker)>,
    i: int,
    end: int,
    start: Marker,
    tag: Option<TagView>,
    before: Seq<(NodeView, NodeView)>,
)
    requires
        tree::pairs_end(events, i) == Some(end),
    ensures
        i <= end < events.len(),
        events[end].0 is MappingEnd,
        run(
            origin,
            state.with_frame(FrameView::Mapping { start, tag, entries: completed(before) }),
            events,
            i,
            end,
        ) == Some(
            state.with_frame(
                FrameView::Mapping {
                    start,
                    tag,
                    entries: completed(before + tree::pairs_at(origin, events, i)),
                },
            ),
        ),
    decreases events.len() - i, 1int,
{
    let open = state.with_frame(FrameView::Mapping { start, tag, entries: completed(before) });
    if events[i].0 is MappingEnd {
        assert(before + tree::pairs_at(origin, events, i) =~= before);
    } else {
        let at = tree::node_end(events, i)->0;
        let next = tree::node_end(events, at)->0;
        let key = tree::node_at(origin, events, i);
        let value = tree::node_at(origin, events, at);
        let keyed = state.with_frame(
            FrameView::Mapping { start, tag, entries: completed(before).push((key, None)) },
        );
        let valued = state.with_frame(
            FrameView::Mapping { start, tag, entries: completed(before.push((key, value))) },
        );
        lemma_run_node(origin, open, events, i, at);
        lemma_run_node(origin, keyed, events, at, next);
        lemma_run_pairs(origin, state, events, next, end, start, tag, before.push((key, value)));
        assert(open.without_frame().stack =~= state.stack);
        assert(keyed.without_frame().stack =~= state.stack);
        assert(open.with_node(key) == keyed);
        assert(completed(before).push((key, None)).drop_last() =~= completed(before));
        assert(completed(before).push((key, Some(value))) =~= completed(
            before.push((key, value)),
        ));
        assert(keyed.with_node(value) == valued);
        lemma_run_split(origin, open, events, i, at, end);
        lemma_run_split(origin, keyed, events, at, next, end);
        assert(before.push((key, value)) + tree::pairs_at(origin, events, next) =~= before
            + tree::pairs_at(origin, events, i));
    }
}

/// Taking in the events of a document one after the other gives the document's tree.
pub proof fn law_events_build_the_tree(origin: Origin, events: Seq<(EventView, Marker)>)
    requires
        tree::is_document_stream(events),
    ensures
        run(origin, BuilderView::empty(), events, 0, events.len() as int) == Some(
            BuilderView { stack: Seq::empty(), root: tree::document(origin, events) },
        ),
{
    let empty = BuilderView::empty();
    let len = events.len() as int;
    assert(run(origin, empty, events, 0, len) == run(origin, empty, events, 1, len));
    assert(run(origin, empty, events, 1, len) == run(origin, empty, events, 2, len));
    if events[1].0 is DocumentStart {
        let last = len - 1;
        let built = empty.with_node(tree::node_at(origin, events, 2));
        lemma_run_node(origin, empty, events, 2, last);
        lemma_run_split(origin, empty, events, 2, last, len);
        assert(run(origin, built, events, last, len) == run(origin, built, events, len, len));
    }
}

/// After complete nodes are added, one after the other.
pub open spec fn with_nodes(state: BuilderView, nodes: Seq<NodeView>) -> BuilderView
    decreases nodes.len(),
{
    if nodes.len() == 0 {
        state
    } else {
        with_nodes(state, nodes.drop_last()).with_node(nodes.last())
    }
}

/// Nodes as keys and values in turn. The last key has no value where the nodes are odd in
/// number.
pub open spec fn in_turn(nodes: Seq<NodeView>) -> Seq<(NodeView, Option<NodeView>)> {
    Seq::new(
        (nodes.len() + 1) / 2,
        |i: int|
            (
                nodes[2 * i],
                if 2 * i + 1 < nodes.len() {
                    Some(nodes[2 * i + 1])
                } else {
                    None
                },
            ),
    )
}

/// The nodes that are added to a mapping which was just opened are its keys and values in
/// turn: each is kept, the first, the third and so on as keys, and each other one as the
/// value of the key before it. Every key has its value just where the nodes are even in
/// number. The collections around the mapping and the root stay as they are.
pub proof fn law_nodes_are_keys_and_values_in_turn(
    state: BuilderView,
    start: Marker,
    tag: Option<TagView>,
    nodes: Seq<NodeView>,
)
    ensures
        with_nodes(
            state.with_frame(FrameView::Mapping { start, tag, entries: Seq::empty() }),
            nodes,
        ) == state.with_frame(FrameView::Mapping { start, tag, entries: in_turn(nodes) }),
        all_complete(in_turn(nodes)) <==> nodes.len() % 2 == 0,
    decreases nodes.len(),
{
    let opened = state.with_frame(FrameView::Mapping { start, tag, entries: Seq::empty() });
    let entries = in_turn(nodes);
    if nodes.len() == 0 {
        assert(entries =~= Seq::empty());
    } else {
        let front = nodes.drop_last();
        let before = in_turn(front);
        let open = state.with_frame(FrameView::Mapping { start, tag, entries: before });
        law_nodes_are_keys_and_values_in_turn(state, start, tag, front);
        assert(with_nodes(opened, nodes) == open.with_node(nodes.last()));
        assert(open.without_frame().stack =~= state.stack);
        if nodes.len() % 2 == 0 {
            assert(before.last().1 is None);
            assert(entries =~= before.drop_last().push((before.last().0, Some(nodes.last()))));
        } else {
            assert(before.len() > 0 ==> before.last().1 is Some);
            assert(entries =~= before.push((nodes.last(), None)));
            assert(entries[entries.len() - 1].1 is None);
        }
    }
}

/// The nodes that are added to a sequence which was just opened are its items, in order.
/// The collections around the sequence and the root stay as they are.
pub proof fn law_nodes_are_items_in_order(
    state: BuilderView,
    start: Marker,
    tag: Option<TagView>,
    nodes: Seq<NodeView>,
)
    ensures
        with_nodes(
            state.with_frame(FrameView::Sequence { start, tag, items: Seq::empty() }),
            nodes,
        ) == state.with_frame(FrameView::Sequence { start, tag, items: nodes }),
    decreases nodes.len(),
{
    if nodes.len() == 0 {
        assert(nodes =~= Seq::empty());
    } else {
        let front = nodes.drop_last();
        let open = state.with_frame(FrameView::Sequence { start, tag, items: front });
        law_nodes_are_items_in_order(state, start, tag, front);
        assert(open.without_frame().stack =~= state.stack);
        assert(front.push(nodes.last()) =~= nodes);
    }
}

/// The error of a stream without a document.
pub open spec fn no_document() -> ErrorView {
    ErrorView::ParseError { message: "No YAML document found"@, location: None }
}

/// The text that is parsed, and where it comes from.
pub open spec fn origin_of(source: Seq<char>, parent: Option<SourceInfo>) -> Origin {
    Origin {
        source,
        parent: match parent {
            Some(p) => Some(p@),
            None => None,
        },
    }
}

/// Builds the tree of a document from all the events of its stream.
pub fn build_document(
    content: &str,
    parent: Option<SourceInfo>,
    events: Vec<(Event, Marker)>,
) -> (result: Result<YamlWithSourceInfo, Error>)
    requires
        tree::is_document_stream(event::event_views(events@)),
    ensures
        match result {
            Ok(node) => tree::document(
                origin_of(content@, parent),
                event::event_views(events@),
            ) == Some(node@) && laws::places_hold(origin_of(content@, parent), node@)
                && laws::parallel(node@),
            Err(error) => {
                &&& tree::document(
                    origin_of(content@, parent),
                    event::event_views(events@),
                ) is None
                &&& error@ == no_document()
            },
        },
{
    let mut builder = YamlBuilder::new(content, parent);
    let ghost origin = builder.origin();
    let ghost views = event::event_views(events@);
    let ghost len = views.len() as int;
    proof {
        law_events_build_the_tree(origin, views);
        laws::law_places_stay_in_the_source(origin, views);
        laws::law_values_and_children_agree(origin, views);
    }
    for pair in it: events
        invariant
            builder.wf(),
            builder.origin() == origin,
            it.seq() == events@,
            views == event::event_views(events@),
            len == views.len(),
            run(origin, builder@, views, it.index() as int, len) == Some(
                BuilderView { stack: Seq::empty(), root: tree::document(origin, views) },
            ),
    {
        assert(views[it.index() as int] == (pair.0@, pair.1));
        let (ev, marker) = pair;
        builder.on_event(ev, marker);
    }
    builder.result()
}

} // verus!
