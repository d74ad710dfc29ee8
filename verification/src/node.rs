//! YAML values with the places that they come from.

use crate::source_info::{SourceInfo, SourceView};
use crate::text::str_eq;
use crate::yaml::{Yaml, YamlView};
use vstd::prelude::*;

verus! {

/// A YAML value with the place that it comes from. The items of a sequence and the
/// entries of a mapping have places of their own.
#[derive(Debug)]
pub struct YamlWithSourceInfo {
    /// The value.
    pub yaml: Yaml,
    /// Where the value comes from.
    pub source_info: SourceInfo,
    /// The suffix of the value's tag, and where the tag stands.
    pub tag: Option<(String, SourceInfo)>,
    /// What the value is made of.
    pub children: Children,
}

/// What a value is made of.
#[derive(Debug)]
pub enum Children {
    /// A scalar has no parts.
    Leaf,
    /// The items of a sequence.
    Items(Vec<YamlWithSourceInfo>),
    /// The entries of a mapping.
    Entries(Vec<YamlHashEntry>),
}

/// An entry of a mapping.
#[derive(Debug)]
pub struct YamlHashEntry {
    /// The key.
    pub key: YamlWithSourceInfo,
    /// The value.
    pub value: YamlWithSourceInfo,
    /// Where the key stands.
    pub key_span: SourceInfo,
    /// Where the value stands.
    pub value_span: SourceInfo,
    /// Where the whole entry stands.
    pub entry_span: SourceInfo,
}

/// What a node says, apart from how it is stored.
pub struct NodeView {
    pub yaml: YamlView,
    pub span: SourceView,
    pub tag: Option<(Seq<char>, SourceView)>,
    pub children: ChildrenView,
}

/// What a node is made of.
pub enum ChildrenView {
    Leaf,
    Items(Seq<NodeView>),
    Entries(Seq<EntryView>),
}

/// What an entry says, apart from how it is stored.
pub struct EntryView {
    pub key: NodeView,
    pub value: NodeView,
    pub key_span: SourceView,
    pub value_span: SourceView,
    pub entry_span: SourceView,
}

/// The view of an optional tag.
pub open spec fn node_tag_view(tag: Option<(String, SourceInfo)>) -> Option<
    (Seq<char>, SourceView),
> {
    match tag {
        Some((suffix, span)) => Some((suffix@, span@)),
        None => None,
    }
}

/// A node that stands for no value of interest.
pub open spec fn no_node() -> NodeView {
    NodeView {
        yaml: YamlView::Null,
        span: SourceView::Generated { kind: Seq::empty() },
        tag: None,
        children: ChildrenView::Leaf,
    }
}

/// An entry that stands for no entry of interest.
pub open spec fn no_entry() -> EntryView {
    EntryView {
        key: no_node(),
        value: no_node(),
        key_span: no_node().span,
        value_span: no_node().span,
        entry_span: no_node().span,
    }
}

/// The view of a node.
pub open spec fn node_view(node: YamlWithSourceInfo) -> NodeView
    decreases node,
{
    NodeView {
        yaml: node.yaml@,
        span: node.source_info@,
        tag: node_tag_view(node.tag),
        children: match node.children {
            Children::Leaf => ChildrenView::Leaf,
            Children::Items(items) => ChildrenView::Items(
                Seq::new(
                    items@.len(),
                    |i: int|
                        if 0 <= i < items@.len() {
                            node_view(items@[i])
                        } else {
                            no_node()
                        },
                ),
            ),
            Children::Entries(entries) => ChildrenView::Entries(
                Seq::new(
                    entries@.len(),
                    |i: int|
                        if 0 <= i < entries@.len() {
                            entry_view(entries@[i])
                        } else {
                            no_entry()
                        },
                ),
            ),
        },
    }
}

/// The view of an entry.
pub open spec fn entry_view(entry: YamlHashEntry) -> EntryView
    decreases entry,
{
    EntryView {
        key: node_view(entry.key),
        value: node_view(entry.value),
        key_span: entry.key_span@,
        value_span: entry.value_span@,
        entry_span: entry.entry_span@,
    }
}

impl View for YamlWithSourceInfo {
    type V = NodeView;

    open spec fn view(&self) -> NodeView {
        node_view(*self)
    }
}

impl View for YamlHashEntry {
    type V = EntryView;

    open spec fn view(&self) -> EntryView {
        entry_view(*self)
    }
}

/// The nodes of a sequence.
pub open spec fn node_views(items: Seq<YamlWithSourceInfo>) -> Seq<NodeView> {
    Seq::new(items.len(), |i: int| node_view(items[i]))
}

/// The entries of a mapping.
pub open spec fn entry_views(entries: Seq<YamlHashEntry>) -> Seq<EntryView> {
    Seq::new(entries.len(), |i: int| entry_view(entries[i]))
}

/// A sequence is made of its items.
pub proof fn lemma_items_view(node: YamlWithSourceInfo)
    requires
        node.children is Items,
    ensures
        node@.children == ChildrenView::Items(node_views(node.children->Items_0@)),
{
    assert(node@.children->Items_0 =~= node_views(node.children->Items_0@));
}

/// A mapping is made of its entries.
pub proof fn lemma_entries_view(node: YamlWithSourceInfo)
    requires
        node.children is Entries,
    ensures
        node@.children == ChildrenView::Entries(entry_views(node.children->Entries_0@)),
{
    assert(node@.children->Entries_0 =~= entry_views(node.children->Entries_0@));
}

impl Clone for YamlWithSourceInfo {
    fn clone(&self) -> (res: Self)
        ensures
            res@ == self@,
        decreases self,
    {
        let tag = match &self.tag {
            Some((suffix, span)) => Some((suffix.clone(), span.clone())),
            None => None,
        };
        let children = match &self.children {
            Children::Leaf => Children::Leaf,
            Children::Items(items) => {
                let mut copy: Vec<YamlWithSourceInfo> = Vec::new();
                let mut i: usize = 0;
                while i < items.len()
                    invariant
                        self.children matches Children::Items(own) && own == items,
                        i <= items@.len(),
                        copy@.len() == i,
                        forall|j: int| 0 <= j < i ==> node_view(#[trigger] copy@[j]) == node_view(
                            items@[j],
                        ),
                    decreases items.len() - i,
                {
                    copy.push(items[i].clone());
                    i += 1;
                }
                Children::Items(copy)
            },
            Children::Entries(entries) => {
                let mut copy: Vec<YamlHashEntry> = Vec::new();
                let mut i: usize = 0;
                while i < entries.len()
                    invariant
                        self.children matches Children::Entries(own) && own == entries,
                        i <= entries@.len(),
                        copy@.len() == i,
                        forall|j: int|
                            0 <= j < i ==> entry_view(#[trigger] copy@[j]) == entry_view(
                                entries@[j],
                            ),
                    decreases entries.len() - i,
                {
                    copy.push(entries[i].clone());
                    i += 1;
                }
                Children::Entries(copy)
            },
        };
        let copy = YamlWithSourceInfo {
            yaml: self.yaml.clone(),
            source_info: self.source_info.clone(),
            tag,
            children,
        };
        proof {
            match &self.children {
                Children::Leaf => {},
                Children::Items(items) => {
                    lemma_items_view(*self);
                    lemma_items_view(copy);
                    assert(node_views(copy.children->Items_0@) =~= node_views(items@));
                },
                Children::Entries(entries) => {
                    lemma_entries_view(*self);
                    lemma_entries_view(copy);
                    assert(entry_views(copy.children->Entries_0@) =~= entry_views(entries@));
                },
            }
        }
        copy
    }
}

impl Clone for YamlHashEntry {
    fn clone(&self) -> (res: Self)
        ensures
            res@ == self@,
        decreases self,
    {
        YamlHashEntry {
            key: self.key.clone(),
            value: self.value.clone(),
            key_span: self.key_span.clone(),
            value_span: self.value_span.clone(),
            entry_span: self.entry_span.clone(),
        }
    }
}

/// The node of a scalar.
pub open spec fn scalar_node(
    yaml: YamlView,
    span: SourceView,
    tag: Option<(Seq<char>, SourceView)>,
) -> NodeView {
    NodeView { yaml, span, tag, children: ChildrenView::Leaf }
}

/// The node of a sequence.
pub open spec fn array_node(yaml: YamlView, span: SourceView, items: Seq<NodeView>) -> NodeView {
    NodeView { yaml, span, tag: None, children: ChildrenView::Items(items) }
}

/// The node of a mapping.
pub open spec fn hash_node(yaml: YamlView, span: SourceView, entries: Seq<EntryView>) -> NodeView {
    NodeView { yaml, span, tag: None, children: ChildrenView::Entries(entries) }
}

impl NodeView {
    /// The same node with the given tag.
    pub open spec fn with_tag(self, tag: Option<(Seq<char>, SourceView)>) -> NodeView {
        NodeView { tag, ..self }
    }

    /// Where the node starts, or its tag if that stands before it.
    pub open spec fn first_offset(self) -> int {
        match self.tag {
            Some((_, span)) => if span.start_offset() < self.span.start_offset() {
                span.start_offset()
            } else {
                self.span.start_offset()
            },
            None => self.span.start_offset(),
        }
    }

    /// How many items or entries there are.
    pub open spec fn len(self) -> nat {
        match self.children {
            ChildrenView::Leaf => 0,
            ChildrenView::Items(items) => items.len(),
            ChildrenView::Entries(entries) => entries.len(),
        }
    }
}

/// The first place at or after `i` of an entry whose key is the text `key`, or the
/// end.
pub open spec fn entry_index(entries: Seq<EntryView>, key: Seq<char>, i: int) -> int
    decreases entries.len() - i,
{
    if i >= entries.len() || entries[i].key.yaml == YamlView::String(key) {
        i
    } else {
        entry_index(entries, key, i + 1)
    }
}

/// The value that a node holds under the text `key`: that of the first such entry.
pub open spec fn hash_value(node: NodeView, key: Seq<char>) -> Option<NodeView> {
    match node.children {
        ChildrenView::Entries(entries) => {
            let i = entry_index(entries, key, 0);
            if i < entries.len() {
                Some(entries[i].value)
            } else {
                None
            }
        },
        _ => None,
    }
}

impl YamlWithSourceInfo {
    /// The node of a scalar without a tag.
    pub fn new_scalar(yaml: Yaml, source_info: SourceInfo) -> (node: Self)
        ensures
            node@ == scalar_node(yaml@, source_info@, None),
    {
        YamlWithSourceInfo { yaml, source_info, tag: None, children: Children::Leaf }
    }

    /// The node of a scalar.
    pub fn new_scalar_with_tag(
        yaml: Yaml,
        source_info: SourceInfo,
        tag: Option<(String, SourceInfo)>,
    ) -> (node: Self)
        ensures
            node@ == scalar_node(yaml@, source_info@, node_tag_view(tag)),
    {
        YamlWithSourceInfo { yaml, source_info, tag, children: Children::Leaf }
    }

    /// The node of a sequence.
    pub fn new_array(
        yaml: Yaml,
        source_info: SourceInfo,
        items: Vec<YamlWithSourceInfo>,
    ) -> (node: Self)
        ensures
            node@ == array_node(yaml@, source_info@, node_views(items@)),
    {
        let node = YamlWithSourceInfo {
            yaml,
            source_info,
            tag: None,
            children: Children::Items(items),
        };
        proof {
            lemma_items_view(node);
        }
        node
    }

    /// The node of a mapping.
    pub fn new_hash(
        yaml: Yaml,
        source_info: SourceInfo,
        entries: Vec<YamlHashEntry>,
    ) -> (node: Self)
        ensures
            node@ == hash_node(yaml@, source_info@, entry_views(entries@)),
    {
        let node = YamlWithSourceInfo {
            yaml,
            source_info,
            tag: None,
            children: Children::Entries(entries),
        };
        proof {
            lemma_entries_view(node);
        }
        node
    }

    /// The same node with the given tag.
    pub fn with_tag(self, tag: Option<(String, SourceInfo)>) -> (node: Self)
        ensures
            node@ == self@.with_tag(node_tag_view(tag)),
    {
        YamlWithSourceInfo {
            yaml: self.yaml,
            source_info: self.source_info,
            tag,
            children: self.children,
        }
    }

    /// Where the node starts, or its tag if that stands before it.
    pub fn first_offset(&self) -> (offset: usize)
        ensures
            offset == self@.first_offset(),
    {
        let start: usize = self.source_info.start_offset();
        match &self.tag {
            Some((_, span)) => if span.start_offset() < start {
                span.start_offset()
            } else {
                start
            },
            None => start,
        }
    }

    /// Whether this is a scalar.
    pub fn is_scalar(&self) -> (yes: bool)
        ensures
            yes == (self@.children is Leaf),
    {
        matches!(self.children, Children::Leaf)
    }

    /// Whether this is a sequence.
    pub fn is_array(&self) -> (yes: bool)
        ensures
            yes == (self@.children is Items),
    {
        matches!(self.children, Children::Items(_))
    }

    /// Whether this is a mapping.
    pub fn is_hash(&self) -> (yes: bool)
        ensures
            yes == (self@.children is Entries),
    {
        matches!(self.children, Children::Entries(_))
    }

    /// How many items or entries there are. A scalar has none.
    pub fn len(&self) -> (len: usize)
        ensures
            len == self@.len(),
    {
        match &self.children {
            Children::Leaf => 0,
            Children::Items(items) => items.len(),
            Children::Entries(entries) => entries.len(),
        }
    }

    /// The items, if this is a sequence.
    pub fn as_array(&self) -> (items: Option<&Vec<YamlWithSourceInfo>>)
        ensures
            match items {
                Some(v) => self@.children == ChildrenView::Items(node_views(v@)),
                None => !(self@.children is Items),
            },
    {
        match &self.children {
            Children::Items(items) => {
                proof {
                    lemma_items_view(*self);
                }
                Some(items)
            },
            _ => None,
        }
    }

    /// The entries, if this is a mapping.
    pub fn as_hash(&self) -> (entries: Option<&Vec<YamlHashEntry>>)
        ensures
            match entries {
                Some(v) => self@.children == ChildrenView::Entries(entry_views(v@)),
                None => !(self@.children is Entries),
            },
    {
        match &self.children {
            Children::Entries(entries) => {
                proof {
                    lemma_entries_view(*self);
                }
                Some(entries)
            },
            _ => None,
        }
    }

    /// The value under the text `key`, if this is a mapping that holds one.
    pub fn get_hash_value(&self, key: &str) -> (value: Option<&YamlWithSourceInfo>)
        ensures
            match value {
                Some(v) => hash_value(self@, key@) == Some(v@),
                None => hash_value(self@, key@) is None,
            },
    {
        match &self.children {
            Children::Entries(entries) => {
                proof {
                    lemma_entries_view(*self);
                }
                let ghost views = entry_views(entries@);
                let mut i: usize = 0;
                while i < entries.len()
                    invariant
                        views == entry_views(entries@),
                        self@.children == ChildrenView::Entries(views),
                        i <= entries@.len(),
                        entry_index(views, key@, 0) == entry_index(views, key@, i as int),
                    decreases entries.len() - i,
                {
                    assert(views[i as int].key.yaml == entries@[i as int].key.yaml@);
                    if let Some(s) = entries[i].key.yaml.as_str() {
                        if str_eq(s, key) {
                            return Some(&entries[i].value);
                        }
                    }
                    i += 1;
                }
                None
            },
            _ => None,
        }
    }
}

impl YamlHashEntry {
    /// An entry with its places.
    pub fn new(
        key: YamlWithSourceInfo,
        value: YamlWithSourceInfo,
        key_span: SourceInfo,
        value_span: SourceInfo,
        entry_span: SourceInfo,
    ) -> (entry: Self)
        ensures
            entry@ == (EntryView {
                key: key@,
                value: value@,
                key_span: key_span@,
                value_span: value_span@,
                entry_span: entry_span@,
            }),
    {
        YamlHashEntry { key, value, key_span, value_span, entry_span }
    }
}

} // verus!
