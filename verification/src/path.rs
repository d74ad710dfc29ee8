//! Paths through documents and schemas.

use crate::text;
use crate::text::push_decimal;
use vstd::prelude::*;
use vstd::string::*;

verus! {

/// A step of a path through a document: the key of a mapping or the index of an item.
#[derive(Debug, PartialEq, Eq)]
pub enum PathSegment {
    /// The key of a mapping.
    Key(String),
    /// The index of a sequence's item.
    Index(usize),
}

/// What a step says, apart from how it is stored.
pub enum SegmentView {
    Key(Seq<char>),
    Index(nat),
}

impl View for PathSegment {
    type V = SegmentView;

    open spec fn view(&self) -> SegmentView {
        match self {
            PathSegment::Key(key) => SegmentView::Key(key@),
            PathSegment::Index(index) => SegmentView::Index(*index as nat),
        }
    }
}

impl Clone for PathSegment {
    fn clone(&self) -> (res: Self)
        ensures
            res@ == self@,
    {
        match self {
            PathSegment::Key(key) => PathSegment::Key(key.clone()),
            PathSegment::Index(index) => PathSegment::Index(*index),
        }
    }
}

/// The steps of a path.
pub open spec fn segment_views(segments: Seq<PathSegment>) -> Seq<SegmentView> {
    Seq::new(segments.len(), |i: int| segments[i]@)
}

/// The texts of strings.
pub open spec fn string_views(strings: Seq<String>) -> Seq<Seq<char>> {
    Seq::new(strings.len(), |i: int| strings[i]@)
}

/// A path in one line: keys with dots between them, and indices in brackets.
pub open spec fn path_text(segments: Seq<SegmentView>) -> Seq<char>
    decreases segments.len(),
{
    if segments.len() == 0 {
        Seq::empty()
    } else {
        let before = path_text(segments.drop_last());
        match segments.last() {
            SegmentView::Key(key) => if before.len() == 0 {
                key
            } else {
                before + "."@ + key
            },
            SegmentView::Index(index) => before + "["@ + text::decimal(index) + "]"@,
        }
    }
}

/// Texts one after the other, with a separator between them.
pub open spec fn joined(parts: Seq<Seq<char>>, separator: Seq<char>) -> Seq<char>
    decreases parts.len(),
{
    if parts.len() == 0 {
        Seq::empty()
    } else if parts.len() == 1 {
        parts[0]
    } else {
        joined(parts.drop_last(), separator) + separator + parts.last()
    }
}

/// Writes a path in one line.
pub fn render_path(segments: &[PathSegment]) -> (rendered: String)
    ensures
        rendered@ == path_text(segment_views(segments@)),
{
    let mut out = String::new();
    let ghost views = segment_views(segments@);
    let mut i: usize = 0;
    assert(views.take(0) =~= Seq::empty());
    while i < segments.len()
        invariant
            views == segment_views(segments@),
            i <= segments@.len(),
            out@ == path_text(views.take(i as int)),
        decreases segments.len() - i,
    {
        proof {
            assert(views.take(i + 1).drop_last() =~= views.take(i as int));
            assert(views.take(i + 1).last() == segments@[i as int]@);
        }
        match &segments[i] {
            PathSegment::Key(key) => {
                if !out.as_str().is_empty() {
                    out.append(".");
                } else {
                    assert(out@ =~= Seq::empty());
                }
                let ghost before = out@;
                out.append(key.as_str());
                assert(Seq::<char>::empty() + key@ =~= key@);
            },
            PathSegment::Index(index) => {
                out.append("[");
                push_decimal(&mut out, *index);
                out.append("]");
            },
        }
        i += 1;
    }
    assert(views.take(i as int) =~= views);
    out
}

/// Joins texts with a separator between them.
pub fn join(parts: &Vec<String>, separator: &str) -> (whole: String)
    ensures
        whole@ == joined(string_views(parts@), separator@),
{
    let mut out = String::new();
    let ghost views = string_views(parts@);
    let mut i: usize = 0;
    assert(views.take(0) =~= Seq::empty());
    while i < parts.len()
        invariant
            views == string_views(parts@),
            i <= parts@.len(),
            out@ == joined(views.take(i as int), separator@),
        decreases parts.len() - i,
    {
        proof {
            assert(views.take(i + 1).drop_last() =~= views.take(i as int));
            assert(views.take(i + 1).last() == parts@[i as int]@);
        }
        if i > 0 {
            out.append(separator);
        }
        out.append(parts[i].as_str());
        assert(Seq::<char>::empty() + parts@[i as int]@ =~= parts@[i as int]@);
        i += 1;
    }
    assert(views.take(i as int) =~= views);
    out
}

/// Copies strings.
pub fn copy_strings(strings: &Vec<String>) -> (copy: Vec<String>)
    ensures
        string_views(copy@) == string_views(strings@),
{
    let mut copy: Vec<String> = Vec::new();
    let mut i: usize = 0;
    while i < strings.len()
        invariant
            i <= strings@.len(),
            copy@.len() == i,
            forall|j: int| 0 <= j < i ==> (#[trigger] copy@[j])@ == strings@[j]@,
        decreases strings.len() - i,
    {
        copy.push(strings[i].clone());
        i += 1;
    }
    assert(string_views(copy@) =~= string_views(strings@));
    copy
}

/// A path through a document.
#[derive(Debug)]
pub struct InstancePath {
    segments: Vec<PathSegment>,
}

impl View for InstancePath {
    type V = Seq<SegmentView>;

    closed spec fn view(&self) -> Seq<SegmentView> {
        segment_views(self.segments@)
    }
}

impl InstancePath {
    /// The path to the root.
    pub fn new() -> (path: Self)
        ensures
            path@ == Seq::<SegmentView>::empty(),
    {
        let path = InstancePath { segments: Vec::new() };
        assert(path@ =~= Seq::empty());
        path
    }

    /// Goes on to the value of a key.
    pub fn push_key(&mut self, key: &str)
        ensures
            final(self)@ == old(self)@.push(SegmentView::Key(key@)),
    {
        let ghost before = self@;
        self.segments.push(PathSegment::Key(key.to_string()));
        assert(self@ =~= before.push(SegmentView::Key(key@)));
    }

    /// Goes on to an item.
    pub fn push_index(&mut self, index: usize)
        ensures
            final(self)@ == old(self)@.push(SegmentView::Index(index as nat)),
    {
        let ghost before = self@;
        self.segments.push(PathSegment::Index(index));
        assert(self@ =~= before.push(SegmentView::Index(index as nat)));
    }

    /// The steps.
    pub fn segments(&self) -> (segments: &Vec<PathSegment>)
        ensures
            segment_views(segments@) == self@,
    {
        &self.segments
    }

    /// Whether this is the path to the root.
    pub fn is_empty(&self) -> (yes: bool)
        ensures
            yes == (self@.len() == 0),
    {
        self.segments.len() == 0
    }
}

/// A path through a schema.
#[derive(Debug)]
pub struct SchemaPath {
    segments: Vec<String>,
}

impl View for SchemaPath {
    type V = Seq<Seq<char>>;

    closed spec fn view(&self) -> Seq<Seq<char>> {
        string_views(self.segments@)
    }
}

impl SchemaPath {
    /// The path to the whole schema.
    pub fn new() -> (path: Self)
        ensures
            path@ == Seq::<Seq<char>>::empty(),
    {
        let path = SchemaPath { segments: Vec::new() };
        assert(path@ =~= Seq::empty());
        path
    }

    /// Goes on to a part of the schema.
    pub fn push(&mut self, part: &str)
        ensures
            final(self)@ == old(self)@.push(part@),
    {
        let ghost before = self@;
        self.segments.push(part.to_string());
        assert(self@ =~= before.push(part@));
    }

    /// The steps.
    pub fn segments(&self) -> (segments: &Vec<String>)
        ensures
            string_views(segments@) == self@,
    {
        &self.segments
    }

    /// Whether this is the path to the whole schema.
    pub fn is_empty(&self) -> (yes: bool)
        ensures
            yes == (self@.len() == 0),
    {
        self.segments.len() == 0
    }
}

} // verus!
