//! Where a piece of text comes from.

use vstd::prelude::*;

verus! {

/// The number of a source file.
#[derive(Debug, Clone, Copy, PartialEq, Eq, Structural)]
pub struct FileId(pub usize);

/// A place in a file.
#[derive(Debug, Clone, Copy, PartialEq, Eq, Structural)]
pub struct Location {
    /// Byte offset in the file.
    pub offset: usize,
    /// Row, counted from zero.
    pub row: usize,
    /// Column, in characters, counted from zero.
    pub column: usize,
}

/// A range in a file.
#[derive(Debug, Clone, Copy, PartialEq, Eq, Structural)]
pub struct Range {
    /// Where the range starts.
    pub start: Location,
    /// Where the range ends.
    pub end: Location,
}

/// Where a piece of text comes from. Offsets count bytes.
#[derive(Debug)]
pub enum SourceInfo {
    /// A range of a file.
    Original {
        /// The file.
        file_id: FileId,
        /// Where the range starts in the file.
        start_offset: usize,
        /// Where the range ends in the file.
        end_offset: usize,
    },
    /// A range of another text.
    Substring {
        /// Where that text comes from.
        parent: Box<SourceInfo>,
        /// Where the range starts in that text.
        start_offset: usize,
        /// Where the range ends in that text.
        end_offset: usize,
    },
    /// Several texts, one after the other.
    Concat {
        /// The texts.
        pieces: Vec<SourcePiece>,
    },
    /// Text that no file holds.
    Generated {
        /// What made it.
        kind: String,
    },
}

/// A part of a concatenation.
#[derive(Debug)]
pub struct SourcePiece {
    /// Where the part comes from.
    pub source_info: SourceInfo,
    /// How long it is.
    pub length: usize,
}

/// What a source info says, apart from how it is stored.
pub enum SourceView {
    Original { file_id: FileId, start: int, end: int },
    Substring { parent: Box<SourceView>, start: int, end: int },
    Concat { pieces: Seq<(SourceView, int)> },
    Generated { kind: Seq<char> },
}

/// The view of a source info.
pub open spec fn source_view(info: SourceInfo) -> SourceView
    decreases info,
{
    match info {
        SourceInfo::Original { file_id, start_offset, end_offset } => SourceView::Original {
            file_id,
            start: start_offset as int,
            end: end_offset as int,
        },
        SourceInfo::Substring { parent, start_offset, end_offset } => SourceView::Substring {
            parent: Box::new(source_view(*parent)),
            start: start_offset as int,
            end: end_offset as int,
        },
        SourceInfo::Concat { pieces } => SourceView::Concat {
            pieces: Seq::new(
                pieces@.len(),
                |i: int|
                    if 0 <= i < pieces@.len() {
                        (source_view(pieces@[i].source_info), pieces@[i].length as int)
                    } else {
                        (SourceView::Generated { kind: Seq::empty() }, 0)
                    },
            ),
        },
        SourceInfo::Generated { kind } => SourceView::Generated { kind: kind@ },
    }
}

impl View for SourceInfo {
    type V = SourceView;

    open spec fn view(&self) -> SourceView {
        source_view(*self)
    }
}

/// The pieces of a concatenation.
pub open spec fn piece_views(pieces: Seq<SourcePiece>) -> Seq<(SourceView, int)> {
    Seq::new(pieces.len(), |i: int| (source_view(pieces[i].source_info), pieces[i].length as int))
}

/// A concatenation is made of its pieces.
pub proof fn lemma_concat_view(pieces: Vec<SourcePiece>)
    ensures
        source_view(SourceInfo::Concat { pieces }) == (SourceView::Concat {
            pieces: piece_views(pieces@),
        }),
{
    assert(source_view(SourceInfo::Concat { pieces })->pieces =~= piece_views(pieces@));
}

/// How long the pieces are together.
pub open spec fn pieces_length(pieces: Seq<(SourceView, int)>) -> int
    decreases pieces.len(),
{
    if pieces.len() == 0 {
        0
    } else {
        pieces_length(pieces.drop_last()) + pieces.last().1
    }
}

impl SourceView {
    /// How long the text is.
    pub open spec fn length(self) -> int {
        match self {
            SourceView::Original { start, end, .. } => end - start,
            SourceView::Substring { start, end, .. } => end - start,
            SourceView::Concat { pieces } => pieces_length(pieces),
            SourceView::Generated { .. } => 0,
        }
    }

    /// Where the text starts in what it is a range of.
    pub open spec fn start_offset(self) -> int {
        match self {
            SourceView::Original { start, .. } => start,
            SourceView::Substring { start, .. } => start,
            _ => 0,
        }
    }

    /// Where the text ends in what it is a range of.
    pub open spec fn end_offset(self) -> int {
        match self {
            SourceView::Original { end, .. } => end,
            SourceView::Substring { end, .. } => end,
            _ => self.length(),
        }
    }

    /// Whether the length is a number of bytes that a machine word holds.
    pub open spec fn has_length(self) -> bool {
        0 <= self.length() <= usize::MAX
    }

    /// Both texts, one after the other.
    pub open spec fn combine(self, other: SourceView) -> SourceView {
        SourceView::Concat { pieces: seq![(self, self.length()), (other, other.length())] }
    }
}

/// The file that a chain of ranges ends in, and where it starts there.
pub open spec fn absolute_start(span: SourceView) -> Option<(FileId, int)>
    decreases span,
{
    match span {
        SourceView::Original { file_id, start, .. } => Some((file_id, start)),
        SourceView::Substring { parent, start, .. } => match absolute_start(*parent) {
            Some((file_id, base)) => Some((file_id, base + start)),
            None => None,
        },
        _ => None,
    }
}

/// The first pieces are no longer than all of them.
pub proof fn lemma_pieces_length_prefix(pieces: Seq<(SourceView, int)>, n: int)
    requires
        0 <= n <= pieces.len(),
        forall|i: int| 0 <= i < pieces.len() ==> 0 <= (#[trigger] pieces[i]).1,
    ensures
        0 <= pieces_length(pieces.take(n)) <= pieces_length(pieces),
    decreases pieces.len() + n,
{
    if n < pieces.len() {
        let front = pieces.drop_last();
        assert forall|i: int| 0 <= i < front.len() implies 0 <= (#[trigger] front[i]).1 by {
            assert(front[i] == pieces[i]);
        }
        assert(pieces.take(n) =~= front.take(n));
        assert(0 <= pieces[pieces.len() - 1].1);
        lemma_pieces_length_prefix(front, n);
    } else {
        assert(pieces.take(n) =~= pieces);
        if n > 0 {
            let front = pieces.drop_last();
            assert forall|i: int| 0 <= i < front.len() implies 0 <= (#[trigger] front[i]).1 by {
                assert(front[i] == pieces[i]);
            }
            assert(0 <= pieces[pieces.len() - 1].1);
            lemma_pieces_length_prefix(front, n - 1);
            assert(front.take(n - 1) =~= front);
        }
    }
}

impl Clone for SourceInfo {
    fn clone(&self) -> (res: Self)
        ensures
            res@ == self@,
        decreases self,
    {
        match self {
            SourceInfo::Original { file_id, start_offset, end_offset } => SourceInfo::Original {
                file_id: *file_id,
                start_offset: *start_offset,
                end_offset: *end_offset,
            },
            SourceInfo::Substring { parent, start_offset, end_offset } => SourceInfo::Substring {
                parent: Box::new((&**parent).clone()),
                start_offset: *start_offset,
                end_offset: *end_offset,
            },
            SourceInfo::Concat { pieces } => {
                let mut copy: Vec<SourcePiece> = Vec::new();
                let mut i: usize = 0;
                while i < pieces.len()
                    invariant
                        self matches SourceInfo::Concat { pieces: own } && own == pieces,
                        i <= pieces@.len(),
                        copy@.len() == i,
                        forall|j: int|
                            0 <= j < i ==> source_view((#[trigger] copy@[j]).source_info)
                                == source_view(pieces@[j].source_info) && copy@[j].length
                                == pieces@[j].length,
                    decreases pieces.len() - i,
                {
                    let source_info = pieces[i].source_info.clone();
                    copy.push(SourcePiece { source_info, length: pieces[i].length });
                    i += 1;
                }
                proof {
                    lemma_concat_view(copy);
                    lemma_concat_view(*pieces);
                    assert(piece_views(copy@) =~= piece_views(pieces@));
                }
                SourceInfo::Concat { pieces: copy }
            },
            SourceInfo::Generated { kind } => SourceInfo::Generated { kind: kind.clone() },
        }
    }
}

impl SourceInfo {
    /// A range of a file.
    pub fn original(file_id: FileId, start_offset: usize, end_offset: usize) -> (info: SourceInfo)
        ensures
            info@ == (SourceView::Original {
                file_id,
                start: start_offset as int,
                end: end_offset as int,
            }),
    {
        SourceInfo::Original { file_id, start_offset, end_offset }
    }

    /// A range of a file, given with rows and columns. Only its offsets are kept.
    pub fn from_range(file_id: FileId, range: Range) -> (info: SourceInfo)
        ensures
            info@ == (SourceView::Original {
                file_id,
                start: range.start.offset as int,
                end: range.end.offset as int,
            }),
    {
        SourceInfo::original(file_id, range.start.offset, range.end.offset)
    }

    /// A range of another text.
    pub fn substring(parent: SourceInfo, start: usize, end: usize) -> (info: SourceInfo)
        ensures
            info@ == (SourceView::Substring {
                parent: Box::new(parent@),
                start: start as int,
                end: end as int,
            }),
    {
        SourceInfo::Substring { parent: Box::new(parent), start_offset: start, end_offset: end }
    }

    /// Both texts, one after the other.
    pub fn combine(&self, other: &SourceInfo) -> (info: SourceInfo)
        requires
            self@.has_length(),
            other@.has_length(),
        ensures
            info@ == self@.combine(other@),
    {
        let mut pieces: Vec<SourcePiece> = Vec::new();
        pieces.push(SourcePiece { source_info: self.clone(), length: self.length() });
        pieces.push(SourcePiece { source_info: other.clone(), length: other.length() });
        proof {
            lemma_concat_view(pieces);
            assert(piece_views(pieces@) =~= seq![
                (self@, self@.length()),
                (other@, other@.length()),
            ]);
        }
        SourceInfo::Concat { pieces }
    }

    /// How long the text is.
    pub fn length(&self) -> (len: usize)
        requires
            self@.has_length(),
        ensures
            len == self@.length(),
    {
        match self {
            SourceInfo::Original { start_offset, end_offset, .. } => *end_offset - *start_offset,
            SourceInfo::Substring { start_offset, end_offset, .. } => *end_offset - *start_offset,
            SourceInfo::Concat { pieces } => {
                let ghost views = piece_views(pieces@);
                proof {
                    lemma_concat_view(*pieces);
                    assert(views.take(0) =~= Seq::empty());
                }
                let mut total: usize = 0;
                let mut i: usize = 0;
                while i < pieces.len()
                    invariant
                        views == piece_views(pieces@),
                        pieces_length(views) <= usize::MAX,
                        i <= pieces@.len(),
                        total == pieces_length(views.take(i as int)),
                    decreases pieces.len() - i,
                {
                    proof {
                        assert(views.take(i + 1).drop_last() =~= views.take(i as int));
                        assert(views[i as int].1 == pieces@[i as int].length);
                        lemma_pieces_length_prefix(views, i + 1);
                    }
                    total += pieces[i].length;
                    i += 1;
                }
                assert(views.take(i as int) =~= views);
                total
            },
            SourceInfo::Generated { .. } => 0,
        }
    }

    /// Where the text starts in what it is a range of.
    pub fn start_offset(&self) -> (offset: usize)
        ensures
            offset == self@.start_offset(),
    {
        match self {
            SourceInfo::Original { start_offset, .. } => *start_offset,
            SourceInfo::Substring { start_offset, .. } => *start_offset,
            _ => 0,
        }
    }

    /// Where the text ends in what it is a range of.
    pub fn end_offset(&self) -> (offset: usize)
        requires
            self@ is Concat ==> self@.has_length(),
        ensures
            offset == self@.end_offset(),
    {
        match self {
            SourceInfo::Original { end_offset, .. } => *end_offset,
            SourceInfo::Substring { end_offset, .. } => *end_offset,
            _ => self.length(),
        }
    }
}

} // verus!
