//! Following source infos back to files.
//!
//! Files, with their lines, are the matter of `quarto_source_map`.

use crate::source_info;
use crate::source_info::{FileId, SourceInfo, SourcePiece, SourceView};
use crate::source_text;
use crate::text;
use crate::text::{char_width, chars_of, str_len};
use quarto_source_map::{By, SourceContext, SourceInfo as MappedInfo};
use vstd::prelude::*;

verus! {

#[verifier::external_type_specification]
#[verifier::external_body]
pub struct ExSourceContext(SourceContext);

#[verifier::external_type_specification]
#[verifier::external_body]
pub struct ExMappedInfo(MappedInfo);

/// A place in a file.
#[derive(Debug, Clone, Copy, PartialEq, Eq, Structural)]
pub struct MappedPoint {
    /// The file.
    pub file_id: FileId,
    /// The byte offset in the file.
    pub offset: usize,
    /// The row, counted from zero.
    pub row: usize,
    /// The column, in characters, counted from zero.
    pub column: usize,
}

/// What a place in a file says, apart from how it is stored.
pub struct PointView {
    pub file_id: FileId,
    pub offset: int,
    pub row: int,
    pub column: int,
}

impl View for MappedPoint {
    type V = PointView;

    open spec fn view(&self) -> PointView {
        PointView {
            file_id: self.file_id,
            offset: self.offset as int,
            row: self.row as int,
            column: self.column as int,
        }
    }
}

/// The view of a place that may be missing.
pub open spec fn point_view(point: Option<MappedPoint>) -> Option<PointView> {
    match point {
        Some(p) => Some(p@),
        None => None,
    }
}

/// What `quarto_source_map`'s source info holds.
pub uninterp spec fn located(info: MappedInfo) -> SourceView;

/// The index of the lines of a file: the byte offsets of its line feeds, and its length.
pub struct LineIndex<'a> {
    /// Where the line feeds stand.
    pub line_breaks: &'a [usize],
    /// How many bytes there are.
    pub total_length: usize,
}

/// A file that a context knows. Its text and the index of its lines need not be there.
pub struct KnownFile<'a> {
    /// How it is called.
    pub path: &'a str,
    /// What it holds.
    pub text: Option<&'a str>,
    /// Where its lines are.
    pub index: Option<LineIndex<'a>>,
}

/// What the index of lines says, apart from how it is stored.
pub struct IndexView {
    pub line_breaks: Seq<usize>,
    pub total_length: usize,
}

/// What is known of a file, apart from how it is stored.
pub struct FileView {
    pub path: Seq<char>,
    pub text: Option<Seq<char>>,
    pub index: Option<IndexView>,
}

impl<'a> View for KnownFile<'a> {
    type V = FileView;

    open spec fn view(&self) -> FileView {
        FileView {
            path: self.path@,
            text: match self.text {
                Some(held) => Some(held@),
                None => None,
            },
            index: match self.index {
                Some(index) => Some(
                    IndexView {
                        line_breaks: index.line_breaks@,
                        total_length: index.total_length,
                    },
                ),
                None => None,
            },
        }
    }
}

/// What `SourceContext::get_file` finds for a file.
pub uninterp spec fn file_in(context: SourceContext, file_id: FileId) -> Option<FileView>;

/// The byte offsets of the line feeds among the first `n` characters of a text.
pub open spec fn line_feeds(s: Seq<char>, n: int) -> Seq<int>
    decreases n,
{
    if n <= 0 {
        Seq::empty()
    } else if s[n - 1] == '\n' {
        line_feeds(s, n - 1).push(text::byte_len(s.take(n - 1)) as int)
    } else {
        line_feeds(s, n - 1)
    }
}

impl IndexView {
    /// Whether this is the index of the lines of `held`.
    pub open spec fn fits(self, held: Seq<char>) -> bool {
        let feeds = line_feeds(held, held.len() as int);
        &&& self.total_length == text::byte_len(held)
        &&& self.line_breaks.len() == feeds.len()
        &&& forall|i: int| 0 <= i < feeds.len() ==> #[trigger] self.line_breaks[i] == feeds[i]
    }
}

impl FileView {
    /// Whether places in the file can be counted in what is at hand: without an index of
    /// the lines none are counted, and with one the text is there and the index is its own.
    pub open spec fn settled(self) -> bool {
        self.index matches Some(index) ==> (self.text matches Some(held) && index.fits(held))
    }

    /// Whether, beyond that, the text is there.
    pub open spec fn held(self) -> bool {
        self.text is Some && self.settled()
    }
}

/// The files that a source info leads to.
pub open spec fn files_of(info: SourceView) -> Seq<FileId>
    decreases info, 0int,
{
    match info {
        SourceView::Original { file_id, .. } => seq![file_id],
        SourceView::Substring { parent, .. } => files_of(*parent),
        SourceView::Concat { pieces } => files_of_pieces(pieces, pieces.len() as int),
        SourceView::Generated { .. } => Seq::empty(),
    }
}

/// The files that the first `n` pieces lead to.
pub open spec fn files_of_pieces(pieces: Seq<(SourceView, int)>, n: int) -> Seq<FileId>
    decreases pieces, n,
{
    if 0 < n <= pieces.len() {
        files_of_pieces(pieces, n - 1) + files_of(pieces[n - 1].0)
    } else {
        Seq::empty()
    }
}

/// Whether places can be counted in all the files that a source info leads to, as far as
/// the context knows them.
pub open spec fn files_settled(info: SourceView, context: SourceContext) -> bool {
    forall|i: int|
        0 <= i < files_of(info).len() ==> (file_in(
            context,
            #[trigger] files_of(info)[i],
        ) matches Some(file) ==> file.settled())
}

/// Whether the texts of all these files are there too.
pub open spec fn files_held(info: SourceView, context: SourceContext) -> bool {
    forall|i: int|
        0 <= i < files_of(info).len() ==> (file_in(
            context,
            #[trigger] files_of(info)[i],
        ) matches Some(file) ==> file.held())
}

/// Where the byte at `offset` of a file's text stands. There is no such place past the end
/// of the text. A byte inside of a character stands where the character stands.
pub open spec fn point_in(file_id: FileId, held: Seq<char>, offset: int) -> Option<PointView> {
    if offset <= text::byte_len(held) {
        let i = source_text::clip(held, 0, offset as nat);
        Some(
            PointView {
                file_id,
                offset: text::byte_len(held.take(i)) as int,
                row: source_text::row_at(held, i),
                column: source_text::column_at(held, i),
            },
        )
    } else {
        None
    }
}

/// Where an offset of a source info stands in a file. There is no such place where the
/// context does not know the file or has no index of its lines.
pub open spec fn point_of(info: SourceView, offset: int, context: SourceContext) -> Option<
    PointView,
>
    decreases info, 0int,
{
    match info {
        SourceView::Original { file_id, start, .. } => match file_in(context, file_id) {
            Some(file) => match (file.text, file.index) {
                (Some(held), Some(_)) => point_in(file_id, held, start + offset),
                _ => None,
            },
            None => None,
        },
        SourceView::Substring { parent, start, .. } => point_of(*parent, start + offset, context),
        SourceView::Concat { pieces } => point_of_pieces(pieces, 0, offset, context),
        SourceView::Generated { .. } => None,
    }
}

/// Where an offset stands that is counted from the start of the `k`-th piece of a
/// concatenation: in the piece that holds it, and for the end of the last piece at the end
/// of what that piece is a part of.
pub open spec fn point_of_pieces(
    pieces: Seq<(SourceView, int)>,
    k: int,
    offset: int,
    context: SourceContext,
) -> Option<PointView>
    decreases pieces, pieces.len() - k,
{
    if 0 <= k < pieces.len() {
        if offset < pieces[k].1 {
            point_of(pieces[k].0, offset, context)
        } else if k + 1 == pieces.len() && offset == pieces[k].1 {
            point_of(pieces[k].0, pieces[k].0.length(), context)
        } else {
            point_of_pieces(pieces, k + 1, offset - pieces[k].1, context)
        }
    } else {
        None
    }
}

/// The path of a file, if the context knows it.
pub open spec fn path_in(context: SourceContext, file_id: FileId) -> Option<Seq<char>> {
    match file_in(context, file_id) {
        Some(file) => Some(file.path),
        None => None,
    }
}

/// What `quarto_source_map`'s pieces hold.
pub open spec fn located_pieces(pieces: Seq<(MappedInfo, usize)>) -> Seq<(SourceView, int)> {
    Seq::new(pieces.len(), |i: int| (located(pieces[i].0), pieces[i].1 as int))
}

/// A bound on all the offsets that come up on the way from a source info to its files.
pub open spec fn weight(info: SourceView) -> int
    decreases info, 0int,
{
    match info {
        SourceView::Original { start, end, .. } => start + end,
        SourceView::Substring { parent, start, end } => start + end + weight(*parent),
        SourceView::Concat { pieces } => pieces_weight(pieces, pieces.len() as int),
        SourceView::Generated { .. } => 0,
    }
}

/// The bound for the first `n` pieces.
pub open spec fn pieces_weight(pieces: Seq<(SourceView, int)>, n: int) -> int
    decreases pieces, n,
{
    if 0 < n <= pieces.len() {
        pieces_weight(pieces, n - 1) + pieces[n - 1].1 + weight(pieces[n - 1].0)
    } else {
        0
    }
}

/// Whether the length of a source info can be taken, and those that come up on the way
/// to its files: no such range ends before it starts.
pub open spec fn measurable(info: SourceView) -> bool
    decreases info, 1int,
{
    match info {
        SourceView::Original { start, end, .. } => start <= end,
        SourceView::Substring { parent, start, end } => start <= end && walkable(*parent),
        _ => walkable(info),
    }
}

/// Whether the lengths that come up on the way to the files can be taken.
pub open spec fn walkable(info: SourceView) -> bool
    decreases info, 0int,
{
    match info {
        SourceView::Substring { parent, .. } => walkable(*parent),
        SourceView::Concat { pieces } => forall|i: int|
            0 <= i < pieces.len() ==> measurable((#[trigger] pieces[i]).0),
        _ => true,
    }
}

/// Whether a source info can be followed to its files within the limits of the machine.
pub open spec fn mappable(info: SourceView) -> bool {
    measurable(info) && 2 * weight(info) <= usize::MAX
}

/// A range of a file, by `SourceInfo::original`.
///
/// Taken on trust: the range holds the given file and offsets.
#[verifier::external_body]
fn mapped_original(file_id: FileId, start: usize, end: usize) -> (info: MappedInfo)
    ensures
        located(info) == (SourceView::Original { file_id, start: start as int, end: end as int }),
{
    MappedInfo::original(quarto_source_map::FileId(file_id.0), start, end)
}

/// A range of another text, by `SourceInfo::substring`.
///
/// Taken on trust: the range holds the given parent and offsets.
#[verifier::external_body]
fn mapped_substring(parent: MappedInfo, start: usize, end: usize) -> (info: MappedInfo)
    ensures
        located(info) == (SourceView::Substring {
            parent: Box::new(located(parent)),
            start: start as int,
            end: end as int,
        }),
{
    MappedInfo::substring(parent, start, end)
}

/// Several texts, by `SourceInfo::concat`.
///
/// Taken on trust: the texts stand one after the other, as long as given. The sum of the
/// lengths must fit in a machine word.
#[verifier::external_body]
fn mapped_concat(pieces: Vec<(MappedInfo, usize)>) -> (info: MappedInfo)
    requires
        source_info::pieces_length(located_pieces(pieces@)) <= usize::MAX,
    ensures
        located(info) == (SourceView::Concat { pieces: located_pieces(pieces@) }),
{
    MappedInfo::concat(pieces)
}

/// Text that no file holds, by `SourceInfo::generated` and `By::raw`.
///
/// Taken on trust: it holds the given kind.
#[verifier::external_body]
fn mapped_generated(kind: &str) -> (info: MappedInfo)
    ensures
        located(info) == (SourceView::Generated { kind: kind@ }),
{
    MappedInfo::generated(By::raw(kind, serde_json::Value::Null))
}

/// Asks `SourceInfo::map_offset` for the place of an offset.
///
/// Taken on trust: it follows ranges to the text that they are ranges of, and concatenations
/// to the piece that holds the offset. In a file that the context knows, the row is the
/// number of line feeds before the offset, and the column the number of characters since
/// the last of them.
#[verifier::external_body]
fn map_offset(info: &MappedInfo, offset: usize, context: &SourceContext) -> (point: Option<
    MappedPoint,
>)
    requires
        walkable(located(*info)),
        offset + weight(located(*info)) <= usize::MAX,
        files_settled(located(*info), *context),
    ensures
        point_view(point) == point_of(located(*info), offset as int, *context),
        point matches Some(p) ==> p.row < usize::MAX && p.column < usize::MAX,
{
    info.map_offset(offset, context).map(|mapped| MappedPoint {
        file_id: FileId(mapped.file_id.0),
        offset: mapped.location.offset,
        row: mapped.location.row,
        column: mapped.location.column,
    })
}

/// Asks `SourceContext::get_file` for a file.
///
/// Taken on trust: the answer depends on the context and the file alone.
#[verifier::external_body]
pub(crate) fn find_file<'a>(context: &'a SourceContext, file_id: FileId) -> (file: Option<
    KnownFile<'a>,
>)
    ensures
        match file {
            Some(f) => file_in(*context, file_id) == Some(f@),
            None => file_in(*context, file_id) is None,
        },
{
    context.get_file(quarto_source_map::FileId(file_id.0)).map(|file| KnownFile {
        path: file.path.as_str(),
        text: file.content.as_deref(),
        index: file.file_info.as_ref().map(|info| LineIndex {
            line_breaks: info.line_breaks(),
            total_length: info.total_length(),
        }),
    })
}

proof fn lemma_weight(info: SourceInfo)
    ensures
        0 <= weight(info@),
        0 <= info@.start_offset() <= weight(info@),
        info@.length() <= weight(info@),
    decreases info, 0int,
{
    match info {
        SourceInfo::Substring { parent, .. } => {
            lemma_weight(*parent);
        },
        SourceInfo::Concat { pieces } => {
            source_info::lemma_concat_view(pieces);
            let views = source_info::piece_views(pieces@);
            lemma_pieces_weight(pieces@, pieces@.len() as int);
            assert(views.take(views.len() as int) =~= views);
        },
        _ => {},
    }
}

proof fn lemma_pieces_weight(pieces: Seq<SourcePiece>, n: int)
    requires
        0 <= n <= pieces.len(),
    ensures
        ({
            let views = source_info::piece_views(pieces);
            &&& 0 <= pieces_weight(views, n)
            &&& source_info::pieces_length(views.take(n)) <= pieces_weight(views, n)
            &&& forall|i: int|
                0 <= i < n ==> weight((#[trigger] views[i]).0) <= pieces_weight(views, n)
        }),
    decreases pieces, n,
{
    let views = source_info::piece_views(pieces);
    if n > 0 {
        lemma_pieces_weight(pieces, n - 1);
        lemma_weight(pieces[n - 1].source_info);
        assert(views.take(n).drop_last() =~= views.take(n - 1));
        assert(views.take(n).last() == views[n - 1]);
        assert forall|i: int| 0 <= i < n implies weight((#[trigger] views[i]).0)
            <= pieces_weight(views, n) by {
            if i < n - 1 {
                assert(weight(views[i].0) <= pieces_weight(views, n - 1));
            }
        }
    } else {
        assert(views.take(0) =~= Seq::empty());
    }
}

/// The same source info as `quarto_source_map` holds it.
pub fn to_mapped(info: &SourceInfo) -> (mapped: MappedInfo)
    requires
        weight(info@) <= usize::MAX,
    ensures
        located(mapped) == info@,
    decreases info,
{
    match info {
        SourceInfo::Original { file_id, start_offset, end_offset } => mapped_original(
            *file_id,
            *start_offset,
            *end_offset,
        ),
        SourceInfo::Substring { parent, start_offset, end_offset } => mapped_substring(
            to_mapped(&**parent),
            *start_offset,
            *end_offset,
        ),
        SourceInfo::Concat { pieces } => {
            let ghost views = source_info::piece_views(pieces@);
            let ghost len = pieces@.len() as int;
            proof {
                source_info::lemma_concat_view(*pieces);
                lemma_pieces_weight(pieces@, len);
                assert(views.take(len) =~= views);
            }
            let mut parts: Vec<(MappedInfo, usize)> = Vec::new();
            let mut i: usize = 0;
            while i < pieces.len()
                invariant
                    *info matches SourceInfo::Concat { pieces: own } && own == *pieces,
                    views == source_info::piece_views(pieces@),
                    len == pieces@.len(),
                    forall|j: int|
                        0 <= j < len ==> weight((#[trigger] views[j]).0) <= pieces_weight(
                            views,
                            len,
                        ),
                    pieces_weight(views, len) <= usize::MAX,
                    i <= pieces@.len(),
                    parts@.len() == i,
                    forall|j: int|
                        0 <= j < i ==> located((#[trigger] parts@[j]).0) == views[j].0
                            && parts@[j].1 == views[j].1,
                decreases pieces.len() - i,
            {
                assert(weight(views[i as int].0) <= pieces_weight(views, len));
                let part = to_mapped(&pieces[i].source_info);
                parts.push((part, pieces[i].length));
                i += 1;
            }
            assert(located_pieces(parts@) =~= views);
            mapped_concat(parts)
        },
        SourceInfo::Generated { kind } => mapped_generated(kind.as_str()),
    }
}

/// Follows an offset of a source info back to a file.
pub fn locate(info: &SourceInfo, offset: usize, context: &SourceContext) -> (point: Option<
    MappedPoint,
>)
    requires
        walkable(info@),
        offset + weight(info@) <= usize::MAX,
        files_settled(info@, *context),
    ensures
        point_view(point) == point_of(info@, offset as int, *context),
        point matches Some(p) ==> p.row < usize::MAX && p.column < usize::MAX,
{
    let mapped = to_mapped(info);
    map_offset(&mapped, offset, context)
}

/// What can be followed has a length, and offsets from zero up to that length can be
/// followed.
pub proof fn lemma_mappable(info: SourceInfo)
    requires
        mappable(info@),
    ensures
        walkable(info@),
        0 <= weight(info@) <= usize::MAX,
        0 <= info@.start_offset() <= info@.end_offset(),
        info@.has_length(),
        info@.length() == info@.end_offset() - info@.start_offset(),
        info@.length() + weight(info@) <= usize::MAX,
{
    lemma_weight(info);
    match info {
        SourceInfo::Concat { pieces } => {
            source_info::lemma_concat_view(pieces);
            let views = source_info::piece_views(pieces@);
            source_info::lemma_pieces_length_prefix(views, 0);
        },
        _ => {},
    }
}

proof fn lemma_line_feeds_prefix(s: Seq<char>, n: int, m: int)
    requires
        0 <= n <= m,
    ensures
        line_feeds(s, n).len() <= line_feeds(s, m).len(),
        forall|i: int|
            0 <= i < line_feeds(s, n).len() ==> #[trigger] line_feeds(s, m)[i] == line_feeds(
                s,
                n,
            )[i],
    decreases m - n,
{
    if n < m {
        lemma_line_feeds_prefix(s, n, m - 1);
        assert forall|i: int| 0 <= i < line_feeds(s, n).len() implies #[trigger] line_feeds(s, m)[i]
            == line_feeds(s, n)[i] by {
            assert(line_feeds(s, m)[i] == line_feeds(s, m - 1)[i]);
        }
    }
}

impl<'a> LineIndex<'a> {
    /// Whether this is the index of the lines of `held`.
    fn fits(&self, held: &str) -> (yes: bool)
        ensures
            yes == (IndexView {
                line_breaks: self.line_breaks@,
                total_length: self.total_length,
            }).fits(held@),
    {
        if str_len(held) != self.total_length {
            return false;
        }
        let chars = chars_of(held);
        let mut offset: usize = 0;
        let mut found: usize = 0;
        let mut i: usize = 0;
        assert(held@.take(0) =~= Seq::empty());
        while i < chars.len()
            invariant
                chars@ == held@,
                i <= chars@.len(),
                self.total_length == text::byte_len(held@),
                offset == text::byte_len(held@.take(i as int)),
                found <= self.line_breaks@.len(),
                found == line_feeds(held@, i as int).len(),
                forall|j: int|
                    0 <= j < found ==> #[trigger] self.line_breaks@[j] == line_feeds(
                        held@,
                        i as int,
                    )[j],
            decreases chars.len() - i,
        {
            proof {
                text::lemma_byte_len_step(held@, i as int);
                text::lemma_byte_len_range(held@, i + 1, held@.len() as int);
                lemma_line_feeds_prefix(held@, i + 1, held@.len() as int);
            }
            if chars[i] == '\n' {
                assert(line_feeds(held@, i + 1).last() == offset);
                if found >= self.line_breaks.len() || self.line_breaks[found] != offset {
                    proof {
                        let feeds = line_feeds(held@, held@.len() as int);
                        assert(feeds[found as int] == offset);
                    }
                    return false;
                }
                found += 1;
            }
            offset += char_width(chars[i]);
            i += 1;
        }
        found == self.line_breaks.len()
    }
}

impl<'a> KnownFile<'a> {
    /// Whether places in the file can be counted in what is at hand.
    pub fn is_settled(&self) -> (yes: bool)
        ensures
            yes == self@.settled(),
    {
        match &self.index {
            Some(index) => match self.text {
                Some(held) => index.fits(held),
                None => false,
            },
            None => true,
        }
    }
}

/// The files that a source info leads to.
pub fn collect_files(info: &SourceInfo) -> (files: Vec<FileId>)
    ensures
        files@ == files_of(info@),
    decreases info,
{
    match info {
        SourceInfo::Original { file_id, .. } => {
            let mut files: Vec<FileId> = Vec::new();
            files.push(*file_id);
            files
        },
        SourceInfo::Substring { parent, .. } => collect_files(&**parent),
        SourceInfo::Concat { pieces } => {
            proof {
                source_info::lemma_concat_view(*pieces);
            }
            let mut files: Vec<FileId> = Vec::new();
            let mut i: usize = 0;
            while i < pieces.len()
                invariant
                    *info matches SourceInfo::Concat { pieces: own } && own == *pieces,
                    i <= pieces@.len(),
                    files@ == files_of_pieces(source_info::piece_views(pieces@), i as int),
                decreases pieces.len() - i,
            {
                let mut more = collect_files(&pieces[i].source_info);
                files.append(&mut more);
                i += 1;
            }
            files
        },
        SourceInfo::Generated { .. } => Vec::new(),
    }
}

/// Whether places can be counted in all the files that a source info leads to, as far as
/// the context knows them.
pub fn are_files_settled(info: &SourceInfo, context: &SourceContext) -> (yes: bool)
    ensures
        yes == files_settled(info@, *context),
{
    let files = collect_files(info);
    let mut i: usize = 0;
    while i < files.len()
        invariant
            i <= files@.len(),
            files@ == files_of(info@),
            forall|j: int|
                0 <= j < i ==> (file_in(*context, #[trigger] files_of(info@)[j]) matches Some(file)
                    ==> file.settled()),
        decreases files.len() - i,
    {
        if let Some(file) = find_file(context, files[i]) {
            if !file.is_settled() {
                assert(file_in(*context, files_of(info@)[i as int]) == Some(file@));
                return false;
            }
        }
        i += 1;
    }
    true
}

/// Whether the texts of all these files are there too.
pub fn are_files_held(info: &SourceInfo, context: &SourceContext) -> (yes: bool)
    ensures
        yes == files_held(info@, *context),
{
    let files = collect_files(info);
    let mut i: usize = 0;
    while i < files.len()
        invariant
            i <= files@.len(),
            files@ == files_of(info@),
            forall|j: int|
                0 <= j < i ==> (file_in(*context, #[trigger] files_of(info@)[j]) matches Some(file)
                    ==> file.held()),
        decreases files.len() - i,
    {
        if let Some(file) = find_file(context, files[i]) {
            if file.text.is_none() || !file.is_settled() {
                assert(file_in(*context, files_of(info@)[i as int]) == Some(file@));
                return false;
            }
        }
        i += 1;
    }
    true
}

proof fn lemma_pieces_measurable(pieces: Seq<(SourceView, int)>, i: int)
    requires
        walkable(SourceView::Concat { pieces }),
        0 <= i < pieces.len(),
    ensures
        measurable(pieces[i].0),
{
    let info = SourceView::Concat { pieces };
    assert(info->pieces == pieces);
    assert(measurable(info->pieces[i].0));
}

/// Whether the length of a source info can be taken, and those that come up on the way
/// to its files.
fn is_measurable(info: &SourceInfo) -> (yes: bool)
    ensures
        yes == measurable(info@),
    decreases info, 1int,
{
    match info {
        SourceInfo::Original { start_offset, end_offset, .. } => start_offset <= end_offset,
        SourceInfo::Substring { parent, start_offset, end_offset } => start_offset <= end_offset
            && is_walkable(&**parent),
        _ => is_walkable(info),
    }
}

/// Whether the lengths that come up on the way to the files can be taken.
fn is_walkable(info: &SourceInfo) -> (yes: bool)
    ensures
        yes == walkable(info@),
    decreases info, 0int,
{
    match info {
        SourceInfo::Substring { parent, .. } => is_walkable(&**parent),
        SourceInfo::Concat { pieces } => {
            let ghost views = source_info::piece_views(pieces@);
            proof {
                source_info::lemma_concat_view(*pieces);
            }
            let mut i: usize = 0;
            while i < pieces.len()
                invariant
                    *info matches SourceInfo::Concat { pieces: own } && own == *pieces,
                    views == source_info::piece_views(pieces@),
                    info@ == (SourceView::Concat { pieces: views }),
                    i <= pieces@.len(),
                    forall|j: int| 0 <= j < i ==> measurable((#[trigger] views[j]).0),
                decreases pieces.len() - i,
            {
                if !is_measurable(&pieces[i].source_info) {
                    proof {
                        if walkable(info@) {
                            lemma_pieces_measurable(views, i as int);
                        }
                    }
                    return false;
                }
                i += 1;
            }
            true
        },
        _ => true,
    }
}

proof fn lemma_pieces_weight_prefix(pieces: Seq<SourcePiece>, n: int, m: int)
    requires
        0 <= n <= m <= pieces.len(),
    ensures
        0 <= pieces_weight(source_info::piece_views(pieces), n) <= pieces_weight(
            source_info::piece_views(pieces),
            m,
        ),
    decreases m - n,
{
    lemma_pieces_weight(pieces, n);
    if n < m {
        lemma_pieces_weight_prefix(pieces, n, m - 1);
        lemma_weight(pieces[m - 1].source_info);
    }
}

/// The bound on all the offsets that come up on the way to the files, if a machine word
/// holds it.
fn weight_of(info: &SourceInfo) -> (bound: Option<usize>)
    ensures
        match bound {
            Some(b) => b == weight(info@),
            None => weight(info@) > usize::MAX,
        },
    decreases info,
{
    match info {
        SourceInfo::Original { start_offset, end_offset, .. } => start_offset.checked_add(
            *end_offset,
        ),
        SourceInfo::Substring { parent, start_offset, end_offset } => {
            proof {
                lemma_weight(**parent);
            }
            match (start_offset.checked_add(*end_offset), weight_of(&**parent)) {
                (Some(own), Some(rest)) => own.checked_add(rest),
                _ => None,
            }
        },
        SourceInfo::Concat { pieces } => {
            let ghost views = source_info::piece_views(pieces@);
            proof {
                source_info::lemma_concat_view(*pieces);
            }
            let mut total: usize = 0;
            let mut i: usize = 0;
            while i < pieces.len()
                invariant
                    *info matches SourceInfo::Concat { pieces: own } && own == *pieces,
                    views == source_info::piece_views(pieces@),
                    info@ == (SourceView::Concat { pieces: views }),
                    i <= pieces@.len(),
                    total == pieces_weight(views, i as int),
                decreases pieces.len() - i,
            {
                proof {
                    lemma_pieces_weight_prefix(pieces@, i + 1, pieces@.len() as int);
                    lemma_weight(pieces@[i as int].source_info);
                    assert(views[i as int] == (
                        pieces@[i as int].source_info@,
                        pieces@[i as int].length as int,
                    ));
                }
                let own = match weight_of(&pieces[i].source_info) {
                    Some(rest) => pieces[i].length.checked_add(rest),
                    None => None,
                };
                let next = match own {
                    Some(piece) => total.checked_add(piece),
                    None => None,
                };
                match next {
                    Some(sum) => {
                        total = sum;
                    },
                    None => {
                        return None;
                    },
                }
                i += 1;
            }
            Some(total)
        },
        SourceInfo::Generated { .. } => Some(0),
    }
}

/// Whether a source info can be followed to its files within the limits of the machine.
pub fn is_mappable(info: &SourceInfo) -> (yes: bool)
    ensures
        yes == mappable(info@),
{
    is_measurable(info) && match weight_of(info) {
        Some(bound) => bound <= usize::MAX / 2,
        None => false,
    }
}

} // verus!
