//! What holds of every source info: of its length, and of where its offsets stand in files.

use crate::source_info;
use crate::source_info::{FileId, SourceView};
use crate::source_map;
use crate::source_map::{FileView, IndexView};
use crate::source_text;
use crate::text;
use quarto_source_map::SourceContext;
use vstd::prelude::*;

verus! {

/// Whether no piece has a negative length.
pub open spec fn have_lengths(pieces: Seq<(SourceView, int)>) -> bool {
    forall|i: int| 0 <= i < pieces.len() ==> 0 <= (#[trigger] pieces[i]).1
}

proof fn lemma_length_step(pieces: Seq<(SourceView, int)>, k: int)
    requires
        0 <= k < pieces.len(),
    ensures
        source_info::pieces_length(pieces.take(k + 1)) == source_info::pieces_length(pieces.take(k))
            + pieces[k].1,
{
    assert(pieces.take(k + 1).drop_last() =~= pieces.take(k));
    assert(pieces.take(k + 1).last() == pieces[k]);
}

proof fn lemma_length_grows(pieces: Seq<(SourceView, int)>, j: int, k: int)
    requires
        0 <= j <= k <= pieces.len(),
        have_lengths(pieces),
    ensures
        source_info::pieces_length(pieces.take(j)) <= source_info::pieces_length(pieces.take(k)),
    decreases k - j,
{
    if j < k {
        lemma_length_grows(pieces, j, k - 1);
        lemma_length_step(pieces, k - 1);
        assert(0 <= pieces[k - 1].1);
    }
}

proof fn lemma_point_in_piece(
    pieces: Seq<(SourceView, int)>,
    j: int,
    k: int,
    offset: int,
    context: SourceContext,
)
    requires
        0 <= j <= k < pieces.len(),
        have_lengths(pieces),
        0 <= offset < pieces[k].1,
    ensures
        source_map::point_of_pieces(
            pieces,
            j,
            source_info::pieces_length(pieces.take(k)) - source_info::pieces_length(pieces.take(j))
                + offset,
            context,
        ) == source_map::point_of(pieces[k].0, offset, context),
    decreases k - j,
{
    if j < k {
        lemma_point_in_piece(pieces, j + 1, k, offset, context);
        lemma_length_step(pieces, j);
        lemma_length_grows(pieces, j + 1, k);
    }
}

/// An offset inside of a piece of a concatenation stands where it stands in that piece,
/// counted from the piece's start.
pub proof fn law_offset_stands_in_its_piece(
    pieces: Seq<(SourceView, int)>,
    k: int,
    offset: int,
    context: SourceContext,
)
    requires
        0 <= k < pieces.len(),
        have_lengths(pieces),
        0 <= offset < pieces[k].1,
    ensures
        source_map::point_of(
            SourceView::Concat { pieces },
            source_info::pieces_length(pieces.take(k)) + offset,
            context,
        ) == source_map::point_of(pieces[k].0, offset, context),
{
    lemma_point_in_piece(pieces, 0, k, offset, context);
    assert(pieces.take(0) =~= Seq::empty());
}

proof fn lemma_point_behind(
    pieces: Seq<(SourceView, int)>,
    j: int,
    past: int,
    context: SourceContext,
)
    requires
        0 <= j < pieces.len(),
        have_lengths(pieces),
        0 <= past,
    ensures
        source_map::point_of_pieces(
            pieces,
            j,
            source_info::pieces_length(pieces) - source_info::pieces_length(pieces.take(j)) + past,
            context,
        ) == if past == 0 {
            source_map::point_of(pieces.last().0, pieces.last().0.length(), context)
        } else {
            None
        },
    decreases pieces.len() - j,
{
    assert(pieces.take(pieces.len() as int) =~= pieces);
    lemma_length_step(pieces, j);
    lemma_length_grows(pieces, j + 1, pieces.len() as int);
    if j + 1 < pieces.len() {
        lemma_point_behind(pieces, j + 1, past, context);
    } else {
        reveal_with_fuel(source_map::point_of_pieces, 2);
    }
}

/// The end of a concatenation stands where the last piece ends, and nothing stands behind it.
pub proof fn law_concatenation_ends_with_its_last_piece(
    pieces: Seq<(SourceView, int)>,
    past: int,
    context: SourceContext,
)
    requires
        pieces.len() > 0,
        have_lengths(pieces),
        0 < past,
    ensures
        source_map::point_of(
            SourceView::Concat { pieces },
            SourceView::Concat { pieces }.length(),
            context,
        ) == source_map::point_of(pieces.last().0, pieces.last().0.length(), context),
        source_map::point_of(
            SourceView::Concat { pieces },
            SourceView::Concat { pieces }.length() + past,
            context,
        ) is None,
{
    lemma_point_behind(pieces, 0, 0, context);
    lemma_point_behind(pieces, 0, past, context);
    assert(pieces.take(0) =~= Seq::empty());
}

/// Of two texts one after the other, an offset inside of the first stands where it stands in
/// the first, and one behind it stands in the second.
pub proof fn law_combined_texts_follow_each_other(
    a: SourceView,
    b: SourceView,
    offset: int,
    context: SourceContext,
)
    requires
        0 <= a.length(),
        0 <= b.length(),
    ensures
        0 <= offset < a.length() ==> source_map::point_of(a.combine(b), offset, context)
            == source_map::point_of(a, offset, context),
        0 <= offset < b.length() ==> source_map::point_of(
            a.combine(b),
            a.length() + offset,
            context,
        ) == source_map::point_of(b, offset, context),
        source_map::point_of(a.combine(b), a.length() + b.length(), context)
            == source_map::point_of(b, b.length(), context),
{
    let pieces = seq![(a, a.length()), (b, b.length())];
    assert(pieces.take(0) =~= Seq::empty());
    assert(pieces.take(1).drop_last() =~= Seq::empty());
    assert(pieces.drop_last() =~= pieces.take(1));
    reveal_with_fuel(source_info::pieces_length, 3);
    if 0 <= offset < a.length() {
        law_offset_stands_in_its_piece(pieces, 0, offset, context);
    }
    if 0 <= offset < b.length() {
        law_offset_stands_in_its_piece(pieces, 1, offset, context);
    }
    law_concatenation_ends_with_its_last_piece(pieces, 1, context);
}

/// An offset of a range stands where it stands in what the range is a part of, counted from
/// the start of the range there.
pub proof fn law_offset_of_a_part_stands_in_the_whole(
    parent: SourceView,
    start: int,
    end: int,
    offset: int,
    context: SourceContext,
)
    ensures
        source_map::point_of(
            SourceView::Substring { parent: Box::new(parent), start, end },
            offset,
            context,
        ) == source_map::point_of(parent, start + offset, context),
{
}

/// The first byte of a character of a held file stands at that character: at its own offset,
/// in the file, and in the row and the column that the characters before it lead to.
pub proof fn law_offset_stands_at_its_character(
    file_id: FileId,
    start: int,
    end: int,
    i: int,
    context: SourceContext,
)
    requires
        source_map::file_in(context, file_id) matches Some(file) && {
            &&& file.index is Some
            &&& file.text is Some
            &&& 0 <= i <= file.text->0.len()
        },
    ensures
        ({
            let held = source_map::file_in(context, file_id)->0.text->0;
            let offset = text::byte_len(held.take(i)) - start;
            source_map::point_of(SourceView::Original { file_id, start, end }, offset, context)
                matches Some(point) && {
                &&& point.file_id == file_id
                &&& point.offset == text::byte_len(held.take(i))
                &&& point.row == source_text::row_at(held, i)
                &&& point.column == source_text::column_at(held, i)
            }
        }),
{
    let held = source_map::file_in(context, file_id)->0.text->0;
    source_text::lemma_clip_exact(held, 0, i);
    assert(held.subrange(0, i) =~= held.take(i));
    text::lemma_byte_len_split(held, i);
}

/// No place is known of what was generated, of a file that the context does not know, and
/// past the end of a file.
pub proof fn law_unknown_places(info: SourceView, offset: int, context: SourceContext)
    ensures
        info is Generated ==> source_map::point_of(info, offset, context) is None,
        info matches SourceView::Original { file_id, start, .. } ==> (match source_map::file_in(
            context,
            file_id,
        ) {
            None => source_map::point_of(info, offset, context) is None,
            Some(file) => {
                &&& file.index is None || file.text is None ==> source_map::point_of(
                    info,
                    offset,
                    context,
                ) is None
                &&& file.text is Some && start + offset > text::byte_len(file.text->0)
                    ==> source_map::point_of(info, offset, context) is None
            },
        }),
{
}

/// A source info leads to the file that it is a range of, directly or through what it is a part
/// of, and several texts lead to the files of each, in their order.
pub proof fn law_files_of_a_source_info(a: SourceView, b: SourceView, start: int, end: int)
    ensures
        a matches SourceView::Original { file_id, .. } ==> source_map::files_of(a) == seq![file_id],
        a is Generated ==> source_map::files_of(a).len() == 0,
        source_map::files_of(SourceView::Substring { parent: Box::new(a), start, end })
            == source_map::files_of(a),
        source_map::files_of(a.combine(b)) == source_map::files_of(a) + source_map::files_of(b),
{
    let pieces = seq![(a, a.length()), (b, b.length())];
    reveal_with_fuel(source_map::files_of_pieces, 3);
    assert(pieces[0].0 == a && pieces[1].0 == b);
    assert(source_map::files_of_pieces(pieces, 0) =~= Seq::empty());
    assert(source_map::files_of_pieces(pieces, 1) =~= source_map::files_of(a));
    assert(source_map::files_of_pieces(pieces, 2) =~= source_map::files_of(a)
        + source_map::files_of(b));
}

/// A range can be followed to its file just where it does not end before it starts and its
/// offsets, together with those of the range that it is a part of, leave room for twice their sum.
pub proof fn law_ranges_that_can_be_followed(
    file_id: FileId,
    start: int,
    end: int,
    from: int,
    to: int,
    kind: Seq<char>,
)
    ensures
        source_map::mappable(SourceView::Original { file_id, start, end }) <==> start <= end && 2
            * (start + end) <= usize::MAX,
        source_map::mappable(
            SourceView::Substring {
                parent: Box::new(SourceView::Original { file_id, start, end }),
                start: from,
                end: to,
            },
        ) <==> from <= to && 2 * (start + end + from + to) <= usize::MAX,
        source_map::mappable(SourceView::Generated { kind }),
{
    reveal_with_fuel(source_map::weight, 3);
    reveal_with_fuel(source_map::walkable, 2);
    reveal_with_fuel(source_map::measurable, 2);
}

/// Two ranges one after the other can be followed just where neither ends before it starts and
/// there is room for twice the sum of their offsets and their lengths.
pub proof fn law_combined_ranges_that_can_be_followed(
    file_id: FileId,
    start: int,
    end: int,
    from: int,
    to: int,
)
    ensures
        source_map::mappable(
            (SourceView::Original { file_id, start, end }).combine(
                SourceView::Original { file_id, start: from, end: to },
            ),
        ) <==> start <= end && from <= to && 4 * (end + to) <= usize::MAX,
{
    let a = SourceView::Original { file_id, start, end };
    let b = SourceView::Original { file_id, start: from, end: to };
    let pieces = seq![(a, a.length()), (b, b.length())];
    assert(pieces[0].0 == a && pieces[1].0 == b);
    reveal_with_fuel(source_map::pieces_weight, 4);
    reveal_with_fuel(source_map::weight, 2);
    reveal_with_fuel(source_map::walkable, 2);
    reveal_with_fuel(source_map::measurable, 2);
    assert(source_map::measurable(pieces[0].0) <==> start <= end);
    assert(source_map::measurable(pieces[1].0) <==> from <= to);
    assert(source_map::pieces_weight(pieces, 2) == (end - start) + (start + end) + (to - from) + (
    from + to));
}

proof fn lemma_line_feeds(s: Seq<char>, n: int)
    requires
        0 <= n <= s.len(),
    ensures
        source_map::line_feeds(s, n).len() == source_text::row_at(s, n),
        forall|k: int|
            0 <= k < n && #[trigger] s[k] == '\n' ==> 0 <= source_text::row_at(s, k)
                < source_text::row_at(s, n) && source_map::line_feeds(
                s,
                n,
            )[source_text::row_at(s, k)] == text::byte_len(s.take(k)),
    decreases n,
{
    if n > 0 {
        lemma_line_feeds(s, n - 1);
    }
}

/// The index of a text's lines holds the byte offset of every line feed, at the place of the row
/// that the line feed ends, and nothing else; and it holds the length of the text.
pub proof fn law_index_holds_the_line_feeds(index: IndexView, held: Seq<char>)
    ensures
        index.fits(held) ==> {
            &&& index.total_length == text::byte_len(held)
            &&& index.line_breaks.len() == source_text::row_at(held, held.len() as int)
            &&& forall|k: int|
                0 <= k < held.len() && #[trigger] held[k] == '\n' ==> 0 <= source_text::row_at(
                    held,
                    k,
                ) < index.line_breaks.len()
                    && index.line_breaks[source_text::row_at(held, k)] == text::byte_len(
                    held.take(k),
                )
        },
        index.total_length == text::byte_len(held) && index.line_breaks.len() == 0 && (forall|k:
            int| 0 <= k < held.len() ==> #[trigger] held[k] != '\n') ==> index.fits(held),
{
    lemma_line_feeds(held, held.len() as int);
    if forall|k: int| 0 <= k < held.len() ==> #[trigger] held[k] != '\n' {
        lemma_single_row(held, held.len() as int);
    }
}

proof fn lemma_single_row(s: Seq<char>, n: int)
    requires
        0 <= n <= s.len(),
        forall|k: int| 0 <= k < n ==> #[trigger] s[k] != '\n',
    ensures
        source_text::row_at(s, n) == 0,
    decreases n,
{
    if n > 0 {
        lemma_single_row(s, n - 1);
    }
}

/// Places can be counted in a file without an index of its lines, which has none, and in one
/// whose text is held and whose index is that of the text. They can be shown where the text is
/// held too.
pub proof fn law_files_that_are_settled(file: FileView)
    ensures
        file.index is None ==> file.settled(),
        file.index is Some && file.text is None ==> !file.settled(),
        file.index is Some && file.text is Some ==> (file.settled() <==> file.index->0.fits(
            file.text->0,
        )),
        file.held() <==> file.settled() && file.text is Some,
{
}

} // verus!
