//! What holds of every diagnostic.

use crate::diagnostic;
use crate::diagnostic::{DiagnosticView, RangeView};
use crate::diagnostic_json;
use crate::json;
use crate::json::JsonView;
use crate::laws;
use crate::message;
use crate::parser;
use crate::source_info;
use crate::source_info::SourceView;
use crate::source_map;
use crate::source_text;
use crate::text;
use crate::validation_error;
use crate::validation_error::ValidationErrorView;
use quarto_source_map::SourceContext;
use vstd::prelude::*;

verus! {

/// A compact line is one line.
pub proof fn law_compact_is_one_line(diagnostic: DiagnosticView)
    ensures
        text::one_line(diagnostic.compact()),
{
    let told = diagnostic.told();
    text::lemma_flattened(told, told.len() as int);
}

/// What is told without line breaks stands in the compact line as it is.
pub proof fn law_compact_tells_everything(diagnostic: DiagnosticView)
    requires
        text::one_line(diagnostic.told()),
    ensures
        diagnostic.compact() == diagnostic.told(),
{
    let told = diagnostic.told();
    text::lemma_flattened_is_same(told, told.len() as int);
    assert(told.take(told.len() as int) =~= told);
}

/// What stands between two parts of a text stands in the text.
pub proof fn lemma_holds_behind(
    told: Seq<char>,
    before: Seq<char>,
    line: Seq<char>,
    after: Seq<char>,
)
    requires
        told == before + line + after,
    ensures
        message::holds(told, line),
{
    let i = before.len() as int;
    assert(told.subrange(i, i + line.len()) =~= line);
    assert(message::stands_at(told, line, i));
}

/// The text of a diagnostic tells the code in brackets and the title, with an excerpt and
/// without.
pub proof fn law_text_tells_code_and_title(
    error: ValidationErrorView,
    context: SourceContext,
    told: Seq<char>,
)
    requires
        message::tells(told, diagnostic::error_message(error), context),
        message::without_escapes(validation_error::kind_code(error.kind)),
    ensures
        message::holds(told, "["@ + validation_error::kind_code(error.kind) + "]"@),
        message::holds(told, "YAML Validation Failed"@),
{
    let message = diagnostic::error_message(error);
    let code = validation_error::kind_code(error.kind);
    let title = "YAML Validation Failed"@;
    let bracketed = "["@ + code + "]"@;
    let line = message::title_line(message);
    reveal_strlit("Error [");
    reveal_strlit("Error ");
    reveal_strlit("[");
    reveal_strlit("]");
    reveal_strlit("]: ");
    reveal_strlit(": ");
    reveal_strlit("] ");
    reveal_strlit(" ");
    reveal_strlit("\n");
    reveal_strlit("YAML Validation Failed");
    if message::has_excerpt(message, context) {
        assert(message::without_escapes(line));
        let i = choose|i: int| message::is_headed_at(told, line, i);
        let before = told.take(i);
        let after = told.skip(i + line.len());
        assert(told =~= before + line + after);
        assert(line =~= bracketed + " "@ + title + "\n"@);
        assert(told =~= before + bracketed + (" "@ + title + "\n"@ + after));
        assert(told =~= (before + bracketed + " "@) + title + ("\n"@ + after));
        lemma_holds_behind(told, before, bracketed, " "@ + title + "\n"@ + after);
        lemma_holds_behind(told, before + bracketed + " "@, title, "\n"@ + after);
    } else {
        let after = message::place_line(message, context) + message::problem_line(message)
            + message::trailing_lines(message);
        let head = message::headline(message);
        assert(head =~= "Error "@ + bracketed + ": "@ + title + "\n"@);
        assert(told =~= "Error "@ + bracketed + (": "@ + title + "\n"@ + after));
        assert(told =~= ("Error "@ + bracketed + ": "@) + title + ("\n"@ + after));
        lemma_holds_behind(told, "Error "@, bracketed, ": "@ + title + "\n"@ + after);
        lemma_holds_behind(told, "Error "@ + bracketed + ": "@, title, "\n"@ + after);
    }
}

/// The hint of a schema's author takes the place of every generated hint.
pub proof fn law_authored_hint_wins(diagnostic: DiagnosticView)
    ensures
        diagnostic.custom_hint matches Some(hint) ==> diagnostic.hints() == seq![hint],
        diagnostic.custom_hint is None ==> diagnostic.hints() == diagnostic::suggested_hints(
            diagnostic.kind,
        ),
{
}

/// There is never more than one hint.
pub proof fn law_at_most_one_hint(diagnostic: DiagnosticView)
    ensures
        diagnostic.hints().len() <= 1,
{
}

proof fn lemma_record_keys(members: Seq<(Seq<char>, JsonView)>, n: int, name: Seq<char>)
    requires
        0 <= n <= members.len(),
    ensures
        json::record_of(members, n).contains_key(name) <==> exists|i: int|
            0 <= i < n && #[trigger] members[i].0 == name,
    decreases n,
{
    if n > 0 {
        lemma_record_keys(members, n - 1, name);
        if json::record_of(members, n).contains_key(name) && members[n - 1].0 != name {
            let i = choose|i: int| 0 <= i < n - 1 && #[trigger] members[i].0 == name;
            assert(members[i].0 == name);
        }
    }
}

/// A diagnostic as JSON always tells its kind, its code, its paths and its message. It has
/// a range just where the range is known, and hints just where there are any.
pub proof fn law_json_members(diagnostic: DiagnosticView)
    ensures
        json::record(diagnostic_json::diagnostic_members(diagnostic)) matches JsonView::Record(
            record,
        ) && {
            &&& record.contains_key("error_kind"@)
            &&& record.contains_key("code"@)
            &&& record.contains_key("instance_path"@)
            &&& record.contains_key("schema_path"@)
            &&& record.contains_key("message"@)
            &&& record.contains_key("source_range"@) <==> diagnostic.source_range is Some
            &&& record.contains_key("hints"@) <==> diagnostic.hints().len() > 0
        },
{
    reveal_strlit("error_kind");
    reveal_strlit("code");
    reveal_strlit("instance_path");
    reveal_strlit("schema_path");
    reveal_strlit("source_range");
    reveal_strlit("message");
    reveal_strlit("hints");
    let members = diagnostic_json::diagnostic_members(diagnostic);
    let n = members.len() as int;
    lemma_record_keys(members, n, "error_kind"@);
    lemma_record_keys(members, n, "code"@);
    lemma_record_keys(members, n, "instance_path"@);
    lemma_record_keys(members, n, "schema_path"@);
    lemma_record_keys(members, n, "message"@);
    lemma_record_keys(members, n, "source_range"@);
    lemma_record_keys(members, n, "hints"@);
    assert("error_kind"@.len() == 10);
    assert("code"@.len() == 4);
    assert("instance_path"@.len() == 13);
    assert("schema_path"@.len() == 11);
    assert("source_range"@.len() == 12);
    assert("message"@.len() == 7);
    assert("hints"@.len() == 5);
    assert(members[0].0 == "error_kind"@);
    assert(members[1].0 == "code"@);
    assert(members[2].0 == "instance_path"@);
    assert(members[3].0 == "schema_path"@);
    let told: int = if diagnostic.source_range is Some {
        5
    } else {
        4
    };
    if diagnostic.source_range is Some {
        assert(members[4].0 == "source_range"@);
    }
    assert(members[told].0 == "message"@);
    if diagnostic.hints().len() > 0 {
        assert(members[told + 1].0 == "hints"@);
        assert(n == told + 2);
    } else {
        assert(n == told + 1);
    }
    assert forall|i: int| 0 <= i < n && diagnostic.source_range is None implies
        #[trigger] members[i].0 != "source_range"@ by {
        assert(members[i].0.len() != 12);
    }
    assert forall|i: int| 0 <= i < n && diagnostic.hints().len() == 0 implies
        #[trigger] members[i].0 != "hints"@ by {
        assert(members[i].0.len() != 5);
    }
}

proof fn lemma_point_of_chain(info: SourceView, offset: int, context: SourceContext)
    ensures
        source_info::absolute_start(info) matches Some((file_id, start)) ==> source_map::point_of(
            info,
            offset,
            context,
        ) == source_map::point_of(
            SourceView::Original { file_id, start, end: start },
            offset,
            context,
        ),
    decreases info,
{
    if let SourceView::Substring { parent, start, .. } = info {
        lemma_point_of_chain(*parent, start + offset, context);
    }
}

/// The range of a chain of ranges is counted in the file at its end. Where the file's text
/// is held and the chain starts and ends between characters of it, the offsets are those of
/// the file, and lines and columns are those of the characters there.
pub proof fn law_range_is_counted_in_its_file(
    info: SourceView,
    context: SourceContext,
    from: int,
    to: int,
)
    requires
        source_info::absolute_start(info) matches Some((file_id, start))
            && source_map::file_in(context, file_id) matches Some(file)
            && file.text matches Some(held) && {
            &&& file.index is Some
            &&& 0 <= from <= held.len()
            &&& 0 <= to <= held.len()
            &&& text::byte_len(held.take(from)) == start
            &&& text::byte_len(held.take(to)) == start + info.length()
        },
    ensures
        source_info::absolute_start(info) matches Some((file_id, start))
            && source_map::file_in(context, file_id) matches Some(file)
            && file.text matches Some(held) && diagnostic::range_of(info, context) == Some(
            RangeView {
                filename: file.path,
                start_offset: start as nat,
                end_offset: (start + info.length()) as nat,
                start_line: (source_text::row_at(held, from) + 1) as nat,
                start_column: (source_text::column_at(held, from) + 1) as nat,
                end_line: (source_text::row_at(held, to) + 1) as nat,
                end_column: (source_text::column_at(held, to) + 1) as nat,
            },
        ),
{
    lemma_point_of_chain(info, 0, context);
    lemma_point_of_chain(info, info.length(), context);
    let (file_id, start) = source_info::absolute_start(info)->0;
    let held = source_map::file_in(context, file_id)->0.text->0;
    source_text::lemma_clip_exact(held, 0, from);
    source_text::lemma_clip_exact(held, 0, to);
    assert(held.subrange(0, from) =~= held.take(from));
    assert(held.subrange(0, to) =~= held.take(to));
    text::lemma_byte_len_split(held, from);
    text::lemma_byte_len_split(held, to);
}

/// The range of a place in a file's document is that place: the offsets are the place's own,
/// in the file that was parsed, and lines and columns are those of the characters there.
pub proof fn law_range_of_a_place_is_that_place(
    content: Seq<char>,
    filename: Seq<char>,
    span: SourceView,
    context: SourceContext,
)
    requires
        laws::sliceable(parser::file_origin(content, filename), span),
        source_map::file_in(context, parser::filename_id(filename)) matches Some(file)
            && file.text == Some(content) && file.index is Some,
    ensures
        ({
            let from = source_text::clip(content, 0, span.start_offset() as nat);
            let to = source_text::clip(content, 0, span.end_offset() as nat);
            diagnostic::range_of(span, context) == Some(
                RangeView {
                    filename: source_map::file_in(
                        context,
                        parser::filename_id(filename),
                    )->0.path,
                    start_offset: span.start_offset() as nat,
                    end_offset: span.end_offset() as nat,
                    start_line: (source_text::row_at(content, from) + 1) as nat,
                    start_column: (source_text::column_at(content, from) + 1) as nat,
                    end_line: (source_text::row_at(content, to) + 1) as nat,
                    end_column: (source_text::column_at(content, to) + 1) as nat,
                },
            )
        }),
{
    let from = text::lemma_boundary_char(content, span.start_offset());
    let to = text::lemma_boundary_char(content, span.end_offset());
    source_text::lemma_clip_exact(content, 0, from);
    source_text::lemma_clip_exact(content, 0, to);
    assert(content.subrange(0, from) =~= content.take(from));
    assert(content.subrange(0, to) =~= content.take(to));
    assert(source_info::absolute_start(span) == Some(
        (parser::filename_id(filename), span.start_offset()),
    )) by {
        reveal_with_fuel(source_info::absolute_start, 2);
    }
    law_range_is_counted_in_its_file(span, context, from, to);
}

/// There is no range in a file that the context does not know.
pub proof fn law_no_range_in_an_unknown_file(info: SourceView, context: SourceContext)
    requires
        source_info::absolute_start(info) matches Some((file_id, _)) && source_map::file_in(
            context,
            file_id,
        ) is None,
    ensures
        diagnostic::range_of(info, context) is None,
{
    lemma_point_of_chain(info, 0, context);
}

/// A range is known just where both ends of a source info stand in files and the context knows
/// how the file of the start is called. It starts where the first offset stands and ends where
/// the last one stands, in lines and columns that are counted from one.
pub proof fn law_range_runs_between_its_ends(info: SourceView, context: SourceContext)
    ensures
        match (
            source_map::point_of(info, 0, context),
            source_map::point_of(info, info.length(), context),
        ) {
            (Some(from), Some(to)) => match source_map::file_in(context, from.file_id) {
                Some(file) => diagnostic::range_of(info, context) matches Some(range) && {
                    &&& range.filename == file.path
                    &&& range.start_offset == from.offset as nat
                    &&& range.start_line == (1 + from.row) as nat
                    &&& range.start_column == (1 + from.column) as nat
                    &&& range.end_offset == to.offset as nat
                    &&& range.end_line == (1 + to.row) as nat
                    &&& range.end_column == (1 + to.column) as nat
                },
                None => diagnostic::range_of(info, context) is None,
            },
            _ => diagnostic::range_of(info, context) is None,
        },
{
}

/// An error can be diagnosed where nothing is known of its value, and where its value is a node
/// of a file's document within the limits of the machine and the file is settled. A diagnostic
/// can be shown where, beyond that, the file's text is held.
pub proof fn law_errors_of_a_file_can_be_diagnosed(
    content: Seq<char>,
    filename: Seq<char>,
    error: ValidationErrorView,
    context: SourceContext,
)
    ensures
        error.node is None ==> diagnostic::can_diagnose(error, context) && diagnostic::diagnosed(
            error,
            context,
        ).can_render(context),
        error.node is Some && laws::places_hold(
            parser::file_origin(content, filename),
            error.node->0,
        ) && 6 * text::byte_len(content) <= usize::MAX && source_map::file_in(
            context,
            parser::filename_id(filename),
        ) is Some ==> {
            let file = source_map::file_in(context, parser::filename_id(filename))->0;
            &&& file.settled() <==> diagnostic::can_diagnose(error, context)
            &&& file.held() <==> diagnostic::diagnosed(error, context).can_render(context)
        },
{
    let origin = parser::file_origin(content, filename);
    if error.node is Some && laws::places_hold(origin, error.node->0) && 6 * text::byte_len(content)
        <= usize::MAX {
        let span = error.node->0.span;
        reveal_with_fuel(source_map::weight, 2);
        reveal_with_fuel(source_map::walkable, 2);
        assert(laws::within_limits(origin));
        laws::law_places_can_be_followed(origin, error.node->0);
        reveal_with_fuel(source_map::files_of, 3);
        assert(source_map::files_of(span) =~= seq![parser::filename_id(filename)]);
        assert(source_map::files_of(span)[0] == parser::filename_id(filename));
    }
}

} // verus!
