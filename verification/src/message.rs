//! Messages for people.
//!
//! Messages are put together and rendered by `quarto_error_reporting`.

use crate::source_info::SourceView;
use crate::source_map;
use crate::source_map::PointView;
use crate::text;
use quarto_error_reporting::{DiagnosticMessage, DiagnosticMessageBuilder};
use quarto_source_map::{SourceContext, SourceInfo as MappedInfo};
use vstd::prelude::*;

verus! {

#[verifier::external_type_specification]
#[verifier::external_body]
pub struct ExDiagnosticMessage(DiagnosticMessage);

#[verifier::external_type_specification]
#[verifier::external_body]
pub struct ExDiagnosticMessageBuilder(DiagnosticMessageBuilder);

/// How grave a message is.
pub enum Severity {
    Error,
    Warning,
    Info,
    Note,
}

/// What a detail is for.
pub enum DetailClass {
    Error,
    Info,
    Note,
}

/// What a detail is told with, what it is for, and whether it has a place of its own.
pub struct DetailView {
    pub content: Seq<char>,
    pub class: DetailClass,
    pub has_place: bool,
}

/// What a message holds.
pub struct MessageView {
    pub severity: Severity,
    pub title: Seq<char>,
    pub code: Option<Seq<char>>,
    pub problem: Option<Seq<char>>,
    pub location: Option<SourceView>,
    pub details: Seq<DetailView>,
    pub hints: Seq<Seq<char>>,
}

/// What a message that is being put together holds.
pub uninterp spec fn drafted(builder: DiagnosticMessageBuilder) -> MessageView;

/// What a message holds.
pub uninterp spec fn written(message: DiagnosticMessage) -> MessageView;

/// Whether `DiagnosticMessage::to_text` can give `text`. What it gives may depend on files
/// on disk.
pub uninterp spec fn can_render_to(
    message: MessageView,
    context: SourceContext,
    text: Seq<char>,
) -> bool;

/// The lines of the first `n` details.
pub open spec fn detail_lines(details: Seq<DetailView>, n: int) -> Seq<char>
    decreases n,
{
    if 0 < n <= details.len() {
        let bullet = match details[n - 1].class {
            DetailClass::Error => "✖ "@,
            DetailClass::Info => "ℹ "@,
            DetailClass::Note => "• "@,
        };
        detail_lines(details, n - 1) + bullet + details[n - 1].content + "\n"@
    } else {
        Seq::empty()
    }
}

/// The lines of the first `n` hints.
pub open spec fn hint_lines(hints: Seq<Seq<char>>, n: int) -> Seq<char>
    decreases n,
{
    if 0 < n <= hints.len() {
        hint_lines(hints, n - 1) + "ℹ "@ + hints[n - 1] + "\n"@
    } else {
        Seq::empty()
    }
}

/// The lines of a message that follow its head: details and hints.
pub open spec fn trailing_lines(message: MessageView) -> Seq<char> {
    detail_lines(message.details, message.details.len() as int) + hint_lines(
        message.hints,
        message.hints.len() as int,
    )
}

/// The first line of an error.
pub open spec fn headline(message: MessageView) -> Seq<char> {
    match message.code {
        Some(code) => "Error ["@ + code + "]: "@ + message.title + "\n"@,
        None => "Error: "@ + message.title + "\n"@,
    }
}

/// The line that states the problem.
pub open spec fn problem_line(message: MessageView) -> Seq<char> {
    match message.problem {
        Some(problem) => problem + "\n"@,
        None => Seq::empty(),
    }
}

/// Whether no detail has a place of its own.
pub open spec fn without_places(details: Seq<DetailView>) -> bool {
    forall|i: int| 0 <= i < details.len() ==> !(#[trigger] details[i]).has_place
}

/// Whether `text` ends in `end`.
pub open spec fn ends_in(text: Seq<char>, end: Seq<char>) -> bool {
    end.len() <= text.len() && text.skip(text.len() - end.len()) == end
}

/// Whether `line` stands in `told` from `i` on.
pub open spec fn stands_at(told: Seq<char>, line: Seq<char>, i: int) -> bool {
    0 <= i && i + line.len() <= told.len() && told.subrange(i, i + line.len()) == line
}

/// Whether `line` stands in `told`.
pub open spec fn holds(told: Seq<char>, line: Seq<char>) -> bool {
    exists|i: int| stands_at(told, line, i)
}

/// Whether `line` follows the word for an error in the first line of `told`, at `i`.
pub open spec fn is_headed_at(told: Seq<char>, line: Seq<char>, i: int) -> bool {
    stands_at(told, line, i) && text::one_line(told.take(i)) && holds(told.take(i), "Error:"@)
}

/// Whether `line` follows the word for an error in the first line of `told`. Colors may
/// stand between them.
pub open spec fn is_headed(told: Seq<char>, line: Seq<char>) -> bool {
    exists|i: int| is_headed_at(told, line, i)
}

/// Whether no character of `s` starts an escape sequence of a terminal.
pub open spec fn without_escapes(s: Seq<char>) -> bool {
    forall|i: int| 0 <= i < s.len() ==> s[i] != '\u{1b}'
}

/// Whether the lines of `s` end in line feeds alone.
pub open spec fn ends_lines_in_feeds(s: Seq<char>) -> bool {
    forall|i: int|
        0 <= i < s.len() ==> !({
            ||| #[trigger] s[i] == '\r'
            ||| s[i] == '\u{b}'
            ||| s[i] == '\u{c}'
            ||| s[i] == '\u{85}'
            ||| s[i] == '\u{2028}'
            ||| s[i] == '\u{2029}'
        })
}

/// A place as it is told, with its row and its column counted from one.
pub open spec fn place_text(path: Seq<char>, point: PointView) -> Seq<char> {
    path + ":"@ + text::decimal((point.row + 1) as nat) + ":"@ + text::decimal(
        (point.column + 1) as nat,
    )
}

/// The line that tells a message's place where there is no excerpt. It tells where the
/// offset stands that the place starts at, taken as an offset of the place itself.
pub open spec fn place_line(message: MessageView, context: SourceContext) -> Seq<char> {
    match message.location {
        Some(location) => match source_map::point_of(location, location.start_offset(), context) {
            Some(point) => match source_map::path_in(context, point.file_id) {
                Some(path) => "  at "@ + place_text(path, point) + "\n"@,
                None => Seq::empty(),
            },
            None => Seq::empty(),
        },
        None => Seq::empty(),
    }
}

/// Whether a message is told with an excerpt: the start of its place stands in a file, and
/// the context knows the first file that the place leads to. The excerpt is of that file.
pub open spec fn has_excerpt(message: MessageView, context: SourceContext) -> bool {
    message.location matches Some(location) && {
        &&& source_map::point_of(location, 0, context) is Some
        &&& source_map::files_of(location).len() > 0
        &&& source_map::file_in(context, source_map::files_of(location)[0]) is Some
    }
}

/// The line that heads an excerpt, behind the word for an error.
pub open spec fn title_line(message: MessageView) -> Seq<char> {
    match message.code {
        Some(code) => "["@ + code + "] "@ + message.title + "\n"@,
        None => message.title + "\n"@,
    }
}

/// The place that an excerpt tells, as far as it counts lines as this library does: in a
/// text whose lines end in line feeds alone, and before its end.
pub open spec fn excerpt_place(message: MessageView, context: SourceContext) -> Option<Seq<char>> {
    match message.location {
        Some(location) => match source_map::point_of(location, 0, context) {
            Some(point) => match source_map::file_in(context, point.file_id) {
                Some(file) => match file.text {
                    Some(held) => if {
                        &&& point.file_id == source_map::files_of(location)[0]
                        &&& point.offset < text::byte_len(held)
                        &&& ends_lines_in_feeds(held)
                        &&& without_escapes(file.path)
                    } {
                        Some(place_text(file.path, point))
                    } else {
                        None
                    },
                    None => None,
                },
                None => None,
            },
            None => None,
        },
        None => None,
    }
}

/// Whether `told` tells an error whose details have no places of their own: it ends in the
/// details and the hints. Without an excerpt these follow the title, the place if there is
/// one to tell, and the problem, and that is all. An excerpt is headed by the code and the
/// title, and tells the place.
pub open spec fn tells(told: Seq<char>, message: MessageView, context: SourceContext) -> bool {
    message.severity is Error && without_places(message.details) ==> {
        &&& ends_in(told, trailing_lines(message))
        &&& !has_excerpt(message, context) ==> told == headline(message) + place_line(
            message,
            context,
        ) + problem_line(message) + trailing_lines(message)
        &&& has_excerpt(message, context) && without_escapes(title_line(message)) ==> {
            &&& is_headed(told, title_line(message))
            &&& excerpt_place(message, context) matches Some(place) ==> holds(told, place)
        }
    }
}

/// Starts an error, by `DiagnosticMessageBuilder::error`.
///
/// Taken on trust: it holds the title and nothing else.
#[verifier::external_body]
pub(crate) fn start_error(title: &str) -> (builder: DiagnosticMessageBuilder)
    ensures
        drafted(builder) == (MessageView {
            severity: Severity::Error,
            title: title@,
            code: None,
            problem: None,
            location: None,
            details: Seq::empty(),
            hints: Seq::empty(),
        }),
{
    DiagnosticMessageBuilder::error(title)
}

/// Sets the code, by `DiagnosticMessageBuilder::with_code`.
///
/// Taken on trust: the code is set and nothing else changes.
#[verifier::external_body]
pub(crate) fn set_code(builder: DiagnosticMessageBuilder, code: &str) -> (next:
    DiagnosticMessageBuilder)
    ensures
        drafted(next) == (MessageView { code: Some(code@), ..drafted(builder) }),
{
    builder.with_code(code)
}

/// Sets the problem, by `DiagnosticMessageBuilder::problem`.
///
/// Taken on trust: the problem is set and nothing else changes.
#[verifier::external_body]
pub(crate) fn set_problem(builder: DiagnosticMessageBuilder, problem: &str) -> (next:
    DiagnosticMessageBuilder)
    ensures
        drafted(next) == (MessageView { problem: Some(problem@), ..drafted(builder) }),
{
    builder.problem(problem)
}

/// Sets the location, by `DiagnosticMessageBuilder::with_location`.
///
/// Taken on trust: the location is set and nothing else changes.
#[verifier::external_body]
pub(crate) fn set_location(builder: DiagnosticMessageBuilder, location: MappedInfo) -> (next:
    DiagnosticMessageBuilder)
    ensures
        drafted(next) == (MessageView {
            location: Some(source_map::located(location)),
            ..drafted(builder)
        }),
{
    builder.with_location(location)
}

/// Adds a detail of the error, by `DiagnosticMessageBuilder::add_detail`.
///
/// Taken on trust: the detail comes last, has no place of its own, and nothing else
/// changes.
#[verifier::external_body]
pub(crate) fn push_detail(builder: DiagnosticMessageBuilder, detail: &str) -> (next:
    DiagnosticMessageBuilder)
    ensures
        drafted(next) == (MessageView {
            details: drafted(builder).details.push(
                DetailView { content: detail@, class: DetailClass::Error, has_place: false },
            ),
            ..drafted(builder)
        }),
{
    builder.add_detail(detail)
}

/// Adds a detail for information, by `DiagnosticMessageBuilder::add_info`.
///
/// Taken on trust: the detail comes last, has no place of its own, and nothing else
/// changes.
#[verifier::external_body]
pub(crate) fn push_info(builder: DiagnosticMessageBuilder, info: &str) -> (next:
    DiagnosticMessageBuilder)
    ensures
        drafted(next) == (MessageView {
            details: drafted(builder).details.push(
                DetailView { content: info@, class: DetailClass::Info, has_place: false },
            ),
            ..drafted(builder)
        }),
{
    builder.add_info(info)
}

/// Adds a hint, by `DiagnosticMessageBuilder::add_hint`.
///
/// Taken on trust: the hint comes last, and nothing else changes.
#[verifier::external_body]
pub(crate) fn push_hint(builder: DiagnosticMessageBuilder, hint: &str) -> (next:
    DiagnosticMessageBuilder)
    ensures
        drafted(next) == (MessageView {
            hints: drafted(builder).hints.push(hint@),
            ..drafted(builder)
        }),
{
    builder.add_hint(hint)
}

/// Completes a message, by `DiagnosticMessageBuilder::build`.
///
/// Taken on trust: the message holds what was put together.
#[verifier::external_body]
pub(crate) fn finish(builder: DiagnosticMessageBuilder) -> (message: DiagnosticMessage)
    ensures
        written(message) == drafted(builder),
{
    builder.build()
}

/// Copies a message, by its `Clone`.
///
/// Taken on trust: the copy holds what the message holds.
#[verifier::external_body]
pub(crate) fn copy_message(message: &DiagnosticMessage) -> (copy: DiagnosticMessage)
    ensures
        written(copy) == written(*message),
{
    message.clone()
}

/// Renders a message, by `DiagnosticMessage::to_text`.
///
/// Taken on trust, of an error whose details have no places of their own: the text ends
/// in the details and the hints, one in a line. There is an excerpt of the source where the
/// start of the message's place stands in a file and the context knows the first file that
/// the place leads to. Without an excerpt the details follow the title, the line of the place
/// if one can be told, and the problem, and that is all. The first line of an excerpt holds
/// the word for an error, the code in brackets and the title, unless code or title hold
/// escape sequences. The excerpt tells path, line and column of the start, where the file's
/// lines end in line feeds alone, the start is not at the file's end and the path holds no
/// escape sequence. The rest of the excerpt is not said: it draws lines of the source, and
/// links to the file where there is one of that name on disk.
#[verifier::external_body]
pub(crate) fn render(message: &DiagnosticMessage, context: &SourceContext) -> (text: String)
    requires
        written(*message).location matches Some(location) ==> source_map::mappable(location)
            && source_map::files_held(location, *context),
    ensures
        can_render_to(written(*message), *context, text@),
        tells(text@, written(*message), *context),
{
    message.to_text(Some(context))
}

} // verus!
