//! Diagnostics for documents that do not match their schema.
//!
//! A diagnostic keeps the structure of a validation error for machines, and renders it
//! for people.

use crate::diagnostic_json;
use crate::diagnostic_json::path_to_json;
use crate::json;
use crate::json::{json_record, json_text, json_texts};
use crate::message;
use crate::message::{
    copy_message, finish, push_detail, push_hint, push_info, render, set_code, set_location, set_problem,
    start_error, DetailClass, DetailView, MessageView, Severity,
};
use crate::path;
use crate::path::{copy_strings, join, render_path, PathSegment, SegmentView};
use crate::source_info;
use crate::source_info::{SourceInfo, SourceView};
use crate::source_map;
use crate::source_map::{
    are_files_held, are_files_settled, find_file, is_mappable, locate, to_mapped, MappedPoint,
    PointView,
};
use crate::text;
use crate::text::{flatten, push_decimal, str_eq};
use crate::validation_error;
use crate::validation_error::{
    copy_optional, KindView, ValidationError, ValidationErrorKind, ValidationErrorView,
};
use quarto_error_reporting::DiagnosticMessage;
use quarto_source_map::SourceContext;
use serde_json::Value;
use vstd::prelude::*;
use vstd::string::*;

verus! {

/// A range of a file, in offsets and in lines and columns.
#[derive(Debug, PartialEq, Eq)]
pub struct SourceRange {
    /// The name of the file.
    pub filename: String,
    /// Byte offset of the start.
    pub start_offset: usize,
    /// Byte offset of the end.
    pub end_offset: usize,
    /// Line of the start, counted from one.
    pub start_line: usize,
    /// Column of the start, counted from one.
    pub start_column: usize,
    /// Line of the end, counted from one.
    pub end_line: usize,
    /// Column of the end, counted from one.
    pub end_column: usize,
}

/// What a range says, apart from how it is stored.
pub struct RangeView {
    pub filename: Seq<char>,
    pub start_offset: nat,
    pub end_offset: nat,
    pub start_line: nat,
    pub start_column: nat,
    pub end_line: nat,
    pub end_column: nat,
}

impl View for SourceRange {
    type V = RangeView;

    open spec fn view(&self) -> RangeView {
        RangeView {
            filename: self.filename@,
            start_offset: self.start_offset as nat,
            end_offset: self.end_offset as nat,
            start_line: self.start_line as nat,
            start_column: self.start_column as nat,
            end_line: self.end_line as nat,
            end_column: self.end_column as nat,
        }
    }
}

/// The view of a range that may be missing.
pub open spec fn range_view(range: Option<SourceRange>) -> Option<RangeView> {
    match range {
        Some(r) => Some(r@),
        None => None,
    }
}

impl Clone for SourceRange {
    fn clone(&self) -> (res: Self)
        ensures
            res@ == self@,
    {
        SourceRange {
            filename: self.filename.clone(),
            start_offset: self.start_offset,
            end_offset: self.end_offset,
            start_line: self.start_line,
            start_column: self.start_column,
            end_line: self.end_line,
            end_column: self.end_column,
        }
    }
}

/// The hints that an error of the given kind suggests.
pub open spec fn suggested_hints(kind: KindView) -> Seq<Seq<char>> {
    match kind {
        KindView::MissingRequiredProperty { property, .. } => seq![
            "Add the `"@ + property + "` property to your YAML document?"@,
        ],
        KindView::TypeMismatch { expected, .. } => if expected == "boolean"@ {
            seq!["Use `true` or `false` (YAML 1.2 standard)?"@]
        } else if expected == "number"@ {
            seq!["Use a numeric value without quotes?"@]
        } else if expected == "string"@ {
            seq!["Ensure the value is a string (quoted if it contains special characters)?"@]
        } else if expected == "array"@ {
            seq!["Use YAML array syntax: `[item1, item2]` or list format?"@]
        } else if expected == "object"@ {
            seq!["Use YAML mapping syntax with key-value pairs?"@]
        } else {
            Seq::empty()
        },
        KindView::InvalidEnumValue { .. } => seq!["Check the schema for allowed values?"@],
        KindView::StringPatternMismatch { .. } => seq![
            "Check that the string matches the expected format?"@,
        ],
        KindView::NumberOutOfRange { .. } => seq!["Check the allowed value range in the schema?"@],
        KindView::NumberNotMultipleOf { .. } => seq![
            "Check the allowed value range in the schema?"@,
        ],
        KindView::UnknownProperty { .. } => seq![
            "Check for typos in property names or remove unrecognized properties?"@,
        ],
        KindView::ArrayItemsNotUnique => seq!["Remove duplicate items from the array?"@],
        KindView::Other { .. } => Seq::empty(),
    }
}

/// The hints that are given: the author's hint if there is one, and else those that the
/// kind suggests.
pub open spec fn given_hints(kind: KindView, custom_hint: Option<Seq<char>>) -> Seq<Seq<char>> {
    match custom_hint {
        Some(hint) => seq![hint],
        None => suggested_hints(kind),
    }
}

/// The message for an error.
pub open spec fn error_message(error: ValidationErrorView) -> MessageView {
    let place = DetailView {
        content: if error.instance_path.len() > 0 {
            "At document path: `"@ + path::path_text(error.instance_path) + "`"@
        } else {
            "At document root"@
        },
        class: DetailClass::Error,
        has_place: false,
    };
    let constraint = DetailView {
        content: "Schema constraint: "@ + path::joined(error.schema_path, " > "@),
        class: DetailClass::Info,
        has_place: false,
    };
    MessageView {
        severity: Severity::Error,
        title: "YAML Validation Failed"@,
        code: Some(validation_error::kind_code(error.kind)),
        problem: Some(validation_error::kind_message(error.kind)),
        location: match error.node {
            Some(node) => Some(node.span),
            None => None,
        },
        details: if error.schema_path.len() > 0 {
            seq![place, constraint]
        } else {
            seq![place]
        },
        hints: given_hints(error.kind, error.custom_hint),
    }
}

/// The range of a file between two points, given how the file is called. Lines and columns
/// are counted from one. There is none where one of these is missing.
pub open spec fn range_between(
    start: Option<PointView>,
    end: Option<PointView>,
    filename: Option<Seq<char>>,
) -> Option<RangeView> {
    match (start, end, filename) {
        (Some(from), Some(to), Some(name)) => Some(
            RangeView {
                filename: name,
                start_offset: from.offset as nat,
                end_offset: to.offset as nat,
                start_line: (from.row + 1) as nat,
                start_column: (from.column + 1) as nat,
                end_line: (to.row + 1) as nat,
                end_column: (to.column + 1) as nat,
            },
        ),
        _ => None,
    }
}

/// The range of a file that a source info stands for: from where its offset zero stands to
/// where its length stands. The file is that of the start.
pub open spec fn range_of(info: SourceView, context: SourceContext) -> Option<RangeView> {
    let start = source_map::point_of(info, 0, context);
    range_between(
        start,
        source_map::point_of(info, info.length(), context),
        match start {
            Some(point) => source_map::path_in(context, point.file_id),
            None => None,
        },
    )
}

/// Whether the range that an error's node stands for can be told from what is at hand.
pub open spec fn can_diagnose(error: ValidationErrorView, context: SourceContext) -> bool {
    error.node matches Some(node) ==> source_map::mappable(node.span)
        && source_map::files_settled(node.span, context)
}

/// What stands in a compact line before everything else: the place, if it is known.
pub open spec fn compact_place(range: Option<RangeView>) -> Seq<char> {
    match range {
        Some(r) => r.filename + ":"@ + text::decimal(r.start_line) + ":"@ + text::decimal(
            r.start_column,
        ) + " "@,
        None => Seq::empty(),
    }
}

/// What stands in a compact line for the path.
pub open spec fn compact_path(segments: Seq<SegmentView>) -> Seq<char> {
    let rendered = path::path_text(segments);
    if rendered.len() == 0 {
        "(root): "@
    } else {
        rendered + ": "@
    }
}

/// What stands in a compact line for the hints.
pub open spec fn compact_hints(hints: Seq<Seq<char>>) -> Seq<char> {
    if hints.len() == 0 {
        Seq::empty()
    } else {
        " (Hint: "@ + path::joined(hints, "; "@) + ")"@
    }
}

/// A diagnostic for a validation error.
#[derive(Debug)]
pub struct ValidationDiagnostic {
    /// What kind of error it is.
    pub kind: ValidationErrorKind,
    /// The code of the error.
    pub code: String,
    /// The path through the document to the value that is wrong.
    pub instance_path: Vec<PathSegment>,
    /// The path through the schema to what is not met.
    pub schema_path: Vec<String>,
    /// Where the value stands, if it can be told.
    pub source_range: Option<SourceRange>,
    /// A hint of the schema's author. It takes the place of the generated one.
    pub custom_hint: Option<String>,
    diagnostic: DiagnosticMessage,
    location: Option<SourceInfo>,
}

/// What a diagnostic says, apart from how it is stored.
pub struct DiagnosticView {
    pub kind: KindView,
    pub code: Seq<char>,
    pub instance_path: Seq<SegmentView>,
    pub schema_path: Seq<Seq<char>>,
    pub source_range: Option<RangeView>,
    pub custom_hint: Option<Seq<char>>,
    pub message: MessageView,
}

impl View for ValidationDiagnostic {
    type V = DiagnosticView;

    closed spec fn view(&self) -> DiagnosticView {
        DiagnosticView {
            kind: self.kind@,
            code: self.code@,
            instance_path: path::segment_views(self.instance_path@),
            schema_path: path::string_views(self.schema_path@),
            source_range: range_view(self.source_range),
            custom_hint: validation_error::optional_string(self.custom_hint),
            message: message::written(self.diagnostic),
        }
    }
}

/// Copies the steps of a path.
fn copy_segments(segments: &Vec<PathSegment>) -> (copy: Vec<PathSegment>)
    ensures
        path::segment_views(copy@) == path::segment_views(segments@),
{
    let mut copy: Vec<PathSegment> = Vec::new();
    let mut i: usize = 0;
    while i < segments.len()
        invariant
            i <= segments@.len(),
            copy@.len() == i,
            forall|j: int| 0 <= j < i ==> (#[trigger] copy@[j])@ == segments@[j]@,
        decreases segments.len() - i,
    {
        copy.push(segments[i].clone());
        i += 1;
    }
    assert(path::segment_views(copy@) =~= path::segment_views(segments@));
    copy
}

impl Clone for ValidationDiagnostic {
    fn clone(&self) -> (res: Self)
        ensures
            res@ == self@,
            res.wf() == self.wf(),
    {
        ValidationDiagnostic {
            kind: self.kind.clone(),
            code: self.code.clone(),
            instance_path: copy_segments(&self.instance_path),
            schema_path: copy_strings(&self.schema_path),
            source_range: match &self.source_range {
                Some(range) => Some(range.clone()),
                None => None,
            },
            custom_hint: copy_optional(&self.custom_hint),
            diagnostic: copy_message(&self.diagnostic),
            location: match &self.location {
                Some(location) => Some(location.clone()),
                None => None,
            },
        }
    }
}

impl DiagnosticView {
    /// The hints that are given.
    pub open spec fn hints(self) -> Seq<Seq<char>> {
        given_hints(self.kind, self.custom_hint)
    }

    /// What a compact line tells: the place, the code, the path, the message and the hints.
    pub open spec fn told(self) -> Seq<char> {
        compact_place(self.source_range) + "["@ + self.code + "] "@ + compact_path(
            self.instance_path,
        ) + validation_error::kind_message(self.kind) + compact_hints(self.hints())
    }

    /// The diagnostic in one line.
    pub open spec fn compact(self) -> Seq<char> {
        text::flattened(self.told(), self.told().len() as int)
    }

    /// Whether the place of the message can be shown from what is at hand.
    pub open spec fn can_render(self, context: SourceContext) -> bool {
        self.message.location matches Some(location) ==> source_map::mappable(location)
            && source_map::files_held(location, context)
    }
}

/// The diagnostic for an error.
pub open spec fn diagnosed(error: ValidationErrorView, context: SourceContext) -> DiagnosticView {
    DiagnosticView {
        kind: error.kind,
        code: validation_error::kind_code(error.kind),
        instance_path: error.instance_path,
        schema_path: error.schema_path,
        source_range: match error.node {
            Some(node) => range_of(node.span, context),
            None => None,
        },
        custom_hint: error.custom_hint,
        message: error_message(error),
    }
}

/// A diagnostic is viewed with each of its public parts in its own place.
proof fn law_diagnostic_view(diagnostic: ValidationDiagnostic)
    ensures
        diagnostic@.kind == diagnostic.kind@,
        diagnostic@.code == diagnostic.code@,
        diagnostic@.instance_path == path::segment_views(diagnostic.instance_path@),
        diagnostic@.schema_path == path::string_views(diagnostic.schema_path@),
        match diagnostic.source_range {
            Some(range) => diagnostic@.source_range == Some(range@),
            None => diagnostic@.source_range is None,
        },
        match diagnostic.custom_hint {
            Some(hint) => diagnostic@.custom_hint == Some(hint@),
            None => diagnostic@.custom_hint is None,
        },
{
}

/// A list with one text.
fn one_hint(hint: &str) -> (hints: Vec<String>)
    ensures
        path::string_views(hints@) == seq![hint@],
{
    let mut hints: Vec<String> = Vec::new();
    hints.push(hint.to_string());
    assert(path::string_views(hints@) =~= seq![hint@]);
    hints
}

/// The range of a file between two points, given how the file is called.
pub fn source_range_between(
    start: Option<MappedPoint>,
    end: Option<MappedPoint>,
    filename: Option<&str>,
) -> (range: Option<SourceRange>)
    requires
        start matches Some(p) ==> p.row < usize::MAX && p.column < usize::MAX,
        end matches Some(p) ==> p.row < usize::MAX && p.column < usize::MAX,
    ensures
        range_view(range) == range_between(
            source_map::point_view(start),
            source_map::point_view(end),
            match filename {
                Some(name) => Some(name@),
                None => None,
            },
        ),
{
    match (start, end, filename) {
        (Some(from), Some(to), Some(name)) => Some(
            SourceRange {
                filename: name.to_string(),
                start_offset: from.offset,
                end_offset: to.offset,
                start_line: from.row + 1,
                start_column: from.column + 1,
                end_line: to.row + 1,
                end_column: to.column + 1,
            },
        ),
        _ => None,
    }
}

impl ValidationDiagnostic {
    /// The place that is kept is that of the message.
    pub closed spec fn wf(self) -> bool {
        self@.message.location == match self.location {
            Some(location) => Some(location@),
            None => None,
        }
    }

    /// What is wrong, in words.
    pub fn message(&self) -> (message: String)
        ensures
            message@ == validation_error::kind_message(self@.kind),
    {
        self.kind.message()
    }

    /// The hints. A hint of the schema's author takes the place of the generated ones.
    pub fn hints(&self) -> (hints: Vec<String>)
        ensures
            path::string_views(hints@) == self@.hints(),
    {
        let custom = match &self.custom_hint {
            Some(hint) => Some(hint.as_str()),
            None => None,
        };
        Self::effective_hints(&self.kind, custom)
    }

    /// The author's hint if there is one, and else those that the kind suggests.
    pub fn effective_hints(kind: &ValidationErrorKind, custom_hint: Option<&str>) -> (hints: Vec<
        String,
    >)
        ensures
            path::string_views(hints@) == given_hints(
                kind@,
                match custom_hint {
                    Some(hint) => Some(hint@),
                    None => None,
                },
            ),
    {
        match custom_hint {
            Some(hint) => one_hint(hint),
            None => Self::suggest_fixes_from_kind(kind),
        }
    }

    /// The hints that an error of the given kind suggests.
    pub fn suggest_fixes_from_kind(kind: &ValidationErrorKind) -> (hints: Vec<String>)
        ensures
            path::string_views(hints@) == suggested_hints(kind@),
    {
        match kind {
            ValidationErrorKind::MissingRequiredProperty { property, .. } => {
                let mut hint = "Add the `".to_string();
                hint.append(property.as_str());
                hint.append("` property to your YAML document?");
                one_hint(hint.as_str())
            },
            ValidationErrorKind::TypeMismatch { expected, .. } => {
                let expected = expected.as_str();
                if str_eq(expected, "boolean") {
                    one_hint("Use `true` or `false` (YAML 1.2 standard)?")
                } else if str_eq(expected, "number") {
                    one_hint("Use a numeric value without quotes?")
                } else if str_eq(expected, "string") {
                    one_hint(
                        "Ensure the value is a string (quoted if it contains special characters)?",
                    )
                } else if str_eq(expected, "array") {
                    one_hint("Use YAML array syntax: `[item1, item2]` or list format?")
                } else if str_eq(expected, "object") {
                    one_hint("Use YAML mapping syntax with key-value pairs?")
                } else {
                    Self::no_hints()
                }
            },
            ValidationErrorKind::InvalidEnumValue { .. } => one_hint(
                "Check the schema for allowed values?",
            ),
            ValidationErrorKind::StringPatternMismatch { .. } => one_hint(
                "Check that the string matches the expected format?",
            ),
            ValidationErrorKind::NumberOutOfRange { .. } => one_hint(
                "Check the allowed value range in the schema?",
            ),
            ValidationErrorKind::NumberNotMultipleOf { .. } => one_hint(
                "Check the allowed value range in the schema?",
            ),
            ValidationErrorKind::UnknownProperty { .. } => one_hint(
                "Check for typos in property names or remove unrecognized properties?",
            ),
            ValidationErrorKind::ArrayItemsNotUnique => one_hint(
                "Remove duplicate items from the array?",
            ),
            ValidationErrorKind::Other { .. } => Self::no_hints(),
        }
    }

    /// No hints.
    fn no_hints() -> (hints: Vec<String>)
        ensures
            path::string_views(hints@) == Seq::<Seq<char>>::empty(),
    {
        let hints: Vec<String> = Vec::new();
        assert(path::string_views(hints@) =~= Seq::empty());
        hints
    }

    /// A path in one line: `[Key("authors"), Index(0), Key("name")]` is `authors[0].name`.
    pub fn instance_path_string(segments: &[PathSegment]) -> (rendered: String)
        ensures
            rendered@ == path::path_text(path::segment_views(segments@)),
    {
        render_path(segments)
    }

    /// The message for an error.
    fn build_diagnostic_message(error: &ValidationError) -> (message: DiagnosticMessage)
        requires
            error@.node matches Some(node) ==> source_map::mappable(node.span),
        ensures
            message::written(message) == error_message(error@),
    {
        let mut builder = start_error("YAML Validation Failed");
        builder = set_code(builder, error.error_code());
        builder = set_problem(builder, error.message().as_str());
        if let Some(node) = &error.yaml_node {
            proof {
                source_map::lemma_mappable(node.source_info);
            }
            builder = set_location(builder, to_mapped(&node.source_info));
        }
        if !error.instance_path.is_empty() {
            let mut detail = "At document path: `".to_string();
            detail.append(render_path(error.instance_path.segments().as_slice()).as_str());
            detail.append("`");
            builder = push_detail(builder, detail.as_str());
        } else {
            builder = push_detail(builder, "At document root");
        }
        if !error.schema_path.is_empty() {
            let mut info = "Schema constraint: ".to_string();
            info.append(join(error.schema_path.segments(), " > ").as_str());
            builder = push_info(builder, info.as_str());
        }
        let ghost without_hints = message::drafted(builder);
        assert(without_hints.details =~= error_message(error@).details);
        let custom = match &error.custom_hint {
            Some(hint) => Some(hint.as_str()),
            None => None,
        };
        let hints = Self::effective_hints(&error.kind, custom);
        let ghost views = path::string_views(hints@);
        let mut i: usize = 0;
        assert(views.take(0) =~= Seq::empty());
        while i < hints.len()
            invariant
                i <= hints@.len(),
                views == path::string_views(hints@),
                message::drafted(builder) == (MessageView {
                    hints: views.take(i as int),
                    ..without_hints
                }),
            decreases hints.len() - i,
        {
            builder = push_hint(builder, hints[i].as_str());
            assert(views.take(i as int).push(hints@[i as int]@) =~= views.take(i + 1));
            i += 1;
        }
        assert(views.take(i as int) =~= views);
        finish(builder)
    }

    /// The range of a file that a source info stands for.
    fn extract_source_range(source_info: &SourceInfo, source_ctx: &SourceContext) -> (range: Option<
        SourceRange,
    >)
        requires
            source_map::mappable(source_info@),
            source_map::files_settled(source_info@, *source_ctx),
        ensures
            range_view(range) == range_of(source_info@, *source_ctx),
    {
        proof {
            source_map::lemma_mappable(*source_info);
        }
        let start = locate(source_info, 0, source_ctx);
        match start {
            Some(point) => {
                let length: usize = source_info.end_offset() - source_info.start_offset();
                let end = locate(source_info, length, source_ctx);
                let filename = match find_file(source_ctx, point.file_id) {
                    Some(file) => Some(file.path),
                    None => None,
                };
                source_range_between(start, end, filename)
            },
            None => None,
        }
    }

    /// The diagnostic for an error. The context says how files are called and where their
    /// lines are.
    pub fn from_validation_error(error: &ValidationError, source_ctx: &SourceContext) -> (diagnostic:
        Self)
        requires
            can_diagnose(error@, *source_ctx),
        ensures
            diagnostic.wf(),
            diagnostic@ == diagnosed(error@, *source_ctx),
    {
        let diagnostic = Self::build_diagnostic_message(error);
        let (source_range, location) = match &error.yaml_node {
            Some(node) => (
                Self::extract_source_range(&node.source_info, source_ctx),
                Some(node.source_info.clone()),
            ),
            None => (None, None),
        };
        ValidationDiagnostic {
            kind: error.kind.clone(),
            code: error.error_code().to_string(),
            instance_path: copy_segments(error.instance_path.segments()),
            schema_path: copy_strings(error.schema_path.segments()),
            source_range,
            custom_hint: copy_optional(&error.custom_hint),
            diagnostic,
            location,
        }
    }

    /// The diagnostic for an error, if its range can be told from what is at hand.
    pub fn try_from_validation_error(error: &ValidationError, source_ctx: &SourceContext) -> (
    diagnostic: Option<Self>)
        ensures
            match diagnostic {
                Some(d) => can_diagnose(error@, *source_ctx) && d.wf() && d@ == diagnosed(
                    error@,
                    *source_ctx,
                ),
                None => !can_diagnose(error@, *source_ctx),
            },
    {
        if let Some(node) = &error.yaml_node {
            if !is_mappable(&node.source_info) || !are_files_settled(
                &node.source_info,
                source_ctx,
            ) {
                return None;
            }
        }
        Some(Self::from_validation_error(error, source_ctx))
    }

    /// The diagnostic as JSON for machines: its kind, its code, its paths, its range if
    /// there is one, its message, and its hints if there are any.
    pub fn to_json(&self) -> (value: Value)
        ensures
            json::json_view(value) == json::record(diagnostic_json::diagnostic_members(self@)),
    {
        let mut members: Vec<(&str, Value)> = Vec::new();
        members.push(("error_kind", self.kind.to_json()));
        members.push(("code", json_text(self.code.as_str())));
        members.push(("instance_path", path_to_json(&self.instance_path)));
        members.push(("schema_path", json_texts(&self.schema_path)));
        if let Some(range) = &self.source_range {
            members.push(("source_range", range.to_json()));
        }
        members.push(("message", json_text(self.kind.message().as_str())));
        let hints = self.hints();
        if hints.len() > 0 {
            members.push(("hints", json_texts(&hints)));
        }
        proof {
            assert(json::member_views(members@) =~= diagnostic_json::diagnostic_members(self@));
        }
        json_record(members)
    }

    /// The diagnostic as text for people.
    pub fn to_text(&self, source_ctx: &SourceContext) -> (text: String)
        requires
            self@.can_render(*source_ctx),
        ensures
            message::can_render_to(self@.message, *source_ctx, text@),
            message::tells(text@, self@.message, *source_ctx),
    {
        render(&self.diagnostic, source_ctx)
    }

    /// The diagnostic as text for people, if its place can be shown from what is at hand.
    pub fn try_to_text(&self, source_ctx: &SourceContext) -> (text: Option<String>)
        requires
            self.wf(),
        ensures
            match text {
                Some(t) => self@.can_render(*source_ctx) && message::can_render_to(
                    self@.message,
                    *source_ctx,
                    t@,
                ) && message::tells(t@, self@.message, *source_ctx),
                None => !self@.can_render(*source_ctx),
            },
    {
        if let Some(location) = &self.location {
            if !is_mappable(location) || !are_files_held(location, source_ctx) {
                return None;
            }
        }
        Some(self.to_text(source_ctx))
    }

    /// The diagnostic in one line:
    /// `file:line:col [CODE] path: message (Hint: ...)`.
    ///
    /// The place is left out where it is not known, and `(root)` stands for the empty path.
    /// Several hints have `; ` between them. A space stands for line breaks.
    pub fn to_compact(&self) -> (line: String)
        ensures
            line@ == self@.compact(),
            text::one_line(line@),
    {
        let mut out = String::new();
        if let Some(range) = &self.source_range {
            out.append(range.filename.as_str());
            out.append(":");
            push_decimal(&mut out, range.start_line);
            out.append(":");
            push_decimal(&mut out, range.start_column);
            out.append(" ");
            assert(out@ =~= compact_place(self@.source_range));
        } else {
            assert(out@ =~= compact_place(self@.source_range));
        }
        out.append("[");
        out.append(self.code.as_str());
        out.append("] ");
        let ghost before_path = out@;
        let rendered = Self::instance_path_string(self.instance_path.as_slice());
        if rendered.as_str().is_empty() {
            out.append("(root): ");
        } else {
            out.append(rendered.as_str());
            out.append(": ");
        }
        assert(out@ =~= before_path + compact_path(self@.instance_path));
        out.append(self.message().as_str());
        let ghost before_hints = out@;
        let hints = self.hints();
        if hints.len() > 0 {
            out.append(" (Hint: ");
            out.append(join(&hints, "; ").as_str());
            out.append(")");
        }
        assert(out@ =~= before_hints + compact_hints(self@.hints()));
        assert(out@ =~= self@.told());
        flatten(out.as_str())
    }
}

} // verus!
