//! What holds of every error and of every diagnostic as it is told.

use crate::diagnostic;
use crate::diagnostic::{DiagnosticView, RangeView};
use crate::diagnostic_laws;
use crate::extent_laws;
use crate::laws;
use crate::message;
use crate::message::DetailView;
use crate::parser;
use crate::path;
use crate::scalar_laws;
use crate::source_map;
use crate::source_map::PointView;
use crate::source_text;
use crate::text;
use crate::text_laws;
use crate::validation_error;
use crate::validation_error::{KindView, ValidationErrorView};
use quarto_source_map::SourceContext;
use vstd::prelude::*;

verus! {

/// Whether `s` is a number in decimal digits, without zeros before it.
pub open spec fn is_numeral(s: Seq<char>, n: nat) -> bool {
    &&& s.len() > 0
    &&& scalar_laws::all_digits(s)
    &&& scalar_laws::is_integer_text(s, n as int)
    &&& s[0] == '0' ==> s.len() == 1
}

/// Whether `s` is a file's name, a line and a column, each with a colon before it.
pub open spec fn is_place_of(
    s: Seq<char>,
    filename: Seq<char>,
    line: Seq<char>,
    column: Seq<char>,
) -> bool {
    s == filename + seq![':'] + line + seq![':'] + column + seq![' ']
}

/// Whether `s` tells a place: a file's name, the line there, and the column there.
pub open spec fn is_place(s: Seq<char>, filename: Seq<char>, line: nat, column: nat) -> bool {
    exists|a: Seq<char>, b: Seq<char>| #[trigger]
        is_place_of(s, filename, a, b) && is_numeral(a, line) && is_numeral(b, column)
}

proof fn lemma_place(range: RangeView)
    ensures
        is_place(
            diagnostic::compact_place(Some(range)),
            range.filename,
            range.start_line,
            range.start_column,
        ),
{
    reveal_strlit(":");
    reveal_strlit(" ");
    assert(":"@ =~= seq![':']);
    assert(" "@ =~= seq![' ']);
    let line = text::decimal(range.start_line);
    let column = text::decimal(range.start_column);
    text_laws::law_decimal_is_worth_its_number(range.start_line);
    text_laws::law_decimal_is_worth_its_number(range.start_column);
    assert(is_place_of(
        diagnostic::compact_place(Some(range)),
        range.filename,
        line,
        column,
    ));
}

/// A compact line starts with the place where the range starts, if there is one: the file's
/// name, the line and the column. The code follows in brackets.
pub proof fn law_compact_starts_with_the_place(diagnostic: DiagnosticView) -> (place: Seq<char>)
    ensures
        message::stands_at(diagnostic.told(), place + seq!['['] + diagnostic.code + seq![']'], 0),
        diagnostic.source_range is None ==> place.len() == 0,
        diagnostic.source_range matches Some(range) ==> is_place(
            place,
            range.filename,
            range.start_line,
            range.start_column,
        ),
{
    reveal_strlit("[");
    reveal_strlit("] ");
    let place = diagnostic::compact_place(diagnostic.source_range);
    if let Some(range) = diagnostic.source_range {
        lemma_place(range);
    }
    let head = place + seq!['['] + diagnostic.code + seq![']'];
    assert(diagnostic.told().subrange(0, 0 + head.len() as int) =~= head);
    place
}

/// Ranges that start at the same place of the same file are told with the same place,
/// wherever they end.
pub proof fn law_same_start_is_told_alike(a: RangeView, b: RangeView)
    requires
        a.filename == b.filename,
        a.start_line == b.start_line,
        a.start_column == b.start_column,
    ensures
        diagnostic::compact_place(Some(a)) == diagnostic::compact_place(Some(b)),
{
}

proof fn lemma_digits_before(a: Seq<char>, x: Seq<char>, b: Seq<char>, y: Seq<char>, mark: char)
    requires
        scalar_laws::all_digits(a),
        scalar_laws::all_digits(b),
        mark == ':' || mark == ' ',
        a + seq![mark] + x == b + seq![mark] + y,
    ensures
        a == b,
        x == y,
{
    let s = a + seq![mark] + x;
    let t = b + seq![mark] + y;
    assert(s[a.len() as int] == mark);
    assert(t[b.len() as int] == mark);
    if a.len() < b.len() {
        assert(t[a.len() as int] == b[a.len() as int]);
    }
    if b.len() < a.len() {
        assert(s[b.len() as int] == a[b.len() as int]);
    }
    assert(s.take(a.len() as int) =~= a);
    assert(t.take(b.len() as int) =~= b);
    assert(s.skip(a.len() as int + 1) =~= x);
    assert(t.skip(b.len() as int + 1) =~= y);
}

/// Ranges of one file that start at different lines or columns are told differently.
pub proof fn law_different_starts_are_told_apart(a: RangeView, b: RangeView)
    requires
        a.filename == b.filename,
        diagnostic::compact_place(Some(a)) == diagnostic::compact_place(Some(b)),
    ensures
        a.start_line == b.start_line,
        a.start_column == b.start_column,
{
    reveal_strlit(":");
    reveal_strlit(" ");
    let s = diagnostic::compact_place(Some(a));
    let t = diagnostic::compact_place(Some(b));
    let from: int = a.filename.len() as int + 1;
    let line = text::decimal(a.start_line);
    let column = text::decimal(a.start_column);
    let other_line = text::decimal(b.start_line);
    let other_column = text::decimal(b.start_column);
    text_laws::law_decimal_is_worth_its_number(a.start_line);
    text_laws::law_decimal_is_worth_its_number(b.start_line);
    text_laws::law_decimal_is_worth_its_number(a.start_column);
    text_laws::law_decimal_is_worth_its_number(b.start_column);
    let rest = column + seq![' '];
    let other_rest = other_column + seq![' '];
    assert(s.skip(from) =~= line + seq![':'] + rest);
    assert(t.skip(from) =~= other_line + seq![':'] + other_rest);
    lemma_digits_before(line, rest, other_line, other_rest, ':');
    let none = Seq::<char>::empty();
    assert(rest =~= column + seq![' '] + none);
    assert(other_rest =~= other_column + seq![' '] + none);
    lemma_digits_before(column, none, other_column, none, ' ');
    text_laws::law_decimal_tells_numbers_apart(a.start_line, b.start_line);
    text_laws::law_decimal_tells_numbers_apart(a.start_column, b.start_column);
}

/// An error at a node of a parsed file is told with the file's name and with the line and
/// the column of the node's first character, counted from one.
pub proof fn law_compact_points_at_the_node(
    content: Seq<char>,
    filename: Seq<char>,
    error: ValidationErrorView,
    context: SourceContext,
    first: int,
) -> (place: Seq<char>)
    requires
        error.node is Some,
        laws::sliceable(parser::file_origin(content, filename), error.node->0.span),
        source_map::file_in(context, parser::filename_id(filename)) matches Some(file)
            && file.text == Some(content) && file.index is Some,
        0 <= first <= content.len(),
        text::byte_len(content.take(first)) == error.node->0.span.start_offset(),
    ensures
        message::stands_at(diagnostic::diagnosed(error, context).told(), place, 0),
        is_place(
            place,
            source_map::file_in(context, parser::filename_id(filename))->0.path,
            (source_text::row_at(content, first) + 1) as nat,
            (source_text::column_at(content, first) + 1) as nat,
        ),
{
    let diagnosed = diagnostic::diagnosed(error, context);
    diagnostic_laws::law_range_of_a_place_is_that_place(
        content,
        filename,
        error.node->0.span,
        context,
    );
    source_text::lemma_clip_exact(content, 0, first);
    assert(content.subrange(0, first) =~= content.take(first));
    let place = law_compact_starts_with_the_place(diagnosed);
    let head = place + seq!['['] + diagnosed.code + seq![']'];
    assert(diagnosed.told().subrange(0, 0 + place.len() as int) =~= head.take(place.len() as int));
    assert(head.take(place.len() as int) =~= place);
    place
}

/// A compact line tells everything between the place and the hint: the code in brackets, the
/// path or that the value is the document's root, and the message. The hint, if there is one,
/// stands at the end in parentheses.
pub proof fn law_compact_tells_code_path_message_and_hint(diagnostic: DiagnosticView)
    ensures
        ({
            let told = diagnostic.told();
            let rendered = path::path_text(diagnostic.instance_path);
            let at = if rendered.len() == 0 {
                "(root)"@
            } else {
                rendered
            };
            let middle = seq!['['] + diagnostic.code + seq![']', ' '] + at + seq![':', ' ']
                + validation_error::kind_message(diagnostic.kind);
            &&& diagnostic.hints().len() == 0 ==> message::ends_in(told, middle)
            &&& diagnostic.hints().len() == 1 ==> message::ends_in(
                told,
                middle + seq![' ', '('] + "Hint: "@ + diagnostic.hints()[0] + seq![')'],
            )
        }),
{
    reveal_strlit("[");
    reveal_strlit("] ");
    reveal_strlit("(root)");
    reveal_strlit("(root): ");
    reveal_strlit(": ");
    reveal_strlit(" (Hint: ");
    reveal_strlit("Hint: ");
    reveal_strlit(")");
    let told = diagnostic.told();
    let rendered = path::path_text(diagnostic.instance_path);
    let at = if rendered.len() == 0 {
        "(root)"@
    } else {
        rendered
    };
    let place = diagnostic::compact_place(diagnostic.source_range);
    let problem = validation_error::kind_message(diagnostic.kind);
    assert(diagnostic::compact_path(diagnostic.instance_path) =~= at + seq![':', ' ']);
    let middle = seq!['['] + diagnostic.code + seq![']', ' '] + at + seq![':', ' '] + problem;
    if diagnostic.hints().len() == 0 {
        assert(told =~= place + middle);
        assert(told.skip(told.len() - middle.len()) =~= middle);
    } else if diagnostic.hints().len() == 1 {
        let hint = diagnostic.hints()[0];
        assert(diagnostic.hints() =~= seq![hint]);
        text_laws::law_joined_texts(Seq::empty(), Seq::empty(), "; "@, hint);
        let closing = seq![' ', '('] + "Hint: "@ + hint + seq![')'];
        assert(diagnostic::compact_hints(diagnostic.hints()) =~= closing);
        let whole = middle + seq![' ', '('] + "Hint: "@ + hint + seq![')'];
        assert(whole =~= middle + closing);
        assert(told =~= place + whole);
        assert(told.skip(told.len() - whole.len()) =~= whole);
    }
}

proof fn lemma_solid_push(s: Seq<char>, c: char)
    ensures
        extent_laws::solid(s.push(c)) == if text::white_space(c) {
            extent_laws::solid(s)
        } else {
            extent_laws::solid(s).push(c)
        },
    decreases s.len(),
{
    reveal_with_fuel(extent_laws::solid, 2);
    if s.len() == 0 {
        assert(s.push(c).skip(1) =~= s);
        assert(seq![c] + s =~= s.push(c));
    } else {
        lemma_solid_push(s.skip(1), c);
        assert(s.push(c).skip(1) =~= s.skip(1).push(c));
        assert(extent_laws::solid(s.push(c)) =~= if text::white_space(c) {
            extent_laws::solid(s)
        } else {
            extent_laws::solid(s).push(c)
        });
    }
}

proof fn lemma_solid_flattened(s: Seq<char>, n: int)
    requires
        0 <= n <= s.len(),
    ensures
        extent_laws::solid(text::flattened(s, n)) == extent_laws::solid(s.take(n)),
    decreases n,
{
    if n == 0 {
        assert(s.take(0) =~= text::flattened(s, 0));
    } else {
        lemma_solid_flattened(s, n - 1);
        let before = text::flattened(s, n - 1);
        assert(s.take(n) =~= s.take(n - 1).push(s[n - 1]));
        lemma_solid_push(s.take(n - 1), s[n - 1]);
        lemma_solid_push(before, s[n - 1]);
        lemma_solid_push(before, ' ');
    }
}

/// Bringing a diagnostic to one line changes nothing but white space.
pub proof fn law_compact_loses_no_word(diagnostic: DiagnosticView)
    ensures
        extent_laws::solid(diagnostic.compact()) == extent_laws::solid(diagnostic.told()),
{
    let told = diagnostic.told();
    lemma_solid_flattened(told, told.len() as int);
    assert(told.take(told.len() as int) =~= told);
}

/// The number of a kind of error among those that have one.
pub open spec fn kind_number(kind: KindView) -> Option<nat> {
    match kind {
        KindView::MissingRequiredProperty { .. } => Some(10),
        KindView::TypeMismatch { .. } => Some(11),
        KindView::InvalidEnumValue { .. } => Some(12),
        KindView::StringPatternMismatch { .. } => Some(15),
        KindView::NumberOutOfRange { .. } => Some(16),
        KindView::NumberNotMultipleOf { .. } => Some(17),
        KindView::UnknownProperty { .. } => Some(18),
        KindView::ArrayItemsNotUnique => Some(19),
        KindView::Other { .. } => None,
    }
}

/// The code of an error tells its kind alone: a number behind the same letters for every kind.
/// An error of no other kind brings its own.
pub proof fn law_codes_tell_kinds(a: KindView, b: KindView)
    ensures
        a matches KindView::Other { code, .. } ==> validation_error::kind_code(a) == code,
        kind_number(a) matches Some(n) ==> validation_error::kind_code(a) == "Q-1-"@
            + text::decimal(n),
        kind_number(a) is Some && kind_number(b) is Some ==> (validation_error::kind_code(a)
            == validation_error::kind_code(b) <==> kind_number(a) == kind_number(b)),
{
    lemma_code_is_numbered(a);
    lemma_code_is_numbered(b);
    if kind_number(a) is Some && kind_number(b) is Some && validation_error::kind_code(a)
        == validation_error::kind_code(b) {
        let n = kind_number(a)->0;
        let m = kind_number(b)->0;
        let head = "Q-1-"@;
        assert((head + text::decimal(n)).skip(head.len() as int) =~= text::decimal(n));
        assert((head + text::decimal(m)).skip(head.len() as int) =~= text::decimal(m));
        text_laws::law_decimal_tells_numbers_apart(n, m);
    }
}

proof fn lemma_code_is_numbered(kind: KindView)
    ensures
        kind_number(kind) matches Some(n) ==> validation_error::kind_code(kind) == "Q-1-"@
            + text::decimal(n),
{
    reveal_strlit("Q-1-");
    reveal_strlit("Q-1-10");
    reveal_strlit("Q-1-11");
    reveal_strlit("Q-1-12");
    reveal_strlit("Q-1-15");
    reveal_strlit("Q-1-16");
    reveal_strlit("Q-1-17");
    reveal_strlit("Q-1-18");
    reveal_strlit("Q-1-19");
    if let Some(n) = kind_number(kind) {
        reveal_with_fuel(text::decimal, 2);
        assert(text::decimal(n) =~= seq![text::digit_char(n / 10), text::digit_char(n % 10)]);
        assert(validation_error::kind_code(kind) =~= "Q-1-"@ + text::decimal(n));
    }
}

/// Whether `s` starts with `start`.
pub open spec fn starts_with(s: Seq<char>, start: Seq<char>) -> bool {
    message::stands_at(s, start, 0)
}

/// Whether `s` is `first`, `one`, `second` and `other` one after the other.
pub open spec fn is_sentence(
    s: Seq<char>,
    first: Seq<char>,
    one: Seq<char>,
    second: Seq<char>,
    other: Seq<char>,
) -> bool {
    &&& starts_with(s, first)
    &&& message::stands_at(s, one, first.len() as int)
    &&& message::stands_at(s, second, (first.len() + one.len()) as int)
    &&& message::stands_at(s, other, (first.len() + one.len() + second.len()) as int)
    &&& s.len() == first.len() + one.len() + second.len() + other.len()
}

proof fn lemma_sentence(first: Seq<char>, one: Seq<char>, second: Seq<char>, other: Seq<char>)
    ensures
        is_sentence(first + one + second + other, first, one, second, other),
{
    let s = first + one + second + other;
    let a = first.len() as int;
    let b = a + one.len();
    let c = b + second.len();
    assert(s.subrange(0, 0 + a) =~= first);
    assert(s.subrange(a, a + one.len()) =~= one);
    assert(s.subrange(b, b + second.len()) =~= second);
    assert(s.subrange(c, c + other.len()) =~= other);
}

/// A message tells each part of its error once, in full and in its own place. What is said of
/// a missing property does not depend on what it might have held.
pub proof fn law_messages_tell_every_part(kind: KindView)
    ensures
        ({
            let told = validation_error::kind_message(kind);
            match kind {
                KindView::MissingRequiredProperty { property, .. } => is_sentence(
                    told,
                    "Missing required property "@,
                    seq!['\''],
                    property,
                    seq!['\''],
                ),
                KindView::TypeMismatch { expected, got } => is_sentence(
                    told,
                    "Expected "@,
                    expected,
                    ", got "@,
                    got,
                ),
                KindView::InvalidEnumValue { value, allowed } => is_sentence(
                    told,
                    "Value '"@,
                    value,
                    "' is not one of: "@,
                    path::joined(allowed, seq![',', ' ']),
                ),
                KindView::StringPatternMismatch { value, pattern } => is_sentence(
                    told,
                    "String '"@,
                    value,
                    "' does not match pattern "@,
                    seq!['\''] + pattern + seq!['\''],
                ),
                KindView::NumberOutOfRange { value, range } => is_sentence(
                    told,
                    "Number "@,
                    value,
                    " is not in range "@,
                    range,
                ),
                KindView::NumberNotMultipleOf { value, multiple_of } => is_sentence(
                    told,
                    "Number "@,
                    value,
                    " is not a multiple of "@,
                    multiple_of,
                ),
                KindView::UnknownProperty { property } => is_sentence(
                    told,
                    "Unknown property "@,
                    seq!['\''],
                    property,
                    seq!['\''],
                ),
                KindView::ArrayItemsNotUnique => told == "Array items must be unique"@,
                KindView::Other { message, .. } => told == message,
            }
        }),
{
    reveal_strlit("'");
    reveal_strlit(", ");
    assert("'"@ =~= seq!['\'']);
    assert(", "@ =~= seq![',', ' ']);
    let told = validation_error::kind_message(kind);
    match kind {
        KindView::MissingRequiredProperty { property, .. } => {
            reveal_strlit("Missing required property '");
            reveal_strlit("Missing required property ");
            assert("Missing required property '"@ =~= "Missing required property "@ + seq!['\'']);
            lemma_sentence("Missing required property "@, seq!['\''], property, seq!['\'']);
        },
        KindView::TypeMismatch { expected, got } => {
            lemma_sentence("Expected "@, expected, ", got "@, got);
        },
        KindView::InvalidEnumValue { value, allowed } => {
            lemma_sentence(
                "Value '"@,
                value,
                "' is not one of: "@,
                path::joined(allowed, seq![',', ' ']),
            );
        },
        KindView::StringPatternMismatch { value, pattern } => {
            reveal_strlit("' does not match pattern '");
            reveal_strlit("' does not match pattern ");
            let last = seq!['\''] + pattern + seq!['\''];
            lemma_sentence("String '"@, value, "' does not match pattern "@, last);
            assert(told =~= "String '"@ + value + "' does not match pattern "@ + last);
        },
        KindView::NumberOutOfRange { value, range } => {
            lemma_sentence("Number "@, value, " is not in range "@, range);
        },
        KindView::NumberNotMultipleOf { value, multiple_of } => {
            lemma_sentence("Number "@, value, " is not a multiple of "@, multiple_of);
        },
        KindView::UnknownProperty { property } => {
            reveal_strlit("Unknown property '");
            reveal_strlit("Unknown property ");
            assert("Unknown property '"@ =~= "Unknown property "@ + seq!['\'']);
            lemma_sentence("Unknown property "@, seq!['\''], property, seq!['\'']);
        },
        KindView::ArrayItemsNotUnique => {},
        KindView::Other { .. } => {},
    }
}

/// Whether two errors are of one kind, whatever they are about.
pub open spec fn same_kind(a: KindView, b: KindView) -> bool {
    match (a, b) {
        (KindView::MissingRequiredProperty { .. }, KindView::MissingRequiredProperty { .. }) =>
            true,
        (KindView::TypeMismatch { .. }, KindView::TypeMismatch { .. }) => true,
        (KindView::InvalidEnumValue { .. }, KindView::InvalidEnumValue { .. }) => true,
        (KindView::StringPatternMismatch { .. }, KindView::StringPatternMismatch { .. }) => true,
        (KindView::NumberOutOfRange { .. }, KindView::NumberOutOfRange { .. }) => true,
        (KindView::NumberNotMultipleOf { .. }, KindView::NumberNotMultipleOf { .. }) => true,
        (KindView::UnknownProperty { .. }, KindView::UnknownProperty { .. }) => true,
        (KindView::ArrayItemsNotUnique, KindView::ArrayItemsNotUnique) => true,
        (KindView::Other { .. }, KindView::Other { .. }) => true,
        _ => false,
    }
}

/// Whether there is something to suggest for a value that must have the given type.
pub open spec fn is_suggested_type(expected: Seq<char>) -> bool {
    ||| expected == "boolean"@
    ||| expected == "number"@
    ||| expected == "string"@
    ||| expected == "array"@
    ||| expected == "object"@
}

/// What there is to do about an error, where something can be suggested.
pub open spec fn advice(kind: KindView) -> Seq<char> {
    match kind {
        KindView::MissingRequiredProperty { property, .. } => "Add the "@ + seq!['`'] + property
            + seq!['`'] + " property to your YAML document"@,
        KindView::TypeMismatch { expected, .. } => if expected == "boolean"@ {
            "Use `true` or `false` (YAML 1.2 standard)"@
        } else if expected == "number"@ {
            "Use a numeric value without quotes"@
        } else if expected == "string"@ {
            "Ensure the value is a string (quoted if it contains special characters)"@
        } else if expected == "array"@ {
            "Use YAML array syntax: `[item1, item2]` or list format"@
        } else {
            "Use YAML mapping syntax with key-value pairs"@
        },
        KindView::InvalidEnumValue { .. } => "Check the schema for allowed values"@,
        KindView::StringPatternMismatch { .. } =>
            "Check that the string matches the expected format"@,
        KindView::NumberOutOfRange { .. } => "Check the allowed value range in the schema"@,
        KindView::NumberNotMultipleOf { .. } => "Check the allowed value range in the schema"@,
        KindView::UnknownProperty { .. } =>
            "Check for typos in property names or remove unrecognized properties"@,
        KindView::ArrayItemsNotUnique => "Remove duplicate items from the array"@,
        KindView::Other { .. } => Seq::empty(),
    }
}

/// One hint is suggested for every error, except for one of no other kind and for a value of
/// a type of which nothing can be suggested. It asks whether to do what there is to do.
pub proof fn law_hints_are_advice(kind: KindView)
    ensures
        diagnostic::suggested_hints(kind).len() == if kind is Other || (kind matches
            KindView::TypeMismatch { expected, .. } && !is_suggested_type(expected)) {
            0int
        } else {
            1int
        },
        diagnostic::suggested_hints(kind).len() == 1 ==> diagnostic::suggested_hints(kind)[0]
            == advice(kind).push('?'),
{
    reveal_strlit("boolean");
    reveal_strlit("number");
    reveal_strlit("string");
    reveal_strlit("array");
    reveal_strlit("object");
    if diagnostic::suggested_hints(kind).len() == 1 {
        let hint = diagnostic::suggested_hints(kind)[0];
        match kind {
            KindView::MissingRequiredProperty { property, .. } => {
                reveal_strlit("Add the `");
                reveal_strlit("Add the ");
                reveal_strlit("` property to your YAML document?");
                reveal_strlit(" property to your YAML document");
            },
            KindView::TypeMismatch { expected, .. } => {
                if expected == "boolean"@ {
                    reveal_strlit("Use `true` or `false` (YAML 1.2 standard)?");
                    reveal_strlit("Use `true` or `false` (YAML 1.2 standard)");
                } else if expected == "number"@ {
                    reveal_strlit("Use a numeric value without quotes?");
                    reveal_strlit("Use a numeric value without quotes");
                } else if expected == "string"@ {
                    reveal_strlit(
                        "Ensure the value is a string (quoted if it contains special characters)?",
                    );
                    reveal_strlit(
                        "Ensure the value is a string (quoted if it contains special characters)",
                    );
                } else if expected == "array"@ {
                    reveal_strlit("Use YAML array syntax: `[item1, item2]` or list format?");
                    reveal_strlit("Use YAML array syntax: `[item1, item2]` or list format");
                } else {
                    reveal_strlit("Use YAML mapping syntax with key-value pairs?");
                    reveal_strlit("Use YAML mapping syntax with key-value pairs");
                }
            },
            KindView::InvalidEnumValue { .. } => {
                reveal_strlit("Check the schema for allowed values?");
                reveal_strlit("Check the schema for allowed values");
            },
            KindView::StringPatternMismatch { .. } => {
                reveal_strlit("Check that the string matches the expected format?");
                reveal_strlit("Check that the string matches the expected format");
            },
            KindView::NumberOutOfRange { .. } => {
                reveal_strlit("Check the allowed value range in the schema?");
                reveal_strlit("Check the allowed value range in the schema");
            },
            KindView::NumberNotMultipleOf { .. } => {
                reveal_strlit("Check the allowed value range in the schema?");
                reveal_strlit("Check the allowed value range in the schema");
            },
            KindView::UnknownProperty { .. } => {
                reveal_strlit("Check for typos in property names or remove unrecognized properties?");
                reveal_strlit("Check for typos in property names or remove unrecognized properties");
            },
            KindView::ArrayItemsNotUnique => {
                reveal_strlit("Remove duplicate items from the array?");
                reveal_strlit("Remove duplicate items from the array");
            },
            KindView::Other { .. } => {},
        }
        assert(hint =~= advice(kind).push('?'));
    }
}

/// A suggestion depends on the kind of error, and beyond it on the property that is missing
/// or on the type that was expected. What a value is and what it may be change nothing.
pub proof fn law_hints_depend_on_the_kind(a: KindView, b: KindView)
    requires
        same_kind(a, b),
        match (a, b) {
            (
                KindView::MissingRequiredProperty { property: one, .. },
                KindView::MissingRequiredProperty { property: other, .. },
            ) => one == other,
            (
                KindView::TypeMismatch { expected: one, .. },
                KindView::TypeMismatch { expected: other, .. },
            ) => one == other,
            _ => true,
        },
    ensures
        diagnostic::suggested_hints(a) == diagnostic::suggested_hints(b),
{
}

/// A message is an error that tells the code, the problem and the place of the value, and
/// gives the hints. Its first detail tells the path through the document; where the path
/// through the schema is known, a second one tells it.
pub proof fn law_message_tells_the_error(error: ValidationErrorView)
    ensures
        ({
            let told = diagnostic::error_message(error);
            &&& told.severity is Error
            &&& told.title == "YAML Validation Failed"@
            &&& told.code == Some(validation_error::kind_code(error.kind))
            &&& told.problem == Some(validation_error::kind_message(error.kind))
            &&& error.node is None <==> told.location is None
            &&& error.node matches Some(node) ==> told.location == Some(node.span)
            &&& message::without_places(told.details)
            &&& told.details.len() == if error.schema_path.len() == 0 {
                1int
            } else {
                2int
            }
            &&& told.details[0].class is Error
            &&& error.instance_path.len() == 0 ==> told.details[0].content == "At document root"@
            &&& error.instance_path.len() > 0 ==> is_sentence(
                told.details[0].content,
                "At document path: "@,
                seq!['`'],
                path::path_text(error.instance_path),
                seq!['`'],
            )
            &&& error.schema_path.len() > 0 ==> told.details[1].class is Info && is_sentence(
                told.details[1].content,
                "Schema constraint"@,
                seq![':', ' '],
                path::joined(error.schema_path, seq![' ', '>', ' ']),
                Seq::empty(),
            )
            &&& error.custom_hint matches Some(hint) ==> told.hints == seq![hint]
            &&& error.custom_hint is None ==> told.hints == diagnostic::suggested_hints(error.kind)
        }),
{
    let told = diagnostic::error_message(error);
    let content = told.details[0].content;
    if error.instance_path.len() > 0 {
        reveal_strlit("At document path: `");
        reveal_strlit("At document path: ");
        reveal_strlit("`");
        let rendered = path::path_text(error.instance_path);
        lemma_sentence("At document path: "@, seq!['`'], rendered, seq!['`']);
        assert(content =~= "At document path: "@ + seq!['`'] + rendered + seq!['`']);
    }
    if error.schema_path.len() > 0 {
        reveal_strlit("Schema constraint: ");
        reveal_strlit("Schema constraint");
        reveal_strlit(" > ");
        assert(" > "@ =~= seq![' ', '>', ' ']);
        let steps = path::joined(error.schema_path, seq![' ', '>', ' ']);
        let none = Seq::<char>::empty();
        lemma_sentence("Schema constraint"@, seq![':', ' '], steps, none);
        assert(told.details[1].content =~= "Schema constraint"@ + seq![':', ' '] + steps + none);
    }
}

/// A diagnostic keeps what its error says. It has a range only where the error's value is
/// known, and the range is that of the value.
pub proof fn law_diagnostic_keeps_its_error(error: ValidationErrorView, context: SourceContext)
    ensures
        ({
            let diagnosed = diagnostic::diagnosed(error, context);
            &&& diagnosed.kind == error.kind
            &&& diagnosed.code == validation_error::kind_code(error.kind)
            &&& diagnosed.instance_path == error.instance_path
            &&& diagnosed.schema_path == error.schema_path
            &&& diagnosed.custom_hint == error.custom_hint
            &&& diagnosed.hints() == diagnosed.message.hints
            &&& diagnosed.message.code == Some(diagnosed.code)
            &&& diagnosed.message.problem == Some(validation_error::kind_message(diagnosed.kind))
            &&& error.node is None ==> diagnosed.source_range is None
            &&& error.node matches Some(node) ==> diagnosed.source_range == diagnostic::range_of(
                node.span,
                context,
            )
        }),
{
}

/// Two line breaks are known: a line feed and a carriage return.
pub proof fn law_two_characters_break_lines(c: char)
    ensures
        text::line_break(c) <==> c == '\u{a}' || c == '\u{d}',
        text::one_line(seq![c]) <==> !(c == '\u{a}' || c == '\u{d}'),
{
    assert(seq![c][0] == c);
}

proof fn lemma_ends_in_three(told: Seq<char>, a: Seq<char>, b: Seq<char>, c: Seq<char>)
    requires
        message::ends_in(told, a + b + c),
    ensures
        message::holds(told, a),
        message::holds(told, b),
        message::ends_in(told, c),
{
    let all = a + b + c;
    let before = told.take(told.len() - all.len());
    assert(told =~= before + told.skip(told.len() - all.len()));
    assert(told == before + all);
    assert(told =~= before + a + (b + c));
    assert(told =~= (before + a) + b + c);
    diagnostic_laws::lemma_holds_behind(told, before, a, b + c);
    diagnostic_laws::lemma_holds_behind(told, before + a, b, c);
    assert(told.skip(told.len() - c.len()) =~= c);
}

proof fn lemma_detail_lines(details: Seq<DetailView>)
    requires
        details.len() == 1 || details.len() == 2,
        details[0].class is Error,
        details.len() == 2 ==> details[1].class is Info,
    ensures
        message::detail_lines(details, details.len() as int) == ("✖ "@ + details[0].content + "\n"@)
            + if details.len() == 2 {
            "ℹ "@ + details[1].content + "\n"@
        } else {
            Seq::empty()
        },
{
    let none = Seq::<char>::empty();
    let place = "✖ "@ + details[0].content + "\n"@;
    assert(message::detail_lines(details, 0) == none);
    assert(none + "✖ "@ =~= "✖ "@);
    assert(message::detail_lines(details, 1) == place);
    if details.len() == 2 {
        let constraint = "ℹ "@ + details[1].content + "\n"@;
        assert(message::detail_lines(details, 2) == place + "ℹ "@ + details[1].content + "\n"@);
        assert(place + "ℹ "@ + details[1].content + "\n"@ =~= place + constraint);
    } else {
        assert(place + none =~= place);
    }
}

proof fn lemma_hint_line(hints: Seq<Seq<char>>)
    requires
        hints.len() == 1,
    ensures
        message::hint_lines(hints, 1) == "ℹ "@ + hints[0] + "\n"@,
{
    let none = Seq::<char>::empty();
    assert(message::hint_lines(hints, 0) == none);
    assert(none + "ℹ "@ =~= "ℹ "@);
}

/// The text of a diagnostic ends in its details, each on a line of its own behind its mark, and
/// in its hint, if there is one.
pub proof fn law_text_ends_in_details_and_hint(
    error: ValidationErrorView,
    context: SourceContext,
    told: Seq<char>,
)
    requires
        message::tells(told, diagnostic::error_message(error), context),
    ensures
        ({
            let details = diagnostic::error_message(error).details;
            let hints = diagnostic::given_hints(error.kind, error.custom_hint);
            &&& message::holds(told, "✖ "@ + details[0].content + "\n"@)
            &&& details.len() == 2 ==> message::holds(told, "ℹ "@ + details[1].content + "\n"@)
            &&& hints.len() == 1 ==> message::ends_in(told, "ℹ "@ + hints[0] + "\n"@)
        }),
{
    let shown = diagnostic::error_message(error);
    let details = shown.details;
    let hints = shown.hints;
    let place = "✖ "@ + details[0].content + "\n"@;
    let constraint = if details.len() == 2 {
        "ℹ "@ + details[1].content + "\n"@
    } else {
        Seq::empty()
    };
    let given = message::hint_lines(hints, hints.len() as int);
    lemma_detail_lines(details);
    assert(message::trailing_lines(shown) == place + constraint + given);
    lemma_ends_in_three(told, place, constraint, given);
    if hints.len() == 1 {
        lemma_hint_line(hints);
    }
}

/// Without an excerpt, the text of a diagnostic tells the problem on a line of its own.
pub proof fn law_text_without_excerpt_tells_the_problem(
    error: ValidationErrorView,
    context: SourceContext,
    told: Seq<char>,
)
    requires
        message::tells(told, diagnostic::error_message(error), context),
        !message::has_excerpt(diagnostic::error_message(error), context),
    ensures
        message::holds(told, validation_error::kind_message(error.kind) + "\n"@),
{
    let shown = diagnostic::error_message(error);
    let before = message::headline(shown) + message::place_line(shown, context);
    let tail = message::trailing_lines(shown);
    let problem = validation_error::kind_message(error.kind) + "\n"@;
    assert(told =~= before + problem + tail);
    diagnostic_laws::lemma_holds_behind(told, before, problem, tail);
}

/// The text of a diagnostic at a value in a file whose text is held, and whose lines end in line
/// feeds alone, tells the place of the value: the file's name, and the line and the column of the
/// value's start, counted from one.
pub proof fn law_excerpt_tells_the_place(
    error: ValidationErrorView,
    context: SourceContext,
    told: Seq<char>,
    held: Seq<char>,
    point: PointView,
) -> (place: Seq<char>)
    requires
        message::tells(told, diagnostic::error_message(error), context),
        message::without_escapes(validation_error::kind_code(error.kind)),
        error.node is Some,
        source_map::point_of(error.node->0.span, 0, context) == Some(point),
        source_map::files_of(error.node->0.span).len() > 0,
        source_map::files_of(error.node->0.span)[0] == point.file_id,
        source_map::file_in(context, point.file_id) matches Some(file) && file.text == Some(held)
            && message::without_escapes(file.path),
        0 <= point.offset < text::byte_len(held),
        0 <= point.row,
        0 <= point.column,
        message::ends_lines_in_feeds(held),
    ensures
        message::holds(told, place),
        is_place(
            place + seq![' '],
            source_map::file_in(context, point.file_id)->0.path,
            (point.row + 1) as nat,
            (point.column + 1) as nat,
        ),
{
    reveal_strlit(":");
    reveal_strlit("[");
    reveal_strlit("] ");
    reveal_strlit("\n");
    reveal_strlit("YAML Validation Failed");
    assert(":"@ =~= seq![':']);
    let shown = diagnostic::error_message(error);
    let path = source_map::file_in(context, point.file_id)->0.path;
    let line = text::decimal((point.row + 1) as nat);
    let column = text::decimal((point.column + 1) as nat);
    let place = path + seq![':'] + line + seq![':'] + column;
    text_laws::law_decimal_is_worth_its_number((point.row + 1) as nat);
    text_laws::law_decimal_is_worth_its_number((point.column + 1) as nat);
    assert(is_place_of(place + seq![' '], path, line, column));
    assert(message::without_escapes(message::title_line(shown)));
    assert(message::excerpt_place(shown, context) == Some(place));
    place
}

} // verus!
