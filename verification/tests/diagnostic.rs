//! Diagnostics: codes, hints, and the three ways to render them.

use quarto_source_map::{FileInformation, SourceContext};
use quarto_yaml::source_map::{are_files_held, are_files_settled, collect_files, is_mappable};
use quarto_yaml::{
    file_id_for_filename, parse, parse_file, FileId, InstancePath, PathSegment, SourceInfo,
    SourceRange, ValidationDiagnostic, ValidationError, ValidationErrorKind, Yaml,
    YamlWithSourceInfo,
};

fn type_mismatch(expected: &str, got: &str) -> ValidationErrorKind {
    ValidationErrorKind::TypeMismatch {
        expected: expected.to_string(),
        got: got.to_string(),
    }
}

fn missing(property: &str) -> ValidationErrorKind {
    ValidationErrorKind::MissingRequiredProperty {
        property: property.to_string(),
        allowed: None,
        expected_type: None,
    }
}

fn context_with(filename: &str, content: &str) -> SourceContext {
    let mut ctx = SourceContext::new();
    let id = quarto_source_map::FileId(file_id_for_filename(filename).0);
    ctx.add_file_with_id(id, filename.to_string(), Some(content.to_string()));
    ctx
}

/// The text without color codes and hyperlinks.
fn strip_ansi(s: &str) -> String {
    let mut out = String::new();
    let mut chars = s.chars().peekable();
    while let Some(c) = chars.next() {
        if c != '\u{1b}' {
            out.push(c);
            continue;
        }
        match chars.peek() {
            Some('[') => {
                chars.next();
                while let Some(&nc) = chars.peek() {
                    chars.next();
                    if ('@'..='~').contains(&nc) {
                        break;
                    }
                }
            }
            Some(']') => {
                chars.next();
                while let Some(nc) = chars.next() {
                    if nc == '\u{07}' {
                        break;
                    }
                    if nc == '\u{1b}' {
                        if let Some('\\') = chars.peek() {
                            chars.next();
                        }
                        break;
                    }
                }
            }
            _ => {}
        }
    }
    out
}

#[test]
fn test_path_segment_serialization() {
    let key = PathSegment::Key("format".to_string());
    let json = key.to_json();
    assert_eq!(json["type"], "Key");
    assert_eq!(json["value"], "format");

    let index = PathSegment::Index(42);
    let json = index.to_json();
    assert_eq!(json["type"], "Index");
    assert_eq!(json["value"], 42);
}

#[test]
fn test_source_range_serialization() {
    let range = SourceRange {
        filename: "test.yaml".to_string(),
        start_offset: 10,
        end_offset: 20,
        start_line: 1,
        start_column: 5,
        end_line: 1,
        end_column: 15,
    };

    let json = range.to_json();
    assert_eq!(json["filename"], "test.yaml");
    assert_eq!(json["start_offset"], 10);
    assert_eq!(json["end_offset"], 20);
    assert_eq!(json["start_line"], 1);
    assert_eq!(json["start_column"], 5);
}

#[test]
fn test_error_code() {
    let error = ValidationError::new(
        ValidationErrorKind::MissingRequiredProperty {
            property: "author".to_string(),
            allowed: None,
            expected_type: None,
        },
        InstancePath::new(),
    );
    assert_eq!(error.error_code(), "Q-1-10");

    let error = ValidationError::new(
        ValidationErrorKind::TypeMismatch {
            expected: "number".to_string(),
            got: "string".to_string(),
        },
        InstancePath::new(),
    );
    assert_eq!(error.error_code(), "Q-1-11");

    let error = ValidationError::new(
        ValidationErrorKind::InvalidEnumValue {
            value: "foo".to_string(),
            allowed: vec!["html".to_string(), "pdf".to_string()],
        },
        InstancePath::new(),
    );
    assert_eq!(error.error_code(), "Q-1-12");

    let error = ValidationError::new(
        ValidationErrorKind::UnknownProperty {
            property: "foo".to_string(),
        },
        InstancePath::new(),
    );
    assert_eq!(error.error_code(), "Q-1-18");
}

#[test]
fn test_instance_path_string() {
    assert_eq!(ValidationDiagnostic::instance_path_string(&[]), "");
    assert_eq!(
        ValidationDiagnostic::instance_path_string(&[PathSegment::Key("format".to_string())]),
        "format"
    );
    assert_eq!(
        ValidationDiagnostic::instance_path_string(&[
            PathSegment::Key("authors".to_string()),
            PathSegment::Index(0),
            PathSegment::Key("name".to_string()),
        ]),
        "authors[0].name"
    );
}

#[test]
fn test_to_compact() {
    let source_ctx = SourceContext::new();

    // Error at a nested path: location omitted (no yaml_node), code + path + message + hint.
    let mut path = InstancePath::new();
    path.push_key("format");
    path.push_key("html");
    let error = ValidationError::new(
        ValidationErrorKind::TypeMismatch {
            expected: "boolean".to_string(),
            got: "string".to_string(),
        },
        path,
    );
    let vd = ValidationDiagnostic::from_validation_error(&error, &source_ctx);
    let compact = vd.to_compact();
    assert_eq!(
        compact,
        "[Q-1-11] format.html: Expected boolean, got string (Hint: Use `true` or `false` (YAML 1.2 standard)?)"
    );

    // Root-level error renders `(root)` rather than an empty path.
    let error = ValidationError::new(
        ValidationErrorKind::MissingRequiredProperty {
            property: "version".to_string(),
            allowed: None,
            expected_type: None,
        },
        InstancePath::new(),
    );
    let vd = ValidationDiagnostic::from_validation_error(&error, &source_ctx);
    let compact = vd.to_compact();
    assert!(compact.starts_with("[Q-1-10] (root): Missing required property 'version'"));
    assert!(
        !compact.contains('\n'),
        "compact output must be a single line"
    );
}

#[test]
fn test_suggest_fixes() {
    let kind = ValidationErrorKind::MissingRequiredProperty {
        property: "author".to_string(),
        allowed: None,
        expected_type: None,
    };
    let hints = ValidationDiagnostic::suggest_fixes_from_kind(&kind);
    assert_eq!(hints.len(), 1);
    assert!(hints[0].contains("author"));

    let kind = ValidationErrorKind::TypeMismatch {
        expected: "boolean".to_string(),
        got: "string".to_string(),
    };
    let hints = ValidationDiagnostic::suggest_fixes_from_kind(&kind);
    assert_eq!(hints.len(), 1);
    assert!(hints[0].contains("true"));

    let kind = ValidationErrorKind::TypeMismatch {
        expected: "number".to_string(),
        got: "string".to_string(),
    };
    let hints = ValidationDiagnostic::suggest_fixes_from_kind(&kind);
    assert_eq!(hints.len(), 1);
    assert!(hints[0].contains("numeric"));
}

#[test]
fn every_kind_has_its_hint() {
    for (kind, hint) in [
        (
            missing("title"),
            Some("Add the `title` property to your YAML document?"),
        ),
        (
            type_mismatch("boolean", "x"),
            Some("Use `true` or `false` (YAML 1.2 standard)?"),
        ),
        (
            type_mismatch("number", "x"),
            Some("Use a numeric value without quotes?"),
        ),
        (
            type_mismatch("string", "x"),
            Some("Ensure the value is a string (quoted if it contains special characters)?"),
        ),
        (
            type_mismatch("array", "x"),
            Some("Use YAML array syntax: `[item1, item2]` or list format?"),
        ),
        (
            type_mismatch("object", "x"),
            Some("Use YAML mapping syntax with key-value pairs?"),
        ),
        (type_mismatch("null", "x"), None),
        (
            ValidationErrorKind::InvalidEnumValue {
                value: "a".to_string(),
                allowed: vec!["b".to_string()],
            },
            Some("Check the schema for allowed values?"),
        ),
        (
            ValidationErrorKind::StringPatternMismatch {
                value: "a".to_string(),
                pattern: "b+".to_string(),
            },
            Some("Check that the string matches the expected format?"),
        ),
        (
            ValidationErrorKind::NumberOutOfRange {
                value: "1".to_string(),
                range: "[2, 3]".to_string(),
            },
            Some("Check the allowed value range in the schema?"),
        ),
        (
            ValidationErrorKind::NumberNotMultipleOf {
                value: "1".to_string(),
                multiple_of: "2".to_string(),
            },
            Some("Check the allowed value range in the schema?"),
        ),
        (
            ValidationErrorKind::UnknownProperty {
                property: "a".to_string(),
            },
            Some("Check for typos in property names or remove unrecognized properties?"),
        ),
        (
            ValidationErrorKind::ArrayItemsNotUnique,
            Some("Remove duplicate items from the array?"),
        ),
        (
            ValidationErrorKind::Other {
                code: "Q-1-99".to_string(),
                message: "a".to_string(),
            },
            None,
        ),
    ] {
        let hints = ValidationDiagnostic::suggest_fixes_from_kind(&kind);
        assert_eq!(hints.first().map(|h| h.as_str()), hint, "{kind:?}");
        assert!(hints.len() <= 1);
    }
}

#[test]
fn every_kind_has_its_message_and_code() {
    for (kind, code, message) in [
        (missing("a"), "Q-1-10", "Missing required property 'a'"),
        (type_mismatch("a", "b"), "Q-1-11", "Expected a, got b"),
        (
            ValidationErrorKind::InvalidEnumValue {
                value: "x".to_string(),
                allowed: vec!["a".to_string(), "b".to_string()],
            },
            "Q-1-12",
            "Value 'x' is not one of: a, b",
        ),
        (
            ValidationErrorKind::StringPatternMismatch {
                value: "x".to_string(),
                pattern: "a+".to_string(),
            },
            "Q-1-15",
            "String 'x' does not match pattern 'a+'",
        ),
        (
            ValidationErrorKind::NumberOutOfRange {
                value: "7".to_string(),
                range: "[0, 5]".to_string(),
            },
            "Q-1-16",
            "Number 7 is not in range [0, 5]",
        ),
        (
            ValidationErrorKind::NumberNotMultipleOf {
                value: "7".to_string(),
                multiple_of: "2".to_string(),
            },
            "Q-1-17",
            "Number 7 is not a multiple of 2",
        ),
        (
            ValidationErrorKind::UnknownProperty {
                property: "x".to_string(),
            },
            "Q-1-18",
            "Unknown property 'x'",
        ),
        (
            ValidationErrorKind::ArrayItemsNotUnique,
            "Q-1-19",
            "Array items must be unique",
        ),
        (
            ValidationErrorKind::Other {
                code: "Q-1-99".to_string(),
                message: "x".to_string(),
            },
            "Q-1-99",
            "x",
        ),
    ] {
        assert_eq!(kind.error_code(), code);
        assert_eq!(kind.message(), message);
        let error = ValidationError::new(kind, InstancePath::new());
        let vd = ValidationDiagnostic::from_validation_error(&error, &SourceContext::new());
        assert_eq!(vd.code, code);
        assert_eq!(vd.message(), message);
    }
}

#[test]
fn an_authored_hint_replaces_the_generated_one() {
    let mut error = ValidationError::new(missing("a"), InstancePath::new());
    error.custom_hint = Some("Ask the author".to_string());
    let vd = ValidationDiagnostic::from_validation_error(&error, &SourceContext::new());
    assert_eq!(vd.hints(), vec!["Ask the author".to_string()]);
    assert_eq!(vd.to_json()["hints"][0], "Ask the author");
    assert!(vd.to_compact().ends_with("(Hint: Ask the author)"));
    assert!(vd.to_text(&SourceContext::new()).ends_with("ℹ Ask the author\n"));
}

#[test]
fn text_without_a_place_is_title_problem_details_and_hints() {
    let mut path = InstancePath::new();
    path.push_key("authors");
    path.push_index(12);
    let mut error = ValidationError::new(type_mismatch("string", "number"), path);
    error.schema_path.push("properties");
    error.schema_path.push("authors");
    let vd = ValidationDiagnostic::from_validation_error(&error, &SourceContext::new());
    assert_eq!(
        vd.to_text(&SourceContext::new()),
        "Error [Q-1-11]: YAML Validation Failed\n\
         Expected string, got number\n\
         ✖ At document path: `authors[12]`\n\
         ℹ Schema constraint: properties > authors\n\
         ℹ Ensure the value is a string (quoted if it contains special characters)?\n"
    );

    let error = ValidationError::new(type_mismatch("null", "number"), InstancePath::new());
    let vd = ValidationDiagnostic::from_validation_error(&error, &SourceContext::new());
    assert_eq!(
        vd.to_text(&SourceContext::new()),
        "Error [Q-1-11]: YAML Validation Failed\n\
         Expected null, got number\n\
         ✖ At document root\n"
    );
}

#[test]
fn a_type_mismatch_in_all_three_formats() {
    let content = "name: x\nage: \"not a number\"";
    let doc = parse_file(content, "test.yaml").unwrap();
    let ctx = context_with("test.yaml", content);
    let mut path = InstancePath::new();
    path.push_key("age");
    let mut error = ValidationError::new(type_mismatch("number", "string"), path);
    error.yaml_node = Some(doc.get_hash_value("age").unwrap().clone());
    error.schema_path.push("object");
    error.schema_path.push("properties");
    error.schema_path.push("age");
    let vd = ValidationDiagnostic::from_validation_error(&error, &ctx);

    assert_eq!(
        vd.to_compact(),
        "test.yaml:2:6 [Q-1-11] age: Expected number, got string (Hint: Use a numeric value without quotes?)"
    );

    let json = vd.to_json();
    assert_eq!(json["error_kind"]["type"], "TypeMismatch");
    assert_eq!(json["error_kind"]["data"]["expected"], "number");
    assert_eq!(json["error_kind"]["data"]["got"], "string");
    assert_eq!(json["code"], "Q-1-11");
    assert_eq!(json["instance_path"][0]["type"], "Key");
    assert_eq!(json["instance_path"][0]["value"], "age");
    assert_eq!(json["schema_path"][2], "age");
    assert_eq!(json["message"], "Expected number, got string");
    assert_eq!(json["hints"][0], "Use a numeric value without quotes?");
    let range = &json["source_range"];
    assert_eq!(range["filename"], "test.yaml");
    assert_eq!(range["start_offset"], 13);
    assert_eq!(range["end_offset"], 27);
    assert_eq!(range["start_line"], 2);
    assert_eq!(range["start_column"], 6);
    assert_eq!(range["end_line"], 2);
    assert_eq!(range["end_column"], 20);

    let text = strip_ansi(&vd.to_text(&ctx));
    assert!(text.contains("[Q-1-11] YAML Validation Failed"));
    assert!(text.contains("test.yaml:2:6"));
    assert!(text.contains("age: \"not a number\""));
    assert!(text.ends_with(
        "✖ At document path: `age`\n\
         ℹ Schema constraint: object > properties > age\n\
         ℹ Use a numeric value without quotes?\n"
    ));
}

#[test]
fn there_is_no_range_without_a_file() {
    let doc = parse("a: b").unwrap();
    let mut error = ValidationError::new(missing("c"), InstancePath::new());
    error.yaml_node = Some(doc);
    let vd = ValidationDiagnostic::from_validation_error(&error, &SourceContext::new());
    assert_eq!(vd.source_range, None);
    let json = vd.to_json();
    assert!(json.get("source_range").is_none());
    assert!(json.get("hints").is_some());
    assert_eq!(
        json["error_kind"]["data"]["allowed"],
        serde_json::Value::Null
    );
    assert!(vd.to_compact().starts_with("[Q-1-10] (root): "));
}

#[test]
fn json_of_every_kind_tells_its_type() {
    for (kind, name) in [
        (missing("a"), "MissingRequiredProperty"),
        (type_mismatch("a", "b"), "TypeMismatch"),
        (
            ValidationErrorKind::InvalidEnumValue {
                value: "a".to_string(),
                allowed: vec!["b".to_string(), "c".to_string()],
            },
            "InvalidEnumValue",
        ),
        (
            ValidationErrorKind::StringPatternMismatch {
                value: "a".to_string(),
                pattern: "b".to_string(),
            },
            "StringPatternMismatch",
        ),
        (
            ValidationErrorKind::NumberOutOfRange {
                value: "1".to_string(),
                range: "b".to_string(),
            },
            "NumberOutOfRange",
        ),
        (
            ValidationErrorKind::NumberNotMultipleOf {
                value: "1".to_string(),
                multiple_of: "2".to_string(),
            },
            "NumberNotMultipleOf",
        ),
        (
            ValidationErrorKind::UnknownProperty {
                property: "a".to_string(),
            },
            "UnknownProperty",
        ),
        (
            ValidationErrorKind::ArrayItemsNotUnique,
            "ArrayItemsNotUnique",
        ),
        (
            ValidationErrorKind::Other {
                code: "a".to_string(),
                message: "b".to_string(),
            },
            "Other",
        ),
    ] {
        let json = kind.to_json();
        assert_eq!(json["type"], name);
        assert_eq!(
            json.get("data").is_none(),
            matches!(kind, ValidationErrorKind::ArrayItemsNotUnique)
        );
    }
    let json = ValidationErrorKind::InvalidEnumValue {
        value: "a".to_string(),
        allowed: vec!["b".to_string(), "c".to_string()],
    }
    .to_json();
    assert_eq!(json["data"]["allowed"][1], "c");
}

#[test]
fn a_place_in_a_concatenation_leads_to_its_pieces() {
    let mut ctx = SourceContext::new();
    let first = ctx.add_file("one.yaml".to_string(), Some("abc\ndef".to_string()));
    let second = ctx.add_file("two.yaml".to_string(), Some("gh\nij".to_string()));
    let whole = SourceInfo::original(FileId(first.0), 4, 7)
        .combine(&SourceInfo::original(FileId(second.0), 0, 2));
    assert_eq!(whole.length(), 5);
    assert_eq!((whole.start_offset(), whole.end_offset()), (0, 5));
    let part = SourceInfo::substring(whole, 1, 5);
    let mut error = ValidationError::new(missing("c"), InstancePath::new());
    error.yaml_node = Some(YamlWithSourceInfo::new_scalar(Yaml::Null, part));
    let range = ValidationDiagnostic::from_validation_error(&error, &ctx)
        .source_range
        .unwrap();
    assert_eq!(range.filename, "one.yaml");
    assert_eq!((range.start_line, range.start_column), (2, 2));
    assert_eq!((range.end_line, range.end_column), (1, 3));
    assert_eq!((range.start_offset, range.end_offset), (5, 2));

    let generated = SourceInfo::Generated {
        kind: "test".to_string(),
    };
    error.yaml_node = Some(YamlWithSourceInfo::new_scalar(Yaml::Null, generated));
    let vd = ValidationDiagnostic::from_validation_error(&error, &ctx);
    assert_eq!(vd.source_range, None);
    assert!(vd.to_text(&ctx).starts_with("Error [Q-1-10]: "));
}

#[test]
fn lines_and_columns_count_characters_from_one() {
    let content = "é: x\nключ: \"значение\"\n";
    let doc = parse_file(content, "ü.yaml").unwrap();
    let ctx = context_with("ü.yaml", content);
    let mut error = ValidationError::new(missing("c"), InstancePath::new());
    error.yaml_node = Some(doc.get_hash_value("ключ").unwrap().clone());
    let range = ValidationDiagnostic::from_validation_error(&error, &ctx)
        .source_range
        .unwrap();
    assert_eq!(range.filename, "ü.yaml");
    assert_eq!(
        &content[range.start_offset..range.end_offset],
        "\"значение\""
    );
    assert_eq!((range.start_line, range.start_column), (2, 7));
    assert_eq!((range.end_line, range.end_column), (2, 17));

    // A text that is longer than the file that it is said to come from has no range.
    let short = context_with("ü.yaml", "é");
    assert_eq!(
        ValidationDiagnostic::from_validation_error(&error, &short).source_range,
        None
    );
}

#[test]
fn a_copy_renders_as_its_original_does() {
    let content = "a: b";
    let doc = parse_file(content, "x.yaml").unwrap();
    let ctx = context_with("x.yaml", content);
    let mut error = ValidationError::new(type_mismatch("array", "string"), InstancePath::new());
    error.yaml_node = Some(doc);
    error.schema_path.push("array");
    let vd = ValidationDiagnostic::from_validation_error(&error, &ctx);
    let copy = vd.clone();
    assert_eq!(copy.to_text(&ctx), vd.to_text(&ctx));
    assert_eq!(copy.to_json(), vd.to_json());
    assert_eq!(copy.to_compact(), vd.to_compact());
}

/// The diagnostic for a value at a place.
fn diagnose_at(info: SourceInfo, ctx: &SourceContext) -> ValidationDiagnostic {
    let mut error = ValidationError::new(missing("c"), InstancePath::new());
    error.yaml_node = Some(YamlWithSourceInfo::new_scalar(Yaml::Null, info));
    ValidationDiagnostic::from_validation_error(&error, ctx)
}

#[test]
fn offsets_of_a_range_are_those_of_the_file() {
    let mut ctx = SourceContext::new();
    ctx.add_file("first".to_string(), Some(String::new()));
    ctx.add_file("t.qmd".to_string(), Some("---\na: b\n---\n".to_string()));
    let front_matter = SourceInfo::substring(SourceInfo::original(FileId(1), 0, 13), 4, 8);
    let info = SourceInfo::substring(front_matter, 0, 1);
    let range = diagnose_at(info, &ctx).source_range.unwrap();
    assert_eq!(range.filename, "t.qmd");
    assert_eq!((range.start_offset, range.end_offset), (4, 5));
    assert_eq!((range.start_line, range.start_column), (2, 1));
    assert_eq!((range.end_line, range.end_column), (2, 2));

    // A byte inside of a character stands where the character stands.
    let mut ctx = SourceContext::new();
    ctx.add_file("é".to_string(), Some("aéb".to_string()));
    let range = diagnose_at(SourceInfo::original(FileId(0), 2, 4), &ctx)
        .source_range
        .unwrap();
    assert_eq!((range.start_offset, range.end_offset), (1, 4));
    assert_eq!((range.start_column, range.end_column), (2, 4));
}

#[test]
fn every_offset_of_a_concatenation_stands_in_one_of_its_pieces() {
    let mut ctx = SourceContext::new();
    ctx.add_file("one".to_string(), Some("ab\ncd".to_string()));
    ctx.add_file("two".to_string(), Some("xyz".to_string()));
    let pieces = || {
        SourceInfo::original(FileId(0), 3, 5)
            .combine(&SourceInfo::original(FileId(1), 1, 1))
            .combine(&SourceInfo::original(FileId(1), 0, 3))
    };
    for (offset, filename, start) in [
        (0, "one", 3),
        (1, "one", 4),
        (2, "two", 0),
        (3, "two", 1),
        (4, "two", 2),
        (5, "two", 3),
    ] {
        let place = SourceInfo::substring(pieces(), offset, offset);
        let range = diagnose_at(place, &ctx).source_range.unwrap();
        assert_eq!(range.filename, filename, "{offset}");
        assert_eq!(range.start_offset, start, "{offset}");
    }
    let past = SourceInfo::substring(pieces(), 6, 6);
    assert_eq!(diagnose_at(past, &ctx).source_range, None);
    assert_eq!(collect_files(&pieces()), vec![FileId(0), FileId(1), FileId(1)]);
    // An empty piece at the end stands at the end of what it is a part of.
    let empty = SourceInfo::Concat {
        pieces: vec![quarto_yaml::SourcePiece {
            source_info: SourceInfo::original(FileId(1), 0, 2),
            length: 0,
        }],
    };
    let range = diagnose_at(empty, &ctx).source_range.unwrap();
    assert_eq!((range.start_offset, range.end_offset), (2, 2));
}

#[test]
fn places_are_not_counted_in_files_that_are_not_at_hand() {
    let info = || SourceInfo::original(FileId(0), 0, 1);
    let mut error = ValidationError::new(missing("c"), InstancePath::new());
    error.yaml_node = Some(YamlWithSourceInfo::new_scalar(Yaml::Null, info()));

    // The index of the lines is there, and the text is not.
    let mut indexed = SourceContext::new();
    indexed.add_file_with_info(
        "x.yaml".to_string(),
        FileInformation::from_parts(vec![1, 3], 5),
    );
    assert!(!are_files_settled(&info(), &indexed));
    assert!(!are_files_held(&info(), &indexed));
    assert!(ValidationDiagnostic::try_from_validation_error(&error, &indexed).is_none());

    // Neither is there.
    let mut named = SourceContext::new();
    named.add_file("there is no such file.yaml".to_string(), None);
    assert!(are_files_settled(&info(), &named));
    assert!(!are_files_held(&info(), &named));
    let vd = ValidationDiagnostic::try_from_validation_error(&error, &named).unwrap();
    assert_eq!(vd.source_range, None);
    assert!(vd.try_to_text(&named).is_none());
    assert!(vd.try_to_text(&indexed).is_none());

    // The text is there, and the index is not.
    let mut full = SourceContext::new();
    full.add_file("x.yaml".to_string(), Some("a\nb\n".to_string()));
    let unindexed = full.without_content();
    assert!(are_files_settled(&info(), &unindexed));
    assert!(are_files_held(&info(), &unindexed));
    let vd = ValidationDiagnostic::try_from_validation_error(&error, &unindexed).unwrap();
    assert_eq!(vd.source_range, None);
    assert!(vd.try_to_text(&unindexed).unwrap().starts_with("Error [Q-1-10]: "));

    // Both are there.
    assert!(are_files_held(&info(), &full));
    let vd = ValidationDiagnostic::try_from_validation_error(&error, &full).unwrap();
    assert_eq!(vd.source_range.as_ref().unwrap().end_offset, 1);
    assert_eq!(vd.try_to_text(&full), Some(vd.to_text(&full)));

    // Both are there, and the index is that of another text.
    for index in ["[]", "[1]", "[1,2]", "[1,3,4]"] {
        let json = serde_json::to_string(&full).unwrap();
        assert!(json.contains("[1,3]"));
        let broken: SourceContext = serde_json::from_str(&json.replace("[1,3]", index)).unwrap();
        assert!(!are_files_settled(&info(), &broken), "{index}");
        assert!(ValidationDiagnostic::try_from_validation_error(&error, &broken).is_none());
    }
    let json = serde_json::to_string(&full).unwrap().replace("\"total_length\":4", "\"total_length\":9");
    let broken: SourceContext = serde_json::from_str(&json).unwrap();
    assert!(!are_files_held(&info(), &broken));
}

#[test]
fn places_that_can_be_followed() {
    let file = |start: usize, end: usize| SourceInfo::original(FileId(0), start, end);
    let doc = parse_file("a: [b, !t {c: d}]", "x.yaml").unwrap();
    assert!(is_mappable(&doc.source_info));
    assert!(is_mappable(&file(3, 3)));
    assert!(is_mappable(&SourceInfo::substring(file(9, 2), 0, 1)));
    assert!(is_mappable(&file(1, 2).combine(&file(5, 9))));
    assert!(is_mappable(&SourceInfo::Generated { kind: String::new() }));
    assert!(!is_mappable(&file(3, 2)));
    assert!(!is_mappable(&file(usize::MAX, usize::MAX)));
    assert!(!is_mappable(&file(0, usize::MAX / 2 + 1)));
    assert!(is_mappable(&file(0, usize::MAX / 2)));
    assert!(!is_mappable(&SourceInfo::substring(file(0, usize::MAX / 2), 1, 1)));
    let backward = SourceInfo::Concat {
        pieces: vec![quarto_yaml::SourcePiece {
            source_info: file(3, 2),
            length: 1,
        }],
    };
    assert!(!is_mappable(&backward));
    let long = SourceInfo::Concat {
        pieces: (0..3)
            .map(|_| quarto_yaml::SourcePiece {
                source_info: file(0, 0),
                length: usize::MAX / 2,
            })
            .collect(),
    };
    assert!(!is_mappable(&long));
    let mut error = ValidationError::new(missing("c"), InstancePath::new());
    error.yaml_node = Some(YamlWithSourceInfo::new_scalar(Yaml::Null, backward));
    let ctx = SourceContext::new();
    assert!(ValidationDiagnostic::try_from_validation_error(&error, &ctx).is_none());
}

#[test]
fn a_compact_line_is_one_line_whatever_stands_in_it() {
    let content = "a: b";
    let filename = "one\ntwo.yaml";
    let doc = parse_file(content, filename).unwrap();
    let mut path = InstancePath::new();
    path.push_key("first\r\n\nsecond");
    let mut error = ValidationError::new(missing("x\ny"), path);
    error.custom_hint = Some("do\rthis\n".to_string());
    error.yaml_node = Some(doc);
    let vd = ValidationDiagnostic::from_validation_error(&error, &context_with(filename, content));
    assert_eq!(
        vd.to_compact(),
        "one two.yaml:1:1 [Q-1-10] first second: Missing required property 'x y' (Hint: do this )"
    );

    let error = ValidationError::new(
        ValidationErrorKind::Other {
            code: "\nA".to_string(),
            message: "\r\n".to_string(),
        },
        InstancePath::new(),
    );
    let vd = ValidationDiagnostic::from_validation_error(&error, &SourceContext::new());
    assert_eq!(vd.to_compact(), "[ A] (root):  ");
}

#[test]
fn text_without_an_excerpt_tells_the_place_in_a_line() {
    // The start of the place is past the end of the pieces, and where its number stands in
    // the place is not.
    let mut ctx = SourceContext::new();
    ctx.add_file("x.yaml".to_string(), Some("a\nbc".to_string()));
    let hollow = SourceInfo::Concat {
        pieces: vec![
            quarto_yaml::SourcePiece {
                source_info: SourceInfo::Generated { kind: "gap".to_string() },
                length: 3,
            },
            quarto_yaml::SourcePiece {
                source_info: SourceInfo::original(FileId(0), 2, 4),
                length: 2,
            },
        ],
    };
    let info = SourceInfo::substring(hollow, 2, 5);
    let vd = diagnose_at(info, &ctx);
    assert_eq!(vd.source_range, None);
    assert_eq!(
        vd.to_text(&ctx),
        "Error [Q-1-10]: YAML Validation Failed\n  at x.yaml:2:2\nMissing required property 'c'\n\
         ✖ At document root\nℹ Add the `c` property to your YAML document?\n"
    );

    let vd = diagnose_at(SourceInfo::original(FileId(7), 0, 1), &ctx);
    assert_eq!(
        vd.to_text(&ctx),
        "Error [Q-1-10]: YAML Validation Failed\nMissing required property 'c'\n\
         ✖ At document root\nℹ Add the `c` property to your YAML document?\n"
    );
}

#[test]
fn an_excerpt_is_headed_by_code_and_title_and_tells_the_place() {
    // The excerpt links to a file of that name, if there is one on disk.
    for filename in ["nowhere.yaml", "/", "/proc/version"] {
        let content = "a: b\nключ: значение\n";
        let doc = parse_file(content, filename).unwrap();
        let ctx = context_with(filename, content);
        for (key, place) in [("a", "1:4"), ("ключ", "2:7")] {
            let info = doc.get_hash_value(key).unwrap().source_info.clone();
            let text = diagnose_at(info, &ctx).to_text(&ctx);
            let (first, rest) = text.split_once('\n').unwrap();
            assert!(first.contains("Error:"), "{text:?}");
            assert!(first.ends_with(" [Q-1-10] YAML Validation Failed"), "{text:?}");
            assert!(rest.contains(&format!("{filename}:{place}")), "{text:?}");
            assert!(text.ends_with("ℹ Add the `c` property to your YAML document?\n"));
        }
    }
}

#[test]
fn there_is_no_excerpt_of_an_unknown_file() {
    // The place starts in the second piece, and an excerpt would be of the first one's file.
    let mut ctx = SourceContext::new();
    ctx.add_file("x.yaml".to_string(), Some("a\nbc".to_string()));
    let info = SourceInfo::original(FileId(7), 3, 3).combine(&SourceInfo::original(FileId(0), 2, 4));
    let vd = diagnose_at(info, &ctx);
    assert_eq!(vd.source_range.as_ref().unwrap().start_line, 2);
    assert_eq!(
        vd.to_text(&ctx),
        "Error [Q-1-10]: YAML Validation Failed\n  at x.yaml:2:1\nMissing required property 'c'\n\
         ✖ At document root\nℹ Add the `c` property to your YAML document?\n"
    );
}
