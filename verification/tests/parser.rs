//! Parsing: values, tags and places.

use quarto_yaml::{
    parse, parse_file, parse_with_parent, FileId, Location, Range, SourceInfo, Yaml,
    YamlWithSourceInfo,
};

/// The number that a float's spelling stands for.
fn real_value(yaml: &Yaml) -> Option<f64> {
    match yaml {
        Yaml::Real(text) => yaml_rust2::Yaml::Real(text.clone()).as_f64(),
        _ => None,
    }
}

#[test]
fn test_parse_scalar() {
    let yaml = parse("hello").unwrap();
    assert!(yaml.is_scalar());
    assert_eq!(yaml.yaml.as_str(), Some("hello"));
}

#[test]
fn test_parse_integer() {
    let yaml = parse("42").unwrap();
    assert!(yaml.is_scalar());
    assert_eq!(yaml.yaml.as_i64(), Some(42));
}

#[test]
fn test_parse_yaml_float_special_forms() {
    // YAML 1.2 core-schema float spellings must resolve to Yaml::Real,
    // not Yaml::String.
    for (text, expected) in [
        (".inf", f64::INFINITY),
        ("+.inf", f64::INFINITY),
        (".Inf", f64::INFINITY),
        (".INF", f64::INFINITY),
        ("+.INF", f64::INFINITY),
        ("-.inf", f64::NEG_INFINITY),
        ("-.Inf", f64::NEG_INFINITY),
        ("-.INF", f64::NEG_INFINITY),
    ] {
        let yaml = parse(text).unwrap();
        assert!(
            matches!(yaml.yaml, Yaml::Real(_)),
            "{text:?} should parse as Yaml::Real, got {:?}",
            yaml.yaml
        );
        assert_eq!(
            real_value(&yaml.yaml),
            Some(expected),
            "{text:?} should evaluate to {expected}"
        );
    }

    for text in [".nan", ".NaN", ".NAN"] {
        let yaml = parse(text).unwrap();
        assert!(
            matches!(yaml.yaml, Yaml::Real(_)),
            "{text:?} should parse as Yaml::Real, got {:?}",
            yaml.yaml
        );
        assert!(
            real_value(&yaml.yaml).unwrap().is_nan(),
            "{text:?} should evaluate to NaN"
        );
    }

    // Bare `inf` / `nan` (no leading dot) are NOT YAML floats — they stay strings.
    for text in ["inf", "nan", "infinity"] {
        let yaml = parse(text).unwrap();
        assert!(
            matches!(yaml.yaml, Yaml::String(_)),
            "{text:?} should stay a Yaml::String, got {:?}",
            yaml.yaml
        );
    }
}

#[test]
fn test_parse_boolean() {
    let yaml = parse("true").unwrap();
    assert!(yaml.is_scalar());
    assert_eq!(yaml.yaml.as_bool(), Some(true));
}

#[test]
fn test_parse_array() {
    let yaml = parse("[1, 2, 3]").unwrap();
    assert!(yaml.is_array());
    assert_eq!(yaml.len(), 3);

    let items = yaml.as_array().unwrap();
    assert_eq!(items[0].yaml.as_i64(), Some(1));
    assert_eq!(items[1].yaml.as_i64(), Some(2));
    assert_eq!(items[2].yaml.as_i64(), Some(3));
}

#[test]
fn test_parse_hash() {
    let yaml = parse("title: My Document\nauthor: John Doe").unwrap();
    assert!(yaml.is_hash());
    assert_eq!(yaml.len(), 2);

    let title = yaml.get_hash_value("title").unwrap();
    assert_eq!(title.yaml.as_str(), Some("My Document"));

    let author = yaml.get_hash_value("author").unwrap();
    assert_eq!(author.yaml.as_str(), Some("John Doe"));
}

#[test]
fn test_nested_structure() {
    let yaml = parse(
        r#"
project:
  title: My Project
  authors:
    - Alice
    - Bob
"#,
    )
    .unwrap();

    assert!(yaml.is_hash());

    let project = yaml.get_hash_value("project").unwrap();
    assert!(project.is_hash());

    let authors = project.get_hash_value("authors").unwrap();
    assert!(authors.is_array());
    assert_eq!(authors.len(), 2);
}

#[test]
fn test_source_info_tracking() {
    let yaml = parse("title: My Document").unwrap();

    // Check that source info is present
    assert!(yaml.source_info.start_offset() < yaml.source_info.end_offset());

    let title = yaml.get_hash_value("title").unwrap();
    // Verify the title value has a valid range
    assert!(title.source_info.start_offset() < title.source_info.end_offset());
}

#[test]
fn test_parse_with_filename() {
    let yaml = parse_file("title: Test", "config.yaml").unwrap();
    assert!(yaml.source_info.end_offset() > 0);

    // A file is a parent, so places are ranges of it
    match &yaml.source_info {
        SourceInfo::Substring { .. } => {
            // Expected: Substring mapping to parent file
        }
        _ => panic!("Expected Substring mapping for file parsing"),
    }
}

#[test]
fn test_parse_with_parent_simple() {
    // Simulate extracting YAML from a .qmd file at offset 100-150
    let parent = SourceInfo::from_range(
        FileId(42),
        Range {
            start: Location {
                offset: 100,
                row: 5,
                column: 0,
            },
            end: Location {
                offset: 150,
                row: 8,
                column: 0,
            },
        },
    );

    let yaml_content = "title: My Document\nauthor: John";
    let yaml = parse_with_parent(yaml_content, parent).unwrap();

    // Verify root has Substring mapping
    match &yaml.source_info {
        SourceInfo::Substring { parent: p, .. } => {
            // Parent should point to our original parent
            match p.as_ref() {
                SourceInfo::Original { file_id, .. } => {
                    assert_eq!(file_id.0, 42);
                }
                _ => panic!("Expected parent to have Original mapping"),
            }
        }
        _ => panic!("Expected Substring mapping"),
    }
}

#[test]
fn test_parse_with_parent_nested() {
    // Parent file
    let parent = SourceInfo::from_range(
        FileId(1),
        Range {
            start: Location {
                offset: 0,
                row: 0,
                column: 0,
            },
            end: Location {
                offset: 500,
                row: 20,
                column: 0,
            },
        },
    );

    let yaml_content = r#"
project:
  title: My Project
  authors:
    - Alice
    - Bob
"#;
    let yaml = parse_with_parent(yaml_content, parent).unwrap();

    // Get nested values
    let project = yaml
        .get_hash_value("project")
        .expect("project key not found");
    let title = project
        .get_hash_value("title")
        .expect("title key not found");
    let authors = project
        .get_hash_value("authors")
        .expect("authors key not found");

    // All should have Substring mappings
    assert!(matches!(project.source_info, SourceInfo::Substring { .. }));
    assert!(matches!(title.source_info, SourceInfo::Substring { .. }));
    assert!(matches!(authors.source_info, SourceInfo::Substring { .. }));

    // Array elements should also have Substring mappings
    if let Some(items) = authors.as_array() {
        assert_eq!(items.len(), 2);
        assert!(matches!(items[0].source_info, SourceInfo::Substring { .. }));
        assert!(matches!(items[1].source_info, SourceInfo::Substring { .. }));
    } else {
        panic!("Expected array for authors");
    }
}

#[test]
fn test_substring_offset_tracking() {
    // Parent document
    let parent_content = "---\ntitle: Test\nauthor: John\n---\n\nDocument content";
    let parent = SourceInfo::from_range(
        FileId(1),
        Range {
            start: Location {
                offset: 0,
                row: 0,
                column: 0,
            },
            end: Location {
                offset: parent_content.len(),
                row: 4,
                column: 0,
            },
        },
    );

    // YAML frontmatter (offset 4-31 in parent)
    let yaml_content = "title: Test\nauthor: John";
    let yaml = parse_with_parent(yaml_content, parent).unwrap();

    // Get title value
    let title = yaml.get_hash_value("title").expect("title not found");

    // Verify the title has a valid substring range
    match &title.source_info {
        SourceInfo::Substring { start_offset, .. } => {
            // Offset should be relative to the yaml_content string
            assert!(*start_offset < yaml_content.len());
        }
        _ => panic!("Expected Substring mapping for title"),
    }

    // Check that range makes sense
    assert!(title.source_info.start_offset() < title.source_info.end_offset());
}

#[test]
fn test_parse_anonymous_no_substring() {
    // Parse without filename or parent - should use Original mapping
    let yaml = parse("title: Test").unwrap();

    match &yaml.source_info {
        SourceInfo::Original { file_id, .. } => {
            assert_eq!(file_id.0, 0); // Anonymous FileId
        }
        _ => panic!("Expected Original mapping for anonymous parse"),
    }
}

/// Helper function to resolve a SourceInfo through the mapping chain to get
/// the absolute offset in the original file.
fn resolve_to_original_offset(info: &SourceInfo) -> (usize, FileId) {
    match info {
        SourceInfo::Original {
            file_id,
            start_offset,
            ..
        } => (*start_offset, *file_id),
        SourceInfo::Substring {
            parent,
            start_offset,
            ..
        } => {
            let (parent_offset, file_id) = resolve_to_original_offset(parent);
            (parent_offset + start_offset, file_id)
        }
        _ => panic!("Unsupported mapping type for offset resolution"),
    }
}

#[test]
fn test_hash_key_and_value_locations() {
    // Test that we can track both key and value locations in YAML hashes
    let yaml_content = "hello: world\nfoo: bar\ncount: 42";
    let yaml = parse(yaml_content).unwrap();

    assert!(yaml.is_hash());
    let entries = yaml.as_hash().expect("Should be a hash");

    // Test 1: Verify "hello" key and "world" value locations
    let hello_entry = entries
        .iter()
        .find(|e| e.key.yaml.as_str() == Some("hello"))
        .expect("Should have 'hello' key");

    // Verify key location
    assert_eq!(hello_entry.key.yaml.as_str(), Some("hello"));
    let key_offset = hello_entry.key_span.start_offset();
    let key_str = &yaml_content[key_offset..key_offset + 5];
    assert_eq!(key_str, "hello", "Key location should point to 'hello'");

    // Verify value location
    assert_eq!(hello_entry.value.yaml.as_str(), Some("world"));
    let value_offset = hello_entry.value_span.start_offset();
    let value_str = &yaml_content[value_offset..value_offset + 5];
    assert_eq!(value_str, "world", "Value location should point to 'world'");

    // Verify they are different locations
    assert_ne!(
        key_offset, value_offset,
        "Key and value should have different offsets"
    );

    // Test 2: Verify "foo" key and "bar" value locations
    let foo_entry = entries
        .iter()
        .find(|e| e.key.yaml.as_str() == Some("foo"))
        .expect("Should have 'foo' key");

    let foo_key_offset = foo_entry.key_span.start_offset();
    let foo_key_str = &yaml_content[foo_key_offset..foo_key_offset + 3];
    assert_eq!(foo_key_str, "foo", "Key location should point to 'foo'");

    let bar_value_offset = foo_entry.value_span.start_offset();
    let bar_value_str = &yaml_content[bar_value_offset..bar_value_offset + 3];
    assert_eq!(bar_value_str, "bar", "Value location should point to 'bar'");

    // Test 3: Verify "count" key and "42" value locations
    let count_entry = entries
        .iter()
        .find(|e| e.key.yaml.as_str() == Some("count"))
        .expect("Should have 'count' key");

    let count_key_offset = count_entry.key_span.start_offset();
    let count_key_str = &yaml_content[count_key_offset..count_key_offset + 5];
    assert_eq!(
        count_key_str, "count",
        "Key location should point to 'count'"
    );

    assert_eq!(count_entry.value.yaml.as_i64(), Some(42));
    let count_value_offset = count_entry.value_span.start_offset();
    let count_value_str = &yaml_content[count_value_offset..count_value_offset + 2];
    assert_eq!(count_value_str, "42", "Value location should point to '42'");

    // Test 4: Verify entry spans include both key and value
    // The entry span should start at the key and end after the value
    assert!(
        hello_entry.entry_span.start_offset() <= key_offset,
        "Entry span should start at or before the key"
    );
    assert!(
        hello_entry.entry_span.end_offset() >= value_offset + 5,
        "Entry span should end at or after the value"
    );
}

#[test]
fn test_qmd_frontmatter_extraction() {
    // Simulate a realistic .qmd file
    let qmd_content = r#"---
title: "My Research Paper"
author: "Jane Smith"
date: "2024-01-15"
format:
  html:
    theme: cosmo
    toc: true
  pdf:
    documentclass: article
---

# Introduction

This is my research paper with some **bold** text.

## Methods

We used the following approach...
"#;

    // Extract YAML frontmatter using regex (simple approach - just for testing)
    let re = regex::Regex::new(r"(?s)^---\n(.*?)\n---").unwrap();
    let captures = re
        .captures(qmd_content)
        .expect("Failed to find YAML frontmatter");

    let yaml_match = captures.get(1).expect("No YAML content found");
    let yaml_start = yaml_match.start();
    let yaml_end = yaml_match.end();
    let yaml_content = yaml_match.as_str();

    // Create parent SourceInfo for the entire .qmd file
    let parent = SourceInfo::from_range(
        FileId(123), // Simulated FileId for test.qmd
        Range {
            start: Location {
                offset: 0,
                row: 0,
                column: 0,
            },
            end: Location {
                offset: qmd_content.len(),
                row: qmd_content.lines().count().saturating_sub(1),
                column: qmd_content.lines().last().unwrap_or("").len(),
            },
        },
    );

    // Create parent SourceInfo for just the YAML portion
    let yaml_parent = SourceInfo::substring(parent.clone(), yaml_start, yaml_end);

    // Parse the YAML with parent tracking
    let yaml = parse_with_parent(yaml_content, yaml_parent).unwrap();

    // Verify the YAML was parsed correctly
    assert!(yaml.is_hash());
    let title = yaml.get_hash_value("title").expect("title not found");
    assert_eq!(title.yaml.as_str(), Some("My Research Paper"));

    // Verify that the title's location maps back through the substring chain
    match &title.source_info {
        SourceInfo::Substring {
            parent: p,
            start_offset,
            ..
        } => {
            // The offset should be within the YAML content
            assert!(*start_offset < yaml_content.len());

            // The parent should be another Substring pointing to the .qmd file
            match p.as_ref() {
                SourceInfo::Substring {
                    parent: grandparent,
                    start_offset: yaml_offset,
                    ..
                } => {
                    // This should point to the original .qmd file
                    assert_eq!(*yaml_offset, yaml_start);

                    // Grandparent should be the Original .qmd file
                    match grandparent.as_ref() {
                        SourceInfo::Original { file_id, .. } => {
                            assert_eq!(file_id.0, 123);
                        }
                        _ => panic!("Expected Original mapping for .qmd file"),
                    }
                }
                _ => panic!("Expected Substring mapping for YAML within .qmd"),
            }
        }
        _ => panic!("Expected Substring mapping for title"),
    }

    // Verify nested structures also have correct mappings
    let format = yaml.get_hash_value("format").expect("format not found");
    assert!(format.is_hash());

    let html = format.get_hash_value("html").expect("html not found");
    assert!(html.is_hash());

    let theme = html.get_hash_value("theme").expect("theme not found");
    assert_eq!(theme.yaml.as_str(), Some("cosmo"));

    // The theme value should also have Substring mapping through the chain
    match &theme.source_info {
        SourceInfo::Substring { .. } => {
            // Good - it has substring mapping
        }
        _ => panic!("Expected Substring mapping for deeply nested theme value"),
    }

    // Verify that the 'toc' boolean value is correctly located
    let toc = html.get_hash_value("toc").expect("toc not found");
    assert_eq!(toc.yaml.as_bool(), Some(true));

    // Calculate where "true" appears in the original .qmd file
    let toc_true_in_qmd = qmd_content
        .find("toc: true")
        .expect("toc: true not found in qmd");
    let toc_value_offset = toc_true_in_qmd + "toc: ".len();

    // The toc value should be located within the YAML frontmatter region
    assert!(
        toc_value_offset >= yaml_start && toc_value_offset < yaml_end,
        "toc value offset {} should be within YAML range {}-{}",
        toc_value_offset,
        yaml_start,
        yaml_end
    );

    // ===== NOW TEST OFFSET RESOLUTION =====

    // Test 1: Verify the title value resolves to correct position in .qmd file
    let (resolved_title_offset, resolved_file_id) =
        resolve_to_original_offset(&title.source_info);
    assert_eq!(
        resolved_file_id.0, 123,
        "Title should resolve to FileId 123"
    );

    // Extract the exact string at the resolved position
    let title_expected = "\"My Research Paper\""; // YAML parser includes quotes
    let resolved_title_str =
        &qmd_content[resolved_title_offset..resolved_title_offset + title_expected.len()];
    assert_eq!(
        resolved_title_str, title_expected,
        "Resolved title offset should point to exactly '{}'",
        title_expected
    );

    // Test 2: Verify the theme value "cosmo" resolves correctly
    let (resolved_cosmo_offset, resolved_file_id) =
        resolve_to_original_offset(&theme.source_info);
    assert_eq!(
        resolved_file_id.0, 123,
        "Theme should resolve to FileId 123"
    );

    // Extract the exact string at the resolved position
    let cosmo_expected = "cosmo";
    let resolved_cosmo_str =
        &qmd_content[resolved_cosmo_offset..resolved_cosmo_offset + cosmo_expected.len()];
    assert_eq!(
        resolved_cosmo_str, cosmo_expected,
        "Resolved theme offset should point to exactly '{}'",
        cosmo_expected
    );

    // Test 3: Verify the author value resolves correctly
    let author = yaml.get_hash_value("author").expect("author not found");
    assert_eq!(author.yaml.as_str(), Some("Jane Smith"));

    let (resolved_author_offset, resolved_file_id) =
        resolve_to_original_offset(&author.source_info);
    assert_eq!(
        resolved_file_id.0, 123,
        "Author should resolve to FileId 123"
    );

    // Extract the exact string at the resolved position
    let author_expected = "\"Jane Smith\""; // YAML parser includes quotes
    let resolved_author_str =
        &qmd_content[resolved_author_offset..resolved_author_offset + author_expected.len()];
    assert_eq!(
        resolved_author_str, author_expected,
        "Resolved author offset should point to exactly '{}'",
        author_expected
    );

    // Test 4: Verify the YAML root offset resolution
    let (resolved_yaml_offset, _) = resolve_to_original_offset(&yaml.source_info);

    // The resolved position should be within the YAML frontmatter
    assert!(
        resolved_yaml_offset >= yaml_start && resolved_yaml_offset < yaml_end,
        "YAML root offset {} should be within YAML content range {}-{}",
        resolved_yaml_offset,
        yaml_start,
        yaml_end
    );

    // Extract and verify the exact string - the YAML root should start at the first key
    let yaml_root_expected = "title: \"My Research P"; // First key and start of value
    let resolved_yaml_str =
        &qmd_content[resolved_yaml_offset..resolved_yaml_offset + yaml_root_expected.len()];
    assert_eq!(
        resolved_yaml_str, yaml_root_expected,
        "Resolved YAML root offset should point to exactly '{}'",
        yaml_root_expected
    );

    // Test 5: Verify nested hash entry offsets
    let pdf = format.get_hash_value("pdf").expect("pdf not found");
    let documentclass = pdf
        .get_hash_value("documentclass")
        .expect("documentclass not found");
    assert_eq!(documentclass.yaml.as_str(), Some("article"));

    let (resolved_article_offset, resolved_file_id) =
        resolve_to_original_offset(&documentclass.source_info);
    assert_eq!(
        resolved_file_id.0, 123,
        "Documentclass should resolve to FileId 123"
    );

    // Extract the exact string at the resolved position
    let article_expected = "article";
    let resolved_article_str =
        &qmd_content[resolved_article_offset..resolved_article_offset + article_expected.len()];
    assert_eq!(
        resolved_article_str, article_expected,
        "Resolved documentclass offset should point to exactly '{}'",
        article_expected
    );

    // Test 6: Verify that hash entry key spans resolve correctly
    if let Some(entries) = yaml.as_hash() {
        for entry in entries {
            let (entry_key_start, entry_file_id) = resolve_to_original_offset(&entry.key_span);
            assert_eq!(
                entry_file_id.0, 123,
                "Entry key should resolve to FileId 123"
            );

            // All top-level keys should be within the YAML frontmatter region
            assert!(
                entry_key_start >= yaml_start && entry_key_start < yaml_end,
                "Entry key at offset {} should be within YAML range {}-{}",
                entry_key_start,
                yaml_start,
                yaml_end
            );

            // Verify the key actually points to the key string
            let key_str = entry.key.yaml.as_str().unwrap_or("");
            if !key_str.is_empty() && entry_key_start + key_str.len() <= qmd_content.len() {
                let resolved_key_str =
                    &qmd_content[entry_key_start..entry_key_start + key_str.len()];
                assert_eq!(
                    resolved_key_str, key_str,
                    "Entry key '{}' should resolve to exact position",
                    key_str
                );
            }
        }
    }
}

#[test]
fn test_object_source_range_starts_at_first_key() {
    let yaml_content = "title: \"My Research Paper\"\nauthor: \"John Doe\"\n";
    let parsed = parse_file(yaml_content, "test.yaml").expect("parse failed");

    // The root should be an object
    assert!(parsed.is_hash());

    // Check the SourceInfo of the object
    let source_info = &parsed.source_info;

    // The object should span from offset 0 (start of "title") to the end
    // NOT from offset 5 (the colon)
    assert_eq!(
        source_info.start_offset(),
        0,
        "Object should start at offset 0 (beginning of first key), not at the colon"
    );

    // The end should be at the end of the content
    assert_eq!(
        source_info.end_offset(),
        yaml_content.len(),
        "Object should end at end of content"
    );
}

// =========== TAG TESTS ===========

#[test]
fn test_parse_scalar_with_tag() {
    let yaml = parse("key: !expr x + 1").unwrap();
    let value = yaml.get_hash_value("key").expect("key not found");

    assert!(value.tag.is_some());
    let (tag_suffix, _tag_source) = value.tag.as_ref().unwrap();
    assert_eq!(tag_suffix, "expr");
}

#[test]
fn test_parse_scalar_with_prefer_tag() {
    let yaml = parse("theme: !prefer cosmo").unwrap();
    let value = yaml.get_hash_value("theme").expect("theme not found");

    assert!(value.tag.is_some());
    let (tag_suffix, _) = value.tag.as_ref().unwrap();
    assert_eq!(tag_suffix, "prefer");
    assert_eq!(value.yaml.as_str(), Some("cosmo"));
}

#[test]
fn test_parse_scalar_with_concat_tag() {
    let yaml = parse("items: !concat [a, b]").unwrap();
    // Note: !concat on a sequence - the tag is on the sequence itself
    let value = yaml.get_hash_value("items").expect("items not found");

    // The tag does not change what the value is
    assert!(value.is_array());
}

#[test]
fn test_parse_scalar_with_md_tag() {
    let yaml = parse("description: !md \"**bold** text\"").unwrap();
    let value = yaml
        .get_hash_value("description")
        .expect("description not found");

    assert!(value.tag.is_some());
    let (tag_suffix, _) = value.tag.as_ref().unwrap();
    assert_eq!(tag_suffix, "md");
}

#[test]
fn test_parse_scalar_with_str_tag() {
    let yaml = parse("title: !str \"My Title\"").unwrap();
    let value = yaml.get_hash_value("title").expect("title not found");

    assert!(value.tag.is_some());
    let (tag_suffix, _) = value.tag.as_ref().unwrap();
    assert_eq!(tag_suffix, "str");
}

#[test]
fn test_parse_scalar_with_path_tag() {
    let yaml = parse("file: !path ./data/file.csv").unwrap();
    let value = yaml.get_hash_value("file").expect("file not found");

    assert!(value.tag.is_some());
    let (tag_suffix, _) = value.tag.as_ref().unwrap();
    assert_eq!(tag_suffix, "path");
}

#[test]
fn test_parse_scalar_with_glob_tag() {
    let yaml = parse("sources: !glob \"*.qmd\"").unwrap();
    let value = yaml.get_hash_value("sources").expect("sources not found");

    assert!(value.tag.is_some());
    let (tag_suffix, _) = value.tag.as_ref().unwrap();
    assert_eq!(tag_suffix, "glob");
}

#[test]
fn test_combined_tag_with_underscore_works() {
    // Combined tags like !prefer_md ARE supported using underscore as separator.
    // This is the recommended syntax for combining merge ops with interpretation hints.
    let result = parse("title: !prefer_md \"**My Title**\"");
    assert!(result.is_ok(), "Combined tags with underscore should parse");

    let yaml = result.unwrap();
    let value = yaml.get_hash_value("title").unwrap();
    let (tag, _) = value.tag.as_ref().unwrap();
    assert_eq!(tag, "prefer_md");
}

#[test]
fn test_combined_tag_with_comma_not_supported() {
    // Note: Combined tags like !prefer,md are NOT supported by standard YAML parsers.
    // The comma is not valid in a tag without proper URI escaping.
    // Use underscore instead: !prefer_md
    let result = parse("title: !prefer,md \"**My Title**\"");
    assert!(result.is_err(), "Combined tags with comma should not parse");
}

#[test]
fn test_tag_source_info_location() {
    let yaml_content = "key: !expr value";
    let yaml = parse(yaml_content).unwrap();
    let value = yaml.get_hash_value("key").expect("key not found");

    let (_, tag_source) = value.tag.as_ref().expect("tag should be present");

    // The tag should start at "!" (offset 5)
    let tag_start = tag_source.start_offset();
    assert_eq!(&yaml_content[tag_start..tag_start + 1], "!");

    // The tag should cover "!expr" (5 characters)
    let tag_len = tag_source.end_offset() - tag_source.start_offset();
    assert_eq!(tag_len, 5); // "!expr"
}

#[test]
fn test_no_tag_when_absent() {
    let yaml = parse("key: value").unwrap();
    let value = yaml.get_hash_value("key").expect("key not found");

    assert!(value.tag.is_none());
}

#[test]
fn test_alternative_tag_separator_syntaxes() {
    // Test which separators work for combined tags

    // Underscore separator - should work
    let result = parse("title: !prefer_md test");
    assert!(result.is_ok(), "Underscore separator should work");
    let yaml = result.unwrap();
    let value = yaml.get_hash_value("title").unwrap();
    let (tag, _) = value.tag.as_ref().unwrap();
    assert_eq!(tag, "prefer_md");

    // Dash/hyphen separator - should work
    let result = parse("title: !prefer-md test");
    assert!(result.is_ok(), "Dash separator should work");
    let yaml = result.unwrap();
    let value = yaml.get_hash_value("title").unwrap();
    let (tag, _) = value.tag.as_ref().unwrap();
    assert_eq!(tag, "prefer-md");

    // Dot separator - should work
    let result = parse("title: !prefer.md test");
    assert!(result.is_ok(), "Dot separator should work");
    let yaml = result.unwrap();
    let value = yaml.get_hash_value("title").unwrap();
    let (tag, _) = value.tag.as_ref().unwrap();
    assert_eq!(tag, "prefer.md");

    // Colon separator - works
    let result = parse("title: !prefer:md test");
    assert!(result.is_ok(), "Colon separator should work");
    let yaml = result.unwrap();
    let value = yaml.get_hash_value("title").unwrap();
    let (tag, _) = value.tag.as_ref().unwrap();
    assert_eq!(tag, "prefer:md");

    // Exclamation mark separator - does NOT work (treated as handle)
    let result = parse("title: !md!prefer test");
    assert!(
        result.is_err(),
        "Bang separator should not work (treated as YAML handle)"
    );
}

#[test]
fn test_multiple_tagged_values() {
    let yaml = parse(
        r#"
title: !str "Plain Title"
description: !md "**Bold** description"
file: !path ./data.csv
"#,
    )
    .unwrap();

    let title = yaml.get_hash_value("title").expect("title not found");
    assert_eq!(title.tag.as_ref().map(|(t, _)| t.as_str()), Some("str"));

    let desc = yaml
        .get_hash_value("description")
        .expect("description not found");
    assert_eq!(desc.tag.as_ref().map(|(t, _)| t.as_str()), Some("md"));

    let file = yaml.get_hash_value("file").expect("file not found");
    assert_eq!(file.tag.as_ref().map(|(t, _)| t.as_str()), Some("path"));
}

// =========== SCALAR RESOLUTION TESTS ===========

/// Parse `source` and return the value of its single `key` entry.
fn parse_value(source: &str) -> YamlWithSourceInfo {
    parse(source)
        .unwrap_or_else(|e| panic!("{source:?} should parse: {e:?}"))
        .get_hash_value("key")
        .unwrap_or_else(|| panic!("{source:?} should have a `key` entry"))
        .clone()
}

/// The source text a node's span covers.
fn span_text(source: &str, node: &YamlWithSourceInfo) -> String {
    source[node.source_info.start_offset()..node.source_info.end_offset()].to_string()
}

#[test]
fn test_quoted_scalars_are_strings() {
    // Quoting is how YAML says "this is text": a quoted scalar never
    // resolves to a number, bool, or null.
    for (source, expected) in [
        ("key: \"1\"", "1"),
        ("key: '1'", "1"),
        ("key: \"\"", ""),
        ("key: ''", ""),
        ("key: 'null'", "null"),
        ("key: \"~\"", "~"),
        ("key: \"true\"", "true"),
        ("key: 'false'", "false"),
        ("key: \"1.5\"", "1.5"),
        ("key: \".inf\"", ".inf"),
    ] {
        let value = parse_value(source);
        assert_eq!(
            value.yaml,
            Yaml::String(expected.to_string()),
            "{source:?} should resolve to the string {expected:?}"
        );
    }
}

#[test]
fn test_block_scalars_are_strings() {
    // Block scalars are strings too, including the chomped forms whose
    // value has no trailing newline to give them away.
    for source in [
        "key: |-\n  true",
        "key: >-\n  42",
        "key: |\n  null\n",
        "key: >\n  1.5\n",
    ] {
        let value = parse_value(source);
        assert!(
            matches!(value.yaml, Yaml::String(_)),
            "{source:?} should resolve to a string, got {:?}",
            value.yaml
        );
    }
}

#[test]
fn test_plain_booleans_follow_yaml_12_core_schema() {
    // The 1.2 core schema recognises only `true`/`false`; YAML 1.1's
    // `yes`, `no`, `on`, `off` are plain strings.
    for text in ["true", "True", "TRUE"] {
        assert_eq!(
            parse(text).unwrap().yaml.as_bool(),
            Some(true),
            "{text:?} should be true"
        );
    }
    for text in ["false", "False", "FALSE"] {
        assert_eq!(
            parse(text).unwrap().yaml.as_bool(),
            Some(false),
            "{text:?} should be false"
        );
    }
    for text in [
        "yes", "Yes", "YES", "no", "No", "NO", "on", "On", "ON", "off", "Off", "OFF", "y", "n",
    ] {
        let yaml = parse(text).unwrap();
        assert_eq!(
            yaml.yaml,
            Yaml::String(text.to_string()),
            "{text:?} is a string in YAML 1.2, got {:?}",
            yaml.yaml
        );
    }
}

#[test]
fn test_explicit_standard_tags_are_honoured() {
    // An explicit tag *is* the node's type, so it overrides both implicit
    // resolution and the quoting style.
    for (source, expected) in [
        ("key: !!str 5", Yaml::String("5".to_string())),
        ("key: !!str true", Yaml::String("true".to_string())),
        ("key: !!int \"7\"", Yaml::Integer(7)),
        ("key: !!int -7", Yaml::Integer(-7)),
        ("key: !!float \"1.5\"", Yaml::Real("1.5".to_string())),
        ("key: !!bool \"true\"", Yaml::Boolean(true)),
        ("key: !!bool 'false'", Yaml::Boolean(false)),
        ("key: !!null \"~\"", Yaml::Null),
        // The verbatim spelling of the same tags.
        (
            "key: !<tag:yaml.org,2002:str> 5",
            Yaml::String("5".to_string()),
        ),
        ("key: !<tag:yaml.org,2002:int> \"7\"", Yaml::Integer(7)),
    ] {
        assert_eq!(
            parse_value(source).yaml,
            expected,
            "{source:?} should resolve to {expected:?}"
        );
    }
}

#[test]
fn test_standard_tag_that_does_not_fit_its_value() {
    // A value contradicting its tag is a bad value: it is not silently re-typed.
    for source in [
        "key: !!int abc",
        "key: !!float abc",
        "key: !!bool maybe",
        "key: !!null 5",
    ] {
        assert_eq!(
            parse_value(source).yaml,
            Yaml::BadValue,
            "{source:?} should resolve to BadValue"
        );
    }
}

#[test]
fn test_application_tags_do_not_change_resolution() {
    // Application-specific tags are reported in `tag` for consumers to
    // interpret; they leave resolution alone.
    let value = parse_value("key: !expr 42");
    assert_eq!(value.yaml, Yaml::Integer(42));
    assert_eq!(value.tag.as_ref().map(|(t, _)| t.as_str()), Some("expr"));

    // …but the quoting style still applies under an application tag.
    let value = parse_value("key: !expr \"42\"");
    assert_eq!(value.yaml, Yaml::String("42".to_string()));
    assert_eq!(value.tag.as_ref().map(|(t, _)| t.as_str()), Some("expr"));
}

// =========== SCALAR SPAN TESTS ===========

#[test]
fn test_quoted_scalar_spans_cover_the_whole_scalar() {
    // Spans start at the opening quote, so they have to end at the closing
    // one: `"1"` is three bytes of source even though its value is one.
    for (source, expected) in [
        ("key: \"1\"", "\"1\""),
        ("key: 'null'", "'null'"),
        ("key: \"true\"", "\"true\""),
        ("key: \"\"", "\"\""),
        ("key: ''", "''"),
        // Escapes: the value is shorter than the source.
        ("key: \"a\\nb\"", "\"a\\nb\""),
        ("key: \"esc \\\" quote\"", "\"esc \\\" quote\""),
        ("key: 'it''s'", "'it''s'"),
        // A trailing comment is not part of the scalar.
        ("key: \"x\" # comment", "\"x\""),
        // Multi-byte characters.
        ("key: \"日本 語\"", "\"日本 語\""),
        // A quoted scalar can be folded over several lines.
        ("key: \"multi\n  line\"", "\"multi\n  line\""),
    ] {
        let value = parse_value(source);
        assert_eq!(
            span_text(source, &value),
            expected,
            "span of the value in {source:?}"
        );
    }
}

#[test]
fn test_plain_scalar_spans() {
    for (source, expected) in [
        ("key: 42", "42"),
        ("key: hello world", "hello world"),
        ("key: two  spaces", "two  spaces"),
        ("key: x # comment", "x"),
        // Folded over lines: the source is longer than the value.
        ("key: plain\n  continued", "plain\n  continued"),
        ("key: a \n  b", "a \n  b"),
        ("key: a\n\n  b", "a\n\n  b"),
        // Flow context: the scalar stops at the closing bracket.
        ("key: [a, b]", "a"),
    ] {
        let value = parse_value(source);
        let value = value.as_array().map_or(value.clone(), |i| i[0].clone());
        assert_eq!(
            span_text(source, &value),
            expected,
            "span of the value in {source:?}"
        );
    }
}

#[test]
fn test_block_scalar_spans_cover_their_content() {
    // The marker points at the first content character, so the `|`/`>`
    // header is outside the span, but the content lines are all inside it.
    for (source, expected) in [
        ("key: |\n  a\n  b\n", "a\n  b"),
        ("key: |-\n  a\n  b\nnext: 1\n", "a\n  b"),
        ("key: >\n  folded\n  text\n", "folded\n  text"),
        // Blank lines inside the block belong to it; trailing ones don't.
        ("key: >-\n  a\n\n  b\n\nnext: 1\n", "a\n\n  b"),
        ("key: |\n  a\n\n", "a"),
        // A less-indented line ends the block.
        ("key: |\n  a\n# comment\nnext: 1\n", "a"),
    ] {
        let value = parse_value(source);
        assert_eq!(
            span_text(source, &value),
            expected,
            "span of the value in {source:?}"
        );
    }
}

#[test]
fn test_quoted_key_spans() {
    let source = "\"quoted key\": v";
    let entries = parse(source).unwrap();
    let entries = entries.as_hash().expect("should be a hash");
    assert_eq!(entries.len(), 1);
    assert_eq!(
        &source[entries[0].key_span.start_offset()..entries[0].key_span.end_offset()],
        "\"quoted key\""
    );
}

#[test]
fn test_standard_tag_span_covers_both_bangs() {
    let source = "key: !!str 5";
    let value = parse_value(source);
    let (suffix, tag_span) = value.tag.as_ref().expect("tag should be present");
    assert_eq!(suffix, "str");
    assert_eq!(
        &source[tag_span.start_offset()..tag_span.end_offset()],
        "!!str"
    );
}

#[test]
fn test_verbatim_tag_span() {
    let source = "key: !<tag:yaml.org,2002:str> 5";
    let value = parse_value(source);
    let (_, tag_span) = value.tag.as_ref().expect("tag should be present");
    assert_eq!(
        &source[tag_span.start_offset()..tag_span.end_offset()],
        "!<tag:yaml.org,2002:str>"
    );
}

#[test]
fn test_tag_span_in_flow_sequence() {
    let source = "key: [!expr 1]";
    let items = parse_value(source);
    let items = items.as_array().expect("should be an array");
    let (_, tag_span) = items[0].tag.as_ref().expect("tag should be present");
    assert_eq!(
        &source[tag_span.start_offset()..tag_span.end_offset()],
        "!expr"
    );
}

#[test]
fn test_tag_span_with_an_anchor_in_the_way() {
    // A node can carry a tag and an anchor in either order, so the tag is
    // not always the token next to the value.
    for (source, expected) in [
        ("key: !expr &name value", "!expr"),
        ("key: &name !expr value", "!expr"),
        ("key: !!str &name 5", "!!str"),
        (
            "key: &name !<tag:example.com,2000:x> value",
            "!<tag:example.com,2000:x>",
        ),
        ("key: [&a !expr 1]", "!expr"),
        ("key: [!expr &a 1]", "!expr"),
    ] {
        let value = parse_value(source);
        let value = value.as_array().map_or(value.clone(), |i| i[0].clone());
        let (_, tag_span) = value
            .tag
            .as_ref()
            .unwrap_or_else(|| panic!("{source:?} should have a tag"));
        assert_eq!(
            &source[tag_span.start_offset()..tag_span.end_offset()],
            expected,
            "tag span in {source:?}"
        );
    }
}

#[test]
fn test_spans_stay_within_the_source() {
    // Whatever the shape of the input, no span may run past the end of the
    // source — consumers slice the source with these offsets.
    for source in [
        "key:",
        "key: |\n",
        "key: >\n",
        "[a, 'b', \"c\"]",
        "- 1\n- \"2\"\n",
        "{}",
        "[]",
        "key: !!str",
        "key: !expr",
        "key: !!str &name 5",
        "key: &name !!str",
        "!!str 5",
    ] {
        let parsed = parse(source).unwrap_or_else(|e| panic!("{source:?} should parse: {e:?}"));
        assert_spans_within(source, &parsed);
    }
}

fn assert_spans_within(source: &str, node: &YamlWithSourceInfo) {
    let (start, end) = (
        node.source_info.start_offset(),
        node.source_info.end_offset(),
    );
    assert!(
        start <= end && end <= source.len(),
        "span {start}..{end} of {:?} is outside {source:?}",
        node.yaml
    );
    if let Some((suffix, tag_span)) = &node.tag {
        let (start, end) = (tag_span.start_offset(), tag_span.end_offset());
        assert!(
            start <= end && end <= source.len(),
            "tag span {start}..{end} of !{suffix} is outside {source:?}"
        );
    }
    if let Some(items) = node.as_array() {
        for item in items {
            assert_spans_within(source, item);
        }
    }
    if let Some(entries) = node.as_hash() {
        for entry in entries {
            assert_spans_within(source, &entry.key);
            assert_spans_within(source, &entry.value);
        }
    }
}
