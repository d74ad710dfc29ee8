//! Building trees from events, and what comes of streams that are no document.

use quarto_yaml::builder::{build_document, create_contiguous_span, YamlBuilder};
use quarto_yaml::event::{Event, ScalarStyle, Tag};
use quarto_yaml::source_text::Marker;
use quarto_yaml::yaml::insert_into_hash;
use quarto_yaml::{
    file_id_for_filename, parse, parse_file, parse_with_parent, Error, FileId, SourceInfo, Yaml,
    YamlWithSourceInfo,
};
use std::collections::hash_map::DefaultHasher;
use std::hash::{Hash, Hasher};

fn at(line: usize, col: usize) -> Marker {
    Marker { line, col }
}

fn plain(value: &str) -> Event {
    Event::Scalar(value.to_string(), ScalarStyle::Plain, None)
}

fn text(s: &str) -> Yaml {
    Yaml::String(s.to_string())
}

fn place(node: &YamlWithSourceInfo) -> (usize, usize) {
    (node.source_info.start_offset(), node.source_info.end_offset())
}

#[test]
fn events_of_a_nested_document() {
    let source = "a: [b, c]\nd: *x\n";
    let events = vec![
        (Event::StreamStart, at(1, 0)),
        (Event::DocumentStart, at(1, 0)),
        (Event::MappingStart(None), at(1, 1)),
        (plain("a"), at(1, 0)),
        (Event::SequenceStart(None), at(1, 3)),
        (plain("b"), at(1, 4)),
        (plain("c"), at(1, 7)),
        (Event::SequenceEnd, at(1, 8)),
        (plain("d"), at(2, 0)),
        (Event::Alias, at(2, 3)),
        (Event::MappingEnd, at(3, 0)),
        (Event::DocumentEnd, at(3, 0)),
    ];
    let root = build_document(source, None, events).unwrap();
    assert_eq!(
        root.yaml,
        Yaml::Hash(vec![
            (text("a"), Yaml::Array(vec![text("b"), text("c")])),
            (text("d"), Yaml::Null),
        ])
    );
    assert_eq!(place(&root), (0, 16));
    let entries = root.as_hash().unwrap();
    assert_eq!(place(&entries[0].value), (3, 8));
    assert_eq!(entries[0].entry_span.start_offset(), 0);
    assert_eq!(entries[0].entry_span.end_offset(), 8);
    assert_eq!(place(&entries[1].value), (13, 13));
    assert_eq!(place(&entries[0].value.as_array().unwrap()[1]), (7, 8));
    assert_eq!(root.len(), 2);
    assert_eq!(entries[0].key.len(), 0);
}

#[test]
fn one_event_at_a_time() {
    let mut builder = YamlBuilder::new("[x]", None);
    builder.on_event(Event::Nothing, at(1, 0));
    builder.on_event(Event::SequenceStart(None), at(1, 0));
    builder.on_event(plain("x"), at(1, 1));
    builder.on_event(Event::SequenceEnd, at(1, 2));
    let root = builder.result().unwrap();
    assert_eq!(root.yaml, Yaml::Array(vec![text("x")]));
    assert!(root.is_array() && !root.is_hash() && !root.is_scalar());
}

#[test]
fn a_marker_past_the_end_points_at_the_end() {
    let events = vec![
        (Event::StreamStart, at(1, 0)),
        (Event::DocumentStart, at(1, 0)),
        (plain("a"), at(9, 9)),
        (Event::DocumentEnd, at(1, 0)),
    ];
    let root = build_document("a", None, events).unwrap();
    assert_eq!(place(&root), (1, 1));
}

#[test]
fn a_tag_that_is_not_found_stays_inside_the_source() {
    let tag = Tag {
        handle: "!".to_string(),
        suffix: "длинный".to_string(),
    };
    let source = "x é";
    let events = vec![
        (Event::StreamStart, at(1, 0)),
        (Event::DocumentStart, at(1, 0)),
        (
            Event::Scalar("é".to_string(), ScalarStyle::Plain, Some(tag)),
            at(1, 2),
        ),
        (Event::DocumentEnd, at(1, 3)),
    ];
    let root = build_document(source, None, events).unwrap();
    let (suffix, span) = root.tag.as_ref().unwrap();
    assert_eq!(suffix, "длинный");
    assert_eq!(&source[span.start_offset()..span.end_offset()], "é");
}

#[test]
fn a_comment_hides_a_tag_but_not_its_name() {
    let source = "key: !expr # note\n  value";
    let root = parse(source).unwrap();
    let value = root.get_hash_value("key").unwrap();
    let (suffix, span) = value.tag.as_ref().unwrap();
    assert_eq!(suffix, "expr");
    assert_eq!(&source[span.start_offset()..span.end_offset()], "value");
}

#[test]
fn a_stream_without_a_document_is_an_error() {
    for source in ["", "\n\n", "# only a comment\n"] {
        match parse(source) {
            Err(Error::ParseError { message, location }) => {
                assert_eq!(message, "No YAML document found");
                assert_eq!(location, None);
            }
            Ok(node) => panic!("{source:?} gave {node:?}"),
        }
    }
}

#[test]
fn a_text_that_is_not_yaml_is_an_error_with_a_place() {
    for source in ["a: [b", "a: b: c", "\"a", "key: !a!b c"] {
        match parse(source) {
            Err(Error::ParseError { message, location }) => {
                assert!(!message.is_empty());
                assert!(location.unwrap().line >= 1);
            }
            Ok(node) => panic!("{source:?} gave {node:?}"),
        }
    }
}

#[test]
fn only_the_first_document_counts() {
    let root = parse("a: 1\n---\nb: 2\n").unwrap();
    assert_eq!(root.yaml, Yaml::Hash(vec![(text("a"), Yaml::Integer(1))]));
}

#[test]
fn aliases_are_null() {
    let root = parse("a: &x 1\nb: *x\n").unwrap();
    assert_eq!(root.get_hash_value("a").unwrap().yaml, Yaml::Integer(1));
    let b = root.get_hash_value("b").unwrap();
    assert_eq!(b.yaml, Yaml::Null);
    assert_eq!(place(b), (11, 11));
}

#[test]
fn a_repeated_key_moves_to_the_end_of_the_value() {
    let mut hash = Vec::new();
    insert_into_hash(&mut hash, text("a"), Yaml::Integer(1));
    insert_into_hash(&mut hash, text("b"), Yaml::Integer(2));
    insert_into_hash(&mut hash, text("a"), Yaml::Integer(3));
    assert_eq!(
        hash,
        vec![(text("b"), Yaml::Integer(2)), (text("a"), Yaml::Integer(3))]
    );

    // As the mapping of the parser's own value type does.
    let mut outside = yaml_rust2::yaml::Hash::new();
    for (key, value) in [("a", 1), ("b", 2), ("a", 3)] {
        outside.insert(
            yaml_rust2::Yaml::String(key.to_string()),
            yaml_rust2::Yaml::Integer(value),
        );
    }
    let keys: Vec<&str> = outside.keys().filter_map(|k| k.as_str()).collect();
    assert_eq!(keys, vec!["b", "a"]);

    let root = parse("a: 1\nb: 2\n").unwrap();
    assert_eq!(root.len(), 2);
}

#[test]
fn equal_values_are_equal_all_the_way_down() {
    let nested = |n: i64| {
        Yaml::Hash(vec![(
            text("a"),
            Yaml::Array(vec![Yaml::Integer(n), Yaml::Real("1.0".to_string()), Yaml::BadValue]),
        )])
    };
    assert_eq!(nested(1), nested(1).clone());
    assert_ne!(nested(1), nested(2));
    assert_ne!(Yaml::Real("1".to_string()), text("1"));
    assert_ne!(Yaml::Array(vec![]), Yaml::Hash(vec![]));
    assert_ne!(Yaml::Array(vec![]), Yaml::Array(vec![Yaml::Null]));
    assert_eq!(text("a").as_i64(), None);
    assert_eq!(Yaml::Null.as_bool(), None);
    assert_eq!(Yaml::Null.as_str(), None);
}

#[test]
fn the_number_of_a_file_is_the_hash_of_its_name() {
    for name in ["", "config.yaml", "дом.yaml"] {
        let mut hasher = DefaultHasher::new();
        name.hash(&mut hasher);
        assert_eq!(file_id_for_filename(name), FileId(hasher.finish() as usize));
    }
    assert_ne!(file_id_for_filename("a"), file_id_for_filename("b"));
    let root = parse_file("a: é", "x.yaml").unwrap();
    match &root.source_info {
        SourceInfo::Substring { parent, .. } => match parent.as_ref() {
            SourceInfo::Original {
                file_id,
                start_offset,
                end_offset,
            } => {
                assert_eq!(*file_id, file_id_for_filename("x.yaml"));
                assert_eq!((*start_offset, *end_offset), (0, 5));
            }
            other => panic!("{other:?}"),
        },
        other => panic!("{other:?}"),
    }
}

#[test]
fn the_value_does_not_depend_on_the_origin() {
    let source = "a: [1, {b: c}]\nd: |\n  e\n";
    let parent = SourceInfo::original(FileId(7), 100, 200);
    let plain = parse(source).unwrap();
    let filed = parse_file(source, "x.yaml").unwrap();
    let nested = parse_with_parent(source, parent).unwrap();
    assert_eq!(plain.yaml, filed.yaml);
    assert_eq!(plain.yaml, nested.yaml);
    assert_eq!(place(&plain), place(&filed));
    assert_eq!(place(&plain), place(&nested));
}

#[test]
fn spans_from_start_to_end() {
    let file = SourceInfo::original(FileId(1), 0, 100);
    let a = SourceInfo::original(FileId(3), 5, 8);
    let b = SourceInfo::original(FileId(3), 10, 14);
    match create_contiguous_span(&a, &b) {
        SourceInfo::Original {
            file_id,
            start_offset,
            end_offset,
        } => assert_eq!((file_id.0, start_offset, end_offset), (3, 5, 14)),
        other => panic!("{other:?}"),
    }
    let c = SourceInfo::substring(file.clone(), 20, 22);
    let d = SourceInfo::substring(file, 30, 33);
    match create_contiguous_span(&c, &d) {
        SourceInfo::Substring {
            parent,
            start_offset,
            end_offset,
        } => {
            assert_eq!((start_offset, end_offset), (20, 33));
            assert_eq!(parent.end_offset(), 100);
        }
        other => panic!("{other:?}"),
    }
    match create_contiguous_span(&a, &d) {
        SourceInfo::Concat { pieces } => {
            assert_eq!(pieces.len(), 2);
            assert_eq!((pieces[0].length, pieces[1].length), (3, 3));
        }
        other => panic!("{other:?}"),
    }
}

#[test]
fn lookup_finds_the_first_entry_with_the_text() {
    let root = parse("1: a\nb: c\n").unwrap();
    assert!(root.get_hash_value("1").is_none());
    assert_eq!(root.get_hash_value("b").unwrap().yaml, text("c"));
    assert!(root.get_hash_value("c").is_none());
    assert!(parse("x").unwrap().get_hash_value("x").is_none());
    assert!(parse("[x]").unwrap().get_hash_value("x").is_none());
}

/// Checks that every value is made of what its node is made of.
fn assert_values_agree(node: &YamlWithSourceInfo) {
    match &node.yaml {
        Yaml::Array(values) => {
            let items = node.as_array().unwrap();
            assert_eq!(values.len(), items.len());
            for (value, item) in values.iter().zip(items) {
                assert_eq!(value, &item.yaml);
                assert_values_agree(item);
            }
        }
        Yaml::Hash(pairs) => {
            let entries = node.as_hash().unwrap();
            assert_eq!(pairs.len(), entries.len());
            for ((key, value), entry) in pairs.iter().zip(entries) {
                assert_eq!(key, &entry.key.yaml);
                assert_eq!(value, &entry.value.yaml);
                assert_eq!(entry.key_span.start_offset(), place(&entry.key).0);
                assert_eq!(entry.value_span.end_offset(), place(&entry.value).1);
                assert_eq!(entry.entry_span.start_offset(), place(&entry.key).0);
                assert_eq!(entry.entry_span.end_offset(), place(&entry.value).1);
                assert_values_agree(&entry.key);
                assert_values_agree(&entry.value);
            }
        }
        _ => assert!(node.is_scalar()),
    }
}

#[test]
fn values_and_children_agree() {
    for source in [
        "a: [1, {b: c}, [[]], {}]\nd: {e: ~}\n? [x, y]\n: z\n",
        "- - a\n  - b: c\n    d: |\n      e\n- &f !g h\n",
        "scalar",
    ] {
        let root = parse(source).unwrap();
        assert_values_agree(&root);
        assert_values_agree(&root.clone());
    }
}

#[test]
fn nodes_of_a_mapping_are_keys_and_values_in_turn() {
    let source = "[a, b, c, d, e, f]";
    let mut builder = YamlBuilder::new(source, None);
    builder.on_event(Event::SequenceStart(None), at(1, 0));
    builder.on_event(plain("z"), at(1, 0));
    builder.on_event(Event::MappingStart(None), at(1, 0));
    for (i, value) in ["a", "b", "c", "d", "e", "f"].iter().enumerate() {
        builder.on_event(plain(value), at(1, 1 + 3 * i));
    }
    builder.on_event(Event::MappingEnd, at(1, 17));
    builder.on_event(Event::SequenceEnd, at(1, 18));
    let root = builder.result().unwrap();
    let items = root.as_array().unwrap();
    assert_eq!(items.len(), 2);
    assert_eq!(items[0].yaml, text("z"));
    let entries = items[1].as_hash().unwrap();
    assert_eq!(entries.len(), 3);
    for (entry, (key, value)) in entries.iter().zip([("a", "b"), ("c", "d"), ("e", "f")]) {
        assert_eq!(entry.key.yaml, text(key));
        assert_eq!(entry.value.yaml, text(value));
    }
}

#[test]
fn complete_nodes_go_into_the_innermost_open_collection() {
    let node = |value: &str| {
        YamlWithSourceInfo::new_scalar(text(value), SourceInfo::original(FileId(0), 0, 0))
    };
    let mut builder = YamlBuilder::new("", None);
    builder.on_event(Event::SequenceStart(None), at(1, 0));
    builder.push_complete(node("before"));
    builder.on_event(Event::MappingStart(None), at(1, 0));
    for value in ["a", "b", "c", "d"] {
        builder.push_complete(node(value));
    }
    builder.on_event(Event::MappingEnd, at(1, 0));
    builder.push_complete(node("after"));
    builder.on_event(Event::SequenceEnd, at(1, 0));
    assert_eq!(
        builder.result().unwrap().yaml,
        Yaml::Array(vec![
            text("before"),
            Yaml::Hash(vec![(text("a"), text("b")), (text("c"), text("d"))]),
            text("after"),
        ])
    );

    let mut builder = YamlBuilder::new("", None);
    builder.push_complete(node("root"));
    assert_eq!(builder.result().unwrap().yaml, text("root"));
}
