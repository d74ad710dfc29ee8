//! Tags of sequences and mappings.

use quarto_yaml::builder::build_document;
use quarto_yaml::event::{Event, ScalarStyle, Tag};
use quarto_yaml::source_text::Marker;
use quarto_yaml::{parse, FileId, SourceInfo, Yaml, YamlWithSourceInfo};

/// The suffix of a node's tag, and the source text that the tag covers.
fn tag_of<'a>(source: &'a str, node: &YamlWithSourceInfo) -> Option<(String, &'a str)> {
    node.tag
        .as_ref()
        .map(|(suffix, span)| (suffix.clone(), &source[span.start_offset()..span.end_offset()]))
}

fn tagged(suffix: &str, spelling: &'static str) -> Option<(String, &'static str)> {
    Some((suffix.to_string(), spelling))
}

/// The value under `k`.
fn value(root: &YamlWithSourceInfo) -> &YamlWithSourceInfo {
    root.get_hash_value("k").unwrap()
}

fn place(node: &YamlWithSourceInfo) -> (usize, usize) {
    (node.source_info.start_offset(), node.source_info.end_offset())
}

#[test]
fn tags_of_block_and_flow_collections() {
    for source in [
        "k: !prefer\n  - a\n  - b",
        "k: !prefer\n- a\n- b",
        "k: !prefer\n- !t a",
        "k: &nm !prefer\n-   [a]",
        "k: !prefer [a, b]",
        "k: !prefer\n  x: 1",
        "k: !prefer\n  x: 1\n  y: 2\nl: !other z",
        "k: !prefer {x: 1}",
        "k: !prefer { x: 1, y: 2 }",
        "k: !prefer []",
        "k: !prefer {}",
        "k: !prefer\n\n  - a",
        "k: !prefer\n\n\n  x: 1",
        "k: &nm !prefer\n  - a",
        "k: !prefer &nm\n  - a",
        "k: &nm !prefer\n  x: 1",
        "k: !prefer &nm\n  x: 1",
        "k: !prefer &nm {x: 1}",
        "k: !prefer\n  ? x\n  : 1",
        "k: !prefer\n  &nm x: 1",
        "k: !prefer\n  !t x: 1",
        "k: !prefer\n  &nm !t x: 1",
        "k: !prefer\n  !t [x]: 1",
    ] {
        let root = parse(source).unwrap();
        assert!(!value(&root).is_scalar());
        assert_eq!(tag_of(source, value(&root)), tagged("prefer", "!prefer"), "{source:?}");
        assert_eq!(root.tag.as_ref().map(|(suffix, _)| suffix.as_str()), None);
    }
}

#[test]
fn tags_at_the_root() {
    for source in ["!prefer\n- a", "!prefer [a]", "!prefer {a: b}", "--- !prefer\na: b"] {
        let root = parse(source).unwrap();
        assert_eq!(tag_of(source, &root), tagged("prefer", "!prefer"), "{source:?}");
    }
    let source = "!first x: 1";
    let root = parse(source).unwrap();
    assert!(root.tag.is_none());
    assert_eq!(
        tag_of(source, &root.as_hash().unwrap()[0].key),
        tagged("first", "!first")
    );
}

#[test]
fn tags_of_nested_collections() {
    let source = "k:\n  - !prefer\n    - a\n  - !other\n    x: 1";
    let root = parse(source).unwrap();
    let items = value(&root).as_array().unwrap();
    assert!(value(&root).tag.is_none());
    assert_eq!(tag_of(source, &items[0]), tagged("prefer", "!prefer"));
    assert_eq!(tag_of(source, &items[1]), tagged("other", "!other"));
    assert!(items[0].as_array().unwrap()[0].tag.is_none());

    let source = "k: [!prefer [a], !other {b: c}, {d: !third [e]}]";
    let root = parse(source).unwrap();
    let items = value(&root).as_array().unwrap();
    assert_eq!(tag_of(source, &items[0]), tagged("prefer", "!prefer"));
    assert_eq!(tag_of(source, &items[1]), tagged("other", "!other"));
    assert!(items[2].tag.is_none());
    assert_eq!(
        tag_of(source, items[2].get_hash_value("d").unwrap()),
        tagged("third", "!third")
    );

    let source = "k: !outer\n  - !inner\n    - !leaf a";
    let root = parse(source).unwrap();
    let inner = &value(&root).as_array().unwrap()[0];
    assert_eq!(tag_of(source, value(&root)), tagged("outer", "!outer"));
    assert_eq!(tag_of(source, inner), tagged("inner", "!inner"));
    assert_eq!(
        tag_of(source, &inner.as_array().unwrap()[0]),
        tagged("leaf", "!leaf")
    );
}

#[test]
fn standard_tags_are_kept_and_change_nothing() {
    for (source, spelling, suffix) in [
        ("k: !!seq\n  - a", "!!seq", "seq"),
        ("k: !!map {x: 1}", "!!map", "map"),
        ("k: !!map [a]", "!!map", "map"),
    ] {
        let root = parse(source).unwrap();
        assert_eq!(tag_of(source, value(&root)), tagged(suffix, spelling));
        let untagged = parse(&source.replace(spelling, "")).unwrap();
        assert_eq!(value(&root).yaml, value(&untagged).yaml);
    }
}

#[test]
fn the_place_of_a_collection_leaves_its_tag_out() {
    for (with, without, tag) in [
        ("k: !prefer [a, b]", "k: [a, b]", 8),
        ("k: !prefer\n  x: 1", "k: \n  x: 1", 7),
        ("k: !prefer {x: 1}", "k: {x: 1}", 8),
    ] {
        let (a, b) = (parse(with).unwrap(), parse(without).unwrap());
        let (start, end) = place(value(&b));
        assert_eq!(place(value(&a)), (start + tag, end + tag), "{with:?}");
    }
}

#[test]
fn tags_behind_wide_characters() {
    let source = "dash: \"—\"\nk: !prefer [é]\nö: !other\n  ü: ß";
    let root = parse(source).unwrap();
    assert_eq!(tag_of(source, value(&root)), tagged("prefer", "!prefer"));
    let mapping = root.get_hash_value("ö").unwrap();
    assert_eq!(tag_of(source, mapping), tagged("other", "!other"));
}

#[test]
fn a_comment_hides_the_tag_of_a_collection_but_not_its_name() {
    for source in ["k: !prefer # note\n  - a", "k: !prefer # note\n  x: 1"] {
        let root = parse(source).unwrap();
        let (suffix, covered) = tag_of(source, value(&root)).unwrap();
        assert_eq!(suffix, "prefer");
        assert!(covered.len() <= "!prefer".len());
    }
    let source = "k: !prefer # note\n  - a";
    assert_eq!(tag_of(source, value(&parse(source).unwrap())), tagged("prefer", "- a"));
}

#[test]
fn collections_without_a_tag_have_none() {
    for source in ["k: [a]", "k: {a: b}", "k:\n  - a", "k:\n  a: b", "k: []", "k: [!t a]"] {
        assert!(value(&parse(source).unwrap()).tag.is_none(), "{source:?}");
    }
}

#[test]
fn a_tag_that_is_not_in_the_source_stays_inside_of_it() {
    let tag = || {
        Some(Tag {
            handle: "!".to_string(),
            suffix: "a-long-name".to_string(),
        })
    };
    let at = |line: usize, col: usize| Marker { line, col };
    let source = "é: [ü]";
    let events = vec![
        (Event::StreamStart, at(1, 0)),
        (Event::DocumentStart, at(1, 0)),
        (Event::MappingStart(tag()), at(1, 1)),
        (
            Event::Scalar("é".to_string(), ScalarStyle::Plain, None),
            at(1, 0),
        ),
        (Event::SequenceStart(tag()), at(1, 3)),
        (
            Event::Scalar("ü".to_string(), ScalarStyle::Plain, None),
            at(1, 4),
        ),
        (Event::SequenceEnd, at(1, 5)),
        (Event::MappingEnd, at(1, 6)),
        (Event::DocumentEnd, at(1, 6)),
    ];
    let root = build_document(source, None, events).unwrap();
    assert_eq!(tag_of(source, &root).unwrap().1, source);
    let list = root.get_hash_value("é").unwrap();
    assert_eq!(tag_of(source, list).unwrap().1, "[ü]");
}

#[test]
fn a_tag_can_be_given_to_any_node() {
    let span = || SourceInfo::original(FileId(0), 3, 5);
    let node = YamlWithSourceInfo::new_array(Yaml::Array(vec![]), span(), vec![]);
    assert_eq!(node.first_offset(), 3);
    let before = SourceInfo::original(FileId(0), 0, 2);
    let node = node.with_tag(Some(("t".to_string(), before)));
    assert_eq!(node.first_offset(), 0);
    assert_eq!(node.tag.as_ref().unwrap().0, "t");
    assert!(node.is_array());
    assert!(node.with_tag(None).tag.is_none());
}
