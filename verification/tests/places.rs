//! Places: byte offsets in sources of any alphabet, and how markers lead to them.

use quarto_yaml::source_text::{Marker, SourceText};
use quarto_yaml::{parse, SourceInfo, YamlWithSourceInfo};
use yaml_rust2::parser::{Event, MarkedEventReceiver, Parser};

/// The source text a place covers.
fn covered<'a>(source: &'a str, info: &SourceInfo) -> &'a str {
    &source[info.start_offset()..info.end_offset()]
}

fn value_of<'a>(root: &'a YamlWithSourceInfo, key: &str) -> &'a YamlWithSourceInfo {
    root.get_hash_value(key).unwrap()
}

/// The markers of a stream, as the parser gives them.
struct Markers(Vec<(usize, usize, usize)>);

impl MarkedEventReceiver for Markers {
    fn on_event(&mut self, _event: Event, marker: yaml_rust2::scanner::Marker) {
        self.0.push((marker.index(), marker.line(), marker.col()));
    }
}

#[test]
fn markers_of_ascii_sources_lead_to_their_index() {
    for source in [
        "",
        "a",
        "a: 1",
        "a: 1\n",
        "a:\n  - b\n  - c: d\n    e: f\n\n# comment\ng: [h, i, {j: k}]\n",
        "a: |\n  text\n   more\n\n  end\nb: >-\n  x\n  y",
        "a: |\n  text",
        "a: \"x\n  y\"\nb: 'z'\n",
        "---\n!!str a\n...\n",
        "a: 1\r\nb: 2\r\nc:\r\n  - d\r\n",
        "a: 1\rb: 2\r",
        "%YAML 1.2\n---\na: 1\n",
        "? a\n: b\n? c\n: d\n",
        "&x [a, b]: *x\n",
        "a:\n\tb",
        "a: plain\n  folded\n\n  text # no\nb: c",
        "- - - a\n    - b\n  - c\n- d",
        "a: 1\0\nb: 2",
        "a: |\n  x\0\n  y",
    ] {
        let mut markers = Markers(Vec::new());
        let _ = Parser::new_from_str(source).load(&mut markers, false);
        let text = SourceText::new(source);
        for (index, line, col) in markers.0 {
            assert_eq!(
                text.position(&Marker { line, col }),
                index.min(source.len()),
                "line {line}, column {col} of {source:?}"
            );
        }
    }
}

#[test]
fn offsets_count_bytes_behind_other_alphabets() {
    let source = "é: ü\nключ: \"значение\"\n日本: [語, 'ö']\n";
    let root = parse(source).unwrap();
    assert_eq!(covered(source, &value_of(&root, "é").source_info), "ü");
    assert_eq!(covered(source, &value_of(&root, "ключ").source_info), "\"значение\"");
    let items = value_of(&root, "日本").as_array().unwrap();
    assert_eq!(covered(source, &items[0].source_info), "語");
    assert_eq!(covered(source, &items[1].source_info), "'ö'");
    assert_eq!(covered(source, &root.source_info), source);
    let entries = root.as_hash().unwrap();
    assert_eq!(covered(source, &entries[1].key_span), "ключ");
    assert_eq!(covered(source, &entries[1].entry_span), "ключ: \"значение\"");
}

#[test]
fn offsets_count_bytes_behind_a_block_scalar() {
    let source = "a: |\n  é é ü\n  日本\nb: x\nc: >-\n  ö\n\nd: !expr y\n";
    let root = parse(source).unwrap();
    assert_eq!(covered(source, &value_of(&root, "a").source_info), "é é ü\n  日本");
    assert_eq!(covered(source, &value_of(&root, "b").source_info), "x");
    assert_eq!(covered(source, &value_of(&root, "c").source_info), "ö");
    let d = value_of(&root, "d");
    assert_eq!(covered(source, &d.source_info), "y");
    assert_eq!(covered(source, &d.tag.as_ref().unwrap().1), "!expr");
}

#[test]
fn a_tag_behind_wide_characters_is_found() {
    let source = "dash: \"—\"\nlist: [é, !prefer ñ]\n";
    let root = parse(source).unwrap();
    let item = &value_of(&root, "list").as_array().unwrap()[1];
    assert_eq!(covered(source, &item.source_info), "ñ");
    let (suffix, span) = item.tag.as_ref().unwrap();
    assert_eq!(suffix, "prefer");
    assert_eq!(covered(source, span), "!prefer");
}

#[test]
fn lines_may_end_in_carriage_returns() {
    let source = "a: x\r\nb: \"y\"\r\nc:\r\n  - z\r\n";
    let root = parse(source).unwrap();
    assert_eq!(covered(source, &value_of(&root, "a").source_info), "x");
    assert_eq!(covered(source, &value_of(&root, "b").source_info), "\"y\"");
    let items = value_of(&root, "c").as_array().unwrap();
    assert_eq!(covered(source, &items[0].source_info), "z");
}

#[test]
fn a_plain_scalar_covers_every_line_of_it() {
    for breaks in ["\n", "\n\n", "\n\n\n", "\n \n\n\t\n", "\r", "\r\r", "\r\n\r\n\r\n"] {
        let plain = format!("one{breaks}  two{breaks}  three");
        let source = format!("a: {plain}\nb: c\n");
        let root = parse(&source).unwrap();
        assert_eq!(covered(&source, &value_of(&root, "a").source_info), plain);
        assert_eq!(covered(&source, &value_of(&root, "b").source_info), "c");
    }
    let source = "a: x\n  \u{a0}y\n";
    let root = parse(source).unwrap();
    assert_eq!(covered(source, &value_of(&root, "a").source_info), "x\n  \u{a0}y");
}

#[test]
fn a_block_scalar_ends_at_a_carriage_return() {
    let source = "a: |\r  x\r  y\rb: z\r";
    let root = parse(source).unwrap();
    assert_eq!(covered(source, &value_of(&root, "a").source_info), "x\r  y");
    assert_eq!(covered(source, &value_of(&root, "b").source_info), "z");
}
