//! Properties of parsing, tried on many documents.

use quarto_yaml::{parse, parse_file, SourceInfo, Yaml, YamlWithSourceInfo};
use yaml_rust2::parser::{Event, MarkedEventReceiver, Parser};
use yaml_rust2::YamlLoader;

/// Pseudo-random numbers.
struct Numbers(u64);

impl Numbers {
    fn below(&mut self, n: usize) -> usize {
        self.0 = self
            .0
            .wrapping_mul(6364136223846793005)
            .wrapping_add(1442695040888963407);
        ((self.0 >> 33) as usize) % n
    }
}

/// Checks that the source can be sliced with a place.
fn assert_sliceable(source: &str, info: &SourceInfo) {
    let (start, end) = (info.start_offset(), info.end_offset());
    assert!(
        source.get(start..end).is_some(),
        "{start}..{end} of {source:?}"
    );
}

fn assert_all_sliceable(source: &str, node: &YamlWithSourceInfo) {
    assert_sliceable(source, &node.source_info);
    if let Some((_, span)) = &node.tag {
        assert_sliceable(source, span);
    }
    for item in node.as_array().into_iter().flatten() {
        assert_all_sliceable(source, item);
    }
    for entry in node.as_hash().into_iter().flatten() {
        assert_sliceable(source, &entry.key_span);
        assert_sliceable(source, &entry.value_span);
        assert_all_sliceable(source, &entry.key);
        assert_all_sliceable(source, &entry.value);
    }
}

/// How deep the events of a stream are nested while they come in.
struct Nesting {
    open: Vec<char>,
    complete: bool,
}

impl MarkedEventReceiver for Nesting {
    fn on_event(&mut self, event: Event, _marker: yaml_rust2::scanner::Marker) {
        match event {
            Event::SequenceStart(..) => self.open.push('['),
            Event::MappingStart(..) => self.open.push('{'),
            Event::SequenceEnd => assert_eq!(self.open.pop(), Some('[')),
            Event::MappingEnd => assert_eq!(self.open.pop(), Some('{')),
            Event::DocumentEnd | Event::StreamEnd => {
                assert!(self.open.is_empty());
                self.complete = true;
            }
            _ => assert!(!self.complete),
        }
    }
}

fn random_text(numbers: &mut Numbers, len: usize) -> String {
    let words = [
        "a", "b: ", "- ", "[", "]", "{", "}", ", ", ": ", "\n", "\n  ", "\n    ", "\"", "'", "|\n  ",
        ">-\n  ", "é", "日本", "# c\n", "!t ", "!!str ", "&x ", "*x", "1", "~", "\\", "? ", "---\n",
        "\r\n", "\r", "\t", "\u{85}", "key: ", "!u\n  ", "&y !v ",
    ];
    let mut text = String::new();
    for _ in 0..len {
        text.push_str(words[numbers.below(words.len())]);
    }
    text
}

#[test]
fn places_in_random_texts_can_be_sliced() {
    let mut numbers = Numbers(7);
    let mut parsed = 0;
    for round in 0..60000 {
        let source = random_text(&mut numbers, 1 + round % 12);
        let mut nesting = Nesting {
            open: Vec::new(),
            complete: false,
        };
        let accepted = Parser::new_from_str(&source).load(&mut nesting, false).is_ok();
        if accepted {
            assert!(nesting.complete);
        }
        if let Ok(root) = parse(&source) {
            assert!(accepted);
            parsed += 1;
            assert_all_sliceable(&source, &root);
            let filed = parse_file(&source, "x.yaml").unwrap();
            assert_eq!(filed.yaml, root.yaml);
            assert_all_sliceable(&source, &filed);
        }
    }
    assert!(parsed > 3000, "only {parsed} texts were documents");
}

/// The parser's own value as one of the library.
fn from_loader(yaml: &yaml_rust2::Yaml) -> Yaml {
    match yaml {
        yaml_rust2::Yaml::Real(s) => Yaml::Real(s.clone()),
        yaml_rust2::Yaml::Integer(i) => Yaml::Integer(*i),
        yaml_rust2::Yaml::String(s) => Yaml::String(s.clone()),
        yaml_rust2::Yaml::Boolean(b) => Yaml::Boolean(*b),
        yaml_rust2::Yaml::Array(items) => Yaml::Array(items.iter().map(from_loader).collect()),
        yaml_rust2::Yaml::Hash(hash) => Yaml::Hash(
            hash.iter()
                .map(|(key, value)| (from_loader(key), from_loader(value)))
                .collect(),
        ),
        yaml_rust2::Yaml::Null => Yaml::Null,
        _ => Yaml::BadValue,
    }
}

#[test]
fn values_are_those_of_the_loader() {
    for source in [
        "a: 1\nb: [x, 2.5, true, ~, 'q', \"r\"]\nc:\n  d: {e: f, g: []}\n",
        "- a\n- - b\n  - c\n- {d: e}\n",
        "text: |\n  one\n  two\nfolded: >-\n  three\n  four\n",
        "? [a, b]\n: c\n? {d: e}\n: f\n",
        "n: 0x1f\no: 0o17\np: -7\nq: 1e3\nr: .5\ns: 1_000\n",
        "!!str 5",
        "\"esc \\n \\u00e9\"",
        "plain\n  folded\n\n  text",
        "é: ü\n日本: 語\n",
        "[]",
        "{}",
        "'it''s'",
        "a: !!null ~\nb: !!float 1.5\n",
    ] {
        let loaded = YamlLoader::load_from_str(source).unwrap();
        assert_eq!(
            parse(source).unwrap().yaml,
            from_loader(&loaded[0]),
            "{source:?}"
        );
    }
}

/// One of the texts.
fn pick<'a>(numbers: &mut Numbers, texts: &[&'a str]) -> &'a str {
    texts[numbers.below(texts.len())]
}

#[test]
fn plain_scalars_cover_all_their_lines() {
    let mut numbers = Numbers(11);
    let words = ["a", "bc", "é", "\u{a0}", "日本", "x:y", "#no", "d'e", "f\"g", "\u{2003}h"];
    let gaps = [
        " ", "  ", "\t", "\n  ", "\n\n  ", "\n\n\n ", " \n \t\n  ", "\r\n  ", "\r\n\r\n  ", "\r  ",
        "\r\r\n\n ", "\n\t ",
    ];
    for round in 0..4000 {
        let mut plain = String::from("w");
        for _ in 0..round % 7 {
            plain.push_str(pick(&mut numbers, &gaps));
            let word = pick(&mut numbers, &words);
            // A `#` after a gap starts a comment.
            plain.push_str(word.trim_start_matches('#'));
        }
        let source = format!("k: {plain}\nz: 1\n");
        let Ok(root) = parse(&source) else {
            continue;
        };
        let info = &root.get_hash_value("k").unwrap().source_info;
        assert_eq!(
            &source[info.start_offset()..info.end_offset()],
            plain,
            "{source:?}"
        );
    }
}

#[test]
fn block_scalars_cover_all_their_lines() {
    let mut numbers = Numbers(13);
    let lines = [
        "x", " more", "\u{a0}", "é", "日本 ", "w\u{a0}", "# c", "- a", "k: v", "", "", " ", "\t",
    ];
    let mut parsed = 0;
    for round in 0..4000 {
        let feed = pick(&mut numbers, &["\n", "\r\n", "\r"]);
        let indent = " ".repeat(1 + numbers.below(4));
        let header = pick(&mut numbers, &["|", ">", "|-", ">+"]);
        let mut body = format!("{indent}first");
        let mut covered = body.len();
        for _ in 0..round % 6 {
            let line = pick(&mut numbers, &lines);
            body.push_str(feed);
            if !line.is_empty() {
                body.push_str(&indent);
                body.push_str(line);
            }
            if !line.trim_matches([' ', '\t']).is_empty() {
                covered = body.trim_end_matches([' ', '\t']).len();
            }
        }
        let next = pick(&mut numbers, &["z: 1", "\u{a0}z: 1", "# c"]);
        let source = format!("k: {header}{feed}{body}{feed}{next}{feed}");
        let Ok(root) = parse(&source) else {
            continue;
        };
        parsed += 1;
        let info = &root.get_hash_value("k").unwrap().source_info;
        assert_eq!(
            &source[info.start_offset()..info.end_offset()],
            &body[indent.len()..covered],
            "{source:?}"
        );
    }
    assert!(parsed > 3000, "only {parsed} texts were documents");
}
