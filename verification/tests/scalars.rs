//! Scalars: what they are worth and how long they are.

use quarto_yaml::event::{ScalarStyle, Tag};
use quarto_yaml::extent::{block_scalar_len, plain_scalar_len, quoted_scalar_len};
use quarto_yaml::scalar::{
    is_yaml_float, parse_core_schema_int, resolve_plain_scalar, resolve_scalar,
    resolve_tagged_scalar, standard_tag_suffix,
};
use quarto_yaml::Yaml;

fn tag(handle: &str, suffix: &str) -> Tag {
    Tag {
        handle: handle.to_string(),
        suffix: suffix.to_string(),
    }
}

fn text(s: &str) -> Yaml {
    Yaml::String(s.to_string())
}

#[test]
fn integers_of_the_core_schema() {
    for (spelling, value) in [
        ("0", 0),
        ("42", 42),
        ("-7", -7),
        ("+7", 7),
        ("007", 7),
        ("0x1f", 31),
        ("0xFF", 255),
        ("0o17", 15),
        ("0o0", 0),
        ("9223372036854775807", i64::MAX),
        ("-9223372036854775808", i64::MIN),
        ("0x7fffffffffffffff", i64::MAX),
        ("0o777777777777777777777", i64::MAX),
        ("00000000000000000000000000000000000001", 1),
    ] {
        assert_eq!(parse_core_schema_int(spelling), Some(value), "{spelling}");
        assert_eq!(resolve_plain_scalar(spelling), Yaml::Integer(value));
        assert_eq!(resolve_tagged_scalar(spelling, "int"), Yaml::Integer(value));
    }
}

#[test]
fn what_only_looks_like_an_integer_is_a_text() {
    for spelling in [
        "0X1f", "-0x1f", "+0x1f", "0b101", "0x", "0o", "0o18", "0o8", "0xg1", "0o+7", "0x-1f", "-",
        "+", "1_000", "0xFFFFFFFFFFFFFFFF", "0x8000000000000000", "٣",
    ] {
        assert_eq!(parse_core_schema_int(spelling), None, "{spelling}");
        assert_eq!(resolve_plain_scalar(spelling), text(spelling));
        assert_eq!(resolve_tagged_scalar(spelling, "int"), Yaml::BadValue);
    }
}

#[test]
fn an_integer_beyond_the_range_is_a_float() {
    for spelling in ["9223372036854775808", "-9223372036854775809"] {
        assert_eq!(
            resolve_plain_scalar(spelling),
            Yaml::Real(spelling.to_string())
        );
        assert_eq!(resolve_tagged_scalar(spelling, "int"), Yaml::BadValue);
    }
}

#[test]
fn floats_of_the_core_schema() {
    for spelling in [
        "1.5", "-1.5", "+1.5", "1.", ".5", "-.5", "1e3", "1E3", "1e-3", "1.5e+10", "0.0", "12e03",
        ".inf", "-.INF", "+.Inf", ".nan", ".NaN", ".NAN",
    ] {
        assert!(is_yaml_float(spelling), "{spelling}");
        assert_eq!(
            resolve_plain_scalar(spelling),
            Yaml::Real(spelling.to_string())
        );
    }
    for spelling in [
        "", ".", "-", "+", "e3", ".e3", "1e", "1e+", "1.5.2", "1 ", " 1", "inf", "nan", "infinity",
        "-.nan", ".iNf", "1_0.5", "0x1.8", "1e3.5", "--1",
    ] {
        assert!(!is_yaml_float(spelling), "{spelling}");
    }
}

#[test]
fn decimal_floats_are_those_that_the_standard_library_reads() {
    let alphabet = ['0', '7', '.', 'e', 'E', '+', '-', 'x'];
    let mut words = vec![String::new()];
    let mut from = 0;
    for _ in 0..5 {
        let until = words.len();
        for i in from..until {
            for c in alphabet {
                let mut word = words[i].clone();
                word.push(c);
                words.push(word);
            }
        }
        from = until;
    }
    for word in words {
        let digits = word.bytes().any(|b| b.is_ascii_digit());
        assert_eq!(
            is_yaml_float(&word),
            digits && word.parse::<f64>().is_ok(),
            "{word:?}"
        );
        if !word.starts_with("0x") {
            assert_eq!(
                parse_core_schema_int(&word),
                word.parse::<i64>().ok(),
                "{word:?}"
            );
        }
    }
}

#[test]
fn null_and_truth_values() {
    for spelling in ["null", "Null", "NULL", "~", ""] {
        assert_eq!(resolve_plain_scalar(spelling), Yaml::Null);
        assert_eq!(resolve_tagged_scalar(spelling, "null"), Yaml::Null);
    }
    assert_eq!(resolve_plain_scalar("True"), Yaml::Boolean(true));
    assert_eq!(resolve_plain_scalar("FALSE"), Yaml::Boolean(false));
    assert_eq!(resolve_plain_scalar("tRUE"), text("tRUE"));
    assert_eq!(resolve_plain_scalar("nULL"), text("nULL"));
    assert_eq!(resolve_tagged_scalar("yes", "bool"), Yaml::BadValue);
    assert_eq!(resolve_tagged_scalar("5", "null"), Yaml::BadValue);
}

#[test]
fn standard_tags_in_both_spellings() {
    assert_eq!(
        standard_tag_suffix(&tag("tag:yaml.org,2002:", "int")),
        Some("int")
    );
    assert_eq!(
        standard_tag_suffix(&tag("", "tag:yaml.org,2002:int")),
        Some("int")
    );
    assert_eq!(standard_tag_suffix(&tag("", "tag:yaml.org,2002:")), Some(""));
    assert_eq!(standard_tag_suffix(&tag("", "tag:yaml.org,2002")), None);
    assert_eq!(standard_tag_suffix(&tag("!", "int")), None);
    assert_eq!(standard_tag_suffix(&tag("", "int")), None);
}

#[test]
fn tag_then_style_then_text_decide() {
    let int = tag("tag:yaml.org,2002:", "int");
    let app = tag("!", "expr");
    let map = tag("tag:yaml.org,2002:", "map");
    for style in [
        ScalarStyle::Plain,
        ScalarStyle::SingleQuoted,
        ScalarStyle::DoubleQuoted,
        ScalarStyle::Literal,
        ScalarStyle::Folded,
    ] {
        assert_eq!(resolve_scalar("7", style, Some(&int)), Yaml::Integer(7));
        assert_eq!(resolve_scalar("x", style, Some(&int)), Yaml::BadValue);
        assert_eq!(resolve_scalar("7", style, Some(&map)), text("7"));
        let untagged = resolve_scalar("7", style, None);
        assert_eq!(resolve_scalar("7", style, Some(&app)), untagged);
        if style == ScalarStyle::Plain {
            assert_eq!(untagged, Yaml::Integer(7));
        } else {
            assert_eq!(untagged, text("7"));
        }
    }
}

#[test]
fn lengths_of_quoted_scalars() {
    assert_eq!(quoted_scalar_len("\"a\" b", b'"'), Some(3));
    assert_eq!(quoted_scalar_len("\"a\\\"b\"", b'"'), Some(6));
    assert_eq!(quoted_scalar_len("\"\\\\\"x", b'"'), Some(4));
    assert_eq!(quoted_scalar_len("'it''s' x", b'\''), Some(7));
    assert_eq!(quoted_scalar_len("'a\\' x", b'\''), Some(4));
    assert_eq!(quoted_scalar_len("''", b'\''), Some(2));
    assert_eq!(quoted_scalar_len("\"日本\"", b'"'), Some(8));
    assert_eq!(quoted_scalar_len("\"\\é\"", b'"'), Some(5));
    assert_eq!(quoted_scalar_len("\"a", b'"'), None);
    assert_eq!(quoted_scalar_len("\"a\\", b'"'), None);
    assert_eq!(quoted_scalar_len("a\"", b'"'), None);
    assert_eq!(quoted_scalar_len("", b'"'), None);
    assert_eq!(quoted_scalar_len("'''", b'\''), None);
}

#[test]
fn lengths_of_plain_scalars() {
    assert_eq!(plain_scalar_len("abc # x", "abc"), 3);
    assert_eq!(plain_scalar_len("a\n   b c", "a b"), 6);
    assert_eq!(plain_scalar_len("a \n\n  b", "a\nb"), 7);
    assert_eq!(plain_scalar_len("a\n\n\n  b", "a\n\nb"), 7);
    assert_eq!(plain_scalar_len("a\n \n\t\n\n  b c", "a\n\n\nb"), 10);
    assert_eq!(plain_scalar_len("a\n\nb\n\n\nc d", "a\nb\n\nc d"), 10);
    assert_eq!(plain_scalar_len("a\r  b", "a b"), 5);
    assert_eq!(plain_scalar_len("a\r\n\r\n  b", "a\nb"), 8);
    assert_eq!(plain_scalar_len("a\n  \u{a0}b", "a \u{a0}b"), 7);
    assert_eq!(plain_scalar_len("a\u{a0}\n b", "a\u{a0} b"), 6);
    assert_eq!(plain_scalar_len("a\u{2003}\n b", "a b"), 3);
    assert_eq!(plain_scalar_len("é\n ü", "é ü"), 6);
    assert_eq!(plain_scalar_len("xyz", "abcd"), 4);
    assert_eq!(plain_scalar_len("ab", "abc"), 3);
    assert_eq!(plain_scalar_len("a b", "a\nb"), 3);
    assert_eq!(plain_scalar_len("anything", ""), 0);
    assert_eq!(plain_scalar_len("", ""), 0);
}

#[test]
fn lengths_of_block_scalars() {
    assert_eq!(block_scalar_len("a\n  b\nc: d", 2), 5);
    assert_eq!(block_scalar_len("a  \n\n  b  \n \n", 2), 8);
    assert_eq!(block_scalar_len("a\n b", 2), 1);
    assert_eq!(block_scalar_len("é\n  ü", 2), 7);
    assert_eq!(block_scalar_len("", 2), 0);
    assert_eq!(block_scalar_len("\n\n", 0), 0);
    assert_eq!(block_scalar_len("a\nb", 0), 3);
    assert_eq!(block_scalar_len("a", 7), 1);
    assert_eq!(block_scalar_len("a\n\u{a0}b", 2), 1);
    assert_eq!(block_scalar_len("a\n  \u{a0}\n \t\n", 2), 6);
    assert_eq!(block_scalar_len("a\n\t\tb", 2), 1);
    assert_eq!(block_scalar_len("a\u{a0} \n", 2), 3);
    assert_eq!(block_scalar_len("a\r  b\rc: d", 2), 5);
    assert_eq!(block_scalar_len("a\r\n  b\r\nc: d", 2), 6);
}
