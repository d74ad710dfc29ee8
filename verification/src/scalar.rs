//! The values of scalars.

use crate::event::{ScalarStyle, Tag, TagView};
use crate::text::{chars_of, str_eq};
use crate::yaml::{Yaml, YamlView};
use vstd::prelude::*;
use vstd::string::*;

verus! {

/// What the handle of the standard tags stands for: `!!str`, `!!int` and so on in
/// the source.
pub const STANDARD_TAG_HANDLE: &'static str = "tag:yaml.org,2002:";

/// The value of `c` as a digit of the given radix.
pub open spec fn digit_value(c: char, radix: int) -> Option<int> {
    let value = if '0' <= c && c <= '9' {
        c as int - '0' as int
    } else if 'a' <= c && c <= 'f' {
        c as int - 'a' as int + 10
    } else if 'A' <= c && c <= 'F' {
        c as int - 'A' as int + 10
    } else {
        radix
    };
    if value < radix {
        Some(value)
    } else {
        None
    }
}

/// The number that the first `n` characters from `from` on spell, if they are
/// digits of the given radix.
pub open spec fn digits_value(s: Seq<char>, from: int, n: int, radix: int) -> Option<int>
    decreases n,
{
    if n <= 0 {
        Some(0)
    } else {
        match (digits_value(s, from, n - 1, radix), digit_value(s[from + n - 1], radix)) {
            (Some(high), Some(low)) => Some(high * radix + low),
            _ => None,
        }
    }
}

/// The number that the text from `from` on spells, which must not be empty.
pub open spec fn number_from(s: Seq<char>, from: int, radix: int) -> Option<int> {
    if s.len() <= from {
        None
    } else {
        digits_value(s, from, s.len() - from, radix)
    }
}

/// The integer that `s` spells in the YAML 1.2 core schema: `[-+]?[0-9]+`,
/// `0o[0-7]+` or `0x[0-9a-fA-F]+`.
pub open spec fn core_integer(s: Seq<char>) -> Option<int> {
    if s.len() >= 2 && s[0] == '0' && s[1] == 'o' {
        number_from(s, 2, 8)
    } else if s.len() >= 2 && s[0] == '0' && s[1] == 'x' {
        number_from(s, 2, 16)
    } else if s.len() >= 1 && s[0] == '-' {
        match number_from(s, 1, 10) {
            Some(n) => Some(-n),
            None => None,
        }
    } else if s.len() >= 1 && s[0] == '+' {
        number_from(s, 1, 10)
    } else {
        number_from(s, 0, 10)
    }
}

/// The integer that `s` spells, where it fits in 64 bits.
pub open spec fn integer_value(s: Seq<char>) -> Option<int> {
    match core_integer(s) {
        Some(n) => if i64::MIN <= n <= i64::MAX {
            Some(n)
        } else {
            None
        },
        None => None,
    }
}

/// The first place at or after `i` that holds no decimal digit, or the end.
pub open spec fn digits_end(s: Seq<char>, i: int) -> int
    decreases s.len() - i,
{
    if i >= s.len() || !('0' <= s[i] && s[i] <= '9') {
        i
    } else {
        digits_end(s, i + 1)
    }
}

/// The place after a sign at `i`, if there is one.
pub open spec fn after_sign(s: Seq<char>, i: int) -> int {
    if i < s.len() && (s[i] == '+' || s[i] == '-') {
        i + 1
    } else {
        i
    }
}

/// Whether the text from `i` on is `[eE][-+]?[0-9]+`.
pub open spec fn is_exponent(s: Seq<char>, i: int) -> bool {
    let digits = after_sign(s, i + 1);
    (s[i] == 'e' || s[i] == 'E') && digits < s.len() && digits_end(s, digits) == s.len()
}

/// Whether `s` is `[-+]?(\.[0-9]+|[0-9]+(\.[0-9]*)?)([eE][-+]?[0-9]+)?`.
pub open spec fn is_decimal_float(s: Seq<char>) -> bool {
    let start = after_sign(s, 0);
    let whole_end = digits_end(s, start);
    let point = whole_end < s.len() && s[whole_end] == '.';
    let fraction_end = if point {
        digits_end(s, whole_end + 1)
    } else {
        whole_end
    };
    &&& start < whole_end || (point && whole_end + 1 < fraction_end)
    &&& fraction_end == s.len() || is_exponent(s, fraction_end)
}

/// Whether `s` spells an infinity in the YAML 1.2 core schema.
pub open spec fn is_infinity(s: Seq<char>) -> bool {
    ||| s == ".inf"@
    ||| s == ".Inf"@
    ||| s == ".INF"@
    ||| s == "+.inf"@
    ||| s == "+.Inf"@
    ||| s == "+.INF"@
    ||| s == "-.inf"@
    ||| s == "-.Inf"@
    ||| s == "-.INF"@
}

/// Whether `s` is spelled like "not a number" in the YAML 1.2 core schema.
pub open spec fn is_nan(s: Seq<char>) -> bool {
    s == ".nan"@ || s == ".NaN"@ || s == ".NAN"@
}

/// Whether `s` is a float of the YAML 1.2 core schema.
pub open spec fn is_float(s: Seq<char>) -> bool {
    is_infinity(s) || is_nan(s) || is_decimal_float(s)
}

/// The truth value that `s` spells.
pub open spec fn truth_value(s: Seq<char>) -> Option<bool> {
    if s == "true"@ || s == "True"@ || s == "TRUE"@ {
        Some(true)
    } else if s == "false"@ || s == "False"@ || s == "FALSE"@ {
        Some(false)
    } else {
        None
    }
}

/// Whether `s` spells the null value.
pub open spec fn is_null_text(s: Seq<char>) -> bool {
    s == "null"@ || s == "Null"@ || s == "NULL"@ || s == "~"@ || s == ""@
}

/// The value of an untagged plain scalar.
pub open spec fn plain_value(s: Seq<char>) -> YamlView {
    match integer_value(s) {
        Some(n) => YamlView::Integer(n),
        None => if is_float(s) {
            YamlView::Real(s)
        } else {
            match truth_value(s) {
                Some(b) => YamlView::Boolean(b),
                None => if is_null_text(s) {
                    YamlView::Null
                } else {
                    YamlView::String(s)
                },
            }
        },
    }
}

/// The value of a scalar with a standard tag of the given suffix.
pub open spec fn tagged_value(s: Seq<char>, suffix: Seq<char>) -> YamlView {
    if suffix == "bool"@ {
        match truth_value(s) {
            Some(b) => YamlView::Boolean(b),
            None => YamlView::BadValue,
        }
    } else if suffix == "int"@ {
        match integer_value(s) {
            Some(n) => YamlView::Integer(n),
            None => YamlView::BadValue,
        }
    } else if suffix == "float"@ {
        if is_float(s) {
            YamlView::Real(s)
        } else {
            YamlView::BadValue
        }
    } else if suffix == "null"@ {
        if is_null_text(s) {
            YamlView::Null
        } else {
            YamlView::BadValue
        }
    } else {
        YamlView::String(s)
    }
}

/// The suffix of a tag, if it is a standard tag.
pub open spec fn standard_suffix(tag: TagView) -> Option<Seq<char>> {
    let standard = STANDARD_TAG_HANDLE@;
    if tag.handle == standard {
        Some(tag.suffix)
    } else if tag.handle.len() == 0 && standard.is_prefix_of(tag.suffix) {
        Some(tag.suffix.skip(standard.len() as int))
    } else {
        None
    }
}

/// The suffix of an optional tag, if it is a standard tag.
pub open spec fn optional_standard_suffix(tag: Option<TagView>) -> Option<Seq<char>> {
    match tag {
        Some(t) => standard_suffix(t),
        None => None,
    }
}

/// The value of a scalar.
pub open spec fn scalar_value(
    s: Seq<char>,
    style: ScalarStyle,
    tag: Option<TagView>,
) -> YamlView {
    match optional_standard_suffix(tag) {
        Some(suffix) => tagged_value(s, suffix),
        None => if style == ScalarStyle::Plain {
            plain_value(s)
        } else {
            YamlView::String(s)
        },
    }
}

proof fn lemma_digits_value_stuck(s: Seq<char>, from: int, k: int, n: int, radix: int)
    requires
        0 <= k <= n,
        digits_value(s, from, k, radix) is None,
    ensures
        digits_value(s, from, n, radix) is None,
    decreases n - k,
{
    if k < n {
        lemma_digits_value_stuck(s, from, k, n - 1, radix);
    }
}

/// The value of `c` as a digit of the given radix.
fn digit_of(c: char, radix: u32) -> (digit: Option<u32>)
    requires
        radix <= 16,
    ensures
        match digit {
            Some(d) => digit_value(c, radix as int) == Some(d as int) && d < radix,
            None => digit_value(c, radix as int) is None,
        },
{
    let value: u32 = if '0' <= c && c <= '9' {
        c as u32 - '0' as u32
    } else if 'a' <= c && c <= 'f' {
        c as u32 - 'a' as u32 + 10
    } else if 'A' <= c && c <= 'F' {
        c as u32 - 'A' as u32 + 10
    } else {
        radix
    };
    if value < radix {
        Some(value)
    } else {
        None
    }
}

/// A number read from digits: its size, or that it is above the size of the least
/// 64-bit integer.
enum Magnitude {
    Within(u64),
    Above,
}

/// The size of the least 64-bit integer.
const LARGEST_MAGNITUDE: u64 = 0x8000_0000_0000_0000;

/// Reads the digits from `from` to the end.
fn read_digits(chars: &Vec<char>, from: usize, radix: u32) -> (number: Option<Magnitude>)
    requires
        2 <= radix <= 16,
    ensures
        match number {
            Some(Magnitude::Within(m)) => number_from(chars@, from as int, radix as int) == Some(
                m as int,
            ) && m <= LARGEST_MAGNITUDE,
            Some(Magnitude::Above) => match number_from(chars@, from as int, radix as int) {
                Some(n) => n > LARGEST_MAGNITUDE,
                None => false,
            },
            None => number_from(chars@, from as int, radix as int) is None,
        },
{
    if chars.len() <= from {
        return None;
    }
    let mut size: u64 = 0;
    let mut above = false;
    let mut i: usize = from;
    while i < chars.len()
        invariant
            2 <= radix <= 16,
            from <= i <= chars@.len(),
            size <= LARGEST_MAGNITUDE,
            match digits_value(chars@, from as int, i - from, radix as int) {
                Some(n) => if above {
                    n > LARGEST_MAGNITUDE
                } else {
                    n == size
                },
                None => false,
            },
        decreases chars.len() - i,
    {
        let ghost read = digits_value(chars@, from as int, i - from, radix as int)->0;
        match digit_of(chars[i], radix) {
            Some(d) => {
                assert(digits_value(chars@, from as int, i + 1 - from, radix as int) == Some(
                    read * radix + d,
                ));
                if above {
                    assert(read * radix + d > LARGEST_MAGNITUDE) by (nonlinear_arith)
                        requires
                            read > LARGEST_MAGNITUDE,
                            radix >= 2,
                            d >= 0,
                    ;
                } else {
                    assert(0 <= size * radix <= LARGEST_MAGNITUDE * 16) by (nonlinear_arith)
                        requires
                            size <= LARGEST_MAGNITUDE,
                            radix <= 16,
                    ;
                    let next: u128 = (size as u128) * (radix as u128) + (d as u128);
                    if next > LARGEST_MAGNITUDE as u128 {
                        above = true;
                    } else {
                        size = next as u64;
                    }
                }
            },
            None => {
                proof {
                    lemma_digits_value_stuck(
                        chars@,
                        from as int,
                        i + 1 - from,
                        chars@.len() - from,
                        radix as int,
                    );
                }
                return None;
            },
        }
        i += 1;
    }
    if above {
        Some(Magnitude::Above)
    } else {
        Some(Magnitude::Within(size))
    }
}

/// Reads an integer in one of the three forms of the YAML 1.2 core schema. There is
/// none where it does not fit in 64 bits.
pub fn parse_core_schema_int(value: &str) -> (number: Option<i64>)
    ensures
        match number {
            Some(n) => integer_value(value@) == Some(n as int),
            None => integer_value(value@) is None,
        },
{
    let chars = chars_of(value);
    let prefixed = chars.len() >= 2 && chars[0] == '0';
    let negative = chars.len() >= 1 && chars[0] == '-';
    let read = if prefixed && chars[1] == 'o' {
        read_digits(&chars, 2, 8)
    } else if prefixed && chars[1] == 'x' {
        read_digits(&chars, 2, 16)
    } else if negative || (chars.len() >= 1 && chars[0] == '+') {
        read_digits(&chars, 1, 10)
    } else {
        read_digits(&chars, 0, 10)
    };
    match read {
        Some(Magnitude::Within(size)) => {
            if negative {
                if size == LARGEST_MAGNITUDE {
                    Some(i64::MIN)
                } else {
                    Some(-(size as i64))
                }
            } else if size < LARGEST_MAGNITUDE {
                Some(size as i64)
            } else {
                None
            }
        },
        _ => None,
    }
}

/// The first place at or after `i` that holds no decimal digit, or the end.
fn find_digits_end(chars: &Vec<char>, i: usize) -> (end: usize)
    requires
        i <= chars@.len(),
    ensures
        end == digits_end(chars@, i as int),
        i <= end <= chars@.len(),
{
    let mut end: usize = i;
    while end < chars.len() && '0' <= chars[end] && chars[end] <= '9'
        invariant
            i <= end <= chars@.len(),
            digits_end(chars@, i as int) == digits_end(chars@, end as int),
        decreases chars.len() - end,
    {
        end += 1;
    }
    end
}

/// The place after a sign at `i`, if there is one.
fn skip_sign(chars: &Vec<char>, i: usize) -> (next: usize)
    requires
        i <= chars@.len(),
    ensures
        next == after_sign(chars@, i as int),
        i <= next <= chars@.len(),
{
    if i < chars.len() && (chars[i] == '+' || chars[i] == '-') {
        i + 1
    } else {
        i
    }
}

/// Whether `value` is a decimal float of the YAML 1.2 core schema.
fn is_decimal_float_text(value: &str) -> (yes: bool)
    ensures
        yes == is_decimal_float(value@),
{
    let chars = chars_of(value);
    let start: usize = skip_sign(&chars, 0);
    let whole_end: usize = find_digits_end(&chars, start);
    let point = whole_end < chars.len() && chars[whole_end] == '.';
    let fraction_end: usize = if point {
        find_digits_end(&chars, whole_end + 1)
    } else {
        whole_end
    };
    if start >= whole_end && !(point && whole_end + 1 < fraction_end) {
        return false;
    }
    if fraction_end == chars.len() {
        return true;
    }
    let digits: usize = skip_sign(&chars, fraction_end + 1);
    (chars[fraction_end] == 'e' || chars[fraction_end] == 'E') && digits < chars.len()
        && find_digits_end(&chars, digits) == chars.len()
}

/// Whether `value` is a float of the YAML 1.2 core schema.
pub fn is_yaml_float(value: &str) -> (yes: bool)
    ensures
        yes == is_float(value@),
{
    str_eq(value, ".inf") || str_eq(value, ".Inf") || str_eq(value, ".INF") || str_eq(
        value,
        "+.inf",
    ) || str_eq(value, "+.Inf") || str_eq(value, "+.INF") || str_eq(value, "-.inf") || str_eq(
        value,
        "-.Inf",
    ) || str_eq(value, "-.INF") || str_eq(value, ".nan") || str_eq(value, ".NaN") || str_eq(
        value,
        ".NAN",
    ) || is_decimal_float_text(value)
}

/// The truth value that `value` spells.
fn parse_truth_value(value: &str) -> (truth: Option<bool>)
    ensures
        truth == truth_value(value@),
{
    if str_eq(value, "true") || str_eq(value, "True") || str_eq(value, "TRUE") {
        Some(true)
    } else if str_eq(value, "false") || str_eq(value, "False") || str_eq(value, "FALSE") {
        Some(false)
    } else {
        None
    }
}

/// Whether `value` spells the null value.
fn is_null_spelling(value: &str) -> (yes: bool)
    ensures
        yes == is_null_text(value@),
{
    str_eq(value, "null") || str_eq(value, "Null") || str_eq(value, "NULL") || str_eq(value, "~")
        || str_eq(value, "")
}

/// The suffix of a standard tag, if this is one.
///
/// The shorthand `!!x` has the standard handle and the suffix `x`. The verbatim form
/// `!<tag:yaml.org,2002:x>` has an empty handle and the whole name as its suffix.
pub fn standard_tag_suffix(tag: &Tag) -> (suffix: Option<&str>)
    ensures
        match suffix {
            Some(s) => standard_suffix(tag@) == Some(s@),
            None => standard_suffix(tag@) is None,
        },
{
    if str_eq(tag.handle.as_str(), STANDARD_TAG_HANDLE) {
        return Some(tag.suffix.as_str());
    }
    if !tag.handle.as_str().is_empty() {
        return None;
    }
    let suffix = tag.suffix.as_str();
    let len: usize = suffix.unicode_len();
    let standard: usize = STANDARD_TAG_HANDLE.unicode_len();
    if len < standard {
        return None;
    }
    if str_eq(suffix.substring_char(0, standard), STANDARD_TAG_HANDLE) {
        proof {
            assert(STANDARD_TAG_HANDLE@.is_prefix_of(suffix@));
            assert(suffix@.subrange(standard as int, len as int) =~= suffix@.skip(standard as int));
        }
        Some(suffix.substring_char(standard, len))
    } else {
        assert(!STANDARD_TAG_HANDLE@.is_prefix_of(suffix@));
        None
    }
}

/// The value of a scalar with an explicit standard tag, such as `!!int 5`.
///
/// Standard tags that do not apply to scalars (`!!map`, `!!binary`) leave the text
/// alone. A value that contradicts its tag is a bad value.
pub fn resolve_tagged_scalar(value: &str, suffix: &str) -> (yaml: Yaml)
    ensures
        yaml@ == tagged_value(value@, suffix@),
{
    if str_eq(suffix, "bool") {
        match parse_truth_value(value) {
            Some(b) => Yaml::Boolean(b),
            None => Yaml::BadValue,
        }
    } else if str_eq(suffix, "int") {
        match parse_core_schema_int(value) {
            Some(n) => Yaml::Integer(n),
            None => Yaml::BadValue,
        }
    } else if str_eq(suffix, "float") {
        if is_yaml_float(value) {
            Yaml::Real(value.to_string())
        } else {
            Yaml::BadValue
        }
    } else if str_eq(suffix, "null") {
        if is_null_spelling(value) {
            Yaml::Null
        } else {
            Yaml::BadValue
        }
    } else {
        Yaml::String(value.to_string())
    }
}

/// The value of an untagged plain scalar in the YAML 1.2 core schema.
///
/// Only `true` and `false`, with their spellings `True` and `TRUE`, are truth
/// values: `yes`, `no`, `on` and `off` are texts.
pub fn resolve_plain_scalar(value: &str) -> (yaml: Yaml)
    ensures
        yaml@ == plain_value(value@),
{
    if let Some(n) = parse_core_schema_int(value) {
        return Yaml::Integer(n);
    }
    if is_yaml_float(value) {
        return Yaml::Real(value.to_string());
    }
    if let Some(b) = parse_truth_value(value) {
        return Yaml::Boolean(b);
    }
    if is_null_spelling(value) {
        return Yaml::Null;
    }
    Yaml::String(value.to_string())
}

/// The value of a scalar.
///
/// An explicit standard tag decides first: it is the node's type. Then the style
/// does: a scalar that is not plain is a text. Failing both, the core schema
/// resolves the plain text. Other tags do not change the value.
pub fn resolve_scalar(value: &str, style: ScalarStyle, tag: Option<&Tag>) -> (yaml: Yaml)
    ensures
        yaml@ == scalar_value(
            value@,
            style,
            match tag {
                Some(t) => Some(t@),
                None => None,
            },
        ),
{
    if let Some(t) = tag {
        if let Some(suffix) = standard_tag_suffix(t) {
            return resolve_tagged_scalar(value, suffix);
        }
    }
    if style != ScalarStyle::Plain {
        return Yaml::String(value.to_string());
    }
    resolve_plain_scalar(value)
}

/// A quoted scalar or a block scalar without a standard tag is a text.
pub proof fn law_quoted_scalar_is_text(s: Seq<char>, style: ScalarStyle, tag: Option<TagView>)
    requires
        style != ScalarStyle::Plain,
        optional_standard_suffix(tag) is None,
    ensures
        scalar_value(s, style, tag) == YamlView::String(s),
{
}

/// A standard tag decides the value, whatever the style.
pub proof fn law_standard_tag_overrides_style(
    s: Seq<char>,
    style: ScalarStyle,
    other: ScalarStyle,
    tag: TagView,
)
    requires
        standard_suffix(tag) is Some,
    ensures
        scalar_value(s, style, Some(tag)) == scalar_value(s, other, Some(tag)),
        scalar_value(s, style, Some(tag)) == tagged_value(s, standard_suffix(tag)->0),
{
}

/// A tag that is not a standard tag does not change the value.
pub proof fn law_application_tag_keeps_value(s: Seq<char>, style: ScalarStyle, tag: TagView)
    requires
        standard_suffix(tag) is None,
    ensures
        scalar_value(s, style, Some(tag)) == scalar_value(s, style, None),
{
}

/// The two spellings of a standard tag mean the same: `!!x` and
/// `!<tag:yaml.org,2002:x>`.
pub proof fn law_verbatim_tag_means_the_same(suffix: Seq<char>)
    ensures
        standard_suffix(TagView { handle: STANDARD_TAG_HANDLE@, suffix }) == Some(suffix),
        standard_suffix(
            TagView { handle: Seq::empty(), suffix: STANDARD_TAG_HANDLE@ + suffix },
        ) == Some(suffix),
{
    reveal_strlit("tag:yaml.org,2002:");
    let standard = STANDARD_TAG_HANDLE@;
    assert(standard.len() == 18);
    assert((standard + suffix).skip(standard.len() as int) =~= suffix);
    assert(standard.is_prefix_of(standard + suffix));
}

} // verus!
