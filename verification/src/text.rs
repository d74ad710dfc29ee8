//! Text as sequences of characters, and its length in UTF-8 bytes.
//!
//! Every offset that the library reports counts bytes. Scanning is stated over
//! characters; [`byte_len`] leads from one to the other.

use vstd::prelude::*;
use vstd::string::*;
use vstd::utf8::*;

verus! {

/// The number of bytes that UTF-8 spends on `c`.
pub open spec fn utf8_width(c: char) -> nat {
    if (c as u32) < 0x80 {
        1
    } else if (c as u32) < 0x800 {
        2
    } else if (c as u32) < 0x10000 {
        3
    } else {
        4
    }
}

/// The number of bytes that UTF-8 spends on `s`.
pub open spec fn byte_len(s: Seq<char>) -> nat
    decreases s.len(),
{
    if s.len() == 0 {
        0
    } else {
        byte_len(s.drop_last()) + utf8_width(s.last())
    }
}

/// White space as YAML has it: spaces, tabs and line breaks.
pub open spec fn white_space(c: char) -> bool {
    c == ' ' || c == '\t' || line_break(c)
}

/// Whether `c` breaks lines: a line feed or a carriage return.
pub open spec fn line_break(c: char) -> bool {
    c == '\n' || c == '\r'
}

/// Whether nothing in `s` breaks lines.
pub open spec fn one_line(s: Seq<char>) -> bool {
    forall|i: int| 0 <= i < s.len() ==> !line_break(#[trigger] s[i])
}

/// The first `n` characters of `s` on one line: a space stands for every run of line breaks.
pub open spec fn flattened(s: Seq<char>, n: int) -> Seq<char>
    decreases n,
{
    if n <= 0 {
        Seq::empty()
    } else if !line_break(s[n - 1]) {
        flattened(s, n - 1).push(s[n - 1])
    } else if n >= 2 && line_break(s[n - 2]) {
        flattened(s, n - 1)
    } else {
        flattened(s, n - 1).push(' ')
    }
}

/// The decimal digit that stands for `d`.
pub open spec fn digit_char(d: nat) -> char {
    if d == 0 {
        '0'
    } else if d == 1 {
        '1'
    } else if d == 2 {
        '2'
    } else if d == 3 {
        '3'
    } else if d == 4 {
        '4'
    } else if d == 5 {
        '5'
    } else if d == 6 {
        '6'
    } else if d == 7 {
        '7'
    } else if d == 8 {
        '8'
    } else {
        '9'
    }
}

/// `n` in decimal, without leading zeros.
pub open spec fn decimal(n: nat) -> Seq<char>
    decreases n,
{
    if n < 10 {
        seq![digit_char(n)]
    } else {
        decimal(n / 10).push(digit_char(n % 10))
    }
}

/// The byte length of a concatenation is the sum of the byte lengths.
pub proof fn lemma_byte_len_concat(a: Seq<char>, b: Seq<char>)
    ensures
        byte_len(a + b) == byte_len(a) + byte_len(b),
    decreases b.len(),
{
    if b.len() == 0 {
        assert(a + b =~= a);
    } else {
        assert((a + b).drop_last() =~= a + b.drop_last());
        assert((a + b).last() == b.last());
        lemma_byte_len_concat(a, b.drop_last());
    }
}

/// Cutting a text in two cuts its byte length in two.
pub proof fn lemma_byte_len_split(s: Seq<char>, i: int)
    requires
        0 <= i <= s.len(),
    ensures
        byte_len(s) == byte_len(s.take(i)) + byte_len(s.skip(i)),
{
    assert(s =~= s.take(i) + s.skip(i));
    lemma_byte_len_concat(s.take(i), s.skip(i));
}

/// One more character adds its width.
pub proof fn lemma_byte_len_step(s: Seq<char>, i: int)
    requires
        0 <= i < s.len(),
    ensures
        byte_len(s.take(i + 1)) == byte_len(s.take(i)) + utf8_width(s[i]),
{
    assert(s.take(i + 1).drop_last() =~= s.take(i));
    assert(s.take(i + 1).last() == s[i]);
}

/// The byte length of a range is the difference of two prefixes' byte lengths.
pub proof fn lemma_byte_len_range(s: Seq<char>, i: int, j: int)
    requires
        0 <= i <= j <= s.len(),
    ensures
        byte_len(s.subrange(i, j)) == byte_len(s.take(j)) - byte_len(s.take(i)),
        byte_len(s.take(i)) <= byte_len(s.take(j)) <= byte_len(s),
{
    assert(s.take(j) =~= s.take(i) + s.subrange(i, j));
    lemma_byte_len_concat(s.take(i), s.subrange(i, j));
    lemma_byte_len_split(s, j);
}

/// `byte_len` is the length of the UTF-8 encoding.
pub proof fn lemma_byte_len_is_encoding(s: Seq<char>)
    ensures
        encode_utf8(s).len() == byte_len(s),
    decreases s.len(),
{
    if s.len() > 0 {
        lemma_byte_len_is_encoding(s.drop_first());
        assert(s =~= seq![s[0]] + s.drop_first());
        lemma_byte_len_concat(seq![s[0]], s.drop_first());
        assert(seq![s[0]].drop_last() =~= Seq::<char>::empty());
        assert(byte_len(seq![s[0]]) == utf8_width(s[0])) by {
            reveal_with_fuel(byte_len, 2);
        }
        char_is_scalar(s[0]);
    }
}

/// Every character starts at a boundary of the encoding.
pub proof fn lemma_char_boundary(s: Seq<char>, i: int)
    requires
        0 <= i <= s.len(),
    ensures
        is_char_boundary(encode_utf8(s), byte_len(s.take(i)) as int),
    decreases i,
{
    let bytes = encode_utf8(s);
    encode_utf8_valid_utf8(s);
    if i == 0 {
        assert(s.take(0) =~= Seq::empty());
    } else {
        let rest = s.drop_first();
        let first = encode_scalar(s[0] as u32);
        encode_utf8_first_scalar(s);
        encode_utf8_valid_utf8(rest);
        assert(bytes == first + encode_utf8(rest));
        assert(pop_first_scalar(bytes) =~= encode_utf8(rest));
        lemma_char_boundary(rest, i - 1);
        assert(s.take(i) =~= seq![s[0]] + rest.take(i - 1));
        lemma_byte_len_concat(seq![s[0]], rest.take(i - 1));
        assert(seq![s[0]] =~= Seq::<char>::empty().push(s[0]));
        lemma_byte_len_is_encoding(seq![s[0]]);
        assert(seq![s[0]].drop_first() =~= Seq::empty());
        assert(encode_utf8(seq![s[0]]) =~= first) by {
            reveal_with_fuel(encode_utf8, 2);
        }
        lemma_byte_len_is_encoding(s);
        lemma_byte_len_range(s, i, s.len() as int);
        assert(s.take(s.len() as int) =~= s);
    }
}

/// The bytes of a character that takes more than one are all above those of ASCII.
proof fn lemma_wide_bytes(scalar: u32)
    by (bit_vector)
    requires
        scalar <= 0x10ffff,
        0x80 <= scalar,
    ensures
        scalar <= 0x7ff ==> leading_byte_width_2(scalar) >= 0x80,
        scalar <= 0xffff ==> leading_byte_width_3(scalar) >= 0x80,
        leading_byte_width_4(scalar) >= 0x80,
        last_continuation_byte(scalar) >= 0x80,
        second_last_continuation_byte(scalar) >= 0x80,
        third_last_continuation_byte(scalar) >= 0x80,
{
}

/// Every boundary of the encoding is where a character starts, or the end.
pub proof fn lemma_boundary_char(s: Seq<char>, b: int) -> (i: int)
    requires
        is_char_boundary(encode_utf8(s), b),
    ensures
        0 <= i <= s.len(),
        byte_len(s.take(i)) == b,
    decreases s.len(),
{
    let bytes = encode_utf8(s);
    encode_utf8_valid_utf8(s);
    if b == 0 {
        assert(s.take(0) =~= Seq::empty());
        0
    } else {
        let first = encode_scalar(s[0] as u32);
        let rest = s.drop_first();
        encode_utf8_first_scalar(s);
        encode_utf8_valid_utf8(rest);
        char_is_scalar(s[0]);
        assert(bytes == first + encode_utf8(rest));
        assert(pop_first_scalar(bytes) =~= encode_utf8(rest));
        assert(first.len() == utf8_width(s[0]));
        let i = lemma_boundary_char(rest, b - first.len());
        assert(s.take(0) =~= Seq::empty());
        lemma_byte_len_step(s, 0);
        assert(s.take(i + 1) =~= s.take(1) + rest.take(i));
        lemma_byte_len_concat(s.take(1), rest.take(i));
        i + 1
    }
}

/// A byte of ASCII in the encoding is a character of its own.
pub proof fn lemma_ascii_byte(s: Seq<char>, b: int) -> (i: int)
    requires
        0 <= b < encode_utf8(s).len(),
        encode_utf8(s)[b] < 0x80,
    ensures
        0 <= i < s.len(),
        byte_len(s.take(i)) == b,
        byte_len(s.take(i + 1)) == b + 1,
    decreases s.len(),
{
    let first = encode_scalar(s[0] as u32);
    let rest = s.drop_first();
    let width = first.len() as int;
    char_is_scalar(s[0]);
    assert(encode_utf8(s) == first + encode_utf8(rest));
    assert(width == utf8_width(s[0]));
    assert(s.take(0) =~= Seq::empty());
    lemma_byte_len_step(s, 0);
    if b < width {
        assert(encode_utf8(s)[b] == first[b]);
        if s[0] as u32 >= 0x80 {
            lemma_wide_bytes(s[0] as u32);
        }
        0
    } else {
        assert(encode_utf8(s)[b] == encode_utf8(rest)[b - width]);
        let i = lemma_ascii_byte(rest, b - width);
        assert(s.take(i + 1) =~= s.take(1) + rest.take(i));
        assert(s.take(i + 2) =~= s.take(1) + rest.take(i + 1));
        lemma_byte_len_concat(s.take(1), rest.take(i));
        lemma_byte_len_concat(s.take(1), rest.take(i + 1));
        i + 1
    }
}

/// Texts with the same encoding are the same text.
pub proof fn lemma_encoding_injective(a: Seq<char>, b: Seq<char>)
    requires
        encode_utf8(a) == encode_utf8(b),
    ensures
        a == b,
{
    encode_utf8_decode_utf8(a);
    encode_utf8_decode_utf8(b);
}

/// The number of bytes that UTF-8 spends on `c`.
pub fn char_width(c: char) -> (width: usize)
    ensures
        width == utf8_width(c),
{
    let code: u32 = c as u32;
    if code < 0x80 {
        1
    } else if code < 0x800 {
        2
    } else if code < 0x10000 {
        3
    } else {
        4
    }
}

/// The length of `s` in bytes.
pub fn str_len(s: &str) -> (len: usize)
    ensures
        len == byte_len(s@),
{
    proof {
        lemma_byte_len_is_encoding(s@);
    }
    s.as_bytes().len()
}

/// Whether `c` is white space.
pub fn is_white_space(c: char) -> (yes: bool)
    ensures
        yes == white_space(c),
{
    c == ' ' || c == '\t' || is_line_break(c)
}

/// Whether `c` breaks lines.
pub fn is_line_break(c: char) -> (yes: bool)
    ensures
        yes == line_break(c),
{
    c == '\n' || c == '\r'
}

/// Whether two strings hold the same text.
pub fn str_eq(a: &str, b: &str) -> (same: bool)
    ensures
        same == (a@ == b@),
{
    let left = a.as_bytes();
    let right = b.as_bytes();
    if left.len() != right.len() {
        return false;
    }
    let mut i: usize = 0;
    while i < left.len()
        invariant
            i <= left.len(),
            left@ == encode_utf8(a@),
            right@ == encode_utf8(b@),
            left@.len() == right@.len(),
            forall|j: int| 0 <= j < i ==> left@[j] == right@[j],
        decreases left.len() - i,
    {
        if left[i] != right[i] {
            return false;
        }
        i += 1;
    }
    proof {
        assert(left@ =~= right@);
        lemma_encoding_injective(a@, b@);
    }
    true
}

/// The characters of a string.
pub fn chars_of(s: &str) -> (chars: Vec<char>)
    ensures
        chars@ == s@,
{
    let mut chars: Vec<char> = Vec::new();
    for c in it: s.chars()
        invariant
            it.seq() == s@,
            chars@ == s@.take(it.index() as int),
    {
        chars.push(c);
        assert(chars@ =~= s@.take(it.index() + 1));
    }
    assert(s@.take(s@.len() as int) =~= s@);
    chars
}

/// Adds the digit `d` at the end of `out`.
fn push_digit(out: &mut String, d: usize)
    requires
        d < 10,
    ensures
        final(out)@ == old(out)@.push(digit_char(d as nat)),
{
    let digit = if d == 0 {
        "0"
    } else if d == 1 {
        "1"
    } else if d == 2 {
        "2"
    } else if d == 3 {
        "3"
    } else if d == 4 {
        "4"
    } else if d == 5 {
        "5"
    } else if d == 6 {
        "6"
    } else if d == 7 {
        "7"
    } else if d == 8 {
        "8"
    } else {
        "9"
    };
    proof {
        reveal_strlit("0");
        reveal_strlit("1");
        reveal_strlit("2");
        reveal_strlit("3");
        reveal_strlit("4");
        reveal_strlit("5");
        reveal_strlit("6");
        reveal_strlit("7");
        reveal_strlit("8");
        reveal_strlit("9");
        assert(digit@ =~= seq![digit_char(d as nat)]);
    }
    let ghost before = out@;
    out.append(digit);
    assert(out@ =~= before.push(digit_char(d as nat)));
}

/// Writes `n` in decimal at the end of `out`.
pub fn push_decimal(out: &mut String, n: usize)
    ensures
        final(out)@ == old(out)@ + decimal(n as nat),
    decreases n,
{
    let ghost before = out@;
    if n >= 10 {
        push_decimal(out, n / 10);
    }
    push_digit(out, n % 10);
    assert(out@ =~= before + decimal(n as nat));
}

/// Nothing in a flattened text breaks lines.
pub proof fn lemma_flattened(s: Seq<char>, n: int)
    ensures
        one_line(flattened(s, n)),
    decreases n,
{
    if n > 0 {
        lemma_flattened(s, n - 1);
    }
}

/// A text on one line is left as it is.
pub proof fn lemma_flattened_is_same(s: Seq<char>, n: int)
    requires
        0 <= n <= s.len(),
        one_line(s),
    ensures
        flattened(s, n) == s.take(n),
    decreases n,
{
    if n > 0 {
        lemma_flattened_is_same(s, n - 1);
        assert(s.take(n - 1).push(s[n - 1]) =~= s.take(n));
    } else {
        assert(s.take(n) =~= Seq::empty());
    }
}

/// The text on one line: a space stands for every run of line breaks.
pub fn flatten(s: &str) -> (line: String)
    ensures
        line@ == flattened(s@, s@.len() as int),
        one_line(line@),
{
    let chars = chars_of(s);
    let mut line = String::new();
    let mut start: usize = 0;
    let mut i: usize = 0;
    proof {
        reveal_strlit(" ");
        assert(line@ + s@.subrange(0, 0) =~= flattened(s@, 0));
    }
    while i < chars.len()
        invariant
            chars@ == s@,
            start <= i <= chars@.len(),
            line@ + s@.subrange(start as int, i as int) == flattened(s@, i as int),
            " "@ == seq![' '],
        decreases chars.len() - i,
    {
        let ghost before = line@;
        if is_line_break(chars[i]) {
            line.append(s.substring_char(start, i));
            if i == 0 || !is_line_break(chars[i - 1]) {
                line.append(" ");
                assert(line@ =~= (before + s@.subrange(start as int, i as int)).push(' '));
            }
            start = i + 1;
            assert(line@ + s@.subrange(start as int, i + 1) =~= line@);
        } else {
            assert(before + s@.subrange(start as int, i + 1) =~= (before + s@.subrange(
                start as int,
                i as int,
            )).push(s@[i as int]));
        }
        i += 1;
    }
    line.append(s.substring_char(start, chars.len()));
    proof {
        lemma_flattened(s@, s@.len() as int);
    }
    line
}

} // verus!
