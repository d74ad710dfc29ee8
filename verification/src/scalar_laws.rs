//! What holds of the value of every scalar, stated over the characters of its text.

use crate::event::{ScalarStyle, TagView};
use crate::scalar;
use crate::yaml::YamlView;
use vstd::arithmetic::power::*;
use vstd::prelude::*;

verus! {

/// The capital of a letter `a` to `z`. Other characters are their own.
pub open spec fn capital(c: char) -> char {
    if 'a' <= c && c <= 'z' {
        (c as u32 - 32) as char
    } else {
        c
    }
}

/// Whether `s` spells `word` in one of the ways that the core schema knows: in small letters,
/// in capitals, or with a capital first.
pub open spec fn is_cased(s: Seq<char>, word: Seq<char>) -> bool {
    &&& s.len() == word.len()
    &&& {
        ||| forall|i: int| 0 <= i < s.len() ==> #[trigger] s[i] == word[i]
        ||| forall|i: int| 0 <= i < s.len() ==> #[trigger] s[i] == capital(word[i])
        ||| forall|i: int|
            0 <= i < s.len() ==> #[trigger] s[i] == if i == 0 {
                capital(word[i])
            } else {
                word[i]
            }
    }
}

proof fn lemma_no_number(s: Seq<char>)
    requires
        s.len() > 0,
        !('0' <= s[0] && s[0] <= '9'),
        s[0] != '+' && s[0] != '-' && s[0] != '.',
    ensures
        scalar::integer_value(s) is None,
        !scalar::is_float(s),
{
    lemma_digits_need_digits(s, 0, s.len() as int, 10, 0);
    lemma_no_infinity(s);
}

proof fn lemma_no_infinity(s: Seq<char>)
    requires
        s.len() > 0 ==> s[0] != '+' && s[0] != '-' && s[0] != '.',
    ensures
        !scalar::is_infinity(s),
        !scalar::is_nan(s),
{
    reveal_strlit(".inf");
    reveal_strlit(".Inf");
    reveal_strlit(".INF");
    reveal_strlit("+.inf");
    reveal_strlit("+.Inf");
    reveal_strlit("+.INF");
    reveal_strlit("-.inf");
    reveal_strlit("-.Inf");
    reveal_strlit("-.INF");
    reveal_strlit(".nan");
    reveal_strlit(".NaN");
    reveal_strlit(".NAN");
}

proof fn lemma_digits_need_digits(s: Seq<char>, from: int, n: int, radix: int, i: int)
    requires
        0 <= i < n,
        scalar::digit_value(s[from + i], radix) is None,
    ensures
        scalar::digits_value(s, from, n, radix) is None,
    decreases n,
{
    if i < n - 1 {
        lemma_digits_need_digits(s, from, n - 1, radix, i);
    }
}

proof fn lemma_truth_words(s: Seq<char>)
    ensures
        scalar::truth_value(s) == Some(true) <==> is_cased(s, "true"@),
        scalar::truth_value(s) == Some(false) <==> is_cased(s, "false"@),
{
    reveal_strlit("true");
    reveal_strlit("True");
    reveal_strlit("TRUE");
    reveal_strlit("false");
    reveal_strlit("False");
    reveal_strlit("FALSE");
    assert(s.len() == 4 && is_cased(s, "true"@) ==> (s =~= "true"@ || s =~= "True"@ || s
        =~= "TRUE"@));
    assert(s.len() == 5 && is_cased(s, "false"@) ==> (s =~= "false"@ || s =~= "False"@ || s
        =~= "FALSE"@));
}

proof fn lemma_null_words(s: Seq<char>)
    ensures
        scalar::is_null_text(s) <==> s.len() == 0 || s == seq!['~'] || is_cased(s, "null"@),
{
    reveal_strlit("null");
    reveal_strlit("Null");
    reveal_strlit("NULL");
    reveal_strlit("~");
    reveal_strlit("");
    assert(s.len() == 4 && is_cased(s, "null"@) ==> (s =~= "null"@ || s =~= "Null"@ || s
        =~= "NULL"@));
    assert(s.len() == 0 ==> s =~= ""@);
    assert("~"@ =~= seq!['~']);
}

proof fn lemma_words_are_no_numbers(s: Seq<char>)
    requires
        s.len() == 0 || s == seq!['~'] || is_cased(s, "null"@) || is_cased(s, "true"@) || is_cased(
            s,
            "false"@,
        ),
    ensures
        scalar::integer_value(s) is None,
        !scalar::is_float(s),
{
    reveal_strlit("null");
    reveal_strlit("true");
    reveal_strlit("false");
    if s.len() > 0 {
        assert(s[0] == '~' || s[0] == 'n' || s[0] == 'N' || s[0] == 't' || s[0] == 'T' || s[0]
            == 'f' || s[0] == 'F');
        lemma_no_number(s);
    } else {
        lemma_no_infinity(s);
    }
}

/// A plain scalar without a tag is null just where its text is empty, is `~`, or spells `null`
/// in small letters, in capitals or with a capital first. It is true or false just where it
/// spells `true` or `false` in one of these ways.
pub proof fn law_plain_words(s: Seq<char>)
    ensures
        scalar::plain_value(s) is Null <==> s.len() == 0 || s == seq!['~'] || is_cased(
            s,
            "null"@,
        ),
        scalar::plain_value(s) == YamlView::Boolean(true) <==> is_cased(s, "true"@),
        scalar::plain_value(s) == YamlView::Boolean(false) <==> is_cased(s, "false"@),
{
    lemma_truth_words(s);
    lemma_null_words(s);
    reveal_strlit("null");
    reveal_strlit("true");
    reveal_strlit("false");
    if s.len() == 0 || s == seq!['~'] || is_cased(s, "null"@) || is_cased(s, "true"@) || is_cased(
        s,
        "false"@,
    ) {
        lemma_words_are_no_numbers(s);
    }
}

/// A plain scalar without a tag that starts like no number and spells none of the words of the
/// core schema is its own text.
pub proof fn law_plain_text_is_itself(s: Seq<char>)
    requires
        s.len() > 0,
        !('0' <= s[0] && s[0] <= '9'),
        s[0] != '+' && s[0] != '-' && s[0] != '.',
        s != seq!['~'],
        !is_cased(s, "null"@),
        !is_cased(s, "true"@),
        !is_cased(s, "false"@),
    ensures
        scalar::plain_value(s) == YamlView::String(s),
{
    lemma_no_number(s);
    lemma_truth_words(s);
    lemma_null_words(s);
}

/// The value of a plain scalar is a number, a truth value, null or its text. A text or a float
/// is as it is spelled.
pub proof fn law_plain_value_keeps_the_text(s: Seq<char>)
    ensures
        match scalar::plain_value(s) {
            YamlView::String(t) => t == s,
            YamlView::Real(t) => t == s,
            YamlView::Integer(_) => true,
            YamlView::Boolean(_) => true,
            YamlView::Null => true,
            _ => false,
        },
{
}

/// Whether `c` is the digit for `v`, in small letters or in capitals.
pub open spec fn is_digit(c: char, v: int) -> bool {
    0 <= v < 16 && (c == "0123456789abcdef"@[v] || c == "0123456789ABCDEF"@[v])
}

/// A digit is worth its place among the digits, and no other character is worth anything.
pub proof fn law_digits(c: char, v: int, radix: int)
    requires
        radix == 8 || radix == 10 || radix == 16,
    ensures
        scalar::digit_value(c, radix) == Some(v) <==> v < radix && is_digit(c, v),
{
    reveal_strlit("0123456789abcdef");
    reveal_strlit("0123456789ABCDEF");
    assert("0123456789abcdef"@[0] == '0' && "0123456789ABCDEF"@[0] == '0');
    assert("0123456789abcdef"@[1] == '1' && "0123456789ABCDEF"@[1] == '1');
    assert("0123456789abcdef"@[2] == '2' && "0123456789ABCDEF"@[2] == '2');
    assert("0123456789abcdef"@[3] == '3' && "0123456789ABCDEF"@[3] == '3');
    assert("0123456789abcdef"@[4] == '4' && "0123456789ABCDEF"@[4] == '4');
    assert("0123456789abcdef"@[5] == '5' && "0123456789ABCDEF"@[5] == '5');
    assert("0123456789abcdef"@[6] == '6' && "0123456789ABCDEF"@[6] == '6');
    assert("0123456789abcdef"@[7] == '7' && "0123456789ABCDEF"@[7] == '7');
    assert("0123456789abcdef"@[8] == '8' && "0123456789ABCDEF"@[8] == '8');
    assert("0123456789abcdef"@[9] == '9' && "0123456789ABCDEF"@[9] == '9');
    assert("0123456789abcdef"@[10] == 'a' && "0123456789ABCDEF"@[10] == 'A');
    assert("0123456789abcdef"@[11] == 'b' && "0123456789ABCDEF"@[11] == 'B');
    assert("0123456789abcdef"@[12] == 'c' && "0123456789ABCDEF"@[12] == 'C');
    assert("0123456789abcdef"@[13] == 'd' && "0123456789ABCDEF"@[13] == 'D');
    assert("0123456789abcdef"@[14] == 'e' && "0123456789ABCDEF"@[14] == 'E');
    assert("0123456789abcdef"@[15] == 'f' && "0123456789ABCDEF"@[15] == 'F');
    if v < 0 || v >= 16 {
    } else if v < 8 {
        assert(v == 0 || v == 1 || v == 2 || v == 3 || v == 4 || v == 5 || v == 6 || v == 7);
    } else {
        assert(v == 8 || v == 9 || v == 10 || v == 11 || v == 12 || v == 13 || v == 14 || v == 15);
    }
}

/// The digit for `v` at a place, weighted by the power of the radix for that place, and so on
/// for the digits behind it.
pub open spec fn weighted(s: Seq<char>, from: int, n: int, radix: int) -> int
    decreases n,
{
    if n <= 0 {
        0
    } else {
        digit_at(s, from) * pow(radix, (n - 1) as nat) + weighted(s, from + 1, n - 1, radix)
    }
}

/// What the digit at `i` is worth.
pub open spec fn digit_at(s: Seq<char>, i: int) -> int {
    choose|v: int| is_digit(s[i], v)
}

/// Whether `c` is a digit of the radix.
pub open spec fn is_digit_of(c: char, radix: int) -> bool {
    exists|v: int| v < radix && #[trigger] is_digit(c, v)
}

/// Whether `s` spells `v` from `from` on in digits of the radix, the first of which weighs
/// most.
pub open spec fn spells(s: Seq<char>, from: int, radix: int, v: int) -> bool {
    &&& from < s.len()
    &&& forall|i: int| from <= i < s.len() ==> is_digit_of(#[trigger] s[i], radix)
    &&& v == weighted(s, from, s.len() - from, radix)
}

proof fn lemma_digit_at(s: Seq<char>, i: int, radix: int)
    requires
        radix == 8 || radix == 10 || radix == 16,
    ensures
        scalar::digit_value(s[i], radix) is Some <==> is_digit_of(s[i], radix),
        scalar::digit_value(s[i], radix) matches Some(d) ==> d == digit_at(s, i),
{
    let c = s[i];
    if let Some(d) = scalar::digit_value(c, radix) {
        law_digits(c, d, radix);
        let other = digit_at(s, i);
        assert(is_digit(c, other));
        law_digits(c, other, 16);
        law_digits(c, d, 16);
    }
    if is_digit_of(c, radix) {
        let d = choose|d: int| d < radix && #[trigger] is_digit(c, d);
        law_digits(c, d, radix);
    }
}

proof fn lemma_weighted_last(s: Seq<char>, from: int, n: int, radix: int)
    requires
        n > 0,
        radix > 0,
    ensures
        weighted(s, from, n, radix) == weighted(s, from, n - 1, radix) * radix + digit_at(
            s,
            from + n - 1,
        ),
    decreases n,
{
    reveal(pow);
    if n > 1 {
        lemma_weighted_last(s, from + 1, n - 1, radix);
        let d = digit_at(s, from);
        let p = pow(radix, (n - 2) as nat);
        let rest = weighted(s, from + 1, n - 2, radix);
        assert(pow(radix, (n - 1) as nat) == radix * p);
        assert(d * (radix * p) + rest * radix == (d * p + rest) * radix) by (nonlinear_arith);
    } else {
        assert(weighted(s, from + 1, 0, radix) == 0);
        assert(weighted(s, from, 0, radix) == 0);
        assert(pow(radix, 0) == 1);
        assert(digit_at(s, from) * 1 == digit_at(s, from)) by (nonlinear_arith);
        assert(0 * radix == 0) by (nonlinear_arith);
    }
}

proof fn lemma_digits_are_weighted(s: Seq<char>, from: int, n: int, radix: int)
    requires
        radix == 8 || radix == 10 || radix == 16,
        0 <= n,
    ensures
        scalar::digits_value(s, from, n, radix) is Some <==> forall|i: int|
            from <= i < from + n ==> scalar::digit_value(#[trigger] s[i], radix) is Some,
        scalar::digits_value(s, from, n, radix) matches Some(v) ==> v == weighted(
            s,
            from,
            n,
            radix,
        ),
    decreases n,
{
    if n > 0 {
        lemma_digits_are_weighted(s, from, n - 1, radix);
        lemma_weighted_last(s, from, n, radix);
        lemma_digit_at(s, from + n - 1, radix);
    }
}

/// A number is read from a text just where the text spells it.
pub proof fn lemma_number_spelled(s: Seq<char>, from: int, radix: int, v: int)
    requires
        radix == 8 || radix == 10 || radix == 16,
        0 <= from,
    ensures
        scalar::number_from(s, from, radix) == Some(v) <==> spells(s, from, radix, v),
{
    if from < s.len() {
        lemma_digits_are_weighted(s, from, s.len() - from, radix);
        assert forall|i: int| from <= i < s.len() implies (scalar::digit_value(#[trigger] s[i], radix)
            is Some <==> is_digit_of(s[i], radix)) by {
            lemma_digit_at(s, i, radix);
        }
        assert((forall|i: int|
            from <= i < from + (s.len() - from) ==> scalar::digit_value(#[trigger] s[i], radix)
                is Some) <==> forall|i: int|
            from <= i < s.len() ==> is_digit_of(#[trigger] s[i], radix));
    }
}

/// Whether `s` is an integer of the core schema that is worth `v`: decimal digits with or
/// without a sign, octal digits behind `0o`, or hexadecimal digits behind `0x`.
pub open spec fn is_integer_text(s: Seq<char>, v: int) -> bool {
    ||| spells(s, 0, 10, v)
    ||| s.len() > 0 && s[0] == '+' && spells(s, 1, 10, v)
    ||| s.len() > 0 && s[0] == '-' && spells(s, 1, 10, -v)
    ||| s.len() > 1 && s[0] == '0' && s[1] == 'o' && spells(s, 2, 8, v)
    ||| s.len() > 1 && s[0] == '0' && s[1] == 'x' && spells(s, 2, 16, v)
}

proof fn lemma_core_integer(s: Seq<char>, v: int)
    ensures
        scalar::core_integer(s) == Some(v) <==> is_integer_text(s, v),
{
    lemma_number_spelled(s, 0, 10, v);
    lemma_number_spelled(s, 1, 10, v);
    lemma_number_spelled(s, 1, 10, -v);
    lemma_number_spelled(s, 2, 8, v);
    lemma_number_spelled(s, 2, 16, v);
    if s.len() > 1 && (s[1] == 'o' || s[1] == 'x') {
        lemma_digits_need_digits(s, 0, s.len() as int, 10, 1);
    }
    if s.len() > 0 && (s[0] == '+' || s[0] == '-') {
        lemma_digits_need_digits(s, 0, s.len() as int, 10, 0);
    }
}

/// A plain scalar without a tag is an integer just where its text is one of the core schema's
/// that 64 bits can hold, and is worth what the digits are worth. So is a scalar with the tag
/// for integers, and any other text contradicts that tag.
pub proof fn law_integers(s: Seq<char>, v: int)
    ensures
        scalar::plain_value(s) == YamlView::Integer(v) <==> is_integer_text(s, v)
            && -0x8000_0000_0000_0000 <= v <= 0x7fff_ffff_ffff_ffff,
        scalar::tagged_value(s, "int"@) == YamlView::Integer(v) <==> scalar::plain_value(s)
            == YamlView::Integer(v),
        scalar::plain_value(s) is Integer || scalar::tagged_value(s, "int"@) is BadValue,
{
    reveal_strlit("int");
    reveal_strlit("bool");
    assert("int"@.len() == 3 && "bool"@.len() == 4);
    lemma_core_integer(s, v);
}

/// A text of digits alone.
pub open spec fn all_digits(s: Seq<char>) -> bool {
    forall|i: int| 0 <= i < s.len() ==> '0' <= #[trigger] s[i] && s[i] <= '9'
}

/// Whether `s` is a sign or nothing.
pub open spec fn is_sign(s: Seq<char>) -> bool {
    s.len() == 0 || s == seq!['+'] || s == seq!['-']
}

/// The parts of a float: a sign, digits, a point with digits behind it, and an exponent.
pub struct FloatParts {
    pub sign: Seq<char>,
    pub whole: Seq<char>,
    pub fraction: Option<Seq<char>>,
    pub exponent: Option<(char, Seq<char>, Seq<char>)>,
}

impl FloatParts {
    /// The point and the digits behind it.
    pub open spec fn fraction_text(self) -> Seq<char> {
        match self.fraction {
            Some(digits) => seq!['.'] + digits,
            None => Seq::empty(),
        }
    }

    /// The exponent.
    pub open spec fn exponent_text(self) -> Seq<char> {
        match self.exponent {
            Some((e, sign, digits)) => seq![e] + sign + digits,
            None => Seq::empty(),
        }
    }

    /// The parts, one after the other.
    pub open spec fn text(self) -> Seq<char> {
        self.sign + self.whole + self.fraction_text() + self.exponent_text()
    }

    /// Whether the parts are those of a float: there is a digit before or behind the point,
    /// and the exponent has one too.
    pub open spec fn is_float(self) -> bool {
        &&& is_sign(self.sign)
        &&& all_digits(self.whole)
        &&& match self.fraction {
            Some(digits) => all_digits(digits) && self.whole.len() + digits.len() > 0,
            None => self.whole.len() > 0,
        }
        &&& self.exponent matches Some((e, sign, digits)) ==> (e == 'e' || e == 'E') && is_sign(sign)
            && all_digits(digits) && digits.len() > 0
    }
}

proof fn lemma_digits_end(s: Seq<char>, i: int)
    requires
        0 <= i <= s.len(),
    ensures
        i <= scalar::digits_end(s, i) <= s.len(),
        forall|k: int|
            i <= k < scalar::digits_end(s, i) ==> '0' <= #[trigger] s[k] && s[k] <= '9',
        scalar::digits_end(s, i) < s.len() ==> !('0' <= s[scalar::digits_end(s, i)]
            && s[scalar::digits_end(s, i)] <= '9'),
    decreases s.len() - i,
{
    if i < s.len() && '0' <= s[i] && s[i] <= '9' {
        lemma_digits_end(s, i + 1);
    }
}

proof fn lemma_digits_end_at(s: Seq<char>, i: int, end: int)
    requires
        0 <= i <= end <= s.len(),
        forall|k: int| i <= k < end ==> '0' <= #[trigger] s[k] && s[k] <= '9',
        end < s.len() ==> !('0' <= s[end] && s[end] <= '9'),
    ensures
        scalar::digits_end(s, i) == end,
    decreases end - i,
{
    if i < end {
        lemma_digits_end_at(s, i + 1, end);
    }
}

proof fn lemma_parts_are_float(parts: FloatParts)
    requires
        parts.is_float(),
    ensures
        scalar::is_decimal_float(parts.text()),
{
    let s = parts.text();
    let a = parts.sign.len() as int;
    let b = a + parts.whole.len();
    let f = parts.fraction_text();
    let x = parts.exponent_text();
    let c = b + f.len();
    assert(s.len() == c + x.len());
    assert(forall|k: int| 0 <= k < a ==> s[k] == parts.sign[k]);
    assert forall|k: int| a <= k < b implies s[k] == parts.whole[k - a] by {}
    assert forall|k: int| b <= k < c implies s[k] == f[k - b] by {}
    assert forall|k: int| c <= k < s.len() implies s[k] == x[k - c] by {}
    if a == 0 {
        if b > 0 {
            assert(s[0] == parts.whole[0]);
        } else {
            assert(s[0] == f[0]);
        }
    } else {
        assert(s[0] == parts.sign[0]);
    }
    assert(scalar::after_sign(s, 0) == a);
    assert forall|k: int| a <= k < b implies '0' <= #[trigger] s[k] && s[k] <= '9' by {
        assert(s[k] == parts.whole[k - a]);
    }
    if parts.fraction is None && parts.exponent is Some {
        assert(s[b] == x[0]);
    }
    if parts.fraction is Some {
        assert(s[b] == f[0]);
    }
    lemma_digits_end_at(s, a, b);
    if let Some(digits) = parts.fraction {
        assert forall|k: int| b + 1 <= k < c implies '0' <= #[trigger] s[k] && s[k] <= '9' by {
            assert(s[k] == f[k - b]);
            assert(f[k - b] == digits[k - b - 1]);
        }
        if parts.exponent is Some {
            assert(s[c] == x[0]);
        }
        lemma_digits_end_at(s, b + 1, c);
    }
    if let Some((e, sign, digits)) = parts.exponent {
        let d = c + 1 + sign.len();
        assert(s[c] == x[0] && x[0] == e);
        assert forall|k: int| d <= k < s.len() implies '0' <= #[trigger] s[k] && s[k] <= '9' by {
            assert(s[k] == x[k - c]);
            assert(x[k - c] == digits[k - d]);
        }
        assert(s[c + 1] == x[1]);
        if sign.len() == 0 {
            assert(x[1] == digits[0]);
        } else {
            assert(x[1] == sign[0]);
        }
        assert(scalar::after_sign(s, c + 1) == d);
        lemma_digits_end_at(s, d, s.len() as int);
    }
}

#[verifier::spinoff_prover]
#[verifier::rlimit(80)]
proof fn lemma_float_has_parts(s: Seq<char>) -> (parts: FloatParts)
    requires
        scalar::is_decimal_float(s),
    ensures
        parts.is_float(),
        parts.text() == s,
{
    let len = s.len() as int;
    let a = scalar::after_sign(s, 0);
    let b = scalar::digits_end(s, a);
    lemma_digits_end(s, a);
    let point = b < len && s[b] == '.';
    let c = if point {
        scalar::digits_end(s, b + 1)
    } else {
        b
    };
    if point {
        lemma_digits_end(s, b + 1);
    }
    let fraction = if point {
        Some(s.subrange(b + 1, c))
    } else {
        None
    };
    let exponent = if c < len {
        let d = scalar::after_sign(s, c + 1);
        lemma_digits_end(s, d);
        Some((s[c], s.subrange(c + 1, d), s.subrange(d, len)))
    } else {
        None
    };
    let parts = FloatParts {
        sign: s.subrange(0, a),
        whole: s.subrange(a, b),
        fraction,
        exponent,
    };
    assert(parts.sign =~= Seq::empty() || parts.sign =~= seq!['+'] || parts.sign =~= seq!['-']);
    if let Some((e, sign, digits)) = exponent {
        assert(sign =~= Seq::empty() || sign =~= seq!['+'] || sign =~= seq!['-']);
    }
    assert(parts.fraction_text() =~= s.subrange(b, c));
    assert(parts.exponent_text() =~= s.subrange(c, len));
    assert(s.subrange(0, a) + s.subrange(a, b) =~= s.subrange(0, b));
    assert(s.subrange(0, b) + s.subrange(b, c) =~= s.subrange(0, c));
    assert(s.subrange(0, c) + s.subrange(c, len) =~= s);
    parts
}

/// Whether `s` is infinity with or without a sign, or not a number, as the core schema spells
/// them.
pub open spec fn is_special_float(s: Seq<char>) -> bool {
    ||| exists|sign: Seq<char>, word: Seq<char>|
        is_sign(sign) && #[trigger] is_cased(word, "inf"@) && s == #[trigger] (sign + seq!['.']) + word
    ||| s == seq!['.', 'n', 'a', 'n']
    ||| s == seq!['.', 'N', 'a', 'N']
    ||| s == seq!['.', 'N', 'A', 'N']
}

proof fn lemma_special_floats(s: Seq<char>)
    ensures
        scalar::is_infinity(s) || scalar::is_nan(s) <==> is_special_float(s),
{
    reveal_strlit(".inf");
    reveal_strlit(".Inf");
    reveal_strlit(".INF");
    reveal_strlit("+.inf");
    reveal_strlit("+.Inf");
    reveal_strlit("+.INF");
    reveal_strlit("-.inf");
    reveal_strlit("-.Inf");
    reveal_strlit("-.INF");
    reveal_strlit(".nan");
    reveal_strlit(".NaN");
    reveal_strlit(".NAN");
    reveal_strlit("inf");
    assert(".nan"@ =~= seq!['.', 'n', 'a', 'n']);
    assert(".NaN"@ =~= seq!['.', 'N', 'a', 'N']);
    assert(".NAN"@ =~= seq!['.', 'N', 'A', 'N']);
    let small = seq!['i', 'n', 'f'];
    let first = seq!['I', 'n', 'f'];
    let large = seq!['I', 'N', 'F'];
    assert(is_cased(small, "inf"@) && is_cased(first, "inf"@) && is_cased(large, "inf"@));
    let none = Seq::<char>::empty();
    assert(".inf"@ =~= (none + seq!['.']) + small);
    assert(".Inf"@ =~= (none + seq!['.']) + first);
    assert(".INF"@ =~= (none + seq!['.']) + large);
    assert("+.inf"@ =~= (seq!['+'] + seq!['.']) + small);
    assert("+.Inf"@ =~= (seq!['+'] + seq!['.']) + first);
    assert("+.INF"@ =~= (seq!['+'] + seq!['.']) + large);
    assert("-.inf"@ =~= (seq!['-'] + seq!['.']) + small);
    assert("-.Inf"@ =~= (seq!['-'] + seq!['.']) + first);
    assert("-.INF"@ =~= (seq!['-'] + seq!['.']) + large);
    if exists|sign: Seq<char>, word: Seq<char>|
        is_sign(sign) && #[trigger] is_cased(word, "inf"@) && s == #[trigger] (sign + seq!['.'])
            + word {
        let (sign, word) = choose|sign: Seq<char>, word: Seq<char>|
            is_sign(sign) && #[trigger] is_cased(word, "inf"@) && s == #[trigger] (sign + seq!['.'])
                + word;
        assert(word =~= small || word =~= first || word =~= large);
        assert(sign =~= none || sign == seq!['+'] || sign == seq!['-']);
    }
}

/// Whether `s` is a float of the core schema.
pub open spec fn is_float_text(s: Seq<char>) -> bool {
    is_special_float(s) || exists|parts: FloatParts| parts.is_float() && #[trigger] parts.text() == s
}

proof fn lemma_float_text(s: Seq<char>)
    ensures
        scalar::is_float(s) <==> is_float_text(s),
{
    lemma_special_floats(s);
    if scalar::is_decimal_float(s) {
        let parts = lemma_float_has_parts(s);
        assert(parts.text() == s);
    }
    if exists|parts: FloatParts| parts.is_float() && #[trigger] parts.text() == s {
        let parts = choose|parts: FloatParts| parts.is_float() && #[trigger] parts.text() == s;
        lemma_parts_are_float(parts);
    }
}

/// A plain scalar without a tag is a float just where its text is one of the core schema's and
/// is no integer. A scalar with the tag for floats is one just where its text is one of the
/// core schema's, and any other text contradicts that tag.
pub proof fn law_floats(s: Seq<char>)
    ensures
        scalar::plain_value(s) == YamlView::Real(s) <==> is_float_text(s) && !(scalar::plain_value(
            s,
        ) is Integer),
        scalar::tagged_value(s, "float"@) == if is_float_text(s) {
            YamlView::Real(s)
        } else {
            YamlView::BadValue
        },
{
    reveal_strlit("float");
    reveal_strlit("int");
    reveal_strlit("bool");
    assert("float"@.len() == 5 && "int"@.len() == 3 && "bool"@.len() == 4);
    lemma_float_text(s);
}

/// A scalar with the tag for truth values, or with that for null, is what a plain scalar of
/// its text is, or contradicts its tag. Any other standard tag leaves the text alone.
pub proof fn law_other_standard_tags(s: Seq<char>, suffix: Seq<char>)
    ensures
        scalar::tagged_value(s, "bool"@) == if scalar::plain_value(s) is Boolean {
            scalar::plain_value(s)
        } else {
            YamlView::BadValue
        },
        scalar::tagged_value(s, "null"@) == if scalar::plain_value(s) is Null {
            YamlView::Null
        } else {
            YamlView::BadValue
        },
        !(suffix == "bool"@ || suffix == "int"@ || suffix == "float"@ || suffix == "null"@)
            ==> scalar::tagged_value(s, suffix) == YamlView::String(s),
{
    reveal_strlit("float");
    reveal_strlit("int");
    reveal_strlit("bool");
    reveal_strlit("null");
    assert("float"@.len() == 5 && "int"@.len() == 3 && "bool"@[0] == 'b' && "null"@[0] == 'n');
    lemma_truth_words(s);
    lemma_null_words(s);
    law_plain_words(s);
}

/// A tag is a standard one just where it is written with the standard handle, or in full.
pub proof fn law_standard_tags(tag: TagView, suffix: Seq<char>)
    ensures
        scalar::standard_suffix(tag) == Some(suffix) <==> {
            ||| tag.handle == "tag:yaml.org,2002:"@ && tag.suffix == suffix
            ||| tag.handle.len() == 0 && tag.suffix == "tag:yaml.org,2002:"@ + suffix
        },
{
    reveal_strlit("tag:yaml.org,2002:");
    let standard = "tag:yaml.org,2002:"@;
    assert(scalar::STANDARD_TAG_HANDLE@ == standard);
    assert(standard.len() == 18);
    if standard.is_prefix_of(tag.suffix) {
        assert(tag.suffix =~= standard + tag.suffix.skip(18));
    }
    assert((standard + suffix).skip(18) =~= suffix);
    assert(standard.is_prefix_of(standard + suffix));
}

/// A standard tag decides the value of a scalar. Without one, a plain scalar goes by the core
/// schema, and any other is its text.
pub proof fn law_tag_then_style_then_text(
    s: Seq<char>,
    style: ScalarStyle,
    tag: Option<TagView>,
    suffix: Seq<char>,
)
    ensures
        tag matches Some(t) && (t.handle == "tag:yaml.org,2002:"@ && t.suffix == suffix)
            ==> scalar::scalar_value(s, style, tag) == scalar::tagged_value(s, suffix),
        tag matches Some(t) && (t.handle.len() == 0 && t.suffix == "tag:yaml.org,2002:"@ + suffix)
            ==> scalar::scalar_value(s, style, tag) == scalar::tagged_value(s, suffix),
        tag matches Some(t) && t.handle.len() > 0 && t.handle != "tag:yaml.org,2002:"@
            ==> scalar::scalar_value(s, style, tag) == scalar::scalar_value(s, style, None),
        scalar::scalar_value(s, style, None) == match style {
            ScalarStyle::Plain => scalar::plain_value(s),
            _ => YamlView::String(s),
        },
{
    if let Some(t) = tag {
        law_standard_tags(t, suffix);
        if t.handle.len() > 0 && t.handle != "tag:yaml.org,2002:"@ {
            if let Some(x) = scalar::standard_suffix(t) {
                law_standard_tags(t, x);
            }
        }
    }
}

} // verus!
