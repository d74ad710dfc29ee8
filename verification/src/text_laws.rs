//! What holds of numbers, paths, lists and lines as they are told.

use crate::path;
use crate::path::SegmentView;
use crate::scalar;
use crate::scalar_laws;
use crate::source_text;
use crate::text;
use vstd::prelude::*;

verus! {

proof fn lemma_digits_value_prefix(s: Seq<char>, t: Seq<char>, n: int)
    requires
        0 <= n <= s.len(),
        n <= t.len(),
        forall|i: int| 0 <= i < n ==> s[i] == t[i],
    ensures
        scalar::digits_value(s, 0, n, 10) == scalar::digits_value(t, 0, n, 10),
    decreases n,
{
    if n > 0 {
        lemma_digits_value_prefix(s, t, n - 1);
    }
}

proof fn lemma_decimal_value(n: nat)
    ensures
        text::decimal(n).len() > 0,
        scalar_laws::all_digits(text::decimal(n)),
        scalar::digits_value(text::decimal(n), 0, text::decimal(n).len() as int, 10) == Some(
            n as int,
        ),
        text::decimal(n)[0] == '0' ==> n == 0 && text::decimal(n).len() == 1,
    decreases n,
{
    let s = text::decimal(n);
    if n >= 10 {
        let high = text::decimal(n / 10);
        lemma_decimal_value(n / 10);
        assert(s == high.push(text::digit_char(n % 10)));
        lemma_digits_value_prefix(s, high, high.len() as int);
        assert(s[s.len() - 1] == text::digit_char(n % 10));
        assert(s[0] == high[0]);
        assert(n == (n / 10) * 10 + n % 10);
        assert forall|i: int| 0 <= i < s.len() implies '0' <= #[trigger] s[i] && s[i] <= '9' by {
            if i < high.len() {
                assert(s[i] == high[i]);
            }
        }
    } else {
        assert(s.len() == 1);
        assert(scalar::digits_value(s, 0, 0, 10) == Some(0int));
        assert(scalar::digits_value(s, 0, 1, 10) == Some(n as int));
    }
}

/// A number is told in decimal digits that are worth it, without zeros before them.
pub proof fn law_decimal_is_worth_its_number(n: nat)
    ensures
        scalar_laws::all_digits(text::decimal(n)),
        scalar_laws::is_integer_text(text::decimal(n), n as int),
        text::decimal(n)[0] == '0' ==> n == 0 && text::decimal(n).len() == 1,
{
    let s = text::decimal(n);
    lemma_decimal_value(n);
    scalar_laws::lemma_number_spelled(s, 0, 10, n as int);
}

/// Different numbers are told differently.
pub proof fn law_decimal_tells_numbers_apart(a: nat, b: nat)
    ensures
        text::decimal(a) == text::decimal(b) ==> a == b,
{
    lemma_decimal_value(a);
    lemma_decimal_value(b);
}

/// Whether a step has something to tell.
pub open spec fn tells_something(segment: SegmentView) -> bool {
    segment matches SegmentView::Key(key) ==> key.len() > 0
}

/// A path of one step is the key, or the index in brackets. The path to the root tells nothing.
pub proof fn law_path_of_one_step(key: Seq<char>, index: nat)
    ensures
        path::path_text(Seq::empty()).len() == 0,
        path::path_text(seq![SegmentView::Key(key)]) == key,
        path::path_text(seq![SegmentView::Index(index)]) == seq!['['] + text::decimal(index) + seq![
            ']',
        ],
{
    reveal_strlit("[");
    reveal_strlit("]");
    let none = Seq::<SegmentView>::empty();
    assert(seq![SegmentView::Key(key)].drop_last() =~= none);
    assert(seq![SegmentView::Index(index)].drop_last() =~= none);
    assert("["@ =~= seq!['[']);
    assert("]"@ =~= seq![']']);
    reveal_with_fuel(path::path_text, 2);
    assert(path::path_text(none) =~= Seq::empty());
    assert(Seq::<char>::empty() + "["@ + text::decimal(index) + "]"@ =~= seq!['['] + text::decimal(
        index,
    ) + seq![']']);
}

/// A step behind a path is told behind it: a key with a dot before it, unless nothing was told so
/// far, and an index in brackets.
pub proof fn law_path_of_one_more_step(path: Seq<SegmentView>, key: Seq<char>, index: nat)
    ensures
        path::path_text(path.push(SegmentView::Index(index))) == path::path_text(path) + seq!['[']
            + text::decimal(index) + seq![']'],
        path::path_text(path).len() == 0 ==> path::path_text(path.push(SegmentView::Key(key)))
            == key,
        path::path_text(path).len() > 0 ==> path::path_text(path.push(SegmentView::Key(key)))
            == path::path_text(path) + seq!['.'] + key,
{
    reveal_strlit(".");
    reveal_strlit("[");
    reveal_strlit("]");
    assert("."@ =~= seq!['.']);
    assert("["@ =~= seq!['[']);
    assert("]"@ =~= seq![']']);
    assert(path.push(SegmentView::Key(key)).drop_last() =~= path);
    assert(path.push(SegmentView::Index(index)).drop_last() =~= path);
    assert(path::path_text(path.push(SegmentView::Key(key))) =~= if path::path_text(path).len()
        == 0 {
        key
    } else {
        path::path_text(path) + seq!['.'] + key
    });
}

/// One path goes on where another ends: with a dot before a key, and without one before an
/// index or at the root.
pub proof fn law_paths_go_on(a: Seq<SegmentView>, b: Seq<SegmentView>)
    requires
        b.len() > 0,
        tells_something(b[0]),
    ensures
        path::path_text(b).len() > 0,
        path::path_text(a + b) == if b[0] is Key && path::path_text(a).len() > 0 {
            path::path_text(a) + seq!['.'] + path::path_text(b)
        } else {
            path::path_text(a) + path::path_text(b)
        },
    decreases b.len(),
{
    reveal_strlit(".");
    reveal_strlit("[");
    reveal_strlit("]");
    assert("."@ =~= seq!['.']);
    let whole = a + b;
    let front = b.drop_last();
    assert(whole.drop_last() =~= a + front);
    assert(whole.last() == b.last());
    if front.len() == 0 {
        assert(front =~= Seq::empty());
        assert(a + front =~= a);
        assert(path::path_text(front) =~= Seq::empty());
        if let SegmentView::Index(index) = b[0] {
            assert(path::path_text(whole) =~= path::path_text(a) + path::path_text(b));
        } else if path::path_text(a).len() == 0 {
            assert(path::path_text(whole) =~= path::path_text(a) + path::path_text(b));
        }
    } else {
        assert(front[0] == b[0]);
        law_paths_go_on(a, front);
        let gap = if b[0] is Key && path::path_text(a).len() > 0 {
            seq!['.']
        } else {
            Seq::empty()
        };
        assert(path::path_text(a + front) =~= path::path_text(a) + gap + path::path_text(front));
        assert(path::path_text(whole) =~= path::path_text(a) + gap + path::path_text(b));
        assert(path::path_text(a) + Seq::<char>::empty() =~= path::path_text(a));
    }
}

/// Texts are joined with the separator between them and nowhere else.
pub proof fn law_joined_texts(
    a: Seq<Seq<char>>,
    b: Seq<Seq<char>>,
    separator: Seq<char>,
    part: Seq<char>,
)
    ensures
        path::joined(Seq::empty(), separator).len() == 0,
        path::joined(seq![part], separator) == part,
        a.len() > 0 && b.len() > 0 ==> path::joined(a + b, separator) == path::joined(a, separator)
            + separator + path::joined(b, separator),
    decreases b.len(),
{
    if a.len() > 0 && b.len() > 0 {
        let front = b.drop_last();
        assert((a + b).drop_last() =~= a + front);
        assert((a + b).last() == b.last());
        if front.len() == 0 {
            assert(a + front =~= a);
            assert(path::joined(b, separator) == b[0]);
        } else {
            law_joined_texts(a, front, separator, part);
            assert(path::joined(a + b, separator) =~= path::joined(a, separator) + separator
                + path::joined(b, separator));
        }
    }
}

proof fn lemma_flattened_prefix(s: Seq<char>, t: Seq<char>, n: int)
    requires
        0 <= n <= s.len(),
        n <= t.len(),
        forall|i: int| 0 <= i < n ==> s[i] == t[i],
    ensures
        text::flattened(s, n) == text::flattened(t, n),
    decreases n,
{
    if n > 0 {
        lemma_flattened_prefix(s, t, n - 1);
    }
}

proof fn lemma_flattened_run(s: Seq<char>, a: int, j: int)
    requires
        0 <= a,
        0 < j,
        a + j <= s.len(),
        a > 0 ==> !text::line_break(s[a - 1]),
        forall|i: int| a <= i < a + j ==> text::line_break(#[trigger] s[i]),
    ensures
        text::flattened(s, a + j) == text::flattened(s, a).push(' '),
    decreases j,
{
    assert(text::line_break(s[a + j - 1]));
    if j > 1 {
        assert(text::line_break(s[a + j - 2]));
        lemma_flattened_run(s, a, j - 1);
    }
}

proof fn lemma_flattened_rest(s: Seq<char>, from: int, b: Seq<char>, j: int)
    requires
        0 < from,
        from + b.len() == s.len(),
        0 <= j <= b.len(),
        b.len() > 0 ==> !text::line_break(b[0]),
        forall|i: int| 0 <= i < b.len() ==> s[from + i] == #[trigger] b[i],
    ensures
        text::flattened(s, from + j) == text::flattened(s, from) + text::flattened(b, j),
    decreases j,
{
    if j == 0 {
        assert(text::flattened(b, 0) =~= Seq::empty());
        assert(text::flattened(s, from) + Seq::<char>::empty() =~= text::flattened(s, from));
    } else {
        lemma_flattened_rest(s, from, b, j - 1);
        assert(s[from + (j - 1)] == b[j - 1]);
        if j > 1 {
            assert(s[from + (j - 2)] == b[j - 2]);
        }
        assert(text::flattened(s, from + j) =~= text::flattened(s, from) + text::flattened(b, j));
    }
}

/// A text on one line is left as it is, and a run of line breaks gives one space.
pub proof fn law_flattened_text(a: Seq<char>, breaks: Seq<char>, b: Seq<char>)
    requires
        breaks.len() > 0,
        forall|i: int| 0 <= i < breaks.len() ==> text::line_break(#[trigger] breaks[i]),
        a.len() > 0 ==> !text::line_break(a.last()),
        b.len() > 0 ==> !text::line_break(b[0]),
    ensures
        ({
            let s = a + breaks + b;
            text::flattened(s, s.len() as int) == text::flattened(a, a.len() as int) + seq![' ']
                + text::flattened(b, b.len() as int)
        }),
        text::one_line(a) ==> text::flattened(a, a.len() as int) == a,
{
    let s = a + breaks + b;
    let n = a.len() as int;
    let m = n + breaks.len();
    assert forall|i: int| n <= i < m implies text::line_break(#[trigger] s[i]) by {
        assert(s[i] == breaks[i - n]);
    }
    lemma_flattened_prefix(s, a, n);
    lemma_flattened_run(s, n, breaks.len() as int);
    lemma_flattened_rest(s, m, b, b.len() as int);
    assert(text::flattened(s, s.len() as int) =~= text::flattened(a, n) + seq![' ']
        + text::flattened(b, b.len() as int));
    if text::one_line(a) {
        text::lemma_flattened_is_same(a, n);
        assert(a.take(n) =~= a);
    }
}

/// The column is the distance from the start of the row, and the row is one more than the row
/// before it. The first row is row zero.
pub proof fn law_row_and_column(s: Seq<char>, p: int, i: int)
    requires
        0 <= p <= i <= s.len(),
        p == 0 || s[p - 1] == '\n',
        forall|k: int| p <= k < i ==> #[trigger] s[k] != '\n',
    ensures
        source_text::column_at(s, i) == i - p,
        source_text::row_at(s, i) == source_text::row_at(s, p),
        source_text::row_at(s, p) == if p == 0 {
            0
        } else {
            source_text::row_at(s, p - 1) + 1
        },
    decreases i - p,
{
    if p < i {
        law_row_and_column(s, p, i - 1);
    }
}

} // verus!
