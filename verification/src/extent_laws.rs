//! What holds of the extent of every scalar and of every tag, stated over the characters and
//! lines of the source.

use crate::extent;
use crate::text;
use vstd::prelude::*;

verus! {

/// Whether a line of the text that starts at `start` reaches from `a` to `b`, without what
/// breaks it.
pub open spec fn is_line(s: Seq<char>, start: int, a: int, b: int) -> bool {
    &&& start <= a <= b <= s.len()
    &&& a == start || text::line_break(s[a - 1])
    &&& b == s.len() || text::line_break(s[b])
    &&& forall|i: int| a <= i < b ==> !text::line_break(#[trigger] s[i])
}

/// Whether there is nothing but white space from `a` to `b`.
pub open spec fn is_blank(s: Seq<char>, a: int, b: int) -> bool {
    forall|i: int| a <= i < b ==> text::white_space(#[trigger] s[i])
}

/// Whether the line from `a` to `b` starts with `indent` spaces.
pub open spec fn is_indented(s: Seq<char>, a: int, b: int, indent: nat) -> bool {
    a + indent <= b && forall|i: int| a <= i < a + indent ==> #[trigger] s[i] == ' '
}

/// Whether each line after `from` that starts no later than `last` is blank or indented.
pub open spec fn goes_on(s: Seq<char>, start: int, from: int, last: int, indent: nat) -> bool {
    forall|a: int, b: int|
        #[trigger] is_line(s, start, a, b) && from < a <= last ==> is_blank(s, a, b) || is_indented(
            s,
            a,
            b,
            indent,
        )
}

proof fn lemma_line_end_is_end(s: Seq<char>, start: int, a: int, b: int)
    requires
        0 <= start,
        is_line(s, start, a, b),
    ensures
        extent::line_end(s, a) == b,
{
    lemma_line_end_at(s, a, b);
}

proof fn lemma_line_end_at(s: Seq<char>, i: int, b: int)
    requires
        0 <= i <= b <= s.len(),
        b == s.len() || text::line_break(s[b]),
        forall|k: int| i <= k < b ==> !text::line_break(#[trigger] s[k]),
    ensures
        extent::line_end(s, i) == b,
    decreases b - i,
{
    if i < b {
        lemma_line_end_at(s, i + 1, b);
    }
}

proof fn lemma_line_from(s: Seq<char>, start: int, at: int)
    requires
        0 <= start <= at < s.len(),
        at == start || text::line_break(s[at - 1]),
    ensures
        is_line(s, start, at, extent::line_end(s, at)),
{
    lemma_line_end_plain(s, at);
}

proof fn lemma_line_end_plain(s: Seq<char>, i: int)
    requires
        0 <= i <= s.len(),
    ensures
        i <= extent::line_end(s, i) <= s.len(),
        extent::line_end(s, i) == s.len() || text::line_break(s[extent::line_end(s, i)]),
        forall|k: int|
            i <= k < extent::line_end(s, i) ==> !text::line_break(#[trigger] s[k]),
    decreases s.len() - i,
{
    if i < s.len() && !text::line_break(s[i]) {
        lemma_line_end_plain(s, i + 1);
    }
}

proof fn lemma_white_end_is(s: Seq<char>, i: int, hi: int)
    requires
        0 <= i <= hi <= s.len(),
    ensures
        i <= extent::white_end(s, i, hi) <= hi,
        forall|k: int|
            i <= k < extent::white_end(s, i, hi) ==> text::white_space(#[trigger] s[k]),
        extent::white_end(s, i, hi) < hi ==> !text::white_space(s[extent::white_end(s, i, hi)]),
    decreases hi - i,
{
    if i < hi && text::white_space(s[i]) {
        lemma_white_end_is(s, i + 1, hi);
    }
}

proof fn lemma_trimmed_end_is(s: Seq<char>, lo: int, hi: int)
    requires
        0 <= lo <= hi <= s.len(),
    ensures
        lo <= extent::trimmed_end(s, lo, hi) <= hi,
        forall|k: int|
            extent::trimmed_end(s, lo, hi) <= k < hi ==> text::white_space(#[trigger] s[k]),
        lo < extent::trimmed_end(s, lo, hi) ==> !text::white_space(
            s[extent::trimmed_end(s, lo, hi) - 1],
        ),
    decreases hi - lo,
{
    if lo < hi && text::white_space(s[hi - 1]) {
        lemma_trimmed_end_is(s, lo, hi - 1);
    }
}

proof fn lemma_indent_end_is(s: Seq<char>, i: int, hi: int, indent: nat)
    requires
        0 <= i <= hi <= s.len(),
    ensures
        i <= extent::indent_end(s, i, hi) <= hi,
        extent::indent_end(s, i, hi) - i >= indent <==> is_indented(s, i, hi, indent),
    decreases hi - i,
{
    if i < hi && s[i] == ' ' {
        if indent > 0 {
            let less = (indent - 1) as nat;
            lemma_indent_end_is(s, i + 1, hi, less);
            if is_indented(s, i + 1, hi, less) {
                assert forall|k: int| i <= k < i + indent implies #[trigger] s[k] == ' ' by {}
            }
        } else {
            lemma_indent_end_is(s, i + 1, hi, 0);
        }
    } else if indent > 0 && is_indented(s, i, hi, indent) {
        assert(s[i] == ' ');
    }
}

proof fn lemma_block_end_grows(s: Seq<char>, at: int, indent: nat, first: bool, end: int)
    requires
        0 <= end <= at,
        end <= s.len(),
    ensures
        end <= extent::block_end(s, at, indent, first, end) <= s.len(),
{
    extent::lemma_block_end(s, at, indent, first, end);
}

proof fn lemma_block_covers(
    s: Seq<char>,
    start: int,
    at: int,
    indent: nat,
    first: bool,
    end: int,
    a: int,
    b: int,
    c: int,
)
    requires
        0 <= start <= at <= a <= c < b,
        0 <= end <= at,
        at == start || text::line_break(s[at - 1]),
        is_line(s, start, a, b),
        !text::white_space(s[c]),
        goes_on(s, start, if first { at } else { at - 1 }, a, indent),
    ensures
        c < extent::block_end(s, at, indent, first, end),
    decreases s.len() - at,
{
    let stop = extent::line_end(s, at);
    let content = extent::white_end(s, at, stop);
    lemma_line_from(s, start, at);
    lemma_white_end_is(s, at, stop);
    lemma_trimmed_end_is(s, at, stop);
    lemma_indent_end_is(s, at, stop, indent);
    assert(is_line(s, start, at, stop));
    if a == at {
        lemma_line_end_is_end(s, start, a, b);
        assert(content <= c);
        lemma_block_end_grows(s, stop + 1, indent, false, extent::trimmed_end(s, at, stop));
    } else {
        assert(stop < a) by {
            if a <= stop {
                assert(!text::line_break(s[a - 1]));
            }
        }
        let next = if content == stop {
            end
        } else {
            extent::trimmed_end(s, at, stop)
        };
        assert(content < stop ==> !is_blank(s, at, stop));
        lemma_block_covers(s, start, stop + 1, indent, false, next, a, b, c);
    }
}

/// A block scalar goes on over every line that is blank or indented as far as the block. The
/// end of the block comes after everything but white space in such a line, as long as each
/// line before it is such a line too. The first line belongs to the block in any case.
pub proof fn law_block_covers_every_line(
    s: Seq<char>,
    start: int,
    indent: nat,
    a: int,
    b: int,
    c: int,
)
    requires
        0 <= start,
        is_line(s, start, a, b),
        a <= c < b,
        !text::white_space(s[c]),
        goes_on(s, start, start, a, indent),
    ensures
        c < extent::block_end(s, start, indent, true, start),
{
    lemma_block_covers(s, start, start, indent, true, start, a, b, c);
}

proof fn lemma_block_stops(
    s: Seq<char>,
    start: int,
    at: int,
    indent: nat,
    first: bool,
    end: int,
    a: int,
    b: int,
)
    requires
        0 <= start <= at <= a,
        0 <= end <= at,
        end < a,
        first ==> at < a,
        at == start || text::line_break(s[at - 1]),
        is_line(s, start, a, b),
        !is_blank(s, a, b),
        !is_indented(s, a, b, indent),
    ensures
        extent::block_end(s, at, indent, first, end) < a,
    decreases s.len() - at,
{
    if at < s.len() {
        let stop = extent::line_end(s, at);
        let content = extent::white_end(s, at, stop);
        lemma_line_from(s, start, at);
        lemma_white_end_is(s, at, stop);
        lemma_trimmed_end_is(s, at, stop);
        if a == at {
            lemma_line_end_is_end(s, start, a, b);
            lemma_indent_end_is(s, at, stop, indent);
        } else {
            assert(stop < a) by {
                if a <= stop {
                    assert(!text::line_break(s[a - 1]));
                }
            }
            let next = if content == stop {
                end
            } else {
                extent::trimmed_end(s, at, stop)
            };
            lemma_block_stops(s, start, stop + 1, indent, false, next, a, b);
        }
    }
}

/// A block scalar ends before the first line after its first that is neither blank nor
/// indented as far as the block.
pub proof fn law_block_ends_before_what_follows(
    s: Seq<char>,
    start: int,
    indent: nat,
    a: int,
    b: int,
)
    requires
        0 <= start < a,
        is_line(s, start, a, b),
        !is_blank(s, a, b),
        !is_indented(s, a, b, indent),
    ensures
        extent::block_end(s, start, indent, true, start) < a,
{
    lemma_block_stops(s, start, start, indent, true, start, a, b);
}

/// YAML breaks lines at U+000A and at U+000D alone, and takes these, U+0020 and U+0009 for
/// white space.
pub proof fn law_white_space_is_four_characters(c: char)
    ensures
        text::line_break(c) <==> c as u32 == 0xa || c as u32 == 0xd,
        text::white_space(c) <==> {
            ||| c as u32 == 0x20
            ||| c as u32 == 0x9
            ||| c as u32 == 0xa
            ||| c as u32 == 0xd
        },
{
}

/// Whether `unit` stands for one character between two quotes: a byte of its own, or two
/// where the first is a backslash between double quotes or both are single quotes.
pub open spec fn is_unit(unit: Seq<u8>, quote: u8) -> bool {
    if unit.len() == 1 {
        unit[0] != quote && !(quote == 0x22 && unit[0] == 0x5c)
    } else if unit.len() == 2 {
        ||| quote == 0x22 && unit[0] == 0x5c
        ||| quote == 0x27 && unit[0] == 0x27 && unit[1] == 0x27
    } else {
        false
    }
}

/// Units one after the other.
pub open spec fn spelled_units(units: Seq<Seq<u8>>) -> Seq<u8>
    decreases units.len(),
{
    if units.len() == 0 {
        Seq::empty()
    } else {
        units[0] + spelled_units(units.skip(1))
    }
}

/// Whether a quoted scalar of `len` bytes stands at `start`: a quote, the units, and a quote
/// that is no part of a unit.
pub open spec fn is_quoted(
    bytes: Seq<u8>,
    start: int,
    quote: u8,
    units: Seq<Seq<u8>>,
    len: int,
) -> bool {
    &&& 0 <= start
    &&& len == spelled_units(units).len() + 2
    &&& start + len <= bytes.len()
    &&& bytes[start] == quote
    &&& bytes.subrange(start + 1, start + len - 1) == spelled_units(units)
    &&& bytes[start + len - 1] == quote
    &&& quote == 0x27 && start + len < bytes.len() ==> bytes[start + len] != quote
    &&& forall|i: int| 0 <= i < units.len() ==> is_unit(#[trigger] units[i], quote)
}

proof fn lemma_units_close(bytes: Seq<u8>, i: int, quote: u8, units: Seq<Seq<u8>>)
    requires
        quote == 0x22 || quote == 0x27,
        0 <= i,
        i + spelled_units(units).len() < bytes.len(),
        bytes.subrange(i, i + spelled_units(units).len()) == spelled_units(units),
        bytes[i + spelled_units(units).len()] == quote,
        quote == 0x27 && i + spelled_units(units).len() + 1 < bytes.len() ==> bytes[i
            + spelled_units(units).len() + 1] != quote,
        forall|k: int| 0 <= k < units.len() ==> is_unit(#[trigger] units[k], quote),
    ensures
        extent::closing_quote(bytes, i, quote) == Some(i + spelled_units(units).len() + 1),
    decreases units.len(),
{
    if units.len() > 0 {
        let unit = units[0];
        let rest = units.skip(1);
        let whole = spelled_units(units);
        let n = unit.len() as int;
        assert(is_unit(unit, quote));
        assert(bytes[i] == whole[0] && whole[0] == unit[0]);
        if n == 2 {
            assert(bytes[i + 1] == whole[1] && whole[1] == unit[1]);
        }
        assert(bytes.subrange(i + n, i + n + spelled_units(rest).len()) =~= spelled_units(rest)) by {
            assert forall|k: int| 0 <= k < spelled_units(rest).len() implies bytes[i + n + k]
                == spelled_units(rest)[k] by {
                assert(bytes.subrange(i, i + whole.len())[n + k] == whole[n + k]);
            }
        }
        assert forall|k: int| 0 <= k < rest.len() implies is_unit(#[trigger] rest[k], quote) by {
            assert(rest[k] == units[k + 1]);
        }
        lemma_units_close(bytes, i + n, quote, rest);
    }
}

/// A quoted scalar is measured from its opening quote to the quote that closes it: no quote
/// that is escaped between them ends it.
pub proof fn law_quoted_scalar_reaches_its_closing_quote(
    bytes: Seq<u8>,
    start: int,
    quote: u8,
    units: Seq<Seq<u8>>,
    len: int,
)
    requires
        quote == 0x22 || quote == 0x27,
        is_quoted(bytes, start, quote, units, len),
    ensures
        extent::quoted_len(bytes, start, quote) == Some(len),
{
    lemma_units_close(bytes, start + 1, quote, units);
}

proof fn lemma_closing_quote_units(bytes: Seq<u8>, i: int, quote: u8) -> (units: Seq<Seq<u8>>)
    requires
        quote == 0x22 || quote == 0x27,
        0 <= i,
        extent::closing_quote(bytes, i, quote) is Some,
    ensures
        ({
            let end = extent::closing_quote(bytes, i, quote)->0;
            &&& end == i + spelled_units(units).len() + 1
            &&& end <= bytes.len()
            &&& bytes.subrange(i, end - 1) == spelled_units(units)
            &&& bytes[end - 1] == quote
            &&& quote == 0x27 && end < bytes.len() ==> bytes[end] != quote
            &&& forall|k: int| 0 <= k < units.len() ==> is_unit(#[trigger] units[k], quote)
        }),
    decreases bytes.len() - i + 1,
{
    let n = if bytes[i] == 0x5c && quote == 0x22 {
        2int
    } else if bytes[i] == quote {
        if quote == 0x27 && i + 1 < bytes.len() && bytes[i + 1] == quote {
            2int
        } else {
            0int
        }
    } else {
        1int
    };
    if n == 0 {
        assert(bytes.subrange(i, i) =~= Seq::empty());
        Seq::empty()
    } else {
        let rest = lemma_closing_quote_units(bytes, i + n, quote);
        let unit = bytes.subrange(i, i + n);
        let units = seq![unit] + rest;
        let end = extent::closing_quote(bytes, i, quote)->0;
        assert(units.skip(1) =~= rest);
        assert(units[0] == unit);
        assert(bytes.subrange(i, end - 1) =~= unit + bytes.subrange(i + n, end - 1));
        assert forall|k: int| 0 <= k < units.len() implies is_unit(#[trigger] units[k], quote) by {
            if k > 0 {
                assert(units[k] == rest[k - 1]);
            }
        }
        units
    }
}

/// What is measured as a quoted scalar is one: it is opened and closed by the quote, and what
/// stands between is made of characters and escapes. So a scalar that is not closed has no
/// length.
pub proof fn law_measured_scalar_is_quoted(bytes: Seq<u8>, start: int, quote: u8)
    requires
        quote == 0x22 || quote == 0x27,
        0 <= start,
    ensures
        extent::quoted_len(bytes, start, quote) matches Some(len) ==> exists|units: Seq<Seq<u8>>|
            is_quoted(bytes, start, quote, units, len),
{
    if let Some(len) = extent::quoted_len(bytes, start, quote) {
        let units = lemma_closing_quote_units(bytes, start + 1, quote);
        assert(is_quoted(bytes, start, quote, units, len));
    }
}

/// Whether the last thing before `at` is a token from `from` to `end`, with a property of a
/// node at `p`: only indicators of flow collections may stand before it in the token.
pub open spec fn is_property_at(s: Seq<char>, at: int, from: int, p: int, end: int) -> bool {
    &&& 0 <= from <= p < end <= at <= s.len()
    &&& from == 0 || text::white_space(s[from - 1])
    &&& forall|i: int| from <= i < end ==> !text::white_space(#[trigger] s[i])
    &&& forall|i: int| end <= i < at ==> text::white_space(#[trigger] s[i])
    &&& forall|i: int|
        from <= i < p ==> (#[trigger] s[i] == '[' || s[i] == '{' || s[i] == ',')
    &&& s[p] != '[' && s[p] != '{' && s[p] != ','
}

proof fn lemma_trimmed_to(s: Seq<char>, end: int, at: int)
    requires
        0 < end <= at <= s.len(),
        !text::white_space(s[end - 1]),
        forall|i: int| end <= i < at ==> text::white_space(#[trigger] s[i]),
    ensures
        extent::trimmed_end(s, 0, at) == end,
    decreases at - end,
{
    if end < at {
        assert(text::white_space(s[at - 1]));
        lemma_trimmed_to(s, end, at - 1);
    }
}

proof fn lemma_token_from(s: Seq<char>, from: int, end: int)
    requires
        0 <= from <= end <= s.len(),
        from == 0 || text::white_space(s[from - 1]),
        forall|i: int| from <= i < end ==> !text::white_space(#[trigger] s[i]),
    ensures
        extent::token_start(s, end) == from,
    decreases end - from,
{
    if from < end {
        assert(!text::white_space(s[end - 1]));
        lemma_token_from(s, from, end - 1);
    }
}

proof fn lemma_flow_to(s: Seq<char>, from: int, p: int, end: int)
    requires
        0 <= from <= p <= end <= s.len(),
        forall|i: int|
            from <= i < p ==> (#[trigger] s[i] == '[' || s[i] == '{' || s[i] == ','),
        p == end || (s[p] != '[' && s[p] != '{' && s[p] != ','),
    ensures
        extent::flow_prefix_end(s, from, end) == p,
    decreases p - from,
{
    if from < p {
        lemma_flow_to(s, from + 1, p, end);
    }
}

proof fn lemma_property(s: Seq<char>, at: int, from: int, p: int, end: int)
    requires
        is_property_at(s, at, from, p, end),
    ensures
        extent::trimmed_end(s, 0, at) == end,
        extent::token_start(s, end) == from,
        extent::flow_prefix_end(s, from, end) == p,
{
    assert(!text::white_space(s[end - 1]));
    lemma_trimmed_to(s, end, at);
    lemma_token_from(s, from, end);
    lemma_flow_to(s, from, p, end);
}

/// A token that starts with `!` right before a node is the node's tag.
pub proof fn law_tag_before_a_node_is_found(s: Seq<char>, at: int, from: int, p: int, end: int)
    requires
        is_property_at(s, at, from, p, end),
        s[p] == '!',
    ensures
        extent::tag_range(s, at) == Some((p, end)),
{
    lemma_property(s, at, from, p, end);
}

/// A token that starts with `&` is passed over: the tag may stand before the anchor.
pub proof fn law_anchor_is_passed_over(s: Seq<char>, at: int, from: int, p: int, end: int)
    requires
        is_property_at(s, at, from, p, end),
        s[p] == '&',
    ensures
        extent::tag_range(s, at) == extent::tag_range(s, from),
{
    lemma_property(s, at, from, p, end);
}

/// Where neither a tag nor an anchor comes before a node, no tag is found.
pub proof fn law_no_other_token_is_a_tag(s: Seq<char>, at: int, from: int, p: int, end: int)
    requires
        is_property_at(s, at, from, p, end),
        s[p] != '!',
        s[p] != '&',
    ensures
        extent::tag_range(s, at) is None,
{
    lemma_property(s, at, from, p, end);
}

/// Nothing comes before the first node of a text, and so no tag does.
pub proof fn law_no_tag_before_the_first_node(s: Seq<char>, at: int)
    requires
        0 <= at <= s.len(),
        forall|i: int|
            0 <= i < at ==> (#[trigger] text::white_space(s[i]) || s[i] == '[' || s[i] == '{'
                || s[i] == ','),
    ensures
        extent::tag_range(s, at) is None,
{
    let end = extent::trimmed_end(s, 0, at);
    lemma_trimmed_end_is(s, 0, at);
    let from = extent::token_start(s, end);
    extent::lemma_token_start(s, end);
    lemma_token_is(s, end);
    assert forall|i: int| from <= i < end implies (#[trigger] s[i] == '[' || s[i] == '{' || s[i]
        == ',') by {
        assert(text::white_space(s[i]) || s[i] == '[' || s[i] == '{' || s[i] == ',');
    }
    lemma_flow_to(s, from, end, end);
}

proof fn lemma_token_is(s: Seq<char>, hi: int)
    requires
        0 <= hi <= s.len(),
    ensures
        0 <= extent::token_start(s, hi) <= hi,
        forall|k: int|
            extent::token_start(s, hi) <= k < hi ==> !text::white_space(#[trigger] s[k]),
    decreases hi,
{
    if hi > 0 && !text::white_space(s[hi - 1]) {
        lemma_token_is(s, hi - 1);
    }
}

/// An entry indicator that stands alone right before a place is found there.
pub proof fn law_entry_indicator_is_found(s: Seq<char>, at: int, dash: int)
    requires
        0 <= dash < at <= s.len(),
        s[dash] == '-',
        dash == 0 || text::white_space(s[dash - 1]),
        forall|i: int| dash < i < at ==> text::white_space(#[trigger] s[i]),
    ensures
        extent::indicator_start(s, at) == dash,
{
    lemma_trimmed_to(s, dash + 1, at);
    lemma_token_from(s, dash, dash + 1);
}

/// What is right before a place and is no entry indicator leaves the place where it is.
pub proof fn law_nothing_else_is_an_entry_indicator(s: Seq<char>, at: int, from: int, end: int)
    requires
        0 <= from < end <= at <= s.len(),
        from == 0 || text::white_space(s[from - 1]),
        forall|i: int| from <= i < end ==> !text::white_space(#[trigger] s[i]),
        forall|i: int| end <= i < at ==> text::white_space(#[trigger] s[i]),
        !(end == from + 1 && s[from] == '-'),
    ensures
        extent::indicator_start(s, at) == at,
{
    assert(!text::white_space(s[end - 1]));
    lemma_trimmed_to(s, end, at);
    lemma_token_from(s, from, end);
}

/// Whether `word` is a part of a plain scalar without white space.
pub open spec fn is_word(word: Seq<char>) -> bool {
    word.len() > 0 && forall|i: int| 0 <= i < word.len() ==> !text::white_space(#[trigger] word[i])
}

/// Whether `gap` is white space between two words.
pub open spec fn is_gap(gap: Seq<char>) -> bool {
    gap.len() > 0 && forall|i: int| 0 <= i < gap.len() ==> text::white_space(#[trigger] gap[i])
}

/// Whether YAML folds `gap` to `fold`: a gap within a line stays as it is, and one that breaks
/// lines gives a space, or a line feed for each blank line.
pub open spec fn is_fold(gap: Seq<char>, fold: Seq<char>) -> bool {
    if text::one_line(gap) {
        fold == gap
    } else {
        ||| fold == seq![' ']
        ||| fold.len() > 0 && forall|i: int| 0 <= i < fold.len() ==> #[trigger] fold[i] == '\n'
    }
}

/// The words from the `i`-th on, with what stands between them.
pub open spec fn spelled(words: Seq<Seq<char>>, between: Seq<Seq<char>>, i: int) -> Seq<char>
    decreases words.len() - i,
{
    if i >= words.len() {
        Seq::empty()
    } else if i + 1 == words.len() {
        words[i]
    } else {
        words[i] + between[i] + spelled(words, between, i + 1)
    }
}

/// Whether the words are words, and the folds are those of the gaps between them.
pub open spec fn is_folding(
    words: Seq<Seq<char>>,
    gaps: Seq<Seq<char>>,
    folds: Seq<Seq<char>>,
) -> bool {
    &&& words.len() > 0
    &&& gaps.len() == words.len() - 1
    &&& folds.len() == words.len() - 1
    &&& forall|i: int| 0 <= i < words.len() ==> is_word(#[trigger] words[i])
    &&& forall|i: int| 0 <= i < gaps.len() ==> is_gap(#[trigger] gaps[i])
    &&& forall|i: int| 0 <= i < gaps.len() ==> is_fold(#[trigger] gaps[i], folds[i])
}

proof fn lemma_word_lines_up(
    s: Seq<char>,
    at: int,
    value: Seq<char>,
    k: int,
    end: int,
    folded: bool,
    n: int,
)
    requires
        0 <= at,
        0 <= k,
        0 < n,
        at + n <= s.len(),
        k + n <= value.len(),
        forall|j: int|
            0 <= j < n ==> #[trigger] value[k + j] == s[at + j] && !text::white_space(value[k + j]),
    ensures
        extent::plain_end(s, at, value, k, end, folded) == extent::plain_end(
            s,
            at + n,
            value,
            k + n,
            at + n,
            false,
        ),
    decreases n,
{
    assert(value[k + 0] == s[at + 0]);
    if n > 1 {
        assert forall|j: int| 0 <= j < n - 1 implies #[trigger] value[k + 1 + j] == s[at + 1 + j]
            && !text::white_space(value[k + 1 + j]) by {
            assert(value[k + (1 + j)] == s[at + (1 + j)]);
        }
        lemma_word_lines_up(s, at + 1, value, k + 1, at + 1, false, n - 1);
    }
}

proof fn lemma_gap_lines_up(s: Seq<char>, at: int, value: Seq<char>, k: int, n: int)
    requires
        0 <= at,
        0 <= k,
        0 <= n,
        at + n < s.len(),
        k + n <= value.len(),
        !text::white_space(s[at + n]),
        forall|j: int|
            0 <= j < n ==> #[trigger] value[k + j] == s[at + j] && text::white_space(value[k + j])
                && !text::line_break(value[k + j]),
    ensures
        extent::plain_end(s, at, value, k, at, false) == extent::plain_end(
            s,
            at + n,
            value,
            k + n,
            at + n,
            false,
        ),
    decreases n,
{
    if n > 0 {
        assert(value[k + 0] == s[at + 0]);
        assert forall|j: int| at <= j < at + n implies text::white_space(s[j])
            && !text::line_break(#[trigger] s[j]) by {
            assert(value[k + (j - at)] == s[at + (j - at)]);
        }
        lemma_run_ends(s, at, at + n);
        assert forall|j: int| 0 <= j < n - 1 implies #[trigger] value[k + 1 + j] == s[at + 1 + j]
            && text::white_space(value[k + 1 + j]) && !text::line_break(value[k + 1 + j]) by {
            assert(value[k + (1 + j)] == s[at + (1 + j)]);
        }
        lemma_gap_lines_up(s, at + 1, value, k + 1, n - 1);
    }
}

proof fn lemma_run_ends(s: Seq<char>, at: int, end: int)
    requires
        0 <= at <= end < s.len(),
        !text::white_space(s[end]),
        forall|j: int| at <= j < end ==> text::white_space(#[trigger] s[j]),
    ensures
        extent::run_end(s, at) == end,
    decreases end - at,
{
    if at < end {
        lemma_run_ends(s, at + 1, end);
    }
}

proof fn lemma_feeds_pass(
    s: Seq<char>,
    at: int,
    value: Seq<char>,
    k: int,
    n: int,
    end: int,
)
    requires
        0 <= k,
        0 <= n,
        k + n <= value.len(),
        forall|j: int| 0 <= j < n ==> #[trigger] value[k + j] == '\n',
    ensures
        extent::plain_end(s, at, value, k, end, true) == extent::plain_end(
            s,
            at,
            value,
            k + n,
            end,
            true,
        ),
    decreases n,
{
    if n > 0 {
        assert(value[k + 0] == '\n');
        assert forall|j: int| 0 <= j < n - 1 implies #[trigger] value[k + 1 + j] == '\n' by {
            assert(value[k + (1 + j)] == '\n');
        }
        lemma_feeds_pass(s, at, value, k + 1, n - 1, end);
    }
}

proof fn lemma_words_line_up(
    s: Seq<char>,
    at: int,
    value: Seq<char>,
    k: int,
    end: int,
    folded: bool,
    words: Seq<Seq<char>>,
    gaps: Seq<Seq<char>>,
    folds: Seq<Seq<char>>,
    i: int,
)
    requires
        is_folding(words, gaps, folds),
        0 <= i < words.len(),
        0 <= at,
        0 <= k,
        at + spelled(words, gaps, i).len() <= s.len(),
        s.subrange(at, at + spelled(words, gaps, i).len()) == spelled(words, gaps, i),
        k + spelled(words, folds, i).len() == value.len(),
        value.subrange(k, value.len() as int) == spelled(words, folds, i),
    ensures
        extent::plain_end(s, at, value, k, end, folded) == Some(
            at + spelled(words, gaps, i).len() as int,
        ),
    decreases words.len() - i,
{
    let here = spelled(words, gaps, i);
    let there = spelled(words, folds, i);
    let word = words[i];
    let n = word.len() as int;
    assert(is_word(word));
    assert forall|j: int| 0 <= j < here.len() implies s[at + j] == #[trigger] here[j] by {
        assert(s.subrange(at, at + here.len())[j] == here[j]);
    }
    assert forall|j: int| 0 <= j < there.len() implies value[k + j] == #[trigger] there[j] by {
        assert(value.subrange(k, value.len() as int)[j] == there[j]);
    }
    assert forall|j: int| 0 <= j < n implies #[trigger] value[k + j] == s[at + j]
        && !text::white_space(value[k + j]) by {
        assert(here[j] == word[j] && there[j] == word[j]);
    }
    lemma_word_lines_up(s, at, value, k, end, folded, n);
    if i + 1 < words.len() {
        let gap = gaps[i];
        let fold = folds[i];
        let g = gap.len() as int;
        let f = fold.len() as int;
        let next = spelled(words, gaps, i + 1);
        assert(is_gap(gap));
        assert(is_fold(gap, fold));
        assert(is_word(words[i + 1]));
        assert(next.len() > 0 && next[0] == words[i + 1][0]);
        assert(here == word + gap + next);
        assert(there == word + fold + spelled(words, folds, i + 1));
        assert(s[at + n + g] == here[n + g] && here[n + g] == next[0]);
        assert forall|j: int| at + n <= j < at + n + g implies s[j] == gap[j - at - n]
            && text::white_space(#[trigger] s[j]) by {
            assert(s[at + (j - at)] == here[j - at]);
            assert(here[j - at] == gap[j - at - n]);
        }
        assert forall|j: int| 0 <= j < f implies #[trigger] value[k + n + j] == fold[j] by {
            assert(value[k + (n + j)] == there[n + j]);
        }
        assert(s.subrange(at + n + g, at + n + g + next.len()) =~= next) by {
            assert forall|j: int| 0 <= j < next.len() implies s[at + n + g + j]
                == #[trigger] next[j] by {
                assert(s[at + (n + g + j)] == here[n + g + j]);
            }
        }
        assert(value.subrange(k + n + f, value.len() as int) =~= spelled(words, folds, i + 1)) by {
            let after = spelled(words, folds, i + 1);
            assert forall|j: int| 0 <= j < after.len() implies value[k + n + f + j]
                == #[trigger] after[j] by {
                assert(value[k + (n + f + j)] == there[n + f + j]);
            }
        }
        if text::one_line(gap) {
            assert forall|j: int| 0 <= j < g implies #[trigger] value[k + n + j] == s[at + n + j]
                && text::white_space(value[k + n + j]) && !text::line_break(value[k + n + j]) by {
                assert(value[k + n + j] == fold[j]);
                assert(s[at + n + j] == gap[j]);
            }
            lemma_gap_lines_up(s, at + n, value, k + n, g);
            lemma_words_line_up(
                s,
                at + n + g,
                value,
                k + n + f,
                at + n + g,
                false,
                words,
                gaps,
                folds,
                i + 1,
            );
        } else {
            let b = choose|b: int| 0 <= b < gap.len() && text::line_break(#[trigger] gap[b]);
            assert(s[at + n + b] == gap[b]);
            lemma_run_ends(s, at + n, at + n + g);
            assert(extent::has_line_break(s, at + n, at + n + g));
            assert(value[k + n + 0] == fold[0]);
            assert forall|j: int| 0 <= j < f - 1 implies #[trigger] value[k + n + 1 + j]
                == '\n' by {
                assert(value[k + n + (1 + j)] == fold[1 + j]);
            }
            lemma_feeds_pass(s, at + n + g, value, k + n + 1, f - 1, at + n);
            lemma_words_line_up(
                s,
                at + n + g,
                value,
                k + n + f,
                at + n,
                true,
                words,
                gaps,
                folds,
                i + 1,
            );
        }
    }
}

/// A plain scalar covers all of its words, on however many lines they stand: where its value
/// is what YAML folds the words and gaps of the source to, it reaches over exactly these.
pub proof fn law_plain_scalar_covers_its_words(
    s: Seq<char>,
    start: int,
    words: Seq<Seq<char>>,
    gaps: Seq<Seq<char>>,
    folds: Seq<Seq<char>>,
)
    requires
        is_folding(words, gaps, folds),
        0 <= start,
        start + spelled(words, gaps, 0).len() <= s.len(),
        s.subrange(start, start + spelled(words, gaps, 0).len()) == spelled(words, gaps, 0),
    ensures
        extent::plain_end(s, start, spelled(words, folds, 0), 0, start, false) == Some(
            start + spelled(words, gaps, 0).len() as int,
        ),
        extent::plain_len(s, start, spelled(words, folds, 0)) == text::byte_len(
            spelled(words, gaps, 0),
        ),
{
    let value = spelled(words, folds, 0);
    assert(value.subrange(0, value.len() as int) =~= value);
    lemma_words_line_up(s, start, value, 0, start, false, words, gaps, folds, 0);
}

/// The characters of `s` that are not white space, in their order.
pub open spec fn solid(s: Seq<char>) -> Seq<char>
    decreases s.len(),
{
    if s.len() == 0 {
        s
    } else if text::white_space(s[0]) {
        solid(s.skip(1))
    } else {
        seq![s[0]] + solid(s.skip(1))
    }
}

proof fn lemma_solid_step(s: Seq<char>, i: int, j: int)
    requires
        0 <= i < j <= s.len(),
    ensures
        solid(s.subrange(i, j)) == if text::white_space(s[i]) {
            solid(s.subrange(i + 1, j))
        } else {
            seq![s[i]] + solid(s.subrange(i + 1, j))
        },
{
    assert(s.subrange(i, j).skip(1) =~= s.subrange(i + 1, j));
}

proof fn lemma_solid_skips_white(s: Seq<char>, i: int, at: int, j: int)
    requires
        0 <= i <= at <= j <= s.len(),
        forall|k: int| i <= k < at ==> text::white_space(#[trigger] s[k]),
    ensures
        solid(s.subrange(i, j)) == solid(s.subrange(at, j)),
    decreases at - i,
{
    if i < at {
        lemma_solid_step(s, i, j);
        lemma_solid_skips_white(s, i + 1, at, j);
    }
}

proof fn lemma_lined_up_is_same(
    s: Seq<char>,
    at: int,
    value: Seq<char>,
    k: int,
    end: int,
    folded: bool,
)
    requires
        0 <= end <= at <= s.len(),
        0 <= k <= value.len(),
        forall|i: int| end <= i < at ==> text::white_space(#[trigger] s[i]),
    ensures
        extent::plain_end(s, at, value, k, end, folded) matches Some(e) ==> {
            &&& end <= e <= s.len()
            &&& solid(s.subrange(end, e)) == solid(value.subrange(k, value.len() as int))
        },
    decreases value.len() - k,
{
    let len = value.len() as int;
    extent::lemma_plain_end(s, at, value, k, end, folded);
    if k >= len {
        assert(s.subrange(end, end) =~= Seq::empty());
        assert(value.subrange(k, len) =~= Seq::empty());
    } else {
        let run = extent::run_end(s, at);
        lemma_solid_step(value, k, len);
        lemma_white_end_is(s, at, s.len() as int);
        if folded && value[k] == '\n' {
            lemma_lined_up_is_same(s, at, value, k + 1, end, true);
        } else if (value[k] == ' ' || value[k] == '\n') && extent::has_line_break(s, at, run) {
            lemma_lined_up_is_same(s, run, value, k + 1, end, true);
        } else if at < s.len() && s[at] == value[k] {
            lemma_lined_up_is_same(s, at + 1, value, k + 1, at + 1, false);
            extent::lemma_plain_end(s, at + 1, value, k + 1, at + 1, false);
            if let Some(e) = extent::plain_end(s, at, value, k, end, folded) {
                lemma_solid_skips_white(s, end, at, e);
                lemma_solid_step(s, at, e);
            }
        }
    }
}

/// Where a plain scalar's value lines up with the source, both have the same characters apart
/// from white space.
pub proof fn law_plain_scalar_says_its_value(s: Seq<char>, start: int, value: Seq<char>)
    requires
        0 <= start <= s.len(),
    ensures
        extent::plain_end(s, start, value, 0, start, false) matches Some(end) ==> {
            &&& start <= end <= s.len()
            &&& solid(s.subrange(start, end)) == solid(value)
        },
{
    lemma_lined_up_is_same(s, start, value, 0, start, false);
    assert(value.subrange(0, value.len() as int) =~= value);
}

/// Where a plain scalar's value does not line up with the source, the scalar counts as long
/// as its value. It does not line up where their first characters differ, neither of them
/// white space.
pub proof fn law_plain_scalar_falls_back_on_its_value(s: Seq<char>, start: int, value: Seq<char>)
    requires
        0 <= start < s.len(),
        value.len() > 0,
        !text::white_space(value[0]),
        s[start] != value[0],
    ensures
        extent::plain_len(s, start, value) == text::byte_len(value),
{
}

} // verus!
