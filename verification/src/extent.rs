//! How much of the source a scalar or a tag occupies.
//!
//! A scalar's value does not say how long the scalar is in the source: quotes are
//! not part of it, escapes are decoded and line breaks are folded. So the extent is
//! measured against the source itself.

use crate::source_text::SourceText;
use crate::text;
use crate::text::{chars_of, is_line_break, is_white_space, str_len};
use vstd::prelude::*;

verus! {

/// The first place in `i..hi` that holds no white space, or `hi`.
pub open spec fn white_end(s: Seq<char>, i: int, hi: int) -> int
    decreases hi - i,
{
    if i >= hi || !text::white_space(s[i]) {
        i
    } else {
        white_end(s, i + 1, hi)
    }
}

/// The end of `lo..hi` without the white space at its end.
pub open spec fn trimmed_end(s: Seq<char>, lo: int, hi: int) -> int
    decreases hi - lo,
{
    if hi <= lo || !text::white_space(s[hi - 1]) {
        hi
    } else {
        trimmed_end(s, lo, hi - 1)
    }
}

/// Where the run of characters other than white space starts that ends at `hi`.
pub open spec fn token_start(s: Seq<char>, hi: int) -> int
    decreases hi,
{
    if hi <= 0 || text::white_space(s[hi - 1]) {
        hi
    } else {
        token_start(s, hi - 1)
    }
}

/// The first place in `i..hi` that holds no opening indicator of a flow
/// collection and no comma, or `hi`.
pub open spec fn flow_prefix_end(s: Seq<char>, i: int, hi: int) -> int
    decreases hi - i,
{
    if i >= hi || !(s[i] == '[' || s[i] == '{' || s[i] == ',') {
        i
    } else {
        flow_prefix_end(s, i + 1, hi)
    }
}

/// The first line break at or after `i`, or the end of the text. Between the two
/// characters of a CR LF there is an empty line.
pub open spec fn line_end(s: Seq<char>, i: int) -> int
    decreases s.len() - i,
{
    if i >= s.len() || text::line_break(s[i]) {
        i
    } else {
        line_end(s, i + 1)
    }
}

/// Whether there is a line break in `i..j`.
pub open spec fn has_line_break(s: Seq<char>, i: int, j: int) -> bool {
    exists|k: int| i <= k < j && text::line_break(#[trigger] s[k])
}

/// Where the run of white space ends that starts at `at`.
pub open spec fn run_end(s: Seq<char>, at: int) -> int {
    white_end(s, at, s.len() as int)
}

/// Where a plain scalar ends whose value from the `k`-th character on lines up
/// with the source from `at` on. `end` is where the part before it ends, and `folded`
/// says whether that part ends in line breaks.
///
/// A space or a line feed of the value lines up with a run of white space that holds a
/// line break. Line feeds that follow it in the value stand for blank lines of the same
/// run. Any other character lines up with itself.
pub open spec fn plain_end(
    s: Seq<char>,
    at: int,
    value: Seq<char>,
    k: int,
    end: int,
    folded: bool,
) -> Option<int>
    decreases value.len() - k,
{
    if k >= value.len() {
        Some(end)
    } else if folded && value[k] == '\n' {
        plain_end(s, at, value, k + 1, end, true)
    } else if (value[k] == ' ' || value[k] == '\n') && has_line_break(s, at, run_end(s, at)) {
        plain_end(s, run_end(s, at), value, k + 1, end, true)
    } else if at < s.len() && s[at] == value[k] {
        plain_end(s, at + 1, value, k + 1, at + 1, false)
    } else {
        None
    }
}

/// The bytes of a plain scalar that starts at `start`: as far as its value lines
/// up with the source, or as long as the value where the two do not line up.
pub open spec fn plain_len(s: Seq<char>, start: int, value: Seq<char>) -> nat {
    match plain_end(s, start, value, 0, start, false) {
        Some(end) => text::byte_len(s.subrange(start, end)),
        None => text::byte_len(value),
    }
}

/// The first place in `i..hi` that holds no space, or `hi`.
pub open spec fn indent_end(s: Seq<char>, i: int, hi: int) -> int
    decreases hi - i,
{
    if i >= hi || s[i] != ' ' {
        i
    } else {
        indent_end(s, i + 1, hi)
    }
}

/// Where the content of a block scalar ends, from the line on that starts at `at`.
/// `end` is where the lines before it end.
///
/// The block goes on over lines that are blank or indented by `indent` spaces; its
/// first line belongs to it in any case. Blank lines at its end do not count.
pub open spec fn block_end(
    s: Seq<char>,
    at: int,
    indent: nat,
    first: bool,
    end: int,
) -> int
    decreases s.len() - at + 1,
    via block_end_decreases
{
    if at >= s.len() {
        end
    } else {
        let stop = line_end(s, at);
        let content = white_end(s, at, stop);
        if content == stop {
            block_end(s, stop + 1, indent, false, end)
        } else if !first && indent_end(s, at, stop) - at < indent {
            end
        } else {
            block_end(s, stop + 1, indent, false, trimmed_end(s, at, stop))
        }
    }
}

#[via_fn]
proof fn block_end_decreases(s: Seq<char>, at: int, indent: nat, first: bool, end: int) {
    if at < s.len() {
        lemma_line_end(s, at);
    }
}

/// The bytes of a block scalar's content that starts at `start`.
pub open spec fn block_len(s: Seq<char>, start: int, indent: nat) -> nat {
    text::byte_len(s.subrange(start, block_end(s, start, indent, true, start)))
}

/// The index after the quote that closes a quoted scalar, looked for from `i` on.
///
/// A backslash escapes what follows it between double quotes. Between single
/// quotes a doubled quote stands for one.
pub open spec fn closing_quote(bytes: Seq<u8>, i: int, quote: u8) -> Option<int>
    decreases bytes.len() - i + 1,
{
    if i >= bytes.len() {
        None
    } else if bytes[i] == 0x5c && quote == 0x22 {
        closing_quote(bytes, i + 2, quote)
    } else if bytes[i] == quote {
        if quote == 0x27 && i + 1 < bytes.len() && bytes[i + 1] == quote {
            closing_quote(bytes, i + 2, quote)
        } else {
            Some(i + 1)
        }
    } else {
        closing_quote(bytes, i + 1, quote)
    }
}

/// The length of the quoted scalar at `start`, quotes counted.
pub open spec fn quoted_len(bytes: Seq<u8>, start: int, quote: u8) -> Option<int> {
    if start >= bytes.len() || bytes[start] != quote {
        None
    } else {
        match closing_quote(bytes, start + 1, quote) {
            Some(end) => Some(end - start),
            None => None,
        }
    }
}

/// Where the tag stands that belongs to the value at `at`.
///
/// The node's properties precede the value, separated by white space: a tag starts
/// with `!`, an anchor with `&`, in either order. In a flow collection a property
/// may follow the opening indicator without white space.
pub open spec fn tag_range(s: Seq<char>, at: int) -> Option<(int, int)>
    decreases at,
    via tag_range_decreases
{
    let end = trimmed_end(s, 0, at);
    let start = token_start(s, end);
    let property = flow_prefix_end(s, start, end);
    if property < end && s[property] == '!' {
        Some((property, end))
    } else if property < end && s[property] == '&' {
        tag_range(s, start)
    } else {
        None
    }
}

#[via_fn]
proof fn tag_range_decreases(s: Seq<char>, at: int) {
    if at > 0 {
        lemma_trimmed_end(s, 0, at);
        lemma_token_start(s, trimmed_end(s, 0, at));
        lemma_flow_prefix_end(
            s,
            token_start(s, trimmed_end(s, 0, at)),
            trimmed_end(s, 0, at),
        );
    }
}

/// Where the entry indicator of a block sequence stands that is the last thing before `at`,
/// or `at`.
pub open spec fn indicator_start(s: Seq<char>, at: int) -> int {
    let end = trimmed_end(s, 0, at);
    if token_start(s, end) == end - 1 && s[end - 1] == '-' {
        end - 1
    } else {
        at
    }
}

/// White space ends in the range.
pub proof fn lemma_white_end(s: Seq<char>, i: int, hi: int)
    requires
        i <= hi,
    ensures
        i <= white_end(s, i, hi) <= hi,
    decreases hi - i,
{
    if i < hi && text::white_space(s[i]) {
        lemma_white_end(s, i + 1, hi);
    }
}

/// What is trimmed stays in the range.
pub proof fn lemma_trimmed_end(s: Seq<char>, lo: int, hi: int)
    requires
        lo <= hi,
    ensures
        lo <= trimmed_end(s, lo, hi) <= hi,
    decreases hi - lo,
{
    if lo < hi && text::white_space(s[hi - 1]) {
        lemma_trimmed_end(s, lo, hi - 1);
    }
}

/// A token starts before it ends.
pub proof fn lemma_token_start(s: Seq<char>, hi: int)
    requires
        0 <= hi,
    ensures
        0 <= token_start(s, hi) <= hi,
    decreases hi,
{
    if hi > 0 && !text::white_space(s[hi - 1]) {
        lemma_token_start(s, hi - 1);
    }
}

/// A flow prefix ends in the range.
pub proof fn lemma_flow_prefix_end(s: Seq<char>, i: int, hi: int)
    requires
        i <= hi,
    ensures
        i <= flow_prefix_end(s, i, hi) <= hi,
    decreases hi - i,
{
    if i < hi && (s[i] == '[' || s[i] == '{' || s[i] == ',') {
        lemma_flow_prefix_end(s, i + 1, hi);
    }
}

/// A line ends in the text.
pub proof fn lemma_line_end(s: Seq<char>, i: int)
    requires
        i <= s.len(),
    ensures
        i <= line_end(s, i) <= s.len(),
    decreases s.len() - i,
{
    if i < s.len() && !text::line_break(s[i]) {
        lemma_line_end(s, i + 1);
    }
}

/// Where a plain scalar's value lines up lies in the text.
pub proof fn lemma_plain_end(
    s: Seq<char>,
    at: int,
    value: Seq<char>,
    k: int,
    end: int,
    folded: bool,
)
    requires
        0 <= end <= at <= s.len(),
    ensures
        plain_end(s, at, value, k, end, folded) matches Some(e) ==> end <= e <= s.len(),
    decreases value.len() - k,
{
    if k < value.len() {
        lemma_white_end(s, at, s.len() as int);
        if folded && value[k] == '\n' {
            lemma_plain_end(s, at, value, k + 1, end, true);
        } else if (value[k] == ' ' || value[k] == '\n') && has_line_break(
            s,
            at,
            run_end(s, at),
        ) {
            lemma_plain_end(s, run_end(s, at), value, k + 1, end, true);
        } else if at < s.len() && s[at] == value[k] {
            lemma_plain_end(s, at + 1, value, k + 1, at + 1, false);
        }
    }
}

/// An entry indicator before `at` lies in the text.
pub proof fn lemma_indicator_start(s: Seq<char>, at: int)
    requires
        0 <= at <= s.len(),
    ensures
        0 <= indicator_start(s, at) <= at,
{
    lemma_trimmed_end(s, 0, at);
    lemma_token_start(s, trimmed_end(s, 0, at));
}

/// The end of a block scalar lies in the text.
pub proof fn lemma_block_end(s: Seq<char>, at: int, indent: nat, first: bool, end: int)
    requires
        0 <= end <= at,
        end <= s.len(),
    ensures
        end <= block_end(s, at, indent, first, end) <= s.len(),
    decreases s.len() - at + 1,
{
    if at < s.len() {
        let stop = line_end(s, at);
        let content = white_end(s, at, stop);
        lemma_line_end(s, at);
        lemma_white_end(s, at, stop);
        if content == stop {
            lemma_block_end(s, stop + 1, indent, false, end);
        } else if first || indent_end(s, at, stop) - at >= indent {
            lemma_trimmed_end(s, at, stop);
            lemma_block_end(s, stop + 1, indent, false, trimmed_end(s, at, stop));
        }
    }
}

/// A tag stands before its value, and is not empty.
pub proof fn lemma_tag_range(s: Seq<char>, at: int)
    requires
        0 <= at <= s.len(),
    ensures
        tag_range(s, at) matches Some((start, end)) ==> 0 <= start < end <= at && s[start] == '!',
    decreases at,
{
    let end = trimmed_end(s, 0, at);
    let start = token_start(s, end);
    lemma_trimmed_end(s, 0, at);
    lemma_token_start(s, end);
    lemma_flow_prefix_end(s, start, end);
    let property = flow_prefix_end(s, start, end);
    if property < end && s[property] == '&' {
        lemma_tag_range(s, start);
    }
}

/// The first place in `i..hi` that holds no white space, or `hi`.
fn find_white_end(source: &SourceText, i: usize, hi: usize) -> (end: usize)
    requires
        i <= hi <= source@.len(),
    ensures
        end == white_end(source@, i as int, hi as int),
        i <= end <= hi,
{
    let mut end: usize = i;
    while end < hi && is_white_space(source.at(end))
        invariant
            i <= end <= hi <= source@.len(),
            white_end(source@, i as int, hi as int) == white_end(source@, end as int, hi as int),
        decreases hi - end,
    {
        end += 1;
    }
    end
}

/// The first place in `i..hi` that holds no space, or `hi`.
fn find_indent_end(source: &SourceText, i: usize, hi: usize) -> (end: usize)
    requires
        i <= hi <= source@.len(),
    ensures
        end == indent_end(source@, i as int, hi as int),
        i <= end <= hi,
{
    let mut end: usize = i;
    while end < hi && source.at(end) == ' '
        invariant
            i <= end <= hi <= source@.len(),
            indent_end(source@, i as int, hi as int) == indent_end(
                source@,
                end as int,
                hi as int,
            ),
        decreases hi - end,
    {
        end += 1;
    }
    end
}

/// The end of `lo..hi` without the white space at its end.
fn find_trimmed_end(source: &SourceText, lo: usize, hi: usize) -> (end: usize)
    requires
        lo <= hi <= source@.len(),
    ensures
        end == trimmed_end(source@, lo as int, hi as int),
        lo <= end <= hi,
{
    let mut end: usize = hi;
    while lo < end && is_white_space(source.at(end - 1))
        invariant
            lo <= end <= hi <= source@.len(),
            trimmed_end(source@, lo as int, hi as int) == trimmed_end(
                source@,
                lo as int,
                end as int,
            ),
        decreases end,
    {
        end -= 1;
    }
    end
}

/// Where the run of characters other than white space starts that ends at `hi`.
fn find_token_start(source: &SourceText, hi: usize) -> (start: usize)
    requires
        hi <= source@.len(),
    ensures
        start == token_start(source@, hi as int),
        start <= hi,
{
    let mut start: usize = hi;
    while 0 < start && !is_white_space(source.at(start - 1))
        invariant
            start <= hi <= source@.len(),
            token_start(source@, hi as int) == token_start(source@, start as int),
        decreases start,
    {
        start -= 1;
    }
    start
}

/// The first place in `i..hi` past the indicators of a flow collection.
fn find_flow_prefix_end(source: &SourceText, i: usize, hi: usize) -> (end: usize)
    requires
        i <= hi <= source@.len(),
    ensures
        end == flow_prefix_end(source@, i as int, hi as int),
        i <= end <= hi,
{
    let mut end: usize = i;
    while end < hi && (source.at(end) == '[' || source.at(end) == '{' || source.at(end) == ',')
        invariant
            i <= end <= hi <= source@.len(),
            flow_prefix_end(source@, i as int, hi as int) == flow_prefix_end(
                source@,
                end as int,
                hi as int,
            ),
        decreases hi - end,
    {
        end += 1;
    }
    end
}

/// The first line break at or after `i`, or the end of the text.
fn find_line_end(source: &SourceText, i: usize) -> (end: usize)
    requires
        i <= source@.len(),
    ensures
        end == line_end(source@, i as int),
        i <= end <= source@.len(),
{
    let mut end: usize = i;
    while end < source.len() && !is_line_break(source.at(end))
        invariant
            i <= end <= source@.len(),
            line_end(source@, i as int) == line_end(source@, end as int),
        decreases source@.len() - end,
    {
        end += 1;
    }
    end
}

/// Whether there is a line break in `i..j`.
fn find_line_break(source: &SourceText, i: usize, j: usize) -> (found: bool)
    requires
        i <= j <= source@.len(),
    ensures
        found == has_line_break(source@, i as int, j as int),
{
    let mut k: usize = i;
    while k < j
        invariant
            i <= k <= j <= source@.len(),
            forall|x: int| i <= x < k ==> !text::line_break(#[trigger] source@[x]),
        decreases j - k,
    {
        if is_line_break(source.at(k)) {
            return true;
        }
        k += 1;
    }
    false
}

/// The bytes of the plain scalar at `start` that has the given value.
pub fn plain_len_at(source: &SourceText, start: usize, value: &str) -> (len: usize)
    requires
        source.wf(),
        start <= source@.len(),
    ensures
        len == plain_len(source@, start as int, value@),
{
    let chars = chars_of(value);
    let mut at: usize = start;
    let mut end: usize = start;
    let mut folded = false;
    let mut k: usize = 0;
    while k < chars.len()
        invariant
            source.wf(),
            chars@ == value@,
            k <= chars@.len(),
            start <= end <= at <= source@.len(),
            plain_end(source@, start as int, value@, 0, start as int, false) == plain_end(
                source@,
                at as int,
                value@,
                k as int,
                end as int,
                folded,
            ),
        decreases chars.len() - k,
    {
        let c = chars[k];
        if !(folded && c == '\n') {
            folded = false;
            if c == ' ' || c == '\n' {
                let run: usize = find_white_end(source, at, source.len());
                if find_line_break(source, at, run) {
                    at = run;
                    folded = true;
                }
            }
            if !folded {
                if at >= source.len() || source.at(at) != c {
                    return str_len(value);
                }
                at += 1;
                end = at;
            }
        }
        k += 1;
    }
    proof {
        text::lemma_byte_len_range(source@, start as int, end as int);
    }
    source.offset(end) - source.offset(start)
}

/// The bytes of the content of the block scalar at `start`, which is indented by
/// `indent` spaces.
pub fn block_len_at(source: &SourceText, start: usize, indent: usize) -> (len: usize)
    requires
        source.wf(),
        start <= source@.len(),
    ensures
        len == block_len(source@, start as int, indent as nat),
{
    let mut at: usize = start;
    let mut end: usize = start;
    let mut first = true;
    while at < source.len()
        invariant_except_break
            block_end(source@, start as int, indent as nat, true, start as int) == block_end(
                source@,
                at as int,
                indent as nat,
                first,
                end as int,
            ),
        invariant
            source.wf(),
            start <= end <= at <= source@.len(),
        ensures
            end == block_end(source@, start as int, indent as nat, true, start as int),
        decreases source@.len() - at,
    {
        let stop: usize = find_line_end(source, at);
        let content: usize = find_white_end(source, at, stop);
        if content < stop {
            if !first && find_indent_end(source, at, stop) - at < indent {
                break;
            }
            end = find_trimmed_end(source, at, stop);
        }
        proof {
            if stop == source@.len() {
                assert(block_end(source@, stop + 1, indent as nat, false, end as int) == end);
            }
        }
        at = if stop < source.len() { stop + 1 } else { stop };
        first = false;
    }
    proof {
        text::lemma_byte_len_range(source@, start as int, end as int);
    }
    source.offset(end) - source.offset(start)
}

/// Where the tag stands that belongs to the value at `at`.
pub fn tag_range_before(source: &SourceText, at: usize) -> (range: Option<(usize, usize)>)
    requires
        at <= source@.len(),
    ensures
        match range {
            Some((start, end)) => {
                &&& tag_range(source@, at as int) == Some((start as int, end as int))
                &&& start < end <= at
            },
            None => tag_range(source@, at as int) is None,
        },
{
    let mut before: usize = at;
    loop
        invariant
            before <= at <= source@.len(),
            tag_range(source@, at as int) == tag_range(source@, before as int),
        decreases before,
    {
        let end: usize = find_trimmed_end(source, 0, before);
        let start: usize = find_token_start(source, end);
        let property: usize = find_flow_prefix_end(source, start, end);
        if property < end && source.at(property) == '!' {
            return Some((property, end));
        }
        if property >= end || source.at(property) != '&' {
            return None;
        }
        before = start;
    }
}

/// Where the entry indicator of a block sequence stands that is the last thing before `at`,
/// or `at`.
pub fn indicator_before(source: &SourceText, at: usize) -> (start: usize)
    requires
        at <= source@.len(),
    ensures
        start == indicator_start(source@, at as int),
        start <= at,
{
    let end: usize = find_trimmed_end(source, 0, at);
    let start: usize = find_token_start(source, end);
    if start < end && end - start == 1 && source.at(start) == '-' {
        start
    } else {
        at
    }
}

/// The length of the quoted scalar at `start`, quotes counted.
pub fn quoted_len_at(bytes: &[u8], start: usize, quote: u8) -> (len: Option<usize>)
    ensures
        match len {
            Some(n) => quoted_len(bytes@, start as int, quote) == Some(n as int),
            None => quoted_len(bytes@, start as int, quote) is None,
        },
{
    if start >= bytes.len() || bytes[start] != quote {
        return None;
    }
    let mut i: usize = start + 1;
    while i < bytes.len()
        invariant
            start < i <= bytes@.len(),
            bytes@[start as int] == quote,
            closing_quote(bytes@, start + 1, quote) == closing_quote(bytes@, i as int, quote),
        decreases bytes@.len() - i,
    {
        if bytes[i] == 0x5c && quote == 0x22 {
            assert(i + 1 == bytes@.len() ==> closing_quote(bytes@, i + 2, quote) is None);
            i = if i + 1 < bytes.len() { i + 2 } else { i + 1 };
        } else if bytes[i] == quote {
            if quote == 0x27 && i + 1 < bytes.len() && bytes[i + 1] == quote {
                i += 2;
            } else {
                return Some(i + 1 - start);
            }
        } else {
            i += 1;
        }
    }
    None
}

/// Length in bytes of a quoted scalar in the source, quotes counted.
///
/// `rest` starts at the opening quote. There is no length where it does not, or
/// where the closing quote is missing.
pub fn quoted_scalar_len(rest: &str, quote: u8) -> (len: Option<usize>)
    ensures
        match len {
            Some(n) => quoted_len(vstd::utf8::encode_utf8(rest@), 0, quote) == Some(n as int),
            None => quoted_len(vstd::utf8::encode_utf8(rest@), 0, quote) is None,
        },
{
    quoted_len_at(rest.as_bytes(), 0, quote)
}

/// Length in bytes of a plain scalar in the source.
///
/// A plain scalar can span lines, and the breaks between them are folded into
/// single spaces, or into line feeds for blank lines. So its value is walked back
/// onto the source character by character, letting a space or line feeds match a run of
/// line breaks. Where the two do not line up, the length is the value's.
pub fn plain_scalar_len(rest: &str, value: &str) -> (len: usize)
    ensures
        len == plain_len(rest@, 0, value@),
{
    plain_len_at(&SourceText::new(rest), 0, value)
}

/// Length in bytes of a block scalar's content in the source.
///
/// `rest` starts at the block's first content character, which stands at column
/// `indent`. The block goes on over the following lines while they are blank or
/// indented at least that far. Blank lines at its end are left out.
pub fn block_scalar_len(rest: &str, indent: usize) -> (len: usize)
    ensures
        len == block_len(rest@, 0, indent as nat),
{
    block_len_at(&SourceText::new(rest), 0, indent)
}

} // verus!
