//! Source text indexed by character, byte offset and line.

use crate::text;
use crate::text::{char_width, chars_of, str_len};
use vstd::prelude::*;

verus! {

/// A place in the source: a line counted from one, and a column counted in
/// characters from zero.
///
/// A running index would do as well, but for one thing: the scanner that gives the
/// markers counts its index in characters, and in bytes within block scalars.
#[derive(Debug, Clone, Copy, PartialEq, Eq, Structural)]
pub struct Marker {
    /// The line, counted from one.
    pub line: usize,
    /// The column, in characters, counted from zero.
    pub col: usize,
}

/// The first place at or after `i` where the text ends: at a NUL character,
/// which ends a YAML stream, or after the last character.
pub open spec fn text_end(s: Seq<char>, i: int) -> int
    decreases s.len() - i,
{
    if i >= s.len() || s[i] == '\0' {
        i
    } else {
        text_end(s, i + 1)
    }
}

/// Whether the character at `i` is the last one of its line. A line ends in LF,
/// in CR LF or in CR alone.
pub open spec fn ends_line(s: Seq<char>, i: int) -> bool {
    s[i] == '\n' || (s[i] == '\r' && !(i + 1 < s.len() && s[i + 1] == '\n'))
}

/// Where the lines start that begin within the first `n` characters.
pub open spec fn line_starts(s: Seq<char>, n: int) -> Seq<int>
    decreases n,
{
    if n <= 0 {
        seq![0int]
    } else if ends_line(s, n - 1) {
        line_starts(s, n - 1).push(n)
    } else {
        line_starts(s, n - 1)
    }
}

/// The index of the character that `marker` points at. A marker past the end of
/// the text points at the end.
pub open spec fn char_position(s: Seq<char>, marker: Marker) -> int {
    let end = text_end(s, 0);
    let starts = line_starts(s, end);
    if marker.line == 0 {
        0
    } else if marker.line > starts.len() || starts[marker.line - 1] + marker.col > end {
        end
    } else {
        starts[marker.line - 1] + marker.col
    }
}

/// The byte offset of the character that `marker` points at.
pub open spec fn byte_position(s: Seq<char>, marker: Marker) -> nat {
    text::byte_len(s.take(char_position(s, marker)))
}

/// The row that the character at `i` stands in, counted from zero: how many line feeds
/// stand before it.
pub open spec fn row_at(s: Seq<char>, i: int) -> int
    decreases i,
{
    if i <= 0 {
        0
    } else if s[i - 1] == '\n' {
        row_at(s, i - 1) + 1
    } else {
        row_at(s, i - 1)
    }
}

/// The column that the character at `i` stands in, counted from zero: how many
/// characters stand before it in its row.
pub open spec fn column_at(s: Seq<char>, i: int) -> int
    decreases i,
{
    if i <= 0 || s[i - 1] == '\n' {
        0
    } else {
        column_at(s, i - 1) + 1
    }
}

/// The index after the last whole character that starts at or after `i` and ends
/// no more than `limit` bytes behind it.
pub open spec fn clip(s: Seq<char>, i: int, limit: nat) -> int
    decreases s.len() - i,
{
    if i >= s.len() || text::utf8_width(s[i]) > limit {
        i
    } else {
        clip(s, i + 1, (limit - text::utf8_width(s[i])) as nat)
    }
}

/// The end of the text lies in the text.
pub proof fn lemma_text_end(s: Seq<char>, i: int)
    requires
        0 <= i <= s.len(),
    ensures
        i <= text_end(s, i) <= s.len(),
    decreases s.len() - i,
{
    if i < s.len() && s[i] != '\0' {
        lemma_text_end(s, i + 1);
    }
}

/// There is a first line, and every line starts in the text.
pub proof fn lemma_line_starts(s: Seq<char>, n: int)
    requires
        0 <= n,
    ensures
        line_starts(s, n).len() >= 1,
        forall|k: int|
            0 <= k < line_starts(s, n).len() ==> 0 <= #[trigger] line_starts(s, n)[k] <= n,
    decreases n,
{
    if n > 0 {
        lemma_line_starts(s, n - 1);
    }
}

/// A marker points into the source or at its end.
pub proof fn lemma_char_position(s: Seq<char>, marker: Marker)
    ensures
        0 <= char_position(s, marker) <= s.len(),
{
    lemma_text_end(s, 0);
    lemma_line_starts(s, text_end(s, 0));
}

/// Clipping goes forward, stays in the text and keeps to the limit.
pub proof fn lemma_clip(s: Seq<char>, i: int, limit: nat)
    requires
        0 <= i <= s.len(),
    ensures
        i <= clip(s, i, limit) <= s.len(),
        text::byte_len(s.subrange(i, clip(s, i, limit))) <= limit,
    decreases s.len() - i,
{
    if i >= s.len() || text::utf8_width(s[i]) > limit {
        assert(s.subrange(i, i) =~= Seq::<char>::empty());
    } else {
        let rest = (limit - text::utf8_width(s[i])) as nat;
        let end = clip(s, i + 1, rest);
        lemma_clip(s, i + 1, rest);
        text::lemma_byte_len_range(s, i, end);
        text::lemma_byte_len_range(s, i + 1, end);
        text::lemma_byte_len_step(s, i);
    }
}

/// A limit that is exactly a range's length is reached.
pub proof fn lemma_clip_exact(s: Seq<char>, i: int, j: int)
    requires
        0 <= i <= j <= s.len(),
    ensures
        clip(s, i, text::byte_len(s.subrange(i, j))) == j,
    decreases j - i,
{
    text::lemma_byte_len_range(s, i, j);
    if i < j {
        text::lemma_byte_len_step(s, i);
        text::lemma_byte_len_range(s, i + 1, j);
        lemma_clip_exact(s, i + 1, j);
    }
}

/// A limit that is not enough for one more character stops before it.
pub proof fn lemma_clip_between(s: Seq<char>, i: int, j: int, limit: nat)
    requires
        0 <= i <= j <= s.len(),
        text::byte_len(s.subrange(i, j)) <= limit,
        j < s.len() ==> limit < text::byte_len(s.subrange(i, j + 1)),
    ensures
        clip(s, i, limit) == j,
    decreases j - i,
{
    text::lemma_byte_len_range(s, i, j);
    if j < s.len() {
        text::lemma_byte_len_range(s, i, j + 1);
    }
    if i < j {
        text::lemma_byte_len_step(s, i);
        text::lemma_byte_len_range(s, i + 1, j);
        if j < s.len() {
            text::lemma_byte_len_range(s, i + 1, j + 1);
        }
        lemma_clip_between(s, i + 1, j, (limit - text::utf8_width(s[i])) as nat);
    } else if j < s.len() {
        text::lemma_byte_len_step(s, i);
    }
}

/// A limit beyond the text takes in all of it.
pub proof fn lemma_clip_beyond(s: Seq<char>, i: int, limit: nat)
    requires
        0 <= i <= s.len(),
        text::byte_len(s.subrange(i, s.len() as int)) <= limit,
    ensures
        clip(s, i, limit) == s.len(),
    decreases s.len() - i,
{
    let len = s.len() as int;
    if i < len {
        text::lemma_byte_len_range(s, i, len);
        text::lemma_byte_len_step(s, i);
        text::lemma_byte_len_range(s, i + 1, len);
        lemma_clip_beyond(s, i + 1, (limit - text::utf8_width(s[i])) as nat);
    }
}

/// The characters of a source, with the byte offset of each of them and the place
/// where each line starts.
pub struct SourceText {
    chars: Vec<char>,
    offsets: Vec<usize>,
    starts: Vec<usize>,
    end: usize,
}

impl View for SourceText {
    type V = Seq<char>;

    closed spec fn view(&self) -> Seq<char> {
        self.chars@
    }
}

impl SourceText {
    /// The tables agree with the characters.
    pub closed spec fn wf(self) -> bool {
        &&& self.offsets@.len() == self.chars@.len() + 1
        &&& forall|i: int|
            0 <= i <= self.chars@.len() ==> #[trigger] self.offsets@[i] == text::byte_len(
                self.chars@.take(i),
            )
        &&& self.end == text_end(self.chars@, 0)
        &&& self.starts@.len() == line_starts(self.chars@, self.end as int).len()
        &&& forall|k: int|
            0 <= k < self.starts@.len() ==> #[trigger] self.starts@[k] == line_starts(
                self.chars@,
                self.end as int,
            )[k]
    }

    /// Indexes `source`.
    pub fn new(source: &str) -> (text: SourceText)
        ensures
            text.wf(),
            text@ == source@,
    {
        let total: usize = str_len(source);
        let chars = chars_of(source);
        let mut offsets: Vec<usize> = Vec::new();
        offsets.push(0);
        let mut i: usize = 0;
        while i < chars.len()
            invariant
                chars@ == source@,
                total == text::byte_len(source@),
                i <= chars@.len(),
                offsets@.len() == i + 1,
                forall|j: int|
                    0 <= j <= i ==> #[trigger] offsets@[j] == text::byte_len(chars@.take(j)),
            decreases chars.len() - i,
        {
            proof {
                text::lemma_byte_len_step(chars@, i as int);
                text::lemma_byte_len_range(chars@, i + 1, chars@.len() as int);
            }
            let next: usize = offsets[i] + char_width(chars[i]);
            offsets.push(next);
            i += 1;
        }
        let mut end: usize = 0;
        while end < chars.len() && chars[end] != '\0'
            invariant
                end <= chars@.len(),
                text_end(chars@, 0) == text_end(chars@, end as int),
            decreases chars.len() - end,
        {
            end += 1;
        }
        let mut starts: Vec<usize> = Vec::new();
        starts.push(0);
        let mut n: usize = 0;
        while n < end
            invariant
                n <= end <= chars@.len(),
                starts@.len() == line_starts(chars@, n as int).len(),
                forall|k: int|
                    0 <= k < starts@.len() ==> #[trigger] starts@[k] == line_starts(
                        chars@,
                        n as int,
                    )[k],
            decreases end - n,
        {
            if chars[n] == '\n' || (chars[n] == '\r' && !(n + 1 < chars.len() && chars[n + 1]
                == '\n')) {
                starts.push(n + 1);
            }
            n += 1;
        }
        SourceText { chars, offsets, starts, end }
    }

    /// The number of characters.
    pub fn len(&self) -> (len: usize)
        ensures
            len == self@.len(),
    {
        self.chars.len()
    }

    /// The character at `i`.
    pub fn at(&self, i: usize) -> (c: char)
        requires
            i < self@.len(),
        ensures
            c == self@[i as int],
    {
        self.chars[i]
    }

    /// The byte offset of the character at `i`.
    pub fn offset(&self, i: usize) -> (offset: usize)
        requires
            self.wf(),
            i <= self@.len(),
        ensures
            offset == text::byte_len(self@.take(i as int)),
    {
        self.offsets[i]
    }

    /// The index of the character that `marker` points at.
    pub fn position(&self, marker: &Marker) -> (i: usize)
        requires
            self.wf(),
        ensures
            i == char_position(self@, *marker),
            i <= self@.len(),
    {
        proof {
            lemma_char_position(self@, *marker);
            lemma_line_starts(self@, self.end as int);
        }
        if marker.line == 0 {
            return 0;
        }
        if marker.line > self.starts.len() {
            return self.end;
        }
        let start: usize = self.starts[marker.line - 1];
        assert(start == line_starts(self@, self.end as int)[marker.line - 1]);
        if marker.col > self.end - start {
            self.end
        } else {
            start + marker.col
        }
    }

    /// The index after the last whole character within `limit` bytes behind `i`.
    pub fn clip_from(&self, i: usize, limit: usize) -> (end: usize)
        requires
            self.wf(),
            i <= self@.len(),
        ensures
            end == clip(self@, i as int, limit as nat),
            i <= end <= self@.len(),
    {
        let mut end: usize = i;
        let mut left: usize = limit;
        while end < self.chars.len() && char_width(self.chars[end]) <= left
            invariant
                i <= end <= self@.len(),
                clip(self@, i as int, limit as nat) == clip(self@, end as int, left as nat),
            decreases self.chars.len() - end,
        {
            left -= char_width(self.chars[end]);
            end += 1;
        }
        end
    }

    /// The index of the character that the byte at `offset` belongs to, or the end of the
    /// text.
    pub fn index_at(&self, offset: usize) -> (i: usize)
        requires
            self.wf(),
        ensures
            i == clip(self@, 0, offset as nat),
            i <= self@.len(),
    {
        let mut lo: usize = 0;
        let mut hi: usize = self.chars.len();
        assert(self@.take(0) =~= Seq::empty());
        while lo < hi
            invariant
                self.wf(),
                lo <= hi <= self@.len(),
                text::byte_len(self@.take(lo as int)) <= offset,
                hi < self@.len() ==> offset < text::byte_len(self@.take(hi + 1)),
            decreases hi - lo,
        {
            let mid: usize = lo + (hi - lo) / 2 + 1;
            assert(self.offsets@[mid as int] == text::byte_len(self@.take(mid as int)));
            if self.offsets[mid] <= offset {
                lo = mid;
            } else {
                hi = mid - 1;
            }
        }
        proof {
            assert(self@.subrange(0, lo as int) =~= self@.take(lo as int));
            if lo < self@.len() {
                assert(self@.subrange(0, lo + 1) =~= self@.take(lo + 1));
            }
            lemma_clip_between(self@, 0, lo as int, offset as nat);
        }
        lo
    }
}

} // verus!
