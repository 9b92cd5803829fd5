//! The plain-text editing surface: the whole text as one block, edited only
//! through byte-faithful splices, with Emacs line conventions.
//!
//! The model of a surface is its UTF-8 byte sequence. An empty document has
//! one (empty) line, `"a\n"` is one line and `"a\nb"` is two. Offsets and
//! columns are byte offsets; a `\r` before a `\n` is line content.

use vstd::prelude::*;
use vstd::utf8::*;
use vstd::string::*;
use crate::utf8::{utf8, lemma_boundary_in_range, lemma_encode_concat, lemma_valid_prefix_is_boundary, split_owned};

verus! {

broadcast use vstd::seq::group_seq_axioms, vstd::seq_lib::group_seq_properties;

pub open spec fn is_newline(b: u8) -> bool {
    b == 10
}

/// How many `\n` bytes a byte sequence holds.
pub open spec fn newline_count(b: Seq<u8>) -> nat
    decreases b.len(),
{
    if b.len() == 0 {
        0
    } else {
        newline_count(b.drop_last()) + if is_newline(b.last()) {
            1nat
        } else {
            0nat
        }
    }
}

/// The line starts found among the first `n` bytes: offset 0, then every
/// offset that follows a `\n` and is not the end of the text.
pub open spec fn starts_prefix(b: Seq<u8>, n: int) -> Seq<int>
    decreases n,
{
    if n <= 0 {
        seq![0]
    } else if is_newline(b[n - 1]) && n < b.len() {
        starts_prefix(b, n - 1).push(n)
    } else {
        starts_prefix(b, n - 1)
    }
}

/// The byte offset of every line start.
pub open spec fn line_starts_of(b: Seq<u8>) -> Seq<int> {
    starts_prefix(b, b.len() as int)
}

/// The number of lines under the Emacs convention (never zero): one per `\n`,
/// plus one for a last line that no `\n` ends.
pub open spec fn lines_in(b: Seq<u8>) -> nat {
    if b.len() > 0 && !is_newline(b.last()) {
        newline_count(b) + 1
    } else if newline_count(b) == 0 {
        1
    } else {
        newline_count(b)
    }
}

/// The byte range of line `line`'s characters, without its `\n`.
pub open spec fn line_range_of(b: Seq<u8>, line: int) -> (int, int) {
    let starts = line_starts_of(b);
    let start = starts[line];
    let hard_end = if line + 1 < starts.len() {
        starts[line + 1]
    } else {
        b.len() as int
    };
    let end = if hard_end > start && is_newline(b[hard_end - 1]) {
        hard_end - 1
    } else {
        hard_end
    };
    (start, end)
}

/// The offset just after the last `\n` among the first `n` bytes (0 if none).
pub open spec fn last_start(b: Seq<u8>, n: int) -> int
    decreases n,
{
    if n <= 0 {
        0
    } else if is_newline(b[n - 1]) {
        n
    } else {
        last_start(b, n - 1)
    }
}

/// (line, byte column) of a byte offset.
pub open spec fn line_col_of(b: Seq<u8>, offset: int) -> (int, int) {
    (newline_count(b.subrange(0, offset)) as int, offset - last_start(b, offset))
}

/// Whether (line, column) names a position: a char boundary inside a line,
/// or column 0 of the line after the last one (the end of the text).
pub open spec fn position_exists(b: Seq<u8>, line: int, col: int) -> bool {
    let starts = line_starts_of(b);
    ||| (line == starts.len() && col == 0)
    ||| (0 <= line < starts.len() && 0 <= col && line_range_of(b, line).0 + col
        <= line_range_of(b, line).1 && is_char_boundary(
        b,
        line_range_of(b, line).0 + col,
    ))
}

/// The byte offset that (line, column) names.
pub open spec fn offset_of_pos(b: Seq<u8>, line: int, col: int) -> int {
    if line == line_starts_of(b).len() {
        b.len() as int
    } else {
        line_range_of(b, line).0 + col
    }
}

/// `b` with the bytes in `start..end` replaced by `text`.
pub open spec fn spliced(b: Seq<u8>, start: int, end: int, text: Seq<u8>) -> Seq<u8> {
    b.subrange(0, start) + text + b.subrange(end, b.len() as int)
}

/// A splice is undone by splicing the old bytes back over the new ones: an
/// insert is undone by deleting what it inserted, a delete by inserting what it
/// deleted, a replace by replacing back.
pub proof fn lemma_splice_undoes(b: Seq<u8>, start: int, end: int, text: Seq<u8>)
    requires
        0 <= start <= end <= b.len(),
    ensures
        spliced(spliced(b, start, end, text), start, start + text.len(), b.subrange(start, end)) == b,
{
    let m = spliced(b, start, end, text);
    assert(m.subrange(0, start) =~= b.subrange(0, start));
    assert(m.subrange(start + text.len(), m.len() as int) =~= b.subrange(end, b.len() as int));
    assert(b.subrange(0, start) + b.subrange(start, end) + b.subrange(end, b.len() as int) =~= b);
}

/// The whole text as one block.
#[derive(Debug, Clone, PartialEq, Eq)]
pub struct TextSurface {
    source: String,
}

impl View for TextSurface {
    type V = Seq<u8>;

    closed spec fn view(&self) -> Seq<u8> {
        utf8(self.source@)
    }
}

/// A surface always holds well-formed UTF-8.
pub proof fn lemma_surface_valid(s: &TextSurface)
    ensures
        valid_utf8(s@),
{
    encode_utf8_valid_utf8(s.source@);
}

proof fn lemma_newline_count_push(b: Seq<u8>, n: int)
    requires
        0 <= n < b.len(),
    ensures
        newline_count(b.subrange(0, n + 1)) == newline_count(b.subrange(0, n)) + if is_newline(
            b[n],
        ) {
            1nat
        } else {
            0nat
        },
{
    assert(b.subrange(0, n + 1).drop_last() =~= b.subrange(0, n));
}

proof fn lemma_newline_count_bound(b: Seq<u8>)
    ensures
        newline_count(b) <= b.len(),
        b.len() > 0 && !is_newline(b.last()) ==> newline_count(b) < b.len(),
    decreases b.len(),
{
    if b.len() > 0 {
        lemma_newline_count_bound(b.drop_last());
    }
}

proof fn lemma_starts_shape(b: Seq<u8>, n: int)
    requires
        0 <= n <= b.len(),
    ensures
        starts_prefix(b, n).len() >= 1,
        starts_prefix(b, n)[0] == 0,
        forall|k: int| 0 <= k < starts_prefix(b, n).len() ==> 0 <= #[trigger] starts_prefix(b, n)[k] <= n,
        forall|k: int| 0 < k < starts_prefix(b, n).len() ==> #[trigger] starts_prefix(b, n)[k] < b.len(),
        forall|k: int| 0 < k < starts_prefix(b, n).len() ==> is_newline(b[#[trigger] starts_prefix(b, n)[k] - 1]),
        forall|j: int, k: int|
            0 <= j < k < starts_prefix(b, n).len() ==> #[trigger] starts_prefix(b, n)[j] < #[trigger] starts_prefix(b, n)[k],
    decreases n,
{
    if n > 0 {
        lemma_starts_shape(b, n - 1);
    }
}

proof fn lemma_starts_extend(b: Seq<u8>, n: int, m: int)
    requires
        0 <= n <= m <= b.len(),
    ensures
        starts_prefix(b, n).len() <= starts_prefix(b, m).len(),
        forall|k: int| 0 <= k < starts_prefix(b, n).len() ==> #[trigger] starts_prefix(b, m)[k] == starts_prefix(b, n)[k],
        forall|k: int|
            starts_prefix(b, n).len() <= k < starts_prefix(b, m).len() ==> #[trigger] starts_prefix(b, m)[k] > n,
    decreases m - n,
{
    if m > n {
        lemma_starts_extend(b, n, m - 1);
    }
}

/// The line count and last line start among the first `n` bytes.
proof fn lemma_starts_count(b: Seq<u8>, n: int)
    requires
        0 <= n <= b.len(),
    ensures
        (n < b.len() || n == 0 || !is_newline(b[n - 1])) ==> {
            &&& starts_prefix(b, n).len() == newline_count(b.subrange(0, n)) + 1
            &&& starts_prefix(b, n).last() == last_start(b, n)
            &&& last_start(b, n) < b.len() || b.len() == 0
        },
        !(n < b.len() || n == 0 || !is_newline(b[n - 1])) ==> {
            &&& starts_prefix(b, n).len() == newline_count(b.subrange(0, n))
            &&& last_start(b, n) == b.len()
        },
        0 <= last_start(b, n) <= n,
    decreases n,
{
    if n == 0 {
        assert(b.subrange(0, 0) =~= Seq::<u8>::empty());
    } else {
        lemma_starts_count(b, n - 1);
        lemma_newline_count_push(b, n - 1);
    }
}

/// The line count is the number of line starts: every line has exactly one start.
pub proof fn lemma_len_lines_counts_starts(b: Seq<u8>)
    ensures
        lines_in(b) == line_starts_of(b).len(),
{
    lemma_starts_count(b, b.len() as int);
    assert(b.subrange(0, b.len() as int) =~= b);
}

/// Line/column math round-trips: every char-boundary offset names a position,
/// and that position names the offset again.
pub proof fn lemma_line_col_round_trip(b: Seq<u8>, offset: int)
    requires
        valid_utf8(b),
        0 <= offset <= b.len(),
        is_char_boundary(b, offset),
    ensures
        position_exists(b, line_col_of(b, offset).0, line_col_of(b, offset).1),
        offset_of_pos(b, line_col_of(b, offset).0, line_col_of(b, offset).1) == offset,
{
    let len = b.len() as int;
    let lc = line_col_of(b, offset);
    let starts = line_starts_of(b);
    let prefix = starts_prefix(b, offset);
    lemma_starts_count(b, offset);
    lemma_starts_extend(b, offset, len);
    lemma_starts_shape(b, len);
    if offset < len || offset == 0 || !is_newline(b[offset - 1]) {
        let line = lc.0;
        assert(prefix.len() == line + 1);
        assert(starts[line] == prefix[line]);
        assert(starts[line] == last_start(b, offset));
        let r = line_range_of(b, line);
        assert(r.0 == last_start(b, offset));
        if line + 1 < starts.len() {
            assert(starts[line + 1] > offset);
        } else {
            if offset == len && len > 0 && is_newline(b[len - 1]) {
                assert(false);
            }
        }
        assert(r.0 + lc.1 == offset);
        assert(offset <= r.1);
    } else {
        assert(b.subrange(0, offset) =~= b);
        assert(starts.len() == lc.0);
        assert(lc.1 == 0);
    }
}

impl Default for TextSurface {
    fn default() -> (r: Self)
        ensures
            r@ == Seq::<u8>::empty(),
    {
        TextSurface { source: String::new() }
    }
}

impl TextSurface {
    pub fn new(source: &str) -> (r: Self)
        ensures
            r@ == source.spec_bytes(),
    {
        TextSurface { source: source.to_owned() }
    }

    pub fn source(&self) -> (r: &str)
        ensures
            r.spec_bytes() == self@,
    {
        self.source.as_str()
    }

    pub fn into_source(self) -> (r: String)
        ensures
            utf8(r@) == self@,
    {
        self.source
    }

    /// Byte offset of every line start (line 0 starts at 0). A trailing `\n`
    /// does not start a new line.
    pub fn line_starts(&self) -> (r: Vec<usize>)
        ensures
            r@.len() == line_starts_of(self@).len(),
            forall|k: int| 0 <= k < r@.len() ==> r@[k] as int == #[trigger] line_starts_of(self@)[k],
    {
        let b = self.source.as_str().as_bytes();
        let n = b.len();
        let mut starts: Vec<usize> = Vec::new();
        starts.push(0);
        let mut i: usize = 0;
        while i < n
            invariant
                0 <= i <= n,
                n == b@.len(),
                b@ == self@,
                starts@.len() == starts_prefix(b@, i as int).len(),
                forall|k: int| 0 <= k < starts@.len() ==> starts@[k] as int == #[trigger] starts_prefix(b@, i as int)[k],
            decreases n - i,
        {
            if b[i] == 10u8 && i + 1 < n {
                starts.push(i + 1);
            }
            i = i + 1;
        }
        starts
    }

    /// Number of lines under the Emacs convention (never zero).
    pub fn len_lines(&self) -> (r: usize)
        ensures
            r == lines_in(self@),
    {
        let b = self.source.as_str().as_bytes();
        let n = b.len();
        let mut count: usize = 0;
        let mut i: usize = 0;
        while i < n
            invariant
                0 <= i <= n,
                n == b@.len(),
                b@ == self@,
                count == newline_count(b@.subrange(0, i as int)),
                count <= i,
            decreases n - i,
        {
            proof {
                lemma_newline_count_push(b@, i as int);
            }
            if b[i] == 10u8 {
                count = count + 1;
            }
            i = i + 1;
        }
        proof {
            assert(b@.subrange(0, n as int) =~= b@);
            lemma_newline_count_bound(b@);
        }
        if n > 0 && b[n - 1] != 10u8 {
            count + 1
        } else if count == 0 {
            1
        } else {
            count
        }
    }

    /// Byte range of a line's characters, excluding the `\n` terminator.
    pub fn line_range(&self, line: usize) -> (r: std::ops::Range<usize>)
        requires
            line < line_starts_of(self@).len(),
        ensures
            (r.start as int, r.end as int) == line_range_of(self@, line as int),
            r.start <= r.end <= self@.len(),
    {
        let starts = self.line_starts();
        let b = self.source.as_str().as_bytes();
        proof {
            lemma_starts_shape(self@, self@.len() as int);
        }
        assert(line < starts.len());
        let start = starts[line];
        let hard_end = if line + 1 < starts.len() {
            proof {
                assert(starts@[line + 1] as int == line_starts_of(self@)[line + 1]);
                assert(line_starts_of(self@)[line + 1] < self@.len());
            }
            starts[line + 1]
        } else {
            b.len()
        };
        proof {
            assert(starts@[line as int] as int == line_starts_of(self@)[line as int]);
            assert(line + 1 < starts@.len() ==> line_starts_of(self@)[line as int] < line_starts_of(self@)[line + 1]);
        }
        let end = if hard_end > start && b[hard_end - 1] == 10u8 {
            hard_end - 1
        } else {
            hard_end
        };
        start..end
    }

    /// Byte offset of (0-based line, byte column). `line == len_lines()` with
    /// column 0 is the position one past the last character.
    pub fn offset_of(&self, line: usize, col: usize) -> (r: usize)
        requires
            position_exists(self@, line as int, col as int),
        ensures
            r == offset_of_pos(self@, line as int, col as int),
    {
        let starts = self.line_starts();
        if line == starts.len() {
            return self.source.as_str().as_bytes().len();
        }
        let range = self.line_range(line);
        range.start + col
    }

    /// (0-based line, 0-based byte column) of a byte offset. `offset == len`
    /// addresses the position after the last character.
    pub fn line_col(&self, offset: usize) -> (r: (usize, usize))
        requires
            offset <= self@.len(),
            is_char_boundary(self@, offset as int),
        ensures
            (r.0 as int, r.1 as int) == line_col_of(self@, offset as int),
    {
        let b = self.source.as_str().as_bytes();
        let mut line: usize = 0;
        let mut last: usize = 0;
        let mut i: usize = 0;
        while i < offset
            invariant
                0 <= i <= offset <= b@.len(),
                b@ == self@,
                line == newline_count(b@.subrange(0, i as int)),
                line <= i,
                last == last_start(b@, i as int),
                last <= i,
            decreases offset - i,
        {
            proof {
                lemma_newline_count_push(b@, i as int);
            }
            if b[i] == 10u8 {
                line = line + 1;
                last = i + 1;
            }
            i = i + 1;
        }
        (line, offset - last)
    }

    /// Byte-faithful insert at a char boundary.
    pub fn insert(&mut self, offset: usize, text: &str)
        requires
            is_char_boundary(old(self)@, offset as int),
        ensures
            final(self)@ == spliced(old(self)@, offset as int, offset as int, text.spec_bytes()),
    {
        proof {
            lemma_surface_valid(self);
            lemma_boundary_in_range(self@, offset as int);
        }
        let (head, tail) = split_owned(self.source.as_str(), offset);
        let ghost h = head@;
        let ghost t = tail@;
        let mut out = head;
        out.append(text);
        out.append(tail.as_str());
        proof {
            lemma_encode_concat(h + text@, t);
            lemma_encode_concat(h, text@);
        }
        self.source = out;
    }

    /// Byte-faithful delete; everything outside `range` is untouched.
    pub fn delete(&mut self, range: std::ops::Range<usize>)
        requires
            range.start <= range.end,
            is_char_boundary(old(self)@, range.start as int),
            is_char_boundary(old(self)@, range.end as int),
        ensures
            final(self)@ == spliced(old(self)@, range.start as int, range.end as int, Seq::empty()),
    {
        proof {
            lemma_surface_valid(self);
            lemma_boundary_in_range(self@, range.end as int);
        }
        let (head, _) = split_owned(self.source.as_str(), range.start);
        let (_, tail) = split_owned(self.source.as_str(), range.end);
        let ghost h = head@;
        let ghost t = tail@;
        let mut out = head;
        out.append(tail.as_str());
        proof {
            lemma_encode_concat(h, t);
            assert(old(self)@.subrange(0, range.start as int) + Seq::<u8>::empty() =~= old(self)@.subrange(0, range.start as int));
        }
        self.source = out;
    }

    /// Byte-faithful replace: the one primitive node-granular editing composes from.
    pub fn replace(&mut self, range: std::ops::Range<usize>, text: &str)
        requires
            range.start <= range.end,
            is_char_boundary(old(self)@, range.start as int),
            is_char_boundary(old(self)@, range.end as int),
        ensures
            final(self)@ == spliced(old(self)@, range.start as int, range.end as int, text.spec_bytes()),
    {
        let ghost before = self@;
        proof {
            lemma_surface_valid(self);
            lemma_boundary_in_range(before, range.end as int);
            lemma_boundary_in_range(before, range.start as int);
        }
        self.delete(range.start..range.end);
        proof {
            lemma_surface_valid(self);
            let b = before;
            encode_utf8_valid_utf8(self.source@);
            assert(self@.subrange(0, range.start as int) =~= b.subrange(0, range.start as int));
            valid_utf8_split(b, range.start as int);
            lemma_valid_prefix_is_boundary(self@, range.start as int);
        }
        self.insert(range.start, text);
        proof {
            assert(self@ =~= spliced(before, range.start as int, range.end as int, text.spec_bytes()));
        }
    }
}

} // verus!
