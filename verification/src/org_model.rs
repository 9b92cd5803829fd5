//! The org grammar, stated over the source's chars.
//!
//! A source is cut into lines at `\n`; each line is classified in a fixed
//! order (headline, `#+begin_src` block, drawer, checkbox item, table run,
//! text run) and a headline owns the lines below it until a headline with as
//! many stars or fewer. Strings in the model are char sequences of the source;
//! ranges are byte ranges (`byte_pos` of char positions).

use vstd::prelude::*;
use crate::utf8::{byte_pos, lemma_byte_pos_mono, lemma_byte_pos_bounds};
use vstd::utf8::encode_utf8;
use crate::unicode::{
    is_white_space, is_alphanumeric_char, is_ascii_alnum, is_ascii_upper, is_ascii_digit,
    ascii_lower, skip_white, find_white, find_char, trimmed,
};

verus! {

broadcast use vstd::seq::group_seq_axioms, vstd::seq_lib::group_seq_properties;

/// One line, by char positions: its content is `start..end`; `next` is the
/// start of the following line (one past the `\n`), or the end of the source.
pub struct LineM {
    pub start: int,
    pub end: int,
    pub next: int,
}

pub open spec fn lines_scan(src: Seq<char>, start: int, j: int) -> Seq<LineM>
    decreases src.len() - j,
{
    if j >= src.len() {
        seq![LineM { start, end: src.len() as int, next: src.len() as int }]
    } else if src[j] == '\n' {
        seq![LineM { start, end: j, next: j + 1 }] + lines_scan(src, j + 1, j + 1)
    } else {
        lines_scan(src, start, j + 1)
    }
}

/// The lines of a source. Never empty: an empty source is one empty line.
pub open spec fn lines_of(src: Seq<char>) -> Seq<LineM> {
    lines_scan(src, 0, 0)
}

pub open spec fn content(src: Seq<char>, l: LineM) -> Seq<char> {
    src.subrange(l.start, l.end)
}

/// The whole line's byte range, terminator included.
pub open spec fn line_bytes(src: Seq<char>, l: LineM) -> (int, int) {
    (byte_pos(src, l.start), byte_pos(src, l.next))
}

pub open spec fn lines_wf(src: Seq<char>, lines: Seq<LineM>) -> bool {
    &&& lines.len() >= 1
    &&& lines[0].start == 0
    &&& lines.last().next == src.len()
    &&& forall|k: int| 0 <= k < lines.len() - 1 ==> #[trigger] lines[k].next == lines[k + 1].start
    &&& forall|k: int|
        0 <= k < lines.len() ==> 0 <= #[trigger] lines[k].start <= lines[k].end <= lines[k].next
            <= src.len()
    &&& forall|k: int| 0 <= k < lines.len() - 1 ==> #[trigger] lines[k].next == lines[k].end + 1
}

// ----- model of the typed nodes -------------------------------------------

pub struct HeadingM {
    pub level: int,
    pub todo: Option<Seq<char>>,
    pub priority: Option<char>,
    pub title: Seq<char>,
    pub tags: Seq<Seq<char>>,
    pub keyword_range: Option<(int, int)>,
    pub range: (int, int),
    pub body: Seq<NodeM>,
}

pub struct SrcBlockM {
    pub language: Option<Seq<char>>,
    pub body: Seq<char>,
    pub range: (int, int),
}

pub struct DrawerM {
    pub name: Seq<char>,
    pub body: Seq<char>,
    pub range: (int, int),
}

pub struct CheckboxM {
    pub checked: bool,
    pub text: Seq<char>,
    pub state_range: (int, int),
    pub range: (int, int),
}

pub struct TableM {
    pub lines: Seq<Seq<char>>,
    pub range: (int, int),
}

pub enum NodeM {
    Heading(HeadingM),
    SrcBlock(SrcBlockM),
    Drawer(DrawerM),
    CheckboxItem(CheckboxM),
    Table(TableM),
    Text((int, int)),
}

pub open spec fn node_range(n: NodeM) -> (int, int) {
    match n {
        NodeM::Heading(h) => h.range,
        NodeM::SrcBlock(b) => b.range,
        NodeM::Drawer(d) => d.range,
        NodeM::CheckboxItem(c) => c.range,
        NodeM::Table(t) => t.range,
        NodeM::Text(r) => r,
    }
}

// ----- headlines ----------------------------------------------------------

/// The index after a run of `ch` in `s[i..end]`.
pub open spec fn run_of(s: Seq<char>, ch: char, i: int, end: int) -> int
    decreases end - i,
{
    if i < end && s[i] == ch {
        run_of(s, ch, i + 1, end)
    } else {
        i
    }
}

/// A headline's star count: one to 255 `*` at the start of line `l`,
/// FOLLOWED BY A SPACE. A stars-only line is text.
pub open spec fn heading_stars_of(src: Seq<char>, l: LineM) -> Option<int> {
    let k = run_of(src, '*', l.start, l.end) - l.start;
    if k == 0 || k > 255 {
        None
    } else if l.start + k < l.end && src[l.start + k] == ' ' {
        Some(k)
    } else {
        None
    }
}

pub open spec fn is_keyword_char(c: char) -> bool {
    is_ascii_upper(c) || is_ascii_digit(c) || c == '_'
}

pub open spec fn is_tag_char(c: char) -> bool {
    is_alphanumeric_char(c) || c == '_' || c == '@' || c == '#' || c == '%'
}

/// Where the run of tag chars and colons that ends at `j` (and stays within
/// `a..j`) begins.
pub open spec fn tag_run_start(s: Seq<char>, a: int, j: int) -> int
    decreases j - a,
{
    if j > a && (is_tag_char(s[j - 1]) || s[j - 1] == ':') {
        tag_run_start(s, a, j - 1)
    } else {
        j
    }
}

/// The non-empty pieces of `s[j..end]` between colons, the current piece
/// having begun at `start`.
pub open spec fn colon_pieces(s: Seq<char>, start: int, j: int, end: int) -> Seq<Seq<char>>
    decreases end - j,
{
    if j >= end {
        if start < j {
            seq![s.subrange(start, j)]
        } else {
            seq![]
        }
    } else if s[j] == ':' {
        (if start < j {
            seq![s.subrange(start, j)]
        } else {
            seq![]
        }) + colon_pieces(s, j + 1, j + 1, end)
    } else {
        colon_pieces(s, start, j + 1, end)
    }
}

/// A trailing `:a:b:` tag cookie of `s[a..b]`: where the title part ends,
/// and the tags in order.
pub open spec fn split_tags_of(s: Seq<char>, a: int, b: int) -> (int, Seq<Seq<char>>) {
    if b <= a || s[b - 1] != ':' {
        (b, seq![])
    } else {
        let rs = tag_run_start(s, a, b);
        if s[rs] != ':' || b - rs < 2 {
            (b, seq![])
        } else {
            (rs, colon_pieces(s, rs, rs, b))
        }
    }
}

/// The end of a headline's parsed text: a trailing `\r` is content for the
/// byte ranges but never part of the title, tags or keyword.
pub open spec fn heading_text_end(src: Seq<char>, l: LineM) -> int {
    if l.end > l.start && src[l.end - 1] == '\r' {
        l.end - 1
    } else {
        l.end
    }
}

/// The end of the first space-separated token at `r0`.
pub open spec fn keyword_end(src: Seq<char>, l: LineM, stars: int) -> int {
    find_char(src, ' ', l.start + stars + 1, heading_text_end(src, l))
}

/// The keyword slot: an ALL-CAPS token (digits and `_` allowed) of two or
/// more chars right after the stars and their space.
pub open spec fn has_keyword(src: Seq<char>, l: LineM, stars: int) -> bool {
    let r0 = l.start + stars + 1;
    let t = keyword_end(src, l, stars);
    t - r0 >= 2 && forall|i: int| r0 <= i < t ==> #[trigger] is_keyword_char(src[i])
}

/// The headline parse of line `l` (whose star count is `stars`), with the
/// subtree `body` below it.
#[verifier::opaque]
pub open spec fn heading_of(src: Seq<char>, l: LineM, stars: int, body: Seq<NodeM>) -> HeadingM {
    let cend = heading_text_end(src, l);
    let r0 = l.start + stars + 1;
    let t = keyword_end(src, l, stars);
    let is_kw = has_keyword(src, l, stars);
    let r1 = if is_kw {
        if t < cend && src[t] == ' ' {
            t + 1
        } else {
            t
        }
    } else {
        r0
    };
    let has_pri = cend - r1 >= 4 && src[r1] == '[' && src[r1 + 1] == '#' && (src[r1 + 2] as u32)
        < 0x80 && src[r1 + 3] == ']';
    let r2 = if has_pri {
        if r1 + 4 < cend && src[r1 + 4] == ' ' {
            r1 + 5
        } else {
            r1 + 4
        }
    } else {
        r1
    };
    let split = split_tags_of(src, r2, cend);
    let tt = trimmed(src, r2, split.0);
    HeadingM {
        level: stars,
        todo: if is_kw {
            Some(src.subrange(r0, t))
        } else {
            None
        },
        priority: if has_pri {
            Some(src[r1 + 2])
        } else {
            None
        },
        title: src.subrange(tt.0, tt.1),
        tags: split.1,
        keyword_range: if is_kw {
            Some((byte_pos(src, r0), byte_pos(src, t)))
        } else {
            None
        },
        range: line_bytes(src, l),
        body,
    }
}

// ----- checkbox items -----------------------------------------------------

pub open spec fn is_bullet(c: char) -> bool {
    c == '-' || c == '+' || c == '*'
}

pub open spec fn is_state_char(c: char) -> bool {
    c == ' ' || c == 'x' || c == 'X'
}

/// Where the bullet of a checkbox item on line `l` would stand.
pub open spec fn bullet_at(src: Seq<char>, l: LineM) -> int {
    skip_white(src, l.start, l.end)
}

/// Whether line `l` is a `- [ ] text` item: a bullet after the indent, then
/// ` [`, a state char, `]`.
pub open spec fn is_checkbox_line(src: Seq<char>, l: LineM) -> bool {
    let ind = bullet_at(src, l);
    let ab = ind + 1;
    ind < l.end && is_bullet(src[ind]) && l.end - ab >= 4 && src[ab] == ' ' && src[ab + 1] == '['
        && is_state_char(src[ab + 2]) && src[ab + 3] == ']'
}

/// The `- [ ] text` item on line `l`, if the line is one.
#[verifier::opaque]
pub open spec fn checkbox_of(src: Seq<char>, l: LineM) -> Option<CheckboxM> {
    if is_checkbox_line(src, l) {
        let s = bullet_at(src, l) + 3;
        let r4 = s + 2;
        let t0 = if r4 < l.end && src[r4] == ' ' {
            r4 + 1
        } else {
            r4
        };
        let tt = trimmed(src, t0, l.end);
        Some(
            CheckboxM {
                checked: src[s] != ' ',
                text: src.subrange(tt.0, tt.1),
                state_range: (byte_pos(src, s), byte_pos(src, s + 1)),
                range: line_bytes(src, l),
            },
        )
    } else {
        None
    }
}

// ----- blocks -------------------------------------------------------------

pub open spec fn begin_src_marker() -> Seq<char> {
    seq!['#', '+', 'b', 'e', 'g', 'i', 'n', '_', 's', 'r', 'c']
}

pub open spec fn end_src_marker() -> Seq<char> {
    seq!['#', '+', 'e', 'n', 'd', '_', 's', 'r', 'c']
}

pub open spec fn drawer_end_marker() -> Seq<char> {
    seq![':', 'e', 'n', 'd', ':']
}

/// Whether `s[at..end]` begins with `marker`, compared ASCII-case-insensitively.
pub open spec fn starts_with_lower(s: Seq<char>, at: int, end: int, marker: Seq<char>) -> bool {
    end - at >= marker.len() && forall|k: int|
        0 <= k < marker.len() ==> #[trigger] ascii_lower(s[at + k]) == marker[k]
}

/// Whether line `l`, trimmed and lowercased, is exactly `marker`.
pub open spec fn trimmed_lower_is(src: Seq<char>, l: LineM, marker: Seq<char>) -> bool {
    let tt = trimmed(src, l.start, l.end);
    tt.1 - tt.0 == marker.len() && starts_with_lower(src, tt.0, tt.1, marker)
}

/// The first line at or after `from` whose trimmed, lowercased text is `marker`.
pub open spec fn find_block_end(src: Seq<char>, lines: Seq<LineM>, from: int, marker: Seq<char>) -> Option<int>
    decreases lines.len() - from,
{
    if from < 0 || from >= lines.len() {
        None
    } else if trimmed_lower_is(src, lines[from], marker) {
        Some(from)
    } else {
        find_block_end(src, lines, from + 1, marker)
    }
}

/// The chars between the begin line `i` and the end line `e`.
pub open spec fn block_body(src: Seq<char>, lines: Seq<LineM>, i: int, e: int) -> Seq<char> {
    if e > i + 1 {
        src.subrange(lines[i + 1].start, lines[e].start)
    } else {
        seq![]
    }
}

/// Whether line `l`, its leading white space skipped, begins `#+begin_src`
/// in any ASCII case.
pub open spec fn is_src_begin(src: Seq<char>, l: LineM) -> bool {
    starts_with_lower(src, skip_white(src, l.start, l.end), l.end, begin_src_marker())
}

/// A terminated `#+begin_src` block starting at line `i`, and its end line.
#[verifier::opaque]
pub open spec fn src_block_of(src: Seq<char>, lines: Seq<LineM>, i: int) -> Option<(SrcBlockM, int)> {
    let l = lines[i];
    if !is_src_begin(src, l) {
        None
    } else {
        match find_block_end(src, lines, i + 1, end_src_marker()) {
            None => None,
            Some(e) => {
                let a0 = skip_white(src, skip_white(src, l.start, l.end) + 11, l.end);
                let a1 = find_white(src, a0, l.end);
                Some(
                    (
                        SrcBlockM {
                            language: if a0 < l.end {
                                Some(src.subrange(a0, a1))
                            } else {
                                None
                            },
                            body: block_body(src, lines, i, e),
                            range: (byte_pos(src, l.start), byte_pos(src, lines[e].next)),
                        },
                        e,
                    ),
                )
            },
        }
    }
}

pub open spec fn is_drawer_name_char(c: char) -> bool {
    is_ascii_alnum(c) || c == '_' || c == '-'
}

/// Whether line `l` is exactly `:NAME:`, the name non-empty and made of
/// ASCII letters, digits, `_` and `-`.
pub open spec fn is_drawer_open(src: Seq<char>, l: LineM) -> bool {
    l.end - l.start >= 3 && src[l.start] == ':' && src[l.end - 1] == ':' && (forall|k: int|
        l.start + 1 <= k < l.end - 1 ==> #[trigger] is_drawer_name_char(src[k]))
}

/// A terminated `:NAME:` drawer starting at line `i`, and its `:END:` line.
#[verifier::opaque]
pub open spec fn drawer_of(src: Seq<char>, lines: Seq<LineM>, i: int) -> Option<(DrawerM, int)> {
    let l = lines[i];
    if !is_drawer_open(src, l) {
        None
    } else {
        match find_block_end(src, lines, i + 1, drawer_end_marker()) {
            None => None,
            Some(e) => Some(
                (
                    DrawerM {
                        name: src.subrange(l.start + 1, l.end - 1),
                        body: block_body(src, lines, i, e),
                        range: (byte_pos(src, l.start), byte_pos(src, lines[e].next)),
                    },
                    e,
                ),
            ),
        }
    }
}

pub open spec fn is_table_line(src: Seq<char>, l: LineM) -> bool {
    l.start < l.end && src[l.start] == '|'
}

/// The first line at or after `i` that is not a table line.
pub open spec fn table_end(src: Seq<char>, lines: Seq<LineM>, i: int) -> int
    decreases lines.len() - i,
{
    if 0 <= i < lines.len() && is_table_line(src, lines[i]) {
        table_end(src, lines, i + 1)
    } else {
        i
    }
}

/// Whether line `j` begins some typed construct (or a headline of any depth).
pub open spec fn starts_construct(src: Seq<char>, lines: Seq<LineM>, j: int) -> bool {
    ||| heading_stars_of(src, lines[j]) is Some
    ||| is_checkbox_line(src, lines[j])
    ||| is_table_line(src, lines[j])
    ||| src_block_of(src, lines, j) is Some
    ||| drawer_of(src, lines, j) is Some
}

/// The first line at or after `i` that begins a construct.
pub open spec fn text_end(src: Seq<char>, lines: Seq<LineM>, i: int) -> int
    decreases lines.len() - i,
{
    if 0 <= i < lines.len() && !starts_construct(src, lines, i) {
        text_end(src, lines, i + 1)
    } else {
        i
    }
}

pub open spec fn table_lines(src: Seq<char>, lines: Seq<LineM>, i: int, e: int) -> Seq<Seq<char>> {
    Seq::new((e - i) as nat, |k: int| content(src, lines[i + k]))
}

pub open spec fn span(src: Seq<char>, lines: Seq<LineM>, i: int, e: int) -> (int, int) {
    (byte_pos(src, lines[i].start), byte_pos(src, lines[e - 1].next))
}

/// Where the scan resumes after a construct that began on line `i` and ends
/// before `next`; always strictly past `i` and within `n` lines.
pub open spec fn past(i: int, next: int, n: int) -> int {
    if i < next <= n {
        next
    } else {
        i + 1
    }
}

/// The node a line that is no headline begins, and the line after it: a
/// terminated src block or drawer, a checkbox item, a table run, or else a
/// text run that coalesces every line up to the next construct.
pub open spec fn plain_step(src: Seq<char>, lines: Seq<LineM>, i: int) -> (NodeM, int) {
    match src_block_of(src, lines, i) {
        Some(be) => (NodeM::SrcBlock(be.0), be.1 + 1),
        None => match drawer_of(src, lines, i) {
            Some(de) => (NodeM::Drawer(de.0), de.1 + 1),
            None => match checkbox_of(src, lines[i]) {
                Some(item) => (NodeM::CheckboxItem(item), i + 1),
                None => {
                    if is_table_line(src, lines[i]) {
                        let e = table_end(src, lines, i);
                        (
                            NodeM::Table(
                                TableM { lines: table_lines(src, lines, i, e), range: span(src, lines, i, e) },
                            ),
                            e,
                        )
                    } else {
                        let e = text_end(src, lines, i + 1);
                        (NodeM::Text(span(src, lines, i, e)), e)
                    }
                },
            },
        },
    }
}

/// The nodes of lines `i..` inside a headline of depth `ctx`, and the line
/// where they stop: the end, or a headline of `ctx` stars or fewer.
pub open spec fn parse_seq(src: Seq<char>, lines: Seq<LineM>, i: int, ctx: int) -> (Seq<NodeM>, int)
    decreases lines.len() - i,
{
    if i < 0 || i >= lines.len() {
        (seq![], i)
    } else {
        match heading_stars_of(src, lines[i]) {
            Some(k) => {
                if k <= ctx {
                    (seq![], i)
                } else {
                    let sub = parse_seq(src, lines, i + 1, k);
                    let rest = parse_seq(src, lines, past(i, sub.1, lines.len() as int), ctx);
                    (seq![NodeM::Heading(heading_of(src, lines[i], k, sub.0))] + rest.0, rest.1)
                }
            },
            None => {
                let st = plain_step(src, lines, i);
                let rest = parse_seq(src, lines, past(i, st.1, lines.len() as int), ctx);
                (seq![st.0] + rest.0, rest.1)
            },
        }
    }
}

/// The typed forest of a whole source.
pub open spec fn parse_org_spec(src: Seq<char>) -> Seq<NodeM> {
    parse_seq(src, lines_of(src), 0, 0).0
}


// ----- leaves and the tiling of the source --------------------------------

/// A node's leaf ranges, depth-first: a headline contributes its own line,
/// then its subtree.
pub open spec fn node_leaves(n: NodeM) -> Seq<(int, int)>
    decreases n,
{
    match n {
        NodeM::Heading(h) => seq![h.range] + forest_leaves(h.body),
        _ => seq![node_range(n)],
    }
}

/// The leaf ranges of a forest, depth-first in document order.
pub open spec fn forest_leaves(s: Seq<NodeM>) -> Seq<(int, int)>
    decreases s,
{
    if s.len() == 0 {
        seq![]
    } else {
        node_leaves(s[0]) + forest_leaves(s.subrange(1, s.len() as int))
    }
}

/// `rs` covers `a..b` exactly: contiguous, in order, no gap, no overlap.
pub open spec fn tiles(rs: Seq<(int, int)>, a: int, b: int) -> bool {
    &&& rs.len() >= 1
    &&& rs[0].0 == a
    &&& rs.last().1 == b
    &&& forall|k: int| 0 <= k < rs.len() - 1 ==> #[trigger] rs[k].1 == rs[k + 1].0
    &&& forall|k: int| 0 <= k < rs.len() ==> #[trigger] rs[k].0 <= rs[k].1
}

pub open spec fn tiles_or_empty(rs: Seq<(int, int)>, a: int, b: int) -> bool {
    (rs.len() == 0 && a == b) || tiles(rs, a, b)
}

/// The byte offset where line `k` starts; past the last line, the end.
pub open spec fn edge(src: Seq<char>, lines: Seq<LineM>, k: int) -> int {
    if 0 <= k < lines.len() {
        byte_pos(src, lines[k].start)
    } else {
        byte_pos(src, src.len() as int)
    }
}

pub proof fn lemma_lines_scan(src: Seq<char>, start: int, j: int)
    requires
        0 <= start <= j <= src.len(),
    ensures
        ({
            let ls = lines_scan(src, start, j);
            &&& ls.len() >= 1
            &&& ls[0].start == start
            &&& ls.last().next == src.len()
            &&& forall|k: int| 0 <= k < ls.len() - 1 ==> #[trigger] ls[k].next == ls[k + 1].start
            &&& forall|k: int|
                0 <= k < ls.len() ==> start <= #[trigger] ls[k].start <= ls[k].end <= ls[k].next
                    <= src.len()
            &&& forall|k: int| 0 <= k < ls.len() - 1 ==> #[trigger] ls[k].next == ls[k].end + 1
        }),
    decreases src.len() - j,
{
    if j >= src.len() {
    } else if src[j] == '\n' {
        lemma_lines_scan(src, j + 1, j + 1);
        let rest = lines_scan(src, j + 1, j + 1);
        let ls = lines_scan(src, start, j);
        assert(ls == seq![LineM { start, end: j, next: j + 1 }] + rest);
        assert forall|k: int| 0 <= k < ls.len() - 1 implies #[trigger] ls[k].next == ls[k + 1].start by {
            if k > 0 {
                assert(ls[k] == rest[k - 1]);
                assert(ls[k + 1] == rest[k]);
            }
        }
        assert forall|k: int| 0 <= k < ls.len() - 1 implies #[trigger] ls[k].next == ls[k].end + 1 by {
            if k > 0 {
                assert(ls[k] == rest[k - 1]);
            }
        }
        assert forall|k: int| 0 <= k < ls.len() implies start <= #[trigger] ls[k].start <= ls[k].end
            <= ls[k].next <= src.len() by {
            if k > 0 {
                assert(ls[k] == rest[k - 1]);
            }
        }
    } else {
        lemma_lines_scan(src, start, j + 1);
    }
}

/// The lines of a source are well formed.
pub proof fn lemma_lines_of_wf(src: Seq<char>)
    ensures
        lines_wf(src, lines_of(src)),
{
    lemma_lines_scan(src, 0, 0);
}

/// Line starts grow with the line index.
pub proof fn lemma_line_starts_mono(src: Seq<char>, lines: Seq<LineM>, i: int, j: int)
    requires
        lines_wf(src, lines),
        0 <= i <= j < lines.len(),
    ensures
        lines[i].start <= lines[j].start,
        i < j ==> lines[i].next <= lines[j].start,
    decreases j - i,
{
    if i < j {
        lemma_line_starts_mono(src, lines, i, j - 1);
        assert(lines[j - 1].next == lines[j].start);
    }
}

pub proof fn lemma_edge_mono(src: Seq<char>, lines: Seq<LineM>, i: int, j: int)
    requires
        lines_wf(src, lines),
        0 <= i <= j <= lines.len(),
    ensures
        edge(src, lines, i) <= edge(src, lines, j),
{
    if j < lines.len() {
        lemma_line_starts_mono(src, lines, i, j);
        lemma_byte_pos_mono(src, lines[i].start, lines[j].start);
    } else if i < lines.len() {
        lemma_byte_pos_mono(src, lines[i].start, src.len() as int);
    }
}

/// A line's byte range runs from its edge to the next line's edge.
pub proof fn lemma_line_edges(src: Seq<char>, lines: Seq<LineM>, i: int)
    requires
        lines_wf(src, lines),
        0 <= i < lines.len(),
    ensures
        byte_pos(src, lines[i].start) == edge(src, lines, i),
        byte_pos(src, lines[i].next) == edge(src, lines, i + 1),
{
}

pub proof fn lemma_find_block_end_bounds(src: Seq<char>, lines: Seq<LineM>, from: int, marker: Seq<char>)
    requires
        0 <= from,
    ensures
        find_block_end(src, lines, from, marker) matches Some(e) ==> from <= e < lines.len(),
    decreases lines.len() - from,
{
    if from < lines.len() && !trimmed_lower_is(src, lines[from], marker) {
        lemma_find_block_end_bounds(src, lines, from + 1, marker);
    }
}

pub proof fn lemma_table_end_bounds(src: Seq<char>, lines: Seq<LineM>, i: int)
    requires
        0 <= i <= lines.len(),
    ensures
        i <= table_end(src, lines, i) <= lines.len(),
    decreases lines.len() - i,
{
    if i < lines.len() && is_table_line(src, lines[i]) {
        lemma_table_end_bounds(src, lines, i + 1);
    }
}

pub proof fn lemma_text_end_bounds(src: Seq<char>, lines: Seq<LineM>, i: int)
    requires
        0 <= i <= lines.len(),
    ensures
        i <= text_end(src, lines, i) <= lines.len(),
    decreases lines.len() - i,
{
    if i < lines.len() && !starts_construct(src, lines, i) {
        lemma_text_end_bounds(src, lines, i + 1);
    }
}

/// The node a plain line begins ends strictly after it, and covers its lines'
/// bytes exactly.
pub proof fn lemma_plain_step(src: Seq<char>, lines: Seq<LineM>, i: int)
    requires
        lines_wf(src, lines),
        0 <= i < lines.len(),
    ensures
        i < plain_step(src, lines, i).1 <= lines.len(),
        node_leaves(plain_step(src, lines, i).0) == seq![
            (edge(src, lines, i), edge(src, lines, plain_step(src, lines, i).1)),
        ],
        edge(src, lines, i) <= edge(src, lines, plain_step(src, lines, i).1),
{
    reveal(src_block_of);
    reveal(drawer_of);
    reveal(checkbox_of);
    lemma_find_block_end_bounds(src, lines, i + 1, end_src_marker());
    lemma_find_block_end_bounds(src, lines, i + 1, drawer_end_marker());
    lemma_table_end_bounds(src, lines, i + 1);
    lemma_text_end_bounds(src, lines, i + 1);
    let e = plain_step(src, lines, i).1;
    lemma_line_edges(src, lines, i);
    lemma_line_edges(src, lines, e - 1);
    lemma_edge_mono(src, lines, i, e);
}

pub proof fn lemma_parse_seq_bounds(src: Seq<char>, lines: Seq<LineM>, i: int, ctx: int)
    requires
        lines_wf(src, lines),
        0 <= i <= lines.len(),
    ensures
        i <= parse_seq(src, lines, i, ctx).1 <= lines.len(),
        parse_seq(src, lines, i, ctx).0.len() == 0 ==> parse_seq(src, lines, i, ctx).1 == i,
    decreases lines.len() - i,
{
    if i < lines.len() {
        match heading_stars_of(src, lines[i]) {
            Some(k) => {
                if k > ctx {
                    lemma_parse_seq_bounds(src, lines, i + 1, k);
                    let sub = parse_seq(src, lines, i + 1, k);
                    lemma_parse_seq_bounds(src, lines, past(i, sub.1, lines.len() as int), ctx);
                }
            },
            None => {
                lemma_plain_step(src, lines, i);
                lemma_parse_seq_bounds(src, lines, plain_step(src, lines, i).1, ctx);
            },
        }
    }
}

pub proof fn lemma_tiles_concat(x: Seq<(int, int)>, y: Seq<(int, int)>, a: int, m: int, b: int)
    requires
        tiles_or_empty(x, a, m),
        tiles_or_empty(y, m, b),
    ensures
        tiles_or_empty(x + y, a, b),
{
    if x.len() == 0 {
        assert(x + y =~= y);
    } else if y.len() == 0 {
        assert(x + y =~= x);
    } else {
        let z = x + y;
        assert forall|k: int| 0 <= k < z.len() - 1 implies #[trigger] z[k].1 == z[k + 1].0 by {
            if k < x.len() - 1 {
                assert(z[k] == x[k] && z[k + 1] == x[k + 1]);
            } else if k == x.len() - 1 {
                assert(z[k] == x.last() && z[k + 1] == y[0]);
            } else {
                assert(z[k] == y[k - x.len()] && z[k + 1] == y[k + 1 - x.len()]);
            }
        }
        assert forall|k: int| 0 <= k < z.len() implies #[trigger] z[k].0 <= z[k].1 by {
            if k < x.len() {
                assert(z[k] == x[k]);
            } else {
                assert(z[k] == y[k - x.len()]);
            }
        }
    }
}

pub proof fn lemma_forest_leaves_cons(x: NodeM, rest: Seq<NodeM>)
    ensures
        forest_leaves(seq![x] + rest) == node_leaves(x) + forest_leaves(rest),
{
    let s = seq![x] + rest;
    assert(s[0] == x);
    assert(s.subrange(1, s.len() as int) =~= rest);
}

/// One leaf covering `a..b`.
proof fn lemma_single_tiles(r: (int, int))
    requires
        r.0 <= r.1,
    ensures
        tiles(seq![r], r.0, r.1),
{
}

/// The nodes parsed from line `i` cover the bytes from line `i` to the line
/// where the parse stopped, exactly.
pub proof fn lemma_parse_seq_tiles(src: Seq<char>, lines: Seq<LineM>, i: int, ctx: int)
    requires
        lines_wf(src, lines),
        0 <= i <= lines.len(),
    ensures
        tiles_or_empty(
            forest_leaves(parse_seq(src, lines, i, ctx).0),
            edge(src, lines, i),
            edge(src, lines, parse_seq(src, lines, i, ctx).1),
        ),
    decreases lines.len() - i,
{
    if i < lines.len() {
        match heading_stars_of(src, lines[i]) {
            Some(k) => {
                if k > ctx {
                    reveal(heading_of);
                    lemma_line_edges(src, lines, i);
                    lemma_edge_mono(src, lines, i, i + 1);
                    lemma_parse_seq_bounds(src, lines, i + 1, k);
                    lemma_parse_seq_tiles(src, lines, i + 1, k);
                    let sub = parse_seq(src, lines, i + 1, k);
                    let h = heading_of(src, lines[i], k, sub.0);
                    lemma_single_tiles(h.range);
                    lemma_tiles_concat(
                        seq![h.range],
                        forest_leaves(sub.0),
                        edge(src, lines, i),
                        edge(src, lines, i + 1),
                        edge(src, lines, sub.1),
                    );
                    lemma_parse_seq_tiles(src, lines, sub.1, ctx);
                    let rest = parse_seq(src, lines, sub.1, ctx);
                    lemma_forest_leaves_cons(NodeM::Heading(h), rest.0);
                    lemma_tiles_concat(
                        node_leaves(NodeM::Heading(h)),
                        forest_leaves(rest.0),
                        edge(src, lines, i),
                        edge(src, lines, sub.1),
                        edge(src, lines, rest.1),
                    );
                }
            },
            None => {
                lemma_plain_step(src, lines, i);
                let st = plain_step(src, lines, i);
                lemma_single_tiles((edge(src, lines, i), edge(src, lines, st.1)));
                lemma_parse_seq_tiles(src, lines, st.1, ctx);
                let rest = parse_seq(src, lines, st.1, ctx);
                lemma_forest_leaves_cons(st.0, rest.0);
                lemma_tiles_concat(
                    node_leaves(st.0),
                    forest_leaves(rest.0),
                    edge(src, lines, i),
                    edge(src, lines, st.1),
                    edge(src, lines, rest.1),
                );
            },
        }
    }
}

/// The source is the document: the leaf ranges of a parsed source, depth-first
/// in document order, tile its bytes exactly (contiguous, in order, no gap, no
/// overlap) from byte 0 to its byte length.
pub proof fn lemma_leaf_ranges_tile(src: Seq<char>)
    ensures
        tiles(forest_leaves(parse_org_spec(src)), 0, encode_utf8(src).len() as int),
{
    let lines = lines_of(src);
    lemma_lines_of_wf(src);
    lemma_parse_seq_bounds(src, lines, 0, 0);
    lemma_parse_seq_tiles(src, lines, 0, 0);
    lemma_parse_seq_runs_to_end(src, lines, 0);
    lemma_byte_pos_bounds(src, 0);
    lemma_byte_pos_bounds(src, src.len() as int);
    let r = parse_seq(src, lines, 0, 0);
    // the top level runs to the last line, so the forest is not empty
    assert(r.0.len() > 0);
    assert(node_leaves(r.0[0]).len() >= 1);
    assert(forest_leaves(r.0).len() >= 1);
}

pub proof fn lemma_run_of_bounds(s: Seq<char>, ch: char, i: int, end: int)
    requires
        i <= end,
    ensures
        i <= run_of(s, ch, i, end) <= end,
        forall|k: int| i <= k < run_of(s, ch, i, end) ==> #[trigger] s[k] == ch,
        run_of(s, ch, i, end) < end ==> s[run_of(s, ch, i, end)] != ch,
    decreases end - i,
{
    if i < end && s[i] == ch {
        lemma_run_of_bounds(s, ch, i + 1, end);
    }
}

/// A headline has at least one star.
pub proof fn lemma_heading_stars_positive(src: Seq<char>, l: LineM)
    requires
        l.start <= l.end,
    ensures
        heading_stars_of(src, l) matches Some(k) ==> 1 <= k <= 255 && l.start + k < l.end,
{
    lemma_run_of_bounds(src, '*', l.start, l.end);
}

/// At the top level no headline closes the scan: it runs to the last line.
pub proof fn lemma_parse_seq_runs_to_end(src: Seq<char>, lines: Seq<LineM>, i: int)
    requires
        lines_wf(src, lines),
        0 <= i <= lines.len(),
    ensures
        parse_seq(src, lines, i, 0).1 == lines.len(),
    decreases lines.len() - i,
{
    if i < lines.len() {
        lemma_heading_stars_positive(src, lines[i]);
        match heading_stars_of(src, lines[i]) {
            Some(k) => {
                lemma_parse_seq_bounds(src, lines, i + 1, k);
                let sub = parse_seq(src, lines, i + 1, k);
                lemma_parse_seq_runs_to_end(src, lines, past(i, sub.1, lines.len() as int));
            },
            None => {
                lemma_plain_step(src, lines, i);
                lemma_parse_seq_runs_to_end(src, lines, plain_step(src, lines, i).1);
            },
        }
    }
}

pub proof fn lemma_tag_run_start_bounds(s: Seq<char>, a: int, j: int)
    requires
        a <= j,
    ensures
        a <= tag_run_start(s, a, j) <= j,
    decreases j - a,
{
    if j > a && (is_tag_char(s[j - 1]) || s[j - 1] == ':') {
        lemma_tag_run_start_bounds(s, a, j - 1);
    }
}

pub proof fn lemma_line_bounds(src: Seq<char>, lines: Seq<LineM>, k: int)
    requires
        lines_wf(src, lines),
        0 <= k < lines.len(),
    ensures
        0 <= lines[k].start <= lines[k].end <= lines[k].next <= src.len(),
{
}

pub proof fn lemma_checkbox_of_is_some(src: Seq<char>, l: LineM)
    ensures
        checkbox_of(src, l) is Some <==> is_checkbox_line(src, l),
{
    reveal(checkbox_of);
}

/// Every headline of a node, depth-first in document order.
pub open spec fn node_headings(n: NodeM) -> Seq<HeadingM>
    decreases n,
{
    match n {
        NodeM::Heading(h) => seq![h] + forest_headings(h.body),
        _ => seq![],
    }
}

/// Every headline of a forest, depth-first in document order.
pub open spec fn forest_headings(s: Seq<NodeM>) -> Seq<HeadingM>
    decreases s,
{
    if s.len() == 0 {
        seq![]
    } else {
        node_headings(s[0]) + forest_headings(s.subrange(1, s.len() as int))
    }
}

pub proof fn lemma_forest_leaves_step(s: Seq<NodeM>, k: int)
    requires
        0 <= k < s.len(),
    ensures
        forest_leaves(s.subrange(k, s.len() as int)) == node_leaves(s[k]) + forest_leaves(
            s.subrange(k + 1, s.len() as int),
        ),
{
    let t = s.subrange(k, s.len() as int);
    assert(t[0] == s[k]);
    assert(t.subrange(1, t.len() as int) =~= s.subrange(k + 1, s.len() as int));
}

pub proof fn lemma_forest_headings_step(s: Seq<NodeM>, k: int)
    requires
        0 <= k < s.len(),
    ensures
        forest_headings(s.subrange(k, s.len() as int)) == node_headings(s[k]) + forest_headings(
            s.subrange(k + 1, s.len() as int),
        ),
{
    let t = s.subrange(k, s.len() as int);
    assert(t[0] == s[k]);
    assert(t.subrange(1, t.len() as int) =~= s.subrange(k + 1, s.len() as int));
}

pub proof fn lemma_forest_end(s: Seq<NodeM>)
    ensures
        forest_leaves(s.subrange(s.len() as int, s.len() as int)) == Seq::<(int, int)>::empty(),
        forest_headings(s.subrange(s.len() as int, s.len() as int)) == Seq::<HeadingM>::empty(),
        s.subrange(0, s.len() as int) == s,
{
    assert(s.subrange(0, s.len() as int) =~= s);
}

// ----- nesting by stars ------------------------------------------------------

/// Every headline of `n` is deeper than `ctx`, and every subtree holds only
/// headlines deeper than its own headline.
pub open spec fn node_nests(n: NodeM, ctx: int) -> bool
    decreases n,
{
    match n {
        NodeM::Heading(h) => h.level > ctx && forest_nests(h.body, h.level),
        _ => true,
    }
}

pub open spec fn forest_nests(s: Seq<NodeM>, ctx: int) -> bool
    decreases s,
{
    s.len() == 0 || (node_nests(s[0], ctx) && forest_nests(s.subrange(1, s.len() as int), ctx))
}

proof fn lemma_forest_nests_cons(x: NodeM, rest: Seq<NodeM>, ctx: int)
    ensures
        forest_nests(seq![x] + rest, ctx) == (node_nests(x, ctx) && forest_nests(rest, ctx)),
{
    let s = seq![x] + rest;
    assert(s[0] == x);
    assert(s.subrange(1, s.len() as int) =~= rest);
}

proof fn lemma_parse_seq_nests(src: Seq<char>, lines: Seq<LineM>, i: int, ctx: int)
    requires
        lines_wf(src, lines),
        0 <= i <= lines.len(),
    ensures
        forest_nests(parse_seq(src, lines, i, ctx).0, ctx),
    decreases lines.len() - i,
{
    if i < lines.len() {
        match heading_stars_of(src, lines[i]) {
            Some(k) => {
                if k > ctx {
                    reveal(heading_of);
                    lemma_parse_seq_bounds(src, lines, i + 1, k);
                    lemma_parse_seq_nests(src, lines, i + 1, k);
                    let sub = parse_seq(src, lines, i + 1, k);
                    lemma_parse_seq_nests(src, lines, sub.1, ctx);
                    let rest = parse_seq(src, lines, sub.1, ctx);
                    lemma_forest_nests_cons(NodeM::Heading(heading_of(src, lines[i], k, sub.0)), rest.0, ctx);
                }
            },
            None => {
                reveal(src_block_of);
                reveal(drawer_of);
                reveal(checkbox_of);
                lemma_plain_step(src, lines, i);
                let st = plain_step(src, lines, i);
                lemma_parse_seq_nests(src, lines, st.1, ctx);
                let rest = parse_seq(src, lines, st.1, ctx);
                lemma_forest_nests_cons(st.0, rest.0, ctx);
            },
        }
    } else {
        assert(parse_seq(src, lines, i, ctx).0.len() == 0);
    }
}

/// Subtrees nest by stars: every headline of a parsed source has at least one
/// star, and every headline inside a subtree is deeper than the headline that
/// owns the subtree.
pub proof fn lemma_headings_nest_by_stars(src: Seq<char>)
    ensures
        forest_nests(parse_org_spec(src), 0),
{
    lemma_lines_of_wf(src);
    lemma_parse_seq_nests(src, lines_of(src), 0, 0);
}

// ----- every typed node comes from a line ------------------------------------

/// Every checkbox item of a node, depth-first in document order.
pub open spec fn node_checkboxes(n: NodeM) -> Seq<CheckboxM>
    decreases n,
{
    match n {
        NodeM::Heading(h) => forest_checkboxes(h.body),
        NodeM::CheckboxItem(c) => seq![c],
        _ => seq![],
    }
}

/// Every checkbox item of a forest, depth-first in document order.
pub open spec fn forest_checkboxes(s: Seq<NodeM>) -> Seq<CheckboxM>
    decreases s,
{
    if s.len() == 0 {
        seq![]
    } else {
        node_checkboxes(s[0]) + forest_checkboxes(s.subrange(1, s.len() as int))
    }
}

/// `h` is the headline parse of one of the lines, at that line's star count.
pub open spec fn heading_from_line(src: Seq<char>, lines: Seq<LineM>, h: HeadingM) -> bool {
    exists|i: int|
        0 <= i < lines.len() && #[trigger] heading_stars_of(src, lines[i]) == Some(h.level)
            && heading_of(src, lines[i], h.level, h.body) == h
}

/// `c` is the checkbox item of one of the lines.
pub open spec fn checkbox_from_line(src: Seq<char>, lines: Seq<LineM>, c: CheckboxM) -> bool {
    exists|i: int| 0 <= i < lines.len() && #[trigger] checkbox_of(src, lines[i]) == Some(c)
}

pub open spec fn headings_from_lines(src: Seq<char>, lines: Seq<LineM>, hs: Seq<HeadingM>) -> bool {
    forall|k: int| 0 <= k < hs.len() ==> heading_from_line(src, lines, #[trigger] hs[k])
}

pub open spec fn checkboxes_from_lines(src: Seq<char>, lines: Seq<LineM>, cs: Seq<CheckboxM>) -> bool {
    forall|k: int| 0 <= k < cs.len() ==> checkbox_from_line(src, lines, #[trigger] cs[k])
}

proof fn lemma_forest_cons_lists(x: NodeM, rest: Seq<NodeM>)
    ensures
        forest_headings(seq![x] + rest) == node_headings(x) + forest_headings(rest),
        forest_checkboxes(seq![x] + rest) == node_checkboxes(x) + forest_checkboxes(rest),
{
    let s = seq![x] + rest;
    assert(s[0] == x);
    assert(s.subrange(1, s.len() as int) =~= rest);
}

proof fn lemma_lists_concat(src: Seq<char>, lines: Seq<LineM>, a: Seq<HeadingM>, b: Seq<HeadingM>, c: Seq<CheckboxM>, d: Seq<CheckboxM>)
    requires
        headings_from_lines(src, lines, a),
        headings_from_lines(src, lines, b),
        checkboxes_from_lines(src, lines, c),
        checkboxes_from_lines(src, lines, d),
    ensures
        headings_from_lines(src, lines, a + b),
        checkboxes_from_lines(src, lines, c + d),
{
    assert forall|k: int| 0 <= k < (a + b).len() implies heading_from_line(src, lines, #[trigger] (a + b)[k]) by {
        if k < a.len() {
            assert((a + b)[k] == a[k]);
        } else {
            assert((a + b)[k] == b[k - a.len()]);
        }
    }
    assert forall|k: int| 0 <= k < (c + d).len() implies checkbox_from_line(src, lines, #[trigger] (c + d)[k]) by {
        if k < c.len() {
            assert((c + d)[k] == c[k]);
        } else {
            assert((c + d)[k] == d[k - c.len()]);
        }
    }
}

proof fn lemma_parse_seq_from_lines(src: Seq<char>, lines: Seq<LineM>, i: int, ctx: int)
    requires
        lines_wf(src, lines),
        0 <= i <= lines.len(),
    ensures
        headings_from_lines(src, lines, forest_headings(parse_seq(src, lines, i, ctx).0)),
        checkboxes_from_lines(src, lines, forest_checkboxes(parse_seq(src, lines, i, ctx).0)),
    decreases lines.len() - i,
{
    if i < lines.len() {
        match heading_stars_of(src, lines[i]) {
            Some(k) => {
                if k > ctx {
                    reveal(heading_of);
                    lemma_parse_seq_bounds(src, lines, i + 1, k);
                    lemma_parse_seq_from_lines(src, lines, i + 1, k);
                    let sub = parse_seq(src, lines, i + 1, k);
                    lemma_parse_seq_from_lines(src, lines, sub.1, ctx);
                    let rest = parse_seq(src, lines, sub.1, ctx);
                    let hd = heading_of(src, lines[i], k, sub.0);
                    assert(hd.level == k && hd.body == sub.0);
                    assert(heading_from_line(src, lines, hd)) by {
                        assert(heading_stars_of(src, lines[i]) == Some(hd.level));
                    }
                    lemma_forest_cons_lists(NodeM::Heading(hd), rest.0);
                    assert(headings_from_lines(src, lines, seq![hd])) by {
                        assert(seq![hd][0] == hd);
                    }
                    assert(checkboxes_from_lines(src, lines, Seq::<CheckboxM>::empty()));
                    lemma_lists_concat(src, lines, seq![hd], forest_headings(sub.0), forest_checkboxes(sub.0), Seq::<CheckboxM>::empty());
                    assert(node_headings(NodeM::Heading(hd)) == seq![hd] + forest_headings(sub.0));
                    assert(node_checkboxes(NodeM::Heading(hd)) == forest_checkboxes(sub.0));
                    lemma_lists_concat(
                        src,
                        lines,
                        node_headings(NodeM::Heading(hd)),
                        forest_headings(rest.0),
                        node_checkboxes(NodeM::Heading(hd)),
                        forest_checkboxes(rest.0),
                    );
                } else {
                    assert(parse_seq(src, lines, i, ctx).0.len() == 0);
                }
            },
            None => {
                lemma_plain_step(src, lines, i);
                let st = plain_step(src, lines, i);
                lemma_parse_seq_from_lines(src, lines, st.1, ctx);
                let rest = parse_seq(src, lines, st.1, ctx);
                lemma_forest_cons_lists(st.0, rest.0);
                assert(headings_from_lines(src, lines, node_headings(st.0))) by {
                    match st.0 {
                        NodeM::Heading(h) => {
                            assert(false);
                        },
                        _ => {},
                    }
                }
                assert(checkboxes_from_lines(src, lines, node_checkboxes(st.0))) by {
                    match st.0 {
                        NodeM::CheckboxItem(c) => {
                            assert(checkbox_of(src, lines[i]) == Some(c));
                            assert(seq![c][0] == c);
                        },
                        NodeM::Heading(h) => {
                            assert(false);
                        },
                        _ => {},
                    }
                }
                lemma_lists_concat(
                    src,
                    lines,
                    node_headings(st.0),
                    forest_headings(rest.0),
                    node_checkboxes(st.0),
                    forest_checkboxes(rest.0),
                );
            },
        }
    } else {
        assert(parse_seq(src, lines, i, ctx).0.len() == 0);
    }
}

/// Every headline of a parsed source is the headline parse of one of its
/// lines, and every checkbox item the item of one of its lines.
pub proof fn lemma_parsed_nodes_come_from_lines(src: Seq<char>)
    ensures
        headings_from_lines(src, lines_of(src), forest_headings(parse_org_spec(src))),
        checkboxes_from_lines(src, lines_of(src), forest_checkboxes(parse_org_spec(src))),
{
    lemma_lines_of_wf(src);
    lemma_parse_seq_from_lines(src, lines_of(src), 0, 0);
}

} // verus!
