//! What the org edits promise of a parsed source: every headline and checkbox
//! item the parse yields can be edited in place.

use vstd::prelude::*;
use vstd::utf8::*;
use crate::utf8::{
    byte_pos, char_width, lemma_byte_pos_step, lemma_byte_pos_mono, lemma_byte_pos_is_boundary,
    lemma_byte_pos_bounds, lemma_encode_prefix, lemma_encode_concat, lemma_encode_injective,
};
use crate::unicode::{skip_white, is_white_space, find_char};
use crate::text_surface::spliced;
use crate::org_model::{lines_scan, lemma_line_starts_mono};
use crate::unicode::lemma_find_char_bounds;
use crate::org_model::{
    LineM, lines_of, lines_wf, lemma_lines_of_wf, HeadingM, CheckboxM, heading_stars_of, heading_of,
    checkbox_of, is_checkbox_line, bullet_at, run_of, lemma_run_of_bounds, lemma_heading_stars_positive,
    heading_text_end, keyword_end, parse_org_spec, forest_headings, forest_checkboxes,
    heading_from_line, checkbox_from_line, lemma_parsed_nodes_come_from_lines, line_bytes,
    is_keyword_char,
};
use crate::org::{
    cycle_todo_fits, keyword_slot, toggled_state, cycle_todo_bytes, todo_word, done_word, removal_end,
};

verus! {

/// A char below 0x80 is one byte long.
pub proof fn lemma_ascii_width(c: char)
    requires
        (c as u32) < 0x80,
    ensures
        char_width(c) == 1,
{
}

/// Over a run of ASCII chars, byte positions advance one per char.
pub proof fn lemma_byte_pos_ascii_run(s: Seq<char>, a: int, n: int)
    requires
        0 <= a,
        0 <= n,
        a + n <= s.len(),
        forall|j: int| a <= j < a + n ==> (#[trigger] s[j] as u32) < 0x80,
    ensures
        byte_pos(s, a + n) == byte_pos(s, a) + n,
    decreases n,
{
    if n > 0 {
        lemma_byte_pos_ascii_run(s, a, n - 1);
        lemma_byte_pos_step(s, a + n - 1);
        lemma_ascii_width(s[a + n - 1]);
    }
}

/// A checkbox item's state char lies between two char boundaries.
pub open spec fn checkbox_fits(b: Seq<u8>, c: CheckboxM) -> bool {
    &&& c.state_range.0 <= c.state_range.1
    &&& is_char_boundary(b, c.state_range.0)
    &&& is_char_boundary(b, c.state_range.1)
}

proof fn lemma_heading_line_fits(src: Seq<char>, l: LineM, k: int, body: Seq<crate::org_model::NodeM>)
    requires
        0 <= l.start <= l.end <= src.len(),
        heading_stars_of(src, l) == Some(k),
    ensures
        cycle_todo_fits(encode_utf8(src), heading_of(src, l, k, body)),
{
    reveal(heading_of);
    lemma_heading_stars_positive(src, l);
    lemma_run_of_bounds(src, '*', l.start, l.end);
    let r0 = l.start + k + 1;
    let cend = heading_text_end(src, l);
    assert(r0 <= cend);
    lemma_find_char_bounds(src, ' ', r0, cend);
    let t = keyword_end(src, l, k);
    let h = heading_of(src, l, k, body);
    lemma_byte_pos_is_boundary(src, r0);
    lemma_byte_pos_is_boundary(src, t);
    lemma_byte_pos_mono(src, r0, t);
    assert forall|j: int| l.start <= j < l.start + k + 1 implies (#[trigger] src[j] as u32) < 0x80 by {
        if j < l.start + k {
            assert(src[j] == '*');
        } else {
            assert(src[j] == ' ');
        }
    }
    lemma_byte_pos_ascii_run(src, l.start, k + 1);
    assert(keyword_slot(h) == byte_pos(src, r0));
}

proof fn lemma_checkbox_line_fits(src: Seq<char>, l: LineM, c: CheckboxM)
    requires
        0 <= l.start <= l.end <= src.len(),
        checkbox_of(src, l) == Some(c),
    ensures
        checkbox_fits(encode_utf8(src), c),
{
    reveal(checkbox_of);
    crate::unicode::lemma_skip_white_bounds(src, l.start, l.end);
    let st = bullet_at(src, l) + 3;
    lemma_byte_pos_is_boundary(src, st);
    lemma_byte_pos_is_boundary(src, st + 1);
    lemma_byte_pos_mono(src, st, st + 1);
}

/// Every headline and checkbox item of a parsed source can be edited in
/// place: a headline's TODO cycle and a checkbox's toggle land on char
/// boundaries of the source's bytes, which is what `cycle_todo` and
/// `toggle_checkbox` ask of their arguments.
pub proof fn lemma_parsed_nodes_can_be_edited(src: Seq<char>)
    ensures
        forall|k: int|
            0 <= k < forest_headings(parse_org_spec(src)).len() ==> cycle_todo_fits(
                encode_utf8(src),
                #[trigger] forest_headings(parse_org_spec(src))[k],
            ),
        forall|k: int|
            0 <= k < forest_checkboxes(parse_org_spec(src)).len() ==> checkbox_fits(
                encode_utf8(src),
                #[trigger] forest_checkboxes(parse_org_spec(src))[k],
            ),
{
    lemma_parsed_nodes_come_from_lines(src);
    lemma_lines_of_wf(src);
    let lines = lines_of(src);
    let hs = forest_headings(parse_org_spec(src));
    let cs = forest_checkboxes(parse_org_spec(src));
    assert forall|k: int| 0 <= k < hs.len() implies cycle_todo_fits(encode_utf8(src), #[trigger] hs[k]) by {
        assert(heading_from_line(src, lines, hs[k]));
        let i = choose|i: int|
            0 <= i < lines.len() && #[trigger] heading_stars_of(src, lines[i]) == Some(hs[k].level)
                && heading_of(src, lines[i], hs[k].level, hs[k].body) == hs[k];
        lemma_heading_line_fits(src, lines[i], hs[k].level, hs[k].body);
    }
    assert forall|k: int| 0 <= k < cs.len() implies checkbox_fits(encode_utf8(src), #[trigger] cs[k]) by {
        assert(checkbox_from_line(src, lines, cs[k]));
        let i = choose|i: int| 0 <= i < lines.len() && #[trigger] checkbox_of(src, lines[i]) == Some(cs[k]);
        lemma_checkbox_line_fits(src, lines[i], cs[k]);
    }
}

/// Splicing the bytes between two char positions is splicing the chars.
pub proof fn lemma_encode_splice(s: Seq<char>, i: int, j: int, r: Seq<char>)
    requires
        0 <= i <= j <= s.len(),
    ensures
        spliced(encode_utf8(s), byte_pos(s, i), byte_pos(s, j), encode_utf8(r)) == encode_utf8(
            s.subrange(0, i) + r + s.subrange(j, s.len() as int),
        ),
{
    lemma_encode_prefix(s, i);
    lemma_encode_prefix(s, j);
    lemma_encode_concat(s.subrange(0, i), r);
    lemma_encode_concat(s.subrange(0, i) + r, s.subrange(j, s.len() as int));
}

/// Lines are cut at the same places in two sources whose newlines stand at
/// the same places.
proof fn lemma_lines_scan_same(a: Seq<char>, b: Seq<char>, start: int, j: int)
    requires
        a.len() == b.len(),
        0 <= j,
        forall|k: int| 0 <= k < a.len() ==> (#[trigger] a[k] == '\n') == (b[k] == '\n'),
    ensures
        lines_scan(a, start, j) == lines_scan(b, start, j),
    decreases a.len() - j,
{
    if j < a.len() {
        if a[j] == '\n' {
            lemma_lines_scan_same(a, b, j + 1, j + 1);
        } else {
            lemma_lines_scan_same(a, b, start, j + 1);
        }
    }
}

/// Replacing one ASCII char by another moves no byte position.
proof fn lemma_byte_pos_same_width(s: Seq<char>, p: int, c: char, k: int)
    requires
        0 <= p < s.len(),
        (s[p] as u32) < 0x80,
        (c as u32) < 0x80,
        0 <= k <= s.len(),
    ensures
        byte_pos(s.update(p, c), k) == byte_pos(s, k),
    decreases k,
{
    let t = s.update(p, c);
    if k == 0 {
        lemma_byte_pos_bounds(s, 0);
        lemma_byte_pos_bounds(t, 0);
    } else {
        lemma_byte_pos_same_width(s, p, c, k - 1);
        lemma_byte_pos_step(s, k - 1);
        lemma_byte_pos_step(t, k - 1);
        if k - 1 == p {
            lemma_ascii_width(s[p]);
            lemma_ascii_width(c);
        }
    }
}

/// White space is skipped the same way in two sources that agree up to where
/// the skip stops.
proof fn lemma_skip_white_agree(a: Seq<char>, b: Seq<char>, i: int, end: int, p: int)
    requires
        0 <= i,
        end <= a.len(),
        a.len() == b.len(),
        forall|k: int| 0 <= k < a.len() && k != p ==> #[trigger] a[k] == b[k],
        p > skip_white(a, i, end),
    ensures
        skip_white(b, i, end) == skip_white(a, i, end),
    decreases end - i,
{
    if i < end {
        crate::unicode::lemma_skip_white_bounds(a, i, end);
        assert(a[i] == b[i]);
        if is_white_space(a[i]) {
            lemma_skip_white_agree(a, b, i + 1, end, p);
        }
    }
}

/// Line `i` is the only line of a source that starts where it starts.
proof fn lemma_line_start_unique(src: Seq<char>, lines: Seq<LineM>, i: int, j: int)
    requires
        lines_wf(src, lines),
        0 <= i < lines.len(),
        0 <= j < lines.len(),
        lines[i].start == lines[j].start,
    ensures
        i == j,
{
    if i < j {
        lemma_line_starts_mono(src, lines, i, j);
        assert(lines[i].next == lines[i].end + 1);
    } else if j < i {
        lemma_line_starts_mono(src, lines, j, i);
        assert(lines[j].next == lines[j].end + 1);
    }
}

/// Toggling a checkbox twice gives back the source's exact bytes, re-parsing
/// between the toggles: the item is found again at the same line with the
/// same state range, now flipped. A lowercase `[x]` is left out, because a
/// toggle normalises it: `x` becomes a space and then `X`.
#[verifier::spinoff_prover]
#[verifier::rlimit(40)]
pub proof fn lemma_toggling_twice_restores(src: Seq<char>, c: CheckboxM, s1: Seq<char>, c1: CheckboxM)
    requires
        forest_checkboxes(parse_org_spec(src)).contains(c),
        encode_utf8(src).subrange(c.state_range.0, c.state_range.1) != encode_utf8(seq!['x']),
        encode_utf8(s1) == spliced(
            encode_utf8(src),
            c.state_range.0,
            c.state_range.1,
            encode_utf8(toggled_state(c.checked)),
        ),
        forest_checkboxes(parse_org_spec(s1)).contains(c1),
        c1.range == c.range,
    ensures
        c1.state_range == c.state_range,
        c1.checked == !c.checked,
        spliced(encode_utf8(s1), c1.state_range.0, c1.state_range.1, encode_utf8(toggled_state(c1.checked)))
            == encode_utf8(src),
{
    lemma_parsed_nodes_come_from_lines(src);
    lemma_lines_of_wf(src);
    let lines = lines_of(src);
    let cs = forest_checkboxes(parse_org_spec(src));
    let kc = choose|k: int| 0 <= k < cs.len() && cs[k] == c;
    assert(checkbox_from_line(src, lines, cs[kc]));
    let i = choose|i: int| 0 <= i < lines.len() && #[trigger] checkbox_of(src, lines[i]) == Some(c);
    let l = lines[i];
    reveal(checkbox_of);
    crate::unicode::lemma_skip_white_bounds(src, l.start, l.end);
    let ind = bullet_at(src, l);
    let st = ind + 3;
    assert(is_checkbox_line(src, l));
    assert(st < l.end);
    let old_c = src[st];
    let new_c = if c.checked { ' ' } else { 'X' };
    assert(toggled_state(c.checked) =~= seq![new_c]);
    lemma_byte_pos_step(src, st);
    lemma_ascii_width(old_c);
    // The first toggle, as chars.
    let t = src.update(st, new_c);
    lemma_encode_splice(src, st, st + 1, seq![new_c]);
    assert(src.subrange(0, st) + seq![new_c] + src.subrange(st + 1, src.len() as int) =~= t);
    lemma_encode_injective(s1, t);
    // The old state char is a space or `X`.
    assert(encode_utf8(src).subrange(c.state_range.0, c.state_range.1) == encode_utf8(seq![old_c])) by {
        crate::utf8::lemma_encode_range(src, st, st + 1);
        assert(src.subrange(st, st + 1) =~= seq![old_c]);
    }
    assert(old_c != 'x');
    // The re-parse cuts the same lines, at the same byte positions.
    assert forall|k: int| 0 <= k < src.len() implies (#[trigger] src[k] == '\n') == (t[k] == '\n') by {}
    lemma_lines_scan_same(src, t, 0, 0);
    assert(lines_of(t) == lines);
    assert forall|k: int| 0 <= k <= src.len() implies #[trigger] byte_pos(t, k) == byte_pos(src, k) by {
        lemma_byte_pos_same_width(src, st, new_c, k);
    }
    // The item found again is the same line's.
    lemma_parsed_nodes_come_from_lines(t);
    let cs1 = forest_checkboxes(parse_org_spec(t));
    let kc1 = choose|k: int| 0 <= k < cs1.len() && cs1[k] == c1;
    assert(checkbox_from_line(t, lines, cs1[kc1]));
    let i1 = choose|i1: int| 0 <= i1 < lines.len() && #[trigger] checkbox_of(t, lines[i1]) == Some(c1);
    let l1 = lines[i1];
    assert(byte_pos(src, l1.start) == byte_pos(src, l.start)) by {
        assert(c1.range == line_bytes(t, l1));
        assert(c.range == line_bytes(src, l));
    }
    if l1.start < l.start {
        lemma_byte_pos_mono(src, l1.start, l.start);
    } else if l.start < l1.start {
        lemma_byte_pos_mono(src, l.start, l1.start);
    }
    lemma_line_start_unique(src, lines, i, i1);
    // Its checkbox reads the same positions, with the state char flipped.
    assert forall|k: int| 0 <= k < src.len() && k != st implies #[trigger] src[k] == t[k] by {}
    lemma_skip_white_agree(src, t, l.start, l.end, st);
    assert(bullet_at(t, l) == ind);
    assert(is_checkbox_line(t, l));
    assert(c1.checked == (new_c != ' '));
    // The second toggle writes the old char back.
    assert(toggled_state(c1.checked) =~= seq![old_c]);
    lemma_byte_pos_step(t, st);
    lemma_encode_splice(t, st, st + 1, seq![old_c]);
    assert(t.subrange(0, st) + seq![old_c] + t.subrange(st + 1, t.len() as int) =~= src);
}

// ----- re-parsing an edited headline ---------------------------------------------

/// `find_char` answers the first occurrence at or after `i` (or `end`).
proof fn lemma_find_char_is(s: Seq<char>, ch: char, i: int, end: int, r: int)
    requires
        i <= r <= end,
        forall|k: int| i <= k < r ==> #[trigger] s[k] != ch,
        r < end ==> s[r] == ch,
    ensures
        find_char(s, ch, i, end) == r,
{
    lemma_find_char_bounds(s, ch, i, end);
    let f = find_char(s, ch, i, end);
    if f < r {
        assert(s[f] != ch);
    }
    if r < f {
        assert(s[r] != ch);
    }
}

/// `run_of` answers where the run of `ch` at `i` stops.
proof fn lemma_run_of_is(s: Seq<char>, ch: char, i: int, end: int, r: int)
    requires
        i <= r <= end,
        forall|k: int| i <= k < r ==> #[trigger] s[k] == ch,
        r < end ==> s[r] != ch,
    ensures
        run_of(s, ch, i, end) == r,
{
    lemma_run_of_bounds(s, ch, i, end);
    let f = run_of(s, ch, i, end);
    if f < r {
        assert(s[f] == ch);
    }
    if r < f {
        assert(s[r] == ch);
    }
}

proof fn lemma_scan_ends(src: Seq<char>, start: int, j: int)
    requires
        0 <= start <= j <= src.len(),
        forall|k: int| start <= k < j ==> #[trigger] src[k] != '\n',
    ensures
        forall|m: int|
            0 <= m < lines_scan(src, start, j).len() ==> (#[trigger] lines_scan(src, start, j)[m]).end
                == find_char(src, '\n', lines_scan(src, start, j)[m].start, src.len() as int),
    decreases src.len() - j,
{
    let ls = lines_scan(src, start, j);
    if j >= src.len() {
        assert(ls == seq![LineM { start, end: src.len() as int, next: src.len() as int }]);
        lemma_find_char_is(src, '\n', start, src.len() as int, src.len() as int);
        assert(ls[0].end == find_char(src, '\n', ls[0].start, src.len() as int));
    } else if src[j] == '\n' {
        lemma_scan_ends(src, j + 1, j + 1);
        let rest = lines_scan(src, j + 1, j + 1);
        assert(ls == seq![LineM { start, end: j, next: j + 1 }] + rest);
        lemma_find_char_is(src, '\n', start, src.len() as int, j);
        assert forall|m: int| 0 <= m < ls.len() implies (#[trigger] ls[m]).end == find_char(
            src,
            '\n',
            ls[m].start,
            src.len() as int,
        ) by {
            if m > 0 {
                assert(ls[m] == rest[m - 1]);
            }
        }
    } else {
        lemma_scan_ends(src, start, j + 1);
        assert(ls == lines_scan(src, start, j + 1));
    }
}

/// A line ends at the first newline after its start, or at the end.
proof fn lemma_line_end(src: Seq<char>, m: int)
    requires
        0 <= m < lines_of(src).len(),
    ensures
        lines_of(src)[m].end == find_char(src, '\n', lines_of(src)[m].start, src.len() as int),
{
    lemma_scan_ends(src, 0, 0);
}

/// The headline a parse yields stands on one of the source's lines.
proof fn lemma_heading_line(src: Seq<char>, h: HeadingM) -> (m: int)
    requires
        forest_headings(parse_org_spec(src)).contains(h),
    ensures
        0 <= m < lines_of(src).len(),
        heading_stars_of(src, lines_of(src)[m]) == Some(h.level),
        heading_of(src, lines_of(src)[m], h.level, h.body) == h,
{
    lemma_parsed_nodes_come_from_lines(src);
    let lines = lines_of(src);
    let hs = forest_headings(parse_org_spec(src));
    let kh = choose|k: int| 0 <= k < hs.len() && hs[k] == h;
    assert(heading_from_line(src, lines, hs[kh]));
    choose|i: int|
        0 <= i < lines.len() && #[trigger] heading_stars_of(src, lines[i]) == Some(h.level)
            && heading_of(src, lines[i], h.level, h.body) == h
}

/// What a headline parse records of its line, whatever the line holds.
pub proof fn lemma_heading_of_frame(src: Seq<char>, l: LineM, k: int, body: Seq<crate::org_model::NodeM>)
    ensures
        heading_of(src, l, k, body).level == k,
        heading_of(src, l, k, body).body == body,
        heading_of(src, l, k, body).range == line_bytes(src, l),
{
    reveal(heading_of);
}

/// Byte positions up to an edit are the source's.
proof fn lemma_prefix_byte_pos(src: Seq<char>, t: Seq<char>, a: int)
    requires
        0 <= a <= src.len(),
        a <= t.len(),
        t.subrange(0, a) == src.subrange(0, a),
    ensures
        forall|x: int| 0 <= x <= a ==> #[trigger] byte_pos(t, x) == byte_pos(src, x),
{
    assert forall|x: int| 0 <= x <= a implies #[trigger] byte_pos(t, x) == byte_pos(src, x) by {
        assert(t.subrange(0, x) =~= t.subrange(0, a).subrange(0, x));
        assert(src.subrange(0, x) =~= src.subrange(0, a).subrange(0, x));
    }
}

/// Two positions with the same byte position, one of them before an edit that
/// keeps the bytes before it, are the same position.
proof fn lemma_same_start(src: Seq<char>, t: Seq<char>, a: int, p: int, q: int)
    requires
        0 <= p < a <= src.len(),
        a <= t.len(),
        0 <= q <= t.len(),
        t.subrange(0, a) == src.subrange(0, a),
        byte_pos(t, q) == byte_pos(src, p),
    ensures
        q == p,
{
    lemma_prefix_byte_pos(src, t, a);
    if q < p {
        lemma_byte_pos_mono(src, q, p);
    } else if p < q {
        if q <= a {
            lemma_byte_pos_mono(src, p, q);
        } else {
            lemma_byte_pos_mono(t, a, q);
            lemma_byte_pos_mono(src, p, a);
        }
    }
}

/// The end of the line starting at `p` after the edit.
proof fn lemma_edited_line_end(src: Seq<char>, p: int, e: int, a: int, b: int, ins: Seq<char>, t: Seq<char>)
    requires
        0 <= p <= a <= b <= e <= src.len(),
        e == find_char(src, '\n', p, src.len() as int),
        forall|j: int| 0 <= j < ins.len() ==> #[trigger] ins[j] != '\n',
        t == src.subrange(0, a) + ins + src.subrange(b, src.len() as int),
    ensures
        find_char(t, '\n', p, t.len() as int) == e + ins.len() - (b - a),
{
    let d = ins.len() - (b - a);
    lemma_find_char_bounds(src, '\n', p, src.len() as int);
    assert forall|j: int| p <= j < e + d implies #[trigger] t[j] != '\n' by {
        if j < a {
            assert(t[j] == src[j]);
        } else if j < a + ins.len() {
            assert(t[j] == ins[j - a]);
        } else {
            assert(t[j] == src[j - d]);
        }
    }
    if e < src.len() {
        assert(t[e + d] == src[e]);
    }
    lemma_find_char_is(t, '\n', p, t.len() as int, e + d);
}

/// After an edit past a headline's stars and their space, and before the end
/// of its line, that inserts no newline, the headline re-parsed at the same
/// byte start stands on the same line, now longer or shorter by the edit, with
/// the same stars.
proof fn lemma_reparse_same_line(
    src: Seq<char>,
    m: int,
    k: int,
    a: int,
    b: int,
    ins: Seq<char>,
    t: Seq<char>,
    h1: HeadingM,
) -> (m1: int)
    requires
        0 <= m < lines_of(src).len(),
        heading_stars_of(src, lines_of(src)[m]) == Some(k),
        lines_of(src)[m].start + k + 1 <= a <= b <= lines_of(src)[m].end,
        forall|j: int| 0 <= j < ins.len() ==> #[trigger] ins[j] != '\n',
        t == src.subrange(0, a) + ins + src.subrange(b, src.len() as int),
        forest_headings(parse_org_spec(t)).contains(h1),
        h1.range.0 == byte_pos(src, lines_of(src)[m].start),
    ensures
        0 <= m1 < lines_of(t).len(),
        lines_of(t)[m1].start == lines_of(src)[m].start,
        lines_of(t)[m1].end == lines_of(src)[m].end + ins.len() - (b - a),
        h1.level == k,
        heading_stars_of(t, lines_of(t)[m1]) == Some(k),
        h1 == heading_of(t, lines_of(t)[m1], k, h1.body),
{
    let l = lines_of(src)[m];
    lemma_lines_of_wf(src);
    lemma_lines_of_wf(t);
    lemma_heading_stars_positive(src, l);
    lemma_run_of_bounds(src, '*', l.start, l.end);
    let m1 = lemma_heading_line(t, h1);
    let l1 = lines_of(t)[m1];
    lemma_heading_of_frame(t, l1, h1.level, h1.body);
    assert(t.subrange(0, a) =~= src.subrange(0, a));
    lemma_same_start(src, t, a, l.start, l1.start);
    lemma_line_end(src, m);
    lemma_line_end(t, m1);
    lemma_edited_line_end(src, l.start, l.end, a, b, ins, t);
    assert forall|j: int| l.start <= j < l.start + k implies #[trigger] t[j] == '*' by {
        assert(t[j] == src[j]);
    }
    assert(t[l.start + k] == src[l.start + k]);
    lemma_run_of_is(t, '*', l.start, l1.end, l.start + k);
    m1
}

/// An ALL-CAPS word (digits and `_` allowed) of two or more chars starts at
/// `i`, running to the first space before `e`: what the keyword slot of a
/// headline takes.
pub open spec fn keyword_word(s: Seq<char>, i: int, e: int) -> bool {
    let t = find_char(s, ' ', i, e);
    t - i >= 2 && forall|j: int| i <= j < t ==> #[trigger] is_keyword_char(s[j])
}

/// Where the text of the line holding position `p` ends: at its newline (or
/// the end), before a final `\r`.
pub open spec fn text_end_from(s: Seq<char>, p: int) -> int {
    let e = find_char(s, '\n', p, s.len() as int);
    if e > p && s[e - 1] == '\r' {
        e - 1
    } else {
        e
    }
}

proof fn lemma_heading_keyword(s: Seq<char>, l: LineM, k: int, body: Seq<crate::org_model::NodeM>)
    ensures
        ({
            let h = heading_of(s, l, k, body);
            let r0 = l.start + k + 1;
            let cend = heading_text_end(s, l);
            let t = find_char(s, ' ', r0, cend);
            &&& keyword_word(s, r0, cend) ==> h.todo == Some(s.subrange(r0, t)) && h.keyword_range == Some(
                (byte_pos(s, r0), byte_pos(s, t)),
            )
            &&& !keyword_word(s, r0, cend) ==> h.todo is None && h.keyword_range is None
        }),
{
    reveal(heading_of);
}

/// A keyword word reads the same in a source shifted by `d`.
proof fn lemma_keyword_word_shift(a: Seq<char>, b: Seq<char>, i: int, e: int, d: int)
    requires
        i <= e,
        forall|j: int| i <= j < e ==> #[trigger] a[j] == b[j + d],
    ensures
        keyword_word(a, i, e) == keyword_word(b, i + d, e + d),
        find_char(a, ' ', i, e) + d == find_char(b, ' ', i + d, e + d),
{
    lemma_find_char_bounds(b, ' ', i + d, e + d);
    let f = find_char(b, ' ', i + d, e + d);
    assert forall|j: int| i <= j < f - d implies #[trigger] a[j] != ' ' by {
        assert(a[j] == b[j + d]);
    }
    if f < e + d {
        assert(a[f - d] == b[f]);
    }
    lemma_find_char_is(a, ' ', i, e, f - d);
    if keyword_word(b, i + d, e + d) {
        assert forall|j: int| i <= j < f - d implies #[trigger] is_keyword_char(a[j]) by {
            assert(a[j] == b[j + d]);
            assert(is_keyword_char(b[j + d]));
        }
    }
    if keyword_word(a, i, e) {
        assert forall|j: int| i + d <= j < f implies #[trigger] is_keyword_char(b[j]) by {
            assert(a[j - d] == b[j]);
            assert(is_keyword_char(a[j - d]));
        }
    }
}

proof fn lemma_space_byte(s: Seq<char>, q: int)
    requires
        0 <= q < s.len(),
        s[q] == ' ',
    ensures
        byte_pos(s, q) < encode_utf8(s).len(),
        encode_utf8(s)[byte_pos(s, q)] == 0x20u8,
        byte_pos(s, q + 1) == byte_pos(s, q) + 1,
{
    crate::utf8::lemma_encode_range(s, q, q + 1);
    assert(s.subrange(q, q + 1) =~= seq![' ']);
    crate::utf8::lemma_encode_single(' ');
    lemma_byte_pos_step(s, q);
    lemma_ascii_width(' ');
    lemma_byte_pos_bounds(s, q + 1);
    assert(encode_utf8(seq![' ']) =~= seq![0x20u8]);
    assert(encode_utf8(s).subrange(byte_pos(s, q), byte_pos(s, q + 1))[0] == encode_utf8(s)[byte_pos(s, q)]);
}

/// Where a headline with the four-char keyword `w` stands: line `m` with `k`
/// stars, the keyword at char `p` right after the stars and their space and
/// followed by a space, the line running past that space.
spec fn keyword_line(src: Seq<char>, m: int, k: int, p: int, w: Seq<char>) -> bool {
    let l = lines_of(src)[m];
    &&& 0 <= m < lines_of(src).len()
    &&& heading_stars_of(src, l) == Some(k)
    &&& 1 <= k
    &&& l.start + k + 1 == p
    &&& 0 <= l.start
    &&& p + 4 < l.end <= src.len()
    &&& forall|j: int| l.start <= j < l.start + k ==> #[trigger] src[j] == '*'
    &&& src[l.start + k] == ' '
    &&& src.subrange(p, p + 5) == w.push(' ')
    &&& l.end == find_char(src, '\n', l.start, src.len() as int)
}

proof fn lemma_todo_setup(src: Seq<char>, h: HeadingM, p: int) -> (m: int)
    requires
        forest_headings(parse_org_spec(src)).contains(h),
        h.todo == Some(todo_word()),
        0 <= p,
        p + 4 < src.len(),
        byte_pos(src, p) == h.keyword_range.unwrap().0,
        src[p + 4] == ' ',
    ensures
        keyword_line(src, m, h.level, p, todo_word()),
        h.range.0 == byte_pos(src, lines_of(src)[m].start),
        text_end_from(src, p) == heading_text_end(src, lines_of(src)[m]),
        h.keyword_range == Some((byte_pos(src, p), byte_pos(src, p + 4))),
{
    let m = lemma_heading_line(src, h);
    lemma_lines_of_wf(src);
    let l = lines_of(src)[m];
    let k = h.level;
    lemma_heading_stars_positive(src, l);
    lemma_run_of_bounds(src, '*', l.start, l.end);
    lemma_heading_of_frame(src, l, k, h.body);
    lemma_heading_keyword(src, l, k, h.body);
    let r0 = l.start + k + 1;
    let cend = heading_text_end(src, l);
    assert(r0 <= cend);
    lemma_find_char_bounds(src, ' ', r0, cend);
    let tk = find_char(src, ' ', r0, cend);
    assert(keyword_word(src, r0, cend));
    assert(src.subrange(r0, tk) == todo_word());
    assert(todo_word().len() == 4);
    assert(tk == r0 + 4);
    lemma_byte_pos_is_boundary(src, r0);
    if p < r0 {
        lemma_byte_pos_mono(src, p, r0);
    } else if r0 < p {
        lemma_byte_pos_mono(src, r0, p);
    }
    assert(p == r0);
    lemma_line_end(src, m);
    lemma_find_char_bounds(src, '\n', l.start, src.len() as int);
    assert forall|j: int| l.start <= j <= p + 4 implies #[trigger] src[j] != '\n' by {
        if j < l.start + k {
            assert(src[j] == '*');
        } else if j == l.start + k {
        } else if j < p + 4 {
            assert(src.subrange(r0, tk)[j - r0] == src[j]);
        }
    }
    assert(l.end > p + 4);
    assert(src.subrange(p, p + 5) =~= todo_word().push(' ')) by {
        assert forall|j: int| 0 <= j < 4 implies src.subrange(p, p + 5)[j] == todo_word()[j] by {
            assert(src.subrange(r0, tk)[j] == src[p + j]);
        }
    }
    lemma_find_char_is(src, '\n', p, src.len() as int, l.end);
    m
}

proof fn lemma_todo_first_cycle(src: Seq<char>, m: int, k: int, p: int, s1: Seq<char>, h: HeadingM, h1: HeadingM) -> (m1: int)
    requires
        keyword_line(src, m, k, p, todo_word()),
        h.keyword_range == Some((byte_pos(src, p), byte_pos(src, p + 4))),
        h.todo == Some(todo_word()),
        encode_utf8(s1) == cycle_todo_bytes(encode_utf8(src), h),
        forest_headings(parse_org_spec(s1)).contains(h1),
        h1.range.0 == byte_pos(src, lines_of(src)[m].start),
    ensures
        s1 == src.subrange(0, p) + done_word() + src.subrange(p + 4, src.len() as int),
        keyword_line(s1, m1, k, p, done_word()),
        lines_of(s1)[m1].start == lines_of(src)[m].start,
        lines_of(s1)[m1].end == lines_of(src)[m].end,
        heading_text_end(s1, lines_of(s1)[m1]) == heading_text_end(src, lines_of(src)[m]),
        h1.level == k,
        h1.todo == Some(done_word()),
        h1.keyword_range == Some((byte_pos(s1, p), byte_pos(s1, p + 4))),
{
    let l = lines_of(src)[m];
    let done = done_word();
    assert(todo_word() != done_word()) by {
        assert(todo_word()[0] != done_word()[0]);
    }
    lemma_encode_splice(src, p, p + 4, done);
    let t1 = src.subrange(0, p) + done + src.subrange(p + 4, src.len() as int);
    lemma_encode_injective(s1, t1);
    let m1 = lemma_reparse_same_line(src, m, k, p, p + 4, done, t1, h1);
    let l1 = lines_of(t1)[m1];
    lemma_heading_keyword(t1, l1, k, h1.body);
    assert forall|j: int| p + 4 <= j < t1.len() implies #[trigger] t1[j] == src[j] by {}
    assert forall|j: int| 0 <= j < p implies #[trigger] t1[j] == src[j] by {}
    let cend = heading_text_end(src, l);
    assert(src.subrange(p, p + 5)[4] == ' ');
    assert(heading_text_end(t1, l1) == cend);
    assert(cend > p + 4);
    assert(t1[p] == 'D' && t1[p + 1] == 'O' && t1[p + 2] == 'N' && t1[p + 3] == 'E');
    lemma_find_char_is(t1, ' ', p, cend, p + 4);
    assert(keyword_word(t1, p, cend));
    assert(t1.subrange(p, p + 4) =~= done);
    assert(t1.subrange(p, p + 5) =~= done.push(' '));
    lemma_line_end(t1, m1);
    assert forall|j: int| l1.start <= j < l1.start + k implies #[trigger] t1[j] == '*' by {
        assert(t1[j] == src[j]);
    }
    assert(t1[l1.start + k] == src[l.start + k]);
    m1
}

proof fn lemma_done_second_cycle(s1: Seq<char>, m1: int, k: int, p: int, h1: HeadingM, s2: Seq<char>, h2: HeadingM) -> (m2: int)
    requires
        keyword_line(s1, m1, k, p, done_word()),
        h1.keyword_range == Some((byte_pos(s1, p), byte_pos(s1, p + 4))),
        h1.todo == Some(done_word()),
        !keyword_word(s1, p + 5, heading_text_end(s1, lines_of(s1)[m1])),
        encode_utf8(s2) == cycle_todo_bytes(encode_utf8(s1), h1),
        forest_headings(parse_org_spec(s2)).contains(h2),
        h2.range.0 == byte_pos(s1, lines_of(s1)[m1].start),
    ensures
        s2 == s1.subrange(0, p) + s1.subrange(p + 5, s1.len() as int),
        0 <= m2 < lines_of(s2).len(),
        lines_of(s2)[m2].start == lines_of(s1)[m1].start,
        heading_stars_of(s2, lines_of(s2)[m2]) == Some(k),
        h2 == heading_of(s2, lines_of(s2)[m2], k, h2.body),
        h2.level == k,
        h2.todo is None,
        h2.keyword_range is None,
{
    let l1 = lines_of(s1)[m1];
    assert(s1.subrange(p, p + 5)[4] == ' ');
    lemma_space_byte(s1, p + 4);
    assert(removal_end(encode_utf8(s1), byte_pos(s1, p + 4)) == byte_pos(s1, p + 5));
    assert(done_word() != todo_word()) by {
        assert(todo_word()[0] != done_word()[0]);
    }
    lemma_encode_splice(s1, p, p + 5, Seq::<char>::empty());
    assert(encode_utf8(Seq::<char>::empty()) =~= Seq::<u8>::empty());
    let t2 = s1.subrange(0, p) + Seq::<char>::empty() + s1.subrange(p + 5, s1.len() as int);
    lemma_encode_injective(s2, t2);
    assert(t2 =~= s1.subrange(0, p) + s1.subrange(p + 5, s1.len() as int));
    let m2 = lemma_reparse_same_line(s1, m1, k, p, p + 5, Seq::<char>::empty(), t2, h2);
    let l2 = lines_of(t2)[m2];
    lemma_heading_keyword(t2, l2, k, h2.body);
    assert(l2.end == l1.end - 5);
    assert forall|j: int| p <= j < t2.len() implies #[trigger] t2[j] == s1[j + 5] by {}
    assert forall|j: int| 0 <= j < p implies #[trigger] t2[j] == s1[j] by {}
    let cend = heading_text_end(s1, l1);
    let cend2 = heading_text_end(t2, l2);
    assert(cend2 == cend - 5) by {
        assert(l1.start < p);
        if l1.end - 5 > l2.start {
            assert(t2[l2.end - 1] == s1[l1.end - 1]);
        } else {
            assert(s1[l1.end - 1] == ' ');
        }
    }
    assert forall|j: int| p <= j < cend - 5 implies #[trigger] t2[j] == s1[j + 5] by {}
    lemma_keyword_word_shift(t2, s1, p, cend - 5, 5);
    m2
}

proof fn lemma_none_third_cycle(s2: Seq<char>, m2: int, k: int, p: int, h2: HeadingM)
    requires
        0 <= m2 < lines_of(s2).len(),
        heading_stars_of(s2, lines_of(s2)[m2]) == Some(k),
        lines_of(s2)[m2].start + k + 1 == p,
        h2 == heading_of(s2, lines_of(s2)[m2], k, h2.body),
        h2.todo is None,
        h2.keyword_range is None,
    ensures
        cycle_todo_bytes(encode_utf8(s2), h2) == encode_utf8(
            s2.subrange(0, p) + todo_word().push(' ') + s2.subrange(p, s2.len() as int),
        ),
{
    let l2 = lines_of(s2)[m2];
    lemma_lines_of_wf(s2);
    lemma_heading_stars_positive(s2, l2);
    lemma_run_of_bounds(s2, '*', l2.start, l2.end);
    lemma_heading_of_frame(s2, l2, k, h2.body);
    assert forall|j: int| l2.start <= j < l2.start + k + 1 implies (#[trigger] s2[j] as u32) < 0x80 by {
        if j < l2.start + k {
            assert(s2[j] == '*');
        } else {
            assert(s2[j] == ' ');
        }
    }
    lemma_byte_pos_ascii_run(s2, l2.start, k + 1);
    assert(keyword_slot(h2) == byte_pos(s2, p));
    lemma_encode_splice(s2, p, p, todo_word().push(' '));
}

/// Cycling a headline's TODO keyword three times, re-parsing between the
/// cycles, gives back the source's exact bytes: `TODO` becomes `DONE`, `DONE`
/// is removed with the space after it, and `TODO` comes back with a space. It
/// holds for a `TODO` (starting at char `p`) followed by a space, where the
/// word after that space is not itself an ALL-CAPS word, which the removal
/// would make the keyword.
pub proof fn lemma_three_cycles_restore(
    src: Seq<char>,
    h: HeadingM,
    p: int,
    s1: Seq<char>,
    h1: HeadingM,
    s2: Seq<char>,
    h2: HeadingM,
)
    requires
        forest_headings(parse_org_spec(src)).contains(h),
        h.todo == Some(todo_word()),
        0 <= p,
        p + 4 < src.len(),
        byte_pos(src, p) == h.keyword_range.unwrap().0,
        src[p + 4] == ' ',
        !keyword_word(src, p + 5, text_end_from(src, p)),
        encode_utf8(s1) == cycle_todo_bytes(encode_utf8(src), h),
        forest_headings(parse_org_spec(s1)).contains(h1),
        h1.range.0 == h.range.0,
        encode_utf8(s2) == cycle_todo_bytes(encode_utf8(s1), h1),
        forest_headings(parse_org_spec(s2)).contains(h2),
        h2.range.0 == h.range.0,
    ensures
        h1.todo == Some(done_word()),
        h2.todo is None,
        cycle_todo_bytes(encode_utf8(s2), h2) == encode_utf8(src),
{
    let m = lemma_todo_setup(src, h, p);
    let l = lines_of(src)[m];
    let k = h.level;
    let m1 = lemma_todo_first_cycle(src, m, k, p, s1, h, h1);
    let l1 = lines_of(s1)[m1];
    // The word after the removed keyword is the source's.
    let cend = heading_text_end(src, l);
    assert forall|j: int| p + 5 <= j < cend implies #[trigger] s1[j] == src[j + 0] by {}
    lemma_keyword_word_shift(s1, src, p + 5, cend, 0);
    assert(s1.subrange(0, p) =~= src.subrange(0, p));
    lemma_prefix_byte_pos(src, s1, p);
    let m2 = lemma_done_second_cycle(s1, m1, k, p, h1, s2, h2);
    lemma_none_third_cycle(s2, m2, k, p, h2);
    assert(s2.subrange(0, p) + todo_word().push(' ') + s2.subrange(p, s2.len() as int) =~= src);
}

} // verus!
