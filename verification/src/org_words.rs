//! Laws on the words the org parse picks out of a line: the language of a
//! `#+begin_src` block and the tags of a headline.

use vstd::prelude::*;
use crate::unicode::{
    is_white_space, is_alphanumeric_char, skip_white, find_white, find_char, trimmed,
    lemma_skip_white_bounds, lemma_find_white_bounds, lemma_find_char_bounds, lemma_back_white_bounds,
};
use crate::org_model::{
    LineM, lines_of, lines_wf, lemma_lines_of_wf, NodeM, SrcBlockM, heading_stars_of, heading_of,
    begin_src_marker, starts_with_lower, src_block_of, plain_step, parse_seq, parse_org_spec,
    lemma_plain_step, lemma_parse_seq_bounds, past, lemma_heading_stars_positive, heading_text_end, keyword_end, has_keyword,
    is_keyword_char, is_tag_char, tag_run_start, colon_pieces, split_tags_of,
};

verus! {

broadcast use vstd::seq::group_seq_axioms, vstd::seq_lib::group_seq_properties;

// ----- src block languages ----------------------------------------------------

/// Every src block of a node, depth-first in document order.
pub open spec fn node_src_blocks(n: NodeM) -> Seq<SrcBlockM>
    decreases n,
{
    match n {
        NodeM::Heading(h) => forest_src_blocks(h.body),
        NodeM::SrcBlock(b) => seq![b],
        _ => seq![],
    }
}

/// Every src block of a forest, depth-first in document order.
pub open spec fn forest_src_blocks(s: Seq<NodeM>) -> Seq<SrcBlockM>
    decreases s,
{
    if s.len() == 0 {
        seq![]
    } else {
        node_src_blocks(s[0]) + forest_src_blocks(s.subrange(1, s.len() as int))
    }
}

/// A non-empty run of chars none of which is white space.
pub open spec fn is_word(w: Seq<char>) -> bool {
    w.len() > 0 && forall|k: int| 0 <= k < w.len() ==> !is_white_space(#[trigger] w[k])
}

/// Line `l` holds white space, `#+begin_src` (in any ASCII case) at `m`, white
/// space, then `w` at `q`, which ends at white space or at the end of the line.
pub open spec fn word_after_marker(src: Seq<char>, l: LineM, m: int, q: int, w: Seq<char>) -> bool {
    &&& l.start <= m
    &&& m + 11 <= q
    &&& q + w.len() <= l.end
    &&& forall|k: int| l.start <= k < m ==> is_white_space(#[trigger] src[k])
    &&& starts_with_lower(src, m, l.end, begin_src_marker())
    &&& forall|k: int| m + 11 <= k < q ==> is_white_space(#[trigger] src[k])
    &&& src.subrange(q, q + w.len()) == w
    &&& (q + w.len() == l.end || is_white_space(src[q + w.len()]))
}

/// `w` is the first word after the `#+begin_src` marker of line `l`.
pub open spec fn language_of_line(src: Seq<char>, l: LineM, w: Seq<char>) -> bool {
    exists|m: int, q: int| #[trigger] word_after_marker(src, l, m, q, w)
}

/// A block's language, when it has one, is a word that follows the marker on
/// one of the lines.
pub open spec fn language_from_lines(src: Seq<char>, lines: Seq<LineM>, b: SrcBlockM) -> bool {
    b.language matches Some(w) ==> is_word(w) && exists|i: int|
        0 <= i < lines.len() && #[trigger] language_of_line(src, lines[i], w)
}

pub open spec fn languages_from_lines(src: Seq<char>, lines: Seq<LineM>, bs: Seq<SrcBlockM>) -> bool {
    forall|k: int| 0 <= k < bs.len() ==> language_from_lines(src, lines, #[trigger] bs[k])
}

proof fn lemma_find_white_word(s: Seq<char>, i: int, end: int)
    requires
        i <= end,
    ensures
        forall|k: int| i <= k < find_white(s, i, end) ==> !is_white_space(#[trigger] s[k]),
        find_white(s, i, end) < end ==> is_white_space(s[find_white(s, i, end)]),
    decreases end - i,
{
    if i < end && !is_white_space(s[i]) {
        lemma_find_white_word(s, i + 1, end);
    }
}

proof fn lemma_src_block_language(src: Seq<char>, lines: Seq<LineM>, i: int)
    requires
        lines_wf(src, lines),
        0 <= i < lines.len(),
    ensures
        src_block_of(src, lines, i) matches Some(be) ==> language_from_lines(src, lines, be.0),
{
    reveal(src_block_of);
    let l = lines[i];
    assert(0 <= l.start <= l.end <= l.next <= src.len());
    if src_block_of(src, lines, i) is Some {
        let m = skip_white(src, l.start, l.end);
        lemma_skip_white_bounds(src, l.start, l.end);
        let a0 = skip_white(src, m + 11, l.end);
        lemma_skip_white_bounds(src, m + 11, l.end);
        if a0 < l.end {
            let a1 = find_white(src, a0, l.end);
            lemma_find_white_bounds(src, a0, l.end);
            lemma_find_white_word(src, a0, l.end);
            let w = src.subrange(a0, a1);
            assert(a1 > a0);
            assert forall|k: int| 0 <= k < w.len() implies !is_white_space(#[trigger] w[k]) by {
                assert(w[k] == src[a0 + k]);
            }
            assert(word_after_marker(src, l, m, a0, w));
            assert(language_of_line(src, lines[i], w));
        }
    }
}

proof fn lemma_forest_cons_src_blocks(x: NodeM, rest: Seq<NodeM>)
    ensures
        forest_src_blocks(seq![x] + rest) == node_src_blocks(x) + forest_src_blocks(rest),
{
    let s = seq![x] + rest;
    assert(s[0] == x);
    assert(s.subrange(1, s.len() as int) =~= rest);
}

proof fn lemma_languages_concat(src: Seq<char>, lines: Seq<LineM>, a: Seq<SrcBlockM>, b: Seq<SrcBlockM>)
    requires
        languages_from_lines(src, lines, a),
        languages_from_lines(src, lines, b),
    ensures
        languages_from_lines(src, lines, a + b),
{
    assert forall|k: int| 0 <= k < (a + b).len() implies language_from_lines(
        src,
        lines,
        #[trigger] (a + b)[k],
    ) by {
        if k < a.len() {
            assert((a + b)[k] == a[k]);
        } else {
            assert((a + b)[k] == b[k - a.len()]);
        }
    }
}

proof fn lemma_parse_seq_languages(src: Seq<char>, lines: Seq<LineM>, i: int, ctx: int)
    requires
        lines_wf(src, lines),
        0 <= i <= lines.len(),
    ensures
        languages_from_lines(src, lines, forest_src_blocks(parse_seq(src, lines, i, ctx).0)),
    decreases lines.len() - i,
{
    if i < lines.len() {
        match heading_stars_of(src, lines[i]) {
            Some(k) => {
                if k > ctx {
                    lemma_parse_seq_bounds(src, lines, i + 1, k);
                    lemma_parse_seq_languages(src, lines, i + 1, k);
                    let sub = parse_seq(src, lines, i + 1, k);
                    let nx = past(i, sub.1, lines.len() as int);
                    lemma_parse_seq_languages(src, lines, nx, ctx);
                    let rest = parse_seq(src, lines, nx, ctx);
                    let hd = heading_of(src, lines[i], k, sub.0);
                    assert(hd.body == sub.0) by {
                        reveal(heading_of);
                    }
                    lemma_forest_cons_src_blocks(NodeM::Heading(hd), rest.0);
                    lemma_languages_concat(
                        src,
                        lines,
                        node_src_blocks(NodeM::Heading(hd)),
                        forest_src_blocks(rest.0),
                    );
                } else {
                    assert(parse_seq(src, lines, i, ctx).0.len() == 0);
                }
            },
            None => {
                lemma_plain_step(src, lines, i);
                lemma_src_block_language(src, lines, i);
                let st = plain_step(src, lines, i);
                lemma_parse_seq_languages(src, lines, st.1, ctx);
                let rest = parse_seq(src, lines, st.1, ctx);
                lemma_forest_cons_src_blocks(st.0, rest.0);
                assert(languages_from_lines(src, lines, node_src_blocks(st.0))) by {
                    match st.0 {
                        NodeM::SrcBlock(b) => {
                            assert(src_block_of(src, lines, i) is Some);
                            assert(seq![b][0] == b);
                        },
                        NodeM::Heading(h) => {
                            assert(false);
                        },
                        _ => {},
                    }
                }
                lemma_languages_concat(src, lines, node_src_blocks(st.0), forest_src_blocks(rest.0));
            },
        }
    } else {
        assert(parse_seq(src, lines, i, ctx).0.len() == 0);
    }
}

/// The language of every parsed src block, when it has one, is a non-empty
/// run of chars that are not white space; on one of the source's lines it
/// stands right after the `#+begin_src` marker and the white space after it,
/// and it ends at white space or at the end of that line.
pub proof fn lemma_src_block_languages_are_words(src: Seq<char>)
    ensures
        languages_from_lines(src, lines_of(src), forest_src_blocks(parse_org_spec(src))),
{
    lemma_lines_of_wf(src);
    lemma_parse_seq_languages(src, lines_of(src), 0, 0);
}

// ----- headline tags -------------------------------------------------------------

/// What a tag may hold: alphanumerics and `_`, `@`, `#`, `%`.
pub open spec fn allowed_in_tag(c: char) -> bool {
    is_alphanumeric_char(c) || c == '_' || c == '@' || c == '#' || c == '%'
}

/// A non-empty tag made of allowed chars, none a colon.
pub open spec fn is_tag_word(w: Seq<char>) -> bool {
    w.len() > 0 && forall|k: int|
        0 <= k < w.len() ==> allowed_in_tag(#[trigger] w[k]) && w[k] != ':'
}

/// Where a headline's title part begins: after the stars and their space, the
/// keyword slot and the priority cookie.
spec fn title_start(src: Seq<char>, l: LineM, stars: int) -> int {
    let cend = heading_text_end(src, l);
    let r0 = l.start + stars + 1;
    let t = keyword_end(src, l, stars);
    let r1 = if has_keyword(src, l, stars) {
        if t < cend && src[t] == ' ' {
            t + 1
        } else {
            t
        }
    } else {
        r0
    };
    let has_pri = cend - r1 >= 4 && src[r1] == '[' && src[r1 + 1] == '#' && (src[r1 + 2] as u32)
        < 0x80 && src[r1 + 3] == ']';
    if has_pri {
        if r1 + 4 < cend && src[r1 + 4] == ' ' {
            r1 + 5
        } else {
            r1 + 4
        }
    } else {
        r1
    }
}

proof fn lemma_heading_title_part(src: Seq<char>, l: LineM, k: int, body: Seq<NodeM>)
    ensures
        heading_of(src, l, k, body).tags == split_tags_of(
            src,
            title_start(src, l, k),
            heading_text_end(src, l),
        ).1,
        heading_of(src, l, k, body).title == src.subrange(
            trimmed(
                src,
                title_start(src, l, k),
                split_tags_of(src, title_start(src, l, k), heading_text_end(src, l)).0,
            ).0,
            trimmed(
                src,
                title_start(src, l, k),
                split_tags_of(src, title_start(src, l, k), heading_text_end(src, l)).0,
            ).1,
        ),
{
    reveal(heading_of);
}

/// The keyword slot and the priority cookie end before a cookie that starts
/// at `c0` behind a char that is neither a tag char nor a colon.
proof fn lemma_title_start_before(src: Seq<char>, l: LineM, k: int, c0: int)
    requires
        0 <= l.start <= l.end <= src.len(),
        l.start + k + 1 <= c0 < heading_text_end(src, l),
        src[c0] == ':',
        c0 == l.start + k + 1 || (!is_tag_char(src[c0 - 1]) && src[c0 - 1] != ':'),
    ensures
        l.start + k + 1 <= title_start(src, l, k) <= c0,
{
    let cend = heading_text_end(src, l);
    let r0 = l.start + k + 1;
    let t = keyword_end(src, l, k);
    lemma_find_char_bounds(src, ' ', r0, cend);
    if has_keyword(src, l, k) {
        if t > c0 {
            assert(is_keyword_char(src[c0]));
        }
    }
    let r1 = if has_keyword(src, l, k) {
        if t < cend && src[t] == ' ' {
            t + 1
        } else {
            t
        }
    } else {
        r0
    };
    assert(r0 <= r1 <= c0);
}

/// The run of tag chars and colons that ends at `j` begins at `c0` when every
/// char of `c0..j` belongs to it and the one before `c0` does not.
proof fn lemma_tag_run_start_is(s: Seq<char>, a: int, c0: int, j: int)
    requires
        a <= c0 <= j,
        forall|x: int| c0 <= x < j ==> is_tag_char(#[trigger] s[x]) || s[x] == ':',
        c0 == a || (!is_tag_char(s[c0 - 1]) && s[c0 - 1] != ':'),
    ensures
        tag_run_start(s, a, j) == c0,
    decreases j - c0,
{
    if j > c0 {
        assert(is_tag_char(s[j - 1]) || s[j - 1] == ':');
        lemma_tag_run_start_is(s, a, c0, j - 1);
    }
}

/// Colon splitting passes over a piece without colons that ends at `m`.
proof fn lemma_colon_piece(s: Seq<char>, start: int, j: int, m: int, end: int)
    requires
        start <= j <= m < end,
        forall|x: int| j <= x < m ==> #[trigger] s[x] != ':',
        s[m] == ':',
    ensures
        colon_pieces(s, start, j, end) == (if start < m {
            seq![s.subrange(start, m)]
        } else {
            seq![]
        }) + colon_pieces(s, m + 1, m + 1, end),
    decreases m - j,
{
    if j < m {
        lemma_colon_piece(s, start, j + 1, m, end);
    }
}

/// A headline whose text ends in a `:w:` cookie, standing right after the
/// stars and their space or behind a char that is neither allowed in a tag
/// nor a colon, where `w` is a tag of alphanumerics and `_`, `@`, `#`, `%`,
/// has exactly the tag `w`, and its title is a piece of the line before the
/// cookie.
pub proof fn lemma_trailing_tag_cookie(
    src: Seq<char>,
    i: int,
    k: int,
    body: Seq<NodeM>,
    c0: int,
    w: Seq<char>,
)
    requires
        0 <= i < lines_of(src).len(),
        heading_stars_of(src, lines_of(src)[i]) == Some(k),
        is_tag_word(w),
        lines_of(src)[i].start + k + 1 <= c0,
        c0 + w.len() + 2 == heading_text_end(src, lines_of(src)[i]),
        src[c0] == ':',
        src.subrange(c0 + 1, c0 + 1 + w.len()) == w,
        src[c0 + w.len() + 1] == ':',
        c0 == lines_of(src)[i].start + k + 1 || (!allowed_in_tag(src[c0 - 1]) && src[c0 - 1]
            != ':'),
    ensures
        heading_of(src, lines_of(src)[i], k, body).tags == seq![w],
        exists|a: int, b: int|
            #![trigger src.subrange(a, b)]
            lines_of(src)[i].start + k + 1 <= a <= b <= c0 && heading_of(
                src,
                lines_of(src)[i],
                k,
                body,
            ).title == src.subrange(a, b),
{
    let lines = lines_of(src);
    lemma_lines_of_wf(src);
    let l = lines[i];
    assert(0 <= l.start <= l.end <= l.next <= src.len());
    lemma_heading_stars_positive(src, l);
    let cend = heading_text_end(src, l);
    let n = w.len() as int;
    assert(cend <= l.end);
    // the chars of the cookie
    assert forall|x: int| c0 <= x < cend implies is_tag_char(#[trigger] src[x]) || src[x] == ':' by {
        if c0 < x < cend - 1 {
            assert(src.subrange(c0 + 1, c0 + 1 + n)[x - c0 - 1] == src[x]);
            assert(allowed_in_tag(w[x - c0 - 1]));
        }
    }
    if c0 > l.start + k + 1 {
        assert(!is_tag_char(src[c0 - 1]));
    }
    lemma_title_start_before(src, l, k, c0);
    let r2 = title_start(src, l, k);
    lemma_tag_run_start_is(src, r2, c0, cend);
    assert(src[cend - 1] == ':');
    let split = split_tags_of(src, r2, cend);
    assert(split.0 == c0);
    // the pieces between the colons
    lemma_colon_piece(src, c0, c0, c0, cend);
    assert forall|x: int| c0 + 1 <= x < c0 + 1 + n implies #[trigger] src[x] != ':' by {
        assert(src.subrange(c0 + 1, c0 + 1 + n)[x - c0 - 1] == src[x]);
        assert(w[x - c0 - 1] != ':');
    }
    lemma_colon_piece(src, c0 + 1, c0 + 1, c0 + 1 + n, cend);
    assert(colon_pieces(src, cend, cend, cend) == Seq::<Seq<char>>::empty());
    assert(split.1 =~= seq![w]);
    lemma_heading_title_part(src, l, k, body);
    // the title
    let tt = trimmed(src, r2, c0);
    lemma_skip_white_bounds(src, r2, c0);
    lemma_back_white_bounds(src, tt.0, c0);
    let h = heading_of(src, l, k, body);
    assert(h.title == src.subrange(tt.0, tt.1));
}

} // verus!
