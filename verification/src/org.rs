//! The org grammar: typed org-mode nodes with byte ranges into the source.
//!
//! Every node carries its byte range and the leaf ranges tile the source
//! exactly, so nothing is dropped and node-granular splices are byte-exact.
//! A construct the grammar does not type stays visible as `Text`. Headlines
//! need `*` stars followed by a space; `#+begin_src` blocks and `:DRAWER:`
//! blocks are typed only when terminated; CRLF and multibyte titles survive
//! (`\r` is content for the ranges).
//!
//! What each function computes is stated in `org_model` over the source's
//! chars; the functions here compute it over `String`s and byte offsets.

use vstd::prelude::*;
use vstd::utf8::*;
use vstd::string::*;
use crate::utf8::{
    byte_pos, substring, lemma_byte_pos_is_boundary, lemma_byte_pos_mono, lemma_byte_pos_bounds,
    lemma_encode_range, lemma_encode_injective, lemma_boundary_in_range, lemma_ascii_boundary_step,
};
use crate::unicode::{
    chars_of, char_positions, skip_white_exec, find_white_exec, find_char_exec, trimmed_exec,
    ascii_lower_exec, char_is_alphanumeric, same_chars,
};
use crate::text_surface::{TextSurface, spliced};
use crate::org_model::{
    LineM, lines_scan, lines_of, lines_wf, lemma_lines_of_wf, HeadingM, SrcBlockM, DrawerM,
    CheckboxM, TableM, NodeM, run_of, heading_stars_of, is_keyword_char, is_tag_char,
    tag_run_start, colon_pieces, split_tags_of, heading_of, lemma_heading_stars_positive,
    lemma_tag_run_start_bounds, checkbox_of, begin_src_marker, end_src_marker, drawer_end_marker,
    starts_with_lower, trimmed_lower_is, find_block_end, block_body, src_block_of, drawer_of,
    is_drawer_name_char, lemma_line_starts_mono, lemma_find_block_end_bounds, is_table_line,
    starts_construct, table_end, table_lines, span, text_end, parse_seq, parse_org_spec,
    lemma_parse_seq_bounds, plain_step, lemma_table_end_bounds, lemma_text_end_bounds,
    lemma_plain_step, lemma_line_bounds, lemma_checkbox_of_is_some, node_range, node_leaves,
    forest_leaves, node_headings, forest_headings, lemma_forest_leaves_step,
    lemma_forest_headings_step, lemma_forest_end,
};
use crate::unicode::ascii_lower;

verus! {

broadcast use vstd::seq::group_seq_axioms, vstd::seq_lib::group_seq_properties;


/// One parsed org document: the top-level forest of typed nodes.
#[derive(Debug, PartialEq, Eq)]
pub struct OrgDoc {
    pub nodes: Vec<OrgNode>,
}

#[derive(Debug, PartialEq, Eq)]
pub enum OrgNode {
    Heading(Heading),
    SrcBlock(SrcBlock),
    Drawer(Drawer),
    CheckboxItem(CheckboxItem),
    Table(Table),
    /// The inert remainder: any line(s) this grammar does not type. Always
    /// visible verbatim through its range.
    Text { range: std::ops::Range<usize> },
}

#[derive(Debug, PartialEq, Eq)]
pub struct Heading {
    /// 1-based outline level (one `*` per level).
    pub level: u8,
    /// The ALL-CAPS keyword slot after the stars, if present (e.g. `TODO`).
    pub todo: Option<String>,
    /// `[#A]`-style priority cookie character, if present.
    pub priority: Option<char>,
    /// Title text after keyword and priority, the trailing tag cookie removed.
    pub title: String,
    /// `:tag:` cookie contents, in order.
    pub tags: Vec<String>,
    /// Byte range of the keyword token itself: the splice target of a TODO
    /// cycle. `None` when the headline has no keyword.
    pub keyword_range: Option<std::ops::Range<usize>>,
    /// Byte range of the whole headline line (stars through terminator).
    pub range: std::ops::Range<usize>,
    /// The subtree under this headline: nested headings and content nodes.
    pub body: Vec<OrgNode>,
}

#[derive(Debug, PartialEq, Eq)]
pub struct SrcBlock {
    /// First token after `#+begin_src`, if any.
    pub language: Option<String>,
    /// The exact inner text between the begin and end lines.
    pub body: String,
    /// Byte range begin line .. end line (terminators included).
    pub range: std::ops::Range<usize>,
}

#[derive(Debug, PartialEq, Eq)]
pub struct Drawer {
    pub name: String,
    /// The exact inner text between the open and `:END:` lines.
    pub body: String,
    pub range: std::ops::Range<usize>,
}

#[derive(Debug, PartialEq, Eq)]
pub struct CheckboxItem {
    /// `true` unless the state character is a space.
    pub checked: bool,
    /// Item text after the checkbox.
    pub text: String,
    /// Byte range of the state character: the toggle splice target.
    pub state_range: std::ops::Range<usize>,
    pub range: std::ops::Range<usize>,
}

#[derive(Debug, PartialEq, Eq)]
pub struct Table {
    /// Each `|`-line's content, in order (separators included).
    pub lines: Vec<String>,
    pub range: std::ops::Range<usize>,
}

// ----- views ----------------------------------------------------------------

pub open spec fn range_view(r: std::ops::Range<usize>) -> (int, int) {
    (r.start as int, r.end as int)
}

pub open spec fn opt_range_view(r: Option<std::ops::Range<usize>>) -> Option<(int, int)> {
    match r {
        Some(x) => Some(range_view(x)),
        None => None,
    }
}

pub open spec fn opt_string_view(s: Option<String>) -> Option<Seq<char>> {
    match s {
        Some(x) => Some(x@),
        None => None,
    }
}

pub open spec fn strings_view(v: Seq<String>) -> Seq<Seq<char>> {
    v.map_values(|s: String| s@)
}

pub open spec fn heading_view(h: Heading) -> HeadingM
    decreases h,
{
    HeadingM {
        level: h.level as int,
        todo: opt_string_view(h.todo),
        priority: h.priority,
        title: h.title@,
        tags: strings_view(h.tags@),
        keyword_range: opt_range_view(h.keyword_range),
        range: range_view(h.range),
        body: forest_view(h.body@),
    }
}

pub open spec fn src_block_view(b: SrcBlock) -> SrcBlockM {
    SrcBlockM { language: opt_string_view(b.language), body: b.body@, range: range_view(b.range) }
}

pub open spec fn drawer_view(d: Drawer) -> DrawerM {
    DrawerM { name: d.name@, body: d.body@, range: range_view(d.range) }
}

pub open spec fn checkbox_view(c: CheckboxItem) -> CheckboxM {
    CheckboxM {
        checked: c.checked,
        text: c.text@,
        state_range: range_view(c.state_range),
        range: range_view(c.range),
    }
}

pub open spec fn table_view(t: Table) -> TableM {
    TableM { lines: strings_view(t.lines@), range: range_view(t.range) }
}

pub open spec fn node_view(n: OrgNode) -> NodeM
    decreases n,
{
    match n {
        OrgNode::Heading(h) => NodeM::Heading(heading_view(h)),
        OrgNode::SrcBlock(b) => NodeM::SrcBlock(src_block_view(b)),
        OrgNode::Drawer(d) => NodeM::Drawer(drawer_view(d)),
        OrgNode::CheckboxItem(c) => NodeM::CheckboxItem(checkbox_view(c)),
        OrgNode::Table(t) => NodeM::Table(table_view(t)),
        OrgNode::Text { range } => NodeM::Text(range_view(range)),
    }
}

pub open spec fn forest_view(s: Seq<OrgNode>) -> Seq<NodeM>
    decreases s,
{
    Seq::new(
        s.len(),
        |i: int|
            if 0 <= i < s.len() {
                node_view(s[i])
            } else {
                NodeM::Text((0, 0))
            },
    )
}

impl View for OrgDoc {
    type V = Seq<NodeM>;

    open spec fn view(&self) -> Seq<NodeM> {
        forest_view(self.nodes@)
    }
}

impl View for OrgNode {
    type V = NodeM;

    open spec fn view(&self) -> NodeM {
        node_view(*self)
    }
}

impl View for Heading {
    type V = HeadingM;

    open spec fn view(&self) -> HeadingM {
        heading_view(*self)
    }
}

// ----- copies of the recursive nodes ---------------------------------------

fn clone_range(r: &std::ops::Range<usize>) -> (c: std::ops::Range<usize>)
    ensures
        c == *r,
{
    r.start..r.end
}

pub proof fn lemma_forest_view_push(s: Seq<OrgNode>, x: OrgNode)
    ensures
        forest_view(s.push(x)) == forest_view(s).push(node_view(x)),
{
    assert(forest_view(s.push(x)) =~= forest_view(s).push(node_view(x)));
}

pub proof fn lemma_strings_view_push(s: Seq<String>, x: String)
    ensures
        strings_view(s.push(x)) == strings_view(s).push(x@),
{
    assert(strings_view(s.push(x)) =~= strings_view(s).push(x@));
}

fn clone_opt_string(s: &Option<String>) -> (c: Option<String>)
    ensures
        opt_string_view(c) == opt_string_view(*s),
{
    match s {
        Some(t) => Some(t.clone()),
        None => None,
    }
}

fn clone_strings(v: &Vec<String>) -> (c: Vec<String>)
    ensures
        strings_view(c@) == strings_view(v@),
{
    let mut out: Vec<String> = Vec::new();
    let mut j: usize = 0;
    while j < v.len()
        invariant
            j <= v@.len(),
            strings_view(out@) == strings_view(v@.subrange(0, j as int)),
        decreases v@.len() - j,
    {
        proof {
            assert(v@.subrange(0, j + 1) =~= v@.subrange(0, j as int).push(v@[j as int]));
            lemma_strings_view_push(out@, v@[j as int]);
            lemma_strings_view_push(v@.subrange(0, j as int), v@[j as int]);
        }
        out.push(v[j].clone());
        j = j + 1;
    }
    proof {
        assert(v@.subrange(0, v@.len() as int) =~= v@);
    }
    out
}

fn clone_node(n: &OrgNode) -> (c: OrgNode)
    ensures
        node_view(c) == node_view(*n),
    decreases n,
{
    match n {
        OrgNode::Heading(h) => OrgNode::Heading(clone_heading(h)),
        OrgNode::SrcBlock(b) => OrgNode::SrcBlock(b.clone()),
        OrgNode::Drawer(d) => OrgNode::Drawer(d.clone()),
        OrgNode::CheckboxItem(c) => OrgNode::CheckboxItem(c.clone()),
        OrgNode::Table(t) => OrgNode::Table(t.clone()),
        OrgNode::Text { range } => OrgNode::Text { range: clone_range(range) },
    }
}

fn clone_heading(h: &Heading) -> (c: Heading)
    ensures
        heading_view(c) == heading_view(*h),
    decreases h,
{
    let mut body: Vec<OrgNode> = Vec::new();
    let mut k: usize = 0;
    while k < h.body.len()
        invariant
            k <= h.body@.len(),
            forest_view(body@) == forest_view(h.body@.subrange(0, k as int)),
        decreases h.body@.len() - k,
    {
        let c = clone_node(&h.body[k]);
        proof {
            assert(h.body@.subrange(0, k + 1) =~= h.body@.subrange(0, k as int).push(h.body@[k as int]));
            lemma_forest_view_push(body@, c);
            lemma_forest_view_push(h.body@.subrange(0, k as int), h.body@[k as int]);
        }
        body.push(c);
        k = k + 1;
    }
    proof {
        assert(h.body@.subrange(0, h.body@.len() as int) =~= h.body@);
    }
    Heading {
        level: h.level,
        todo: clone_opt_string(&h.todo),
        priority: h.priority,
        title: h.title.clone(),
        tags: clone_strings(&h.tags),
        keyword_range: match &h.keyword_range {
            Some(r) => Some(clone_range(r)),
            None => None,
        },
        range: clone_range(&h.range),
        body,
    }
}

fn clone_forest(v: &Vec<OrgNode>) -> (c: Vec<OrgNode>)
    ensures
        forest_view(c@) == forest_view(v@),
{
    let mut out: Vec<OrgNode> = Vec::new();
    let mut k: usize = 0;
    while k < v.len()
        invariant
            k <= v@.len(),
            forest_view(out@) == forest_view(v@.subrange(0, k as int)),
        decreases v@.len() - k,
    {
        let c = clone_node(&v[k]);
        proof {
            assert(v@.subrange(0, k + 1) =~= v@.subrange(0, k as int).push(v@[k as int]));
            lemma_forest_view_push(out@, c);
            lemma_forest_view_push(v@.subrange(0, k as int), v@[k as int]);
        }
        out.push(c);
        k = k + 1;
    }
    proof {
        assert(v@.subrange(0, v@.len() as int) =~= v@);
    }
    out
}

impl Clone for OrgDoc {
    fn clone(&self) -> (c: Self)
        ensures
            c@ == self@,
    {
        OrgDoc { nodes: clone_forest(&self.nodes) }
    }
}

impl Clone for OrgNode {
    fn clone(&self) -> (c: Self)
        ensures
            node_view(c) == node_view(*self),
    {
        clone_node(self)
    }
}

impl Clone for Heading {
    fn clone(&self) -> (c: Self)
        ensures
            heading_view(c) == heading_view(*self),
    {
        clone_heading(self)
    }
}

impl Clone for CheckboxItem {
    fn clone(&self) -> (c: Self)
        ensures
            checkbox_view(c) == checkbox_view(*self),
    {
        CheckboxItem {
            checked: self.checked,
            text: self.text.clone(),
            state_range: clone_range(&self.state_range),
            range: clone_range(&self.range),
        }
    }
}

impl Clone for SrcBlock {
    fn clone(&self) -> (c: Self)
        ensures
            src_block_view(c) == src_block_view(*self),
    {
        SrcBlock {
            language: clone_opt_string(&self.language),
            body: self.body.clone(),
            range: clone_range(&self.range),
        }
    }
}

impl Clone for Drawer {
    fn clone(&self) -> (c: Self)
        ensures
            drawer_view(c) == drawer_view(*self),
    {
        Drawer { name: self.name.clone(), body: self.body.clone(), range: clone_range(&self.range) }
    }
}

impl Clone for Table {
    fn clone(&self) -> (c: Self)
        ensures
            table_view(c) == table_view(*self),
    {
        Table { lines: clone_strings(&self.lines), range: clone_range(&self.range) }
    }
}

impl Default for OrgDoc {
    fn default() -> (d: Self)
        ensures
            d@ == Seq::<NodeM>::empty(),
    {
        OrgDoc { nodes: Vec::new() }
    }
}

// ----- the scan -------------------------------------------------------------

/// One line by char positions: content `start..end`; `next` is one past the
/// `\n`, or the end of the source.
struct Line {
    start: usize,
    end: usize,
    next: usize,
}

spec fn line_view(l: Line) -> LineM {
    LineM { start: l.start as int, end: l.end as int, next: l.next as int }
}

spec fn lines_view(v: Seq<Line>) -> Seq<LineM> {
    v.map_values(|l: Line| line_view(l))
}

fn scan_lines(cs: &Vec<char>) -> (r: Vec<Line>)
    ensures
        lines_view(r@) == lines_of(cs@),
{
    let n = cs.len();
    let mut lines: Vec<Line> = Vec::new();
    let mut start: usize = 0;
    let mut i: usize = 0;
    while i < n
        invariant
            0 <= start <= i <= n,
            n == cs@.len(),
            lines_view(lines@) + lines_scan(cs@, start as int, i as int) == lines_of(cs@),
        decreases n - i,
    {
        if cs[i] == '\n' {
            let ghost before = lines_view(lines@);
            let ghost l = LineM { start: start as int, end: i as int, next: i + 1 };
            proof {
                assert(lines_scan(cs@, start as int, i as int) == seq![l] + lines_scan(
                    cs@,
                    i + 1,
                    i + 1,
                ));
            }
            lines.push(Line { start, end: i, next: i + 1 });
            proof {
                assert(lines_view(lines@) =~= before.push(l));
                assert(before + (seq![l] + lines_scan(cs@, i + 1, i + 1)) =~= before.push(l)
                    + lines_scan(cs@, i + 1, i + 1));
            }
            start = i + 1;
        }
        i = i + 1;
    }
    let ghost before = lines_view(lines@);
    lines.push(Line { start, end: n, next: n });
    proof {
        assert(lines_view(lines@) =~= before.push(LineM { start: start as int, end: n as int, next: n as int }));
    }
    lines
}

/// A source prepared for parsing: its chars, the byte offset of every char
/// position, and its lines.
struct Scan {
    chars: Vec<char>,
    pos: Vec<usize>,
    lines: Vec<Line>,
}

impl Scan {
    spec fn wf(&self, src: Seq<char>) -> bool {
        &&& self.chars@ == src
        &&& self.pos@.len() == src.len() + 1
        &&& forall|k: int| 0 <= k <= src.len() ==> self.pos@[k] as int == #[trigger] byte_pos(src, k)
        &&& lines_view(self.lines@) == lines_of(src)
        &&& self.lines@.len() == lines_of(src).len()
        &&& lines_wf(src, lines_of(src))
    }
}

fn new_scan(src: &str) -> (r: Scan)
    ensures
        r.wf(src@),
{
    let chars = chars_of(src);
    let blen = src.as_bytes().len();
    proof {
        assert(blen == encode_utf8(chars@).len());
    }
    let pos = char_positions(&chars);
    let lines = scan_lines(&chars);
    proof {
        lemma_lines_of_wf(src@);
        assert(lines_view(lines@).len() == lines@.len());
    }
    Scan { chars, pos, lines }
}

/// The owned text of chars `i..j`.
fn slice_chars(src: &str, sc: &Scan, i: usize, j: usize) -> (r: String)
    requires
        sc.wf(src@),
        i <= j <= src@.len(),
    ensures
        r@ == src@.subrange(i as int, j as int),
{
    proof {
        lemma_byte_pos_is_boundary(src@, i as int);
        lemma_byte_pos_is_boundary(src@, j as int);
        lemma_byte_pos_mono(src@, i as int, j as int);
        lemma_byte_pos_bounds(src@, j as int);
    }
    let r = substring(src, sc.pos[i], sc.pos[j]);
    proof {
        lemma_encode_range(src@, i as int, j as int);
        lemma_encode_injective(r@, src@.subrange(i as int, j as int));
    }
    r
}

// ----- headlines ------------------------------------------------------------

spec fn opt_stars(r: Option<u8>) -> Option<int> {
    match r {
        Some(k) => Some(k as int),
        None => None,
    }
}

/// Stars count of a headline line: one or more `*` FOLLOWED BY A SPACE.
fn heading_stars(cs: &Vec<char>, l: &Line) -> (r: Option<u8>)
    requires
        l.start <= l.end <= cs@.len(),
    ensures
        opt_stars(r) == heading_stars_of(cs@, line_view(*l)),
{
    let mut k = l.start;
    while k < l.end && cs[k] == '*'
        invariant
            l.start <= k <= l.end <= cs@.len(),
            run_of(cs@, '*', k as int, l.end as int) == run_of(cs@, '*', l.start as int, l.end as int),
        decreases l.end - k,
    {
        k = k + 1;
    }
    let stars = k - l.start;
    if stars == 0 || stars > 255 {
        return None;
    }
    if k < l.end && cs[k] == ' ' {
        Some(stars as u8)
    } else {
        None
    }
}

fn keyword_char(c: char) -> (r: bool)
    ensures
        r == is_keyword_char(c),
{
    ('A' <= c && c <= 'Z') || ('0' <= c && c <= '9') || c == '_'
}

fn all_keyword_chars(cs: &Vec<char>, a: usize, b: usize) -> (r: bool)
    requires
        a <= b <= cs@.len(),
    ensures
        r == (forall|i: int| a <= i < b ==> #[trigger] is_keyword_char(cs@[i])),
{
    let mut k = a;
    while k < b
        invariant
            a <= k <= b <= cs@.len(),
            forall|i: int| a <= i < k ==> #[trigger] is_keyword_char(cs@[i]),
        decreases b - k,
    {
        if !keyword_char(cs[k]) {
            return false;
        }
        k = k + 1;
    }
    true
}

fn tag_char(c: char) -> (r: bool)
    ensures
        r == is_tag_char(c),
{
    char_is_alphanumeric(c) || c == '_' || c == '@' || c == '#' || c == '%'
}

fn tag_run_start_exec(cs: &Vec<char>, a: usize, j: usize) -> (r: usize)
    requires
        a <= j <= cs@.len(),
    ensures
        r == tag_run_start(cs@, a as int, j as int),
        a <= r <= j,
{
    let mut k = j;
    while k > a && (tag_char(cs[k - 1]) || cs[k - 1] == ':')
        invariant
            a <= k <= j <= cs@.len(),
            tag_run_start(cs@, a as int, k as int) == tag_run_start(cs@, a as int, j as int),
        decreases k - a,
    {
        k = k - 1;
    }
    k
}

/// The non-empty `:`-separated pieces of chars `rs..b`.
fn colon_pieces_exec(src: &str, sc: &Scan, rs: usize, b: usize) -> (r: Vec<String>)
    requires
        sc.wf(src@),
        rs <= b <= src@.len(),
    ensures
        strings_view(r@) == colon_pieces(src@, rs as int, rs as int, b as int),
{
    let ghost target = colon_pieces(src@, rs as int, rs as int, b as int);
    let mut out: Vec<String> = Vec::new();
    let mut start = rs;
    let mut j = rs;
    while j < b
        invariant
            sc.wf(src@),
            rs <= start <= j <= b <= src@.len(),
            strings_view(out@) + colon_pieces(src@, start as int, j as int, b as int) == target,
        decreases b - j,
    {
        if sc.chars[j] == ':' {
            let ghost before = strings_view(out@);
            let ghost tail = colon_pieces(src@, j + 1, j + 1, b as int);
            if start < j {
                let piece = slice_chars(src, sc, start, j);
                proof {
                    lemma_strings_view_push(out@, piece);
                    assert(before + (seq![piece@] + tail) =~= before.push(piece@) + tail);
                }
                out.push(piece);
            } else {
                proof {
                    assert(before + (Seq::<Seq<char>>::empty() + tail) =~= before + tail);
                }
            }
            start = j + 1;
        }
        j = j + 1;
    }
    if start < j {
        let piece = slice_chars(src, sc, start, j);
        proof {
            lemma_strings_view_push(out@, piece);
        }
        out.push(piece);
    } else {
        proof {
            assert(strings_view(out@) + Seq::<Seq<char>>::empty() =~= strings_view(out@));
        }
    }
    out
}

/// Split a trailing `:a:b:` tag cookie off chars `a..b`: where the title part
/// ends, and the tags.
fn split_tags(src: &str, sc: &Scan, a: usize, b: usize) -> (r: (usize, Vec<String>))
    requires
        sc.wf(src@),
        a <= b <= src@.len(),
    ensures
        r.0 as int == split_tags_of(src@, a as int, b as int).0,
        strings_view(r.1@) == split_tags_of(src@, a as int, b as int).1,
        a <= r.0 <= b,
{
    proof {
        assert(strings_view(Seq::<String>::empty()) =~= Seq::<Seq<char>>::empty());
    }
    if b <= a || sc.chars[b - 1] != ':' {
        return (b, Vec::new());
    }
    let rs = tag_run_start_exec(&sc.chars, a, b);
    proof {
        lemma_tag_run_start_bounds(src@, a as int, b as int - 1);
    }
    if sc.chars[rs] != ':' || b - rs < 2 {
        return (b, Vec::new());
    }
    (rs, colon_pieces_exec(src, sc, rs, b))
}

/// The headline on line `i`, whose star count is `stars`, with the subtree
/// `body` below it.
fn parse_heading(src: &str, sc: &Scan, i: usize, stars: u8, body: Vec<OrgNode>) -> (h: Heading)
    requires
        sc.wf(src@),
        i < sc.lines@.len(),
        heading_stars_of(src@, lines_of(src@)[i as int]) == Some(stars as int),
    ensures
        heading_view(h) == heading_of(src@, lines_of(src@)[i as int], stars as int, forest_view(body@)),
{
    reveal(heading_of);
    let ghost l = lines_of(src@)[i as int];
    let cs = &sc.chars;
    let a = sc.lines[i].start;
    let e = sc.lines[i].end;
    let next = sc.lines[i].next;
    proof {
        assert(line_view(sc.lines@[i as int]) == l);
        lemma_heading_stars_positive(src@, l);
    }
    let cend = if e > a && cs[e - 1] == '\r' {
        e - 1
    } else {
        e
    };
    let r0 = a + stars as usize + 1;
    let t = find_char_exec(cs, ' ', r0, cend);
    let is_kw = t - r0 >= 2 && all_keyword_chars(cs, r0, t);
    let r1 = if is_kw {
        if t < cend && cs[t] == ' ' {
            t + 1
        } else {
            t
        }
    } else {
        r0
    };
    let has_pri = cend - r1 >= 4 && cs[r1] == '[' && cs[r1 + 1] == '#' && (cs[r1 + 2] as u32) < 0x80
        && cs[r1 + 3] == ']';
    let r2 = if has_pri {
        if r1 + 4 < cend && cs[r1 + 4] == ' ' {
            r1 + 5
        } else {
            r1 + 4
        }
    } else {
        r1
    };
    let (split_end, tags) = split_tags(src, sc, r2, cend);
    let (t0, t1) = trimmed_exec(cs, r2, split_end);
    let todo = if is_kw {
        Some(slice_chars(src, sc, r0, t))
    } else {
        None
    };
    let priority = if has_pri {
        Some(cs[r1 + 2])
    } else {
        None
    };
    let keyword_range = if is_kw {
        Some(sc.pos[r0]..sc.pos[t])
    } else {
        None
    };
    Heading {
        level: stars,
        todo,
        priority,
        title: slice_chars(src, sc, t0, t1),
        tags,
        keyword_range,
        range: sc.pos[a]..sc.pos[next],
        body,
    }
}

// ----- checkbox items -------------------------------------------------------

spec fn opt_checkbox_view(c: Option<CheckboxItem>) -> Option<CheckboxM> {
    match c {
        Some(x) => Some(checkbox_view(x)),
        None => None,
    }
}

/// The `- [ ] text` item on line `i`, if the line is one.
fn checkbox_at(src: &str, sc: &Scan, i: usize) -> (r: Option<CheckboxItem>)
    requires
        sc.wf(src@),
        i < sc.lines@.len(),
    ensures
        opt_checkbox_view(r) == checkbox_of(src@, lines_of(src@)[i as int]),
{
    reveal(checkbox_of);
    let ghost l = lines_of(src@)[i as int];
    let cs = &sc.chars;
    let a = sc.lines[i].start;
    let e = sc.lines[i].end;
    let next = sc.lines[i].next;
    proof {
        assert(line_view(sc.lines@[i as int]) == l);
    }
    let ind = skip_white_exec(cs, a, e);
    if !(ind < e && (cs[ind] == '-' || cs[ind] == '+' || cs[ind] == '*') && e - (ind + 1) >= 4
        && cs[ind + 1] == ' ' && cs[ind + 2] == '[' && (cs[ind + 3] == ' ' || cs[ind + 3] == 'x'
        || cs[ind + 3] == 'X') && cs[ind + 4] == ']') {
        return None;
    }
    let s = ind + 3;
    let r4 = s + 2;
    let t0 = if r4 < e && cs[r4] == ' ' {
        r4 + 1
    } else {
        r4
    };
    let (x, y) = trimmed_exec(cs, t0, e);
    Some(
        CheckboxItem {
            checked: cs[s] != ' ',
            text: slice_chars(src, sc, x, y),
            state_range: sc.pos[s]..sc.pos[s + 1],
            range: sc.pos[a]..sc.pos[next],
        },
    )
}

// ----- blocks -----------------------------------------------------------------

fn begin_src_chars() -> (r: Vec<char>)
    ensures
        r@ == begin_src_marker(),
{
    let r = vec!['#', '+', 'b', 'e', 'g', 'i', 'n', '_', 's', 'r', 'c'];
    proof {
        assert(r@ =~= begin_src_marker());
    }
    r
}

fn end_src_chars() -> (r: Vec<char>)
    ensures
        r@ == end_src_marker(),
{
    let r = vec!['#', '+', 'e', 'n', 'd', '_', 's', 'r', 'c'];
    proof {
        assert(r@ =~= end_src_marker());
    }
    r
}

fn drawer_end_chars() -> (r: Vec<char>)
    ensures
        r@ == drawer_end_marker(),
{
    let r = vec![':', 'e', 'n', 'd', ':'];
    proof {
        assert(r@ =~= drawer_end_marker());
    }
    r
}

fn starts_with_lower_exec(cs: &Vec<char>, at: usize, end: usize, marker: &Vec<char>) -> (r: bool)
    requires
        at <= end <= cs@.len(),
    ensures
        r == starts_with_lower(cs@, at as int, end as int, marker@),
{
    if end - at < marker.len() {
        return false;
    }
    let mut k: usize = 0;
    while k < marker.len()
        invariant
            at + marker@.len() <= end <= cs@.len(),
            k <= marker@.len(),
            forall|m: int| 0 <= m < k ==> #[trigger] ascii_lower(cs@[at + m]) == marker@[m],
        decreases marker@.len() - k,
    {
        if ascii_lower_exec(cs[at + k]) != marker[k] {
            return false;
        }
        k = k + 1;
    }
    true
}

/// Whether line `j`, trimmed and lowercased, is exactly `marker`.
fn trimmed_lower_is_exec(cs: &Vec<char>, l: &Line, marker: &Vec<char>) -> (r: bool)
    requires
        l.start <= l.end <= cs@.len(),
    ensures
        r == trimmed_lower_is(cs@, line_view(*l), marker@),
{
    let (t0, t1) = trimmed_exec(cs, l.start, l.end);
    t1 - t0 == marker.len() && starts_with_lower_exec(cs, t0, t1, marker)
}

spec fn opt_index(r: Option<usize>) -> Option<int> {
    match r {
        Some(k) => Some(k as int),
        None => None,
    }
}

/// The first line at or after `from` whose trimmed, lowercased text is `marker`.
fn find_block_end_exec(src: &str, sc: &Scan, from: usize, marker: &Vec<char>) -> (r: Option<usize>)
    requires
        sc.wf(src@),
        from <= sc.lines@.len(),
    ensures
        opt_index(r) == find_block_end(src@, lines_of(src@), from as int, marker@),
{
    let ghost lines = lines_of(src@);
    let mut j = from;
    while j < sc.lines.len()
        invariant
            sc.wf(src@),
            lines == lines_of(src@),
            from <= j <= sc.lines@.len(),
            find_block_end(src@, lines, j as int, marker@) == find_block_end(src@, lines, from as int, marker@),
        decreases sc.lines@.len() - j,
    {
        proof {
            assert(line_view(sc.lines@[j as int]) == lines[j as int]);
        }
        if trimmed_lower_is_exec(&sc.chars, &sc.lines[j], marker) {
            return Some(j);
        }
        j = j + 1;
    }
    None
}

spec fn opt_src_block_view(r: Option<(SrcBlock, usize)>) -> Option<(SrcBlockM, int)> {
    match r {
        Some(x) => Some((src_block_view(x.0), x.1 as int)),
        None => None,
    }
}

spec fn opt_drawer_view(r: Option<(Drawer, usize)>) -> Option<(DrawerM, int)> {
    match r {
        Some(x) => Some((drawer_view(x.0), x.1 as int)),
        None => None,
    }
}

/// The chars between begin line `i` and end line `e`.
fn block_body_exec(src: &str, sc: &Scan, i: usize, e: usize) -> (r: String)
    requires
        sc.wf(src@),
        i < e < sc.lines@.len(),
    ensures
        r@ == block_body(src@, lines_of(src@), i as int, e as int),
{
    if e > i + 1 {
        proof {
            lemma_line_starts_mono(src@, lines_of(src@), i + 1, e as int);
            assert(line_view(sc.lines@[i + 1]) == lines_of(src@)[i + 1]);
            assert(line_view(sc.lines@[e as int]) == lines_of(src@)[e as int]);
        }
        slice_chars(src, sc, sc.lines[i + 1].start, sc.lines[e].start)
    } else {
        String::new()
    }
}

/// A terminated `#+begin_src` block on line `i`, and its end line.
fn src_block_at(src: &str, sc: &Scan, i: usize) -> (r: Option<(SrcBlock, usize)>)
    requires
        sc.wf(src@),
        i < sc.lines@.len(),
    ensures
        opt_src_block_view(r) == src_block_of(src@, lines_of(src@), i as int),
        r matches Some(x) ==> i < x.1 < sc.lines@.len(),
{
    reveal(src_block_of);
    let ghost lines = lines_of(src@);
    let cs = &sc.chars;
    let a = sc.lines[i].start;
    let e = sc.lines[i].end;
    let n = sc.lines.len();
    proof {
        assert(line_view(sc.lines@[i as int]) == lines[i as int]);
        lemma_line_bounds(src@, lines, i as int);
    }
    let ts = skip_white_exec(cs, a, e);
    let begin = begin_src_chars();
    if !starts_with_lower_exec(cs, ts, e, &begin) {
        return None;
    }
    let end_marker = end_src_chars();
    match find_block_end_exec(src, sc, i + 1, &end_marker) {
        None => None,
        Some(ej) => {
            proof {
                lemma_find_block_end_bounds(src@, lines, i + 1, end_src_marker());
                assert(line_view(sc.lines@[ej as int]) == lines[ej as int]);
            }
            let a0 = skip_white_exec(cs, ts + 11, e);
            let a1 = find_white_exec(cs, a0, e);
            let language = if a0 < e {
                Some(slice_chars(src, sc, a0, a1))
            } else {
                None
            };
            let body = block_body_exec(src, sc, i, ej);
            Some((SrcBlock { language, body, range: sc.pos[a]..sc.pos[sc.lines[ej].next] }, ej))
        },
    }
}

fn drawer_name_char(c: char) -> (r: bool)
    ensures
        r == is_drawer_name_char(c),
{
    ('0' <= c && c <= '9') || ('A' <= c && c <= 'Z') || ('a' <= c && c <= 'z') || c == '_' || c
        == '-'
}

/// A terminated `:NAME:` drawer on line `i`, and its `:END:` line.
fn drawer_at(src: &str, sc: &Scan, i: usize) -> (r: Option<(Drawer, usize)>)
    requires
        sc.wf(src@),
        i < sc.lines@.len(),
    ensures
        opt_drawer_view(r) == drawer_of(src@, lines_of(src@), i as int),
        r matches Some(x) ==> i < x.1 < sc.lines@.len(),
{
    reveal(drawer_of);
    let ghost lines = lines_of(src@);
    let cs = &sc.chars;
    let a = sc.lines[i].start;
    let e = sc.lines[i].end;
    let n = sc.lines.len();
    proof {
        assert(line_view(sc.lines@[i as int]) == lines[i as int]);
        lemma_line_bounds(src@, lines, i as int);
    }
    if !(e - a >= 3 && cs[a] == ':' && cs[e - 1] == ':') {
        return None;
    }
    let mut k = a + 1;
    while k < e - 1
        invariant
            cs@ == src@,
            i < lines_of(src@).len(),
            lines_of(src@)[i as int].start == a,
            lines_of(src@)[i as int].end == e,
            a + 3 <= e <= cs@.len(),
            a + 1 <= k <= e - 1,
            forall|m: int| a + 1 <= m < k ==> #[trigger] is_drawer_name_char(cs@[m]),
        decreases e - 1 - k,
    {
        if !drawer_name_char(cs[k]) {
            proof {
                reveal(drawer_of);
                assert(!is_drawer_name_char(src@[k as int]));
            }
            return None;
        }
        k = k + 1;
    }
    let end_marker = drawer_end_chars();
    match find_block_end_exec(src, sc, i + 1, &end_marker) {
        None => None,
        Some(ej) => {
            proof {
                lemma_find_block_end_bounds(src@, lines, i + 1, drawer_end_marker());
                assert(line_view(sc.lines@[ej as int]) == lines[ej as int]);
            }
            let name = slice_chars(src, sc, a + 1, e - 1);
            let body = block_body_exec(src, sc, i, ej);
            Some((Drawer { name, body, range: sc.pos[a]..sc.pos[sc.lines[ej].next] }, ej))
        },
    }
}

// ----- tables, text runs, and the recursive descent ---------------------------

fn table_line(cs: &Vec<char>, l: &Line) -> (r: bool)
    requires
        l.start <= l.end <= cs@.len(),
    ensures
        r == is_table_line(cs@, line_view(*l)),
{
    l.start < l.end && cs[l.start] == '|'
}

/// Whether line `j` begins a construct the grammar types (or a headline of
/// any depth), which ends a text run.
fn starts_construct_exec(src: &str, sc: &Scan, j: usize) -> (r: bool)
    requires
        sc.wf(src@),
        j < sc.lines@.len(),
    ensures
        r == starts_construct(src@, lines_of(src@), j as int),
{
    let ghost lines = lines_of(src@);
    proof {
        assert(line_view(sc.lines@[j as int]) == lines[j as int]);
        lemma_line_bounds(src@, lines, j as int);
        lemma_checkbox_of_is_some(src@, lines[j as int]);
    }
    heading_stars(&sc.chars, &sc.lines[j]).is_some() || checkbox_at(src, sc, j).is_some()
        || table_line(&sc.chars, &sc.lines[j]) || src_block_at(src, sc, j).is_some() || drawer_at(
        src,
        sc,
        j,
    ).is_some()
}

/// The table run starting at line `i` (a table line), and the line after it.
fn table_at(src: &str, sc: &Scan, i: usize) -> (r: (Table, usize))
    requires
        sc.wf(src@),
        i < sc.lines@.len(),
        is_table_line(src@, lines_of(src@)[i as int]),
    ensures
        r.1 as int == table_end(src@, lines_of(src@), i as int),
        table_view(r.0) == (TableM {
            lines: table_lines(src@, lines_of(src@), i as int, r.1 as int),
            range: span(src@, lines_of(src@), i as int, r.1 as int),
        }),
{
    let ghost lines = lines_of(src@);
    let n = sc.lines.len();
    let mut tl: Vec<String> = Vec::new();
    let mut j = i;
    proof {
        assert(strings_view(tl@) =~= table_lines(src@, lines, i as int, i as int));
    }
    while j < n && table_line(&sc.chars, &sc.lines[j])
        invariant
            sc.wf(src@),
            lines == lines_of(src@),
            n == sc.lines@.len(),
            i <= j <= n,
            table_end(src@, lines, j as int) == table_end(src@, lines, i as int),
            strings_view(tl@) == table_lines(src@, lines, i as int, j as int),
            i < n,
            is_table_line(src@, lines[i as int]),
        decreases n - j,
    {
        proof {
            assert(line_view(sc.lines@[j as int]) == lines[j as int]);
            lemma_line_bounds(src@, lines, j as int);
        }
        let line = slice_chars(src, sc, sc.lines[j].start, sc.lines[j].end);
        proof {
            lemma_strings_view_push(tl@, line);
            assert(table_lines(src@, lines, i as int, j + 1) =~= table_lines(src@, lines, i as int, j as int).push(
                line@,
            ));
        }
        tl.push(line);
        j = j + 1;
    }
    proof {
        assert(line_view(sc.lines@[i as int]) == lines[i as int]);
        assert(j > i);
        assert(line_view(sc.lines@[j - 1]) == lines[j - 1]);
        lemma_line_bounds(src@, lines, j - 1);
    }
    let range = sc.pos[sc.lines[i].start]..sc.pos[sc.lines[j - 1].next];
    (Table { lines: tl, range }, j)
}

/// The text run starting at line `i`: every line up to the next construct.
fn text_run_end(src: &str, sc: &Scan, i: usize) -> (r: usize)
    requires
        sc.wf(src@),
        i < sc.lines@.len(),
    ensures
        r as int == text_end(src@, lines_of(src@), i + 1),
        i < r <= sc.lines@.len(),
{
    let ghost lines = lines_of(src@);
    let n = sc.lines.len();
    let mut j = i + 1;
    while j < n && !starts_construct_exec(src, sc, j)
        invariant
            sc.wf(src@),
            lines == lines_of(src@),
            n == sc.lines@.len(),
            i + 1 <= j <= n,
            text_end(src@, lines, j as int) == text_end(src@, lines, i + 1),
        decreases n - j,
    {
        j = j + 1;
    }
    j
}

/// The node a line that is no headline begins, and the line after it.
fn parse_plain(src: &str, sc: &Scan, i: usize) -> (r: (OrgNode, usize))
    requires
        sc.wf(src@),
        i < sc.lines@.len(),
    ensures
        (node_view(r.0), r.1 as int) == plain_step(src@, lines_of(src@), i as int),
{
    let ghost lines = lines_of(src@);
    proof {
        assert(line_view(sc.lines@[i as int]) == lines[i as int]);
        lemma_line_bounds(src@, lines, i as int);
        lemma_find_block_end_bounds(src@, lines, i + 1, end_src_marker());
        lemma_find_block_end_bounds(src@, lines, i + 1, drawer_end_marker());
    }
    let n = sc.lines.len();
    if let Some((block, end_j)) = src_block_at(src, sc, i) {
        return (OrgNode::SrcBlock(block), end_j + 1);
    }
    if let Some((drawer, end_j)) = drawer_at(src, sc, i) {
        return (OrgNode::Drawer(drawer), end_j + 1);
    }
    if let Some(item) = checkbox_at(src, sc, i) {
        return (OrgNode::CheckboxItem(item), i + 1);
    }
    if table_line(&sc.chars, &sc.lines[i]) {
        let (table, after) = table_at(src, sc, i);
        return (OrgNode::Table(table), after);
    }
    let after = text_run_end(src, sc, i);
    proof {
        assert(line_view(sc.lines@[after - 1]) == lines[after - 1]);
        lemma_line_bounds(src@, lines, after - 1);
    }
    let range = sc.pos[sc.lines[i].start]..sc.pos[sc.lines[after - 1].next];
    (OrgNode::Text { range }, after)
}

/// The nodes of lines `i0..` inside a headline of depth `ctx`, and the line
/// where they stop: the end, or a headline of `ctx` stars or fewer (a sibling,
/// or an ancestor's sibling, which the caller resumes at).
fn parse_block(src: &str, sc: &Scan, i0: usize, ctx: u8) -> (r: (Vec<OrgNode>, usize))
    requires
        sc.wf(src@),
        i0 <= sc.lines@.len(),
    ensures
        forest_view(r.0@) == parse_seq(src@, lines_of(src@), i0 as int, ctx as int).0,
        r.1 as int == parse_seq(src@, lines_of(src@), i0 as int, ctx as int).1,
    decreases sc.lines@.len() - i0,
{
    let ghost lines = lines_of(src@);
    let ghost p0 = parse_seq(src@, lines, i0 as int, ctx as int);
    let n = sc.lines.len();
    let mut nodes: Vec<OrgNode> = Vec::new();
    let mut i = i0;
    proof {
        assert(forest_view(nodes@) + p0.0 =~= p0.0);
    }
    while i < n
        invariant
            sc.wf(src@),
            lines == lines_of(src@),
            n == sc.lines@.len(),
            i0 <= i <= n,
            p0 == parse_seq(src@, lines, i0 as int, ctx as int),
            forest_view(nodes@) + parse_seq(src@, lines, i as int, ctx as int).0 == p0.0,
            parse_seq(src@, lines, i as int, ctx as int).1 == p0.1,
        decreases n - i,
    {
        let ghost here = parse_seq(src@, lines, i as int, ctx as int);
        let ghost before = forest_view(nodes@);
        proof {
            assert(line_view(sc.lines@[i as int]) == lines[i as int]);
            lemma_line_bounds(src@, lines, i as int);
        }
        let (node, next) = match heading_stars(&sc.chars, &sc.lines[i]) {
            Some(stars) => {
                if stars <= ctx {
                    proof {
                        assert(here.0 =~= Seq::<NodeM>::empty());
                        assert(before + here.0 =~= before);
                    }
                    return (nodes, i);
                }
                let (body, after) = parse_block(src, sc, i + 1, stars);
                proof {
                    lemma_parse_seq_bounds(src@, lines, i + 1, stars as int);
                }
                (OrgNode::Heading(parse_heading(src, sc, i, stars, body)), after)
            },
            None => {
                proof {
                    lemma_plain_step(src@, lines, i as int);
                }
                parse_plain(src, sc, i)
            },
        };
        proof {
            let rest = parse_seq(src@, lines, next as int, ctx as int);
            assert(here == (seq![node_view(node)] + rest.0, rest.1));
            lemma_forest_view_push(nodes@, node);
            assert(before + (seq![node_view(node)] + rest.0) =~= before.push(node_view(node)) + rest.0);
        }
        nodes.push(node);
        i = next;
    }
    proof {
        assert(parse_seq(src@, lines, i as int, ctx as int).0 =~= Seq::<NodeM>::empty());
        assert(forest_view(nodes@) + Seq::<NodeM>::empty() =~= forest_view(nodes@));
    }
    (nodes, i)
}

/// Parse org source into the typed forest. Total: the leaf ranges tile the
/// source exactly, so nothing is dropped and splices stay byte-exact.
pub fn parse_org(source: &str) -> (doc: OrgDoc)
    ensures
        doc@ == parse_org_spec(source@),
{
    let sc = new_scan(source);
    let (nodes, _next) = parse_block(source, &sc, 0, 0);
    OrgDoc { nodes }
}

// ----- walking the tree -------------------------------------------------------

pub open spec fn ranges_view(v: Seq<std::ops::Range<usize>>) -> Seq<(int, int)> {
    v.map_values(|r: std::ops::Range<usize>| range_view(r))
}

pub open spec fn headings_view(v: Seq<&Heading>) -> Seq<HeadingM> {
    v.map_values(|h: &Heading| heading_view(*h))
}

proof fn lemma_ranges_view_push(v: Seq<std::ops::Range<usize>>, r: std::ops::Range<usize>)
    ensures
        ranges_view(v.push(r)) == ranges_view(v) + seq![range_view(r)],
{
    assert(ranges_view(v.push(r)) =~= ranges_view(v) + seq![range_view(r)]);
}

impl OrgNode {
    /// The node's full source range (the headline line for a heading; the
    /// subtree lives in `body`).
    pub fn range(&self) -> (r: std::ops::Range<usize>)
        ensures
            range_view(r) == node_range(self@),
    {
        match self {
            OrgNode::Heading(h) => clone_range(&h.range),
            OrgNode::SrcBlock(b) => clone_range(&b.range),
            OrgNode::Drawer(d) => clone_range(&d.range),
            OrgNode::CheckboxItem(c) => clone_range(&c.range),
            OrgNode::Table(t) => clone_range(&t.range),
            OrgNode::Text { range } => clone_range(range),
        }
    }
}

fn walk_leaves(node: &OrgNode, out: &mut Vec<std::ops::Range<usize>>)
    ensures
        ranges_view(final(out)@) == ranges_view(old(out)@) + node_leaves(node_view(*node)),
    decreases node,
{
    match node {
        OrgNode::Heading(h) => walk_heading_leaves(h, out),
        _ => {
            let r = node.range();
            proof {
                lemma_ranges_view_push(out@, r);
            }
            out.push(r);
        },
    }
}

fn walk_heading_leaves(h: &Heading, out: &mut Vec<std::ops::Range<usize>>)
    ensures
        ranges_view(final(out)@) == ranges_view(old(out)@) + node_leaves(NodeM::Heading(heading_view(*h))),
    decreases h,
{
    let ghost start = ranges_view(out@);
    let ghost fv = forest_view(h.body@);
    let ghost total = start + (seq![range_view(h.range)] + forest_leaves(fv));
    proof {
        lemma_ranges_view_push(out@, h.range);
    }
    out.push(clone_range(&h.range));
    proof {
        assert(fv.subrange(0, fv.len() as int) =~= fv);
        assert(start + (seq![range_view(h.range)] + forest_leaves(fv)) =~= ranges_view(out@)
            + forest_leaves(fv.subrange(0, fv.len() as int)));
    }
    let mut k: usize = 0;
    while k < h.body.len()
        invariant
            k <= h.body@.len(),
            fv == forest_view(h.body@),
            ranges_view(out@) + forest_leaves(fv.subrange(k as int, fv.len() as int)) == total,
        decreases h.body@.len() - k,
    {
        let ghost before = ranges_view(out@);
        proof {
            lemma_forest_leaves_step(fv, k as int);
        }
        walk_leaves(&h.body[k], out);
        proof {
            assert(fv[k as int] == node_view(h.body@[k as int]));
            assert(before + (node_leaves(fv[k as int]) + forest_leaves(fv.subrange(k + 1, fv.len() as int)))
                =~= ranges_view(out@) + forest_leaves(fv.subrange(k + 1, fv.len() as int)));
        }
        k = k + 1;
    }
    proof {
        lemma_forest_end(fv);
        assert(ranges_view(out@) + Seq::<(int, int)>::empty() =~= ranges_view(out@));
    }
}

fn walk_headings<'a>(node: &'a OrgNode, out: &mut Vec<&'a Heading>)
    ensures
        headings_view(final(out)@) == headings_view(old(out)@) + node_headings(node_view(*node)),
    decreases node,
{
    match node {
        OrgNode::Heading(h) => walk_heading_headings(h, out),
        _ => {
            proof {
                assert(node_headings(node_view(*node)) =~= Seq::<HeadingM>::empty());
                assert(headings_view(out@) + Seq::<HeadingM>::empty() =~= headings_view(out@));
            }
        },
    }
}

fn walk_heading_headings<'a>(h: &'a Heading, out: &mut Vec<&'a Heading>)
    ensures
        headings_view(final(out)@) == headings_view(old(out)@) + node_headings(NodeM::Heading(heading_view(*h))),
    decreases h,
{
    let ghost start = headings_view(out@);
    let ghost fv = forest_view(h.body@);
    let ghost total = start + (seq![heading_view(*h)] + forest_headings(fv));
    out.push(h);
    proof {
        assert(headings_view(out@) =~= start + seq![heading_view(*h)]);
        assert(fv.subrange(0, fv.len() as int) =~= fv);
        assert(start + (seq![heading_view(*h)] + forest_headings(fv)) =~= headings_view(out@)
            + forest_headings(fv.subrange(0, fv.len() as int)));
    }
    let mut k: usize = 0;
    while k < h.body.len()
        invariant
            k <= h.body@.len(),
            fv == forest_view(h.body@),
            headings_view(out@) + forest_headings(fv.subrange(k as int, fv.len() as int)) == total,
        decreases h.body@.len() - k,
    {
        let ghost before = headings_view(out@);
        proof {
            lemma_forest_headings_step(fv, k as int);
        }
        walk_headings(&h.body[k], out);
        proof {
            assert(fv[k as int] == node_view(h.body@[k as int]));
            assert(before + (node_headings(fv[k as int]) + forest_headings(fv.subrange(k + 1, fv.len() as int)))
                =~= headings_view(out@) + forest_headings(fv.subrange(k + 1, fv.len() as int)));
        }
        k = k + 1;
    }
    proof {
        lemma_forest_end(fv);
        assert(headings_view(out@) + Seq::<HeadingM>::empty() =~= headings_view(out@));
    }
}

impl OrgDoc {
    /// Leaf ranges depth-first in document order: the tiling lock.
    pub fn leaf_ranges(&self) -> (r: Vec<std::ops::Range<usize>>)
        ensures
            ranges_view(r@) == forest_leaves(self@),
    {
        let ghost fv = self@;
        let mut out: Vec<std::ops::Range<usize>> = Vec::new();
        proof {
            assert(fv.subrange(0, fv.len() as int) =~= fv);
            assert(ranges_view(out@) + forest_leaves(fv) =~= forest_leaves(fv));
        }
        let mut k: usize = 0;
        while k < self.nodes.len()
            invariant
                k <= self.nodes@.len(),
                fv == forest_view(self.nodes@),
                ranges_view(out@) + forest_leaves(fv.subrange(k as int, fv.len() as int)) == forest_leaves(fv),
            decreases self.nodes@.len() - k,
        {
            let ghost before = ranges_view(out@);
            proof {
                lemma_forest_leaves_step(fv, k as int);
            }
            walk_leaves(&self.nodes[k], &mut out);
            proof {
                assert(fv[k as int] == node_view(self.nodes@[k as int]));
                assert(before + (node_leaves(fv[k as int]) + forest_leaves(fv.subrange(k + 1, fv.len() as int)))
                    =~= ranges_view(out@) + forest_leaves(fv.subrange(k + 1, fv.len() as int)));
            }
            k = k + 1;
        }
        proof {
            lemma_forest_end(fv);
            assert(ranges_view(out@) + Seq::<(int, int)>::empty() =~= ranges_view(out@));
        }
        out
    }

    /// Every heading, depth-first in document order.
    pub fn headings(&self) -> (r: Vec<&Heading>)
        ensures
            headings_view(r@) == forest_headings(self@),
    {
        let ghost fv = self@;
        let mut out: Vec<&Heading> = Vec::new();
        proof {
            assert(fv.subrange(0, fv.len() as int) =~= fv);
            assert(headings_view(out@) + forest_headings(fv) =~= forest_headings(fv));
        }
        let mut k: usize = 0;
        while k < self.nodes.len()
            invariant
                k <= self.nodes@.len(),
                fv == forest_view(self.nodes@),
                headings_view(out@) + forest_headings(fv.subrange(k as int, fv.len() as int)) == forest_headings(fv),
            decreases self.nodes@.len() - k,
        {
            let ghost before = headings_view(out@);
            proof {
                lemma_forest_headings_step(fv, k as int);
            }
            walk_headings(&self.nodes[k], &mut out);
            proof {
                assert(fv[k as int] == node_view(self.nodes@[k as int]));
                assert(before + (node_headings(fv[k as int]) + forest_headings(fv.subrange(k + 1, fv.len() as int)))
                    =~= headings_view(out@) + forest_headings(fv.subrange(k + 1, fv.len() as int)));
            }
            k = k + 1;
        }
        proof {
            lemma_forest_end(fv);
            assert(headings_view(out@) + Seq::<HeadingM>::empty() =~= headings_view(out@));
        }
        out
    }
}

// ----- editing ------------------------------------------------------------------

/// Byte-exact splice: the one editing primitive; org animations compose it over
/// node ranges. The plain-text surface owns the semantics.
pub fn splice(source: &str, range: std::ops::Range<usize>, replacement: &str) -> (r: String)
    requires
        range.start <= range.end,
        is_char_boundary(source.spec_bytes(), range.start as int),
        is_char_boundary(source.spec_bytes(), range.end as int),
    ensures
        encode_utf8(r@) == spliced(
            source.spec_bytes(),
            range.start as int,
            range.end as int,
            replacement.spec_bytes(),
        ),
{
    let mut surface = TextSurface::new(source);
    surface.replace(range, replacement);
    surface.into_source()
}

pub open spec fn todo_word() -> Seq<char> {
    seq!['T', 'O', 'D', 'O']
}

pub open spec fn done_word() -> Seq<char> {
    seq!['D', 'O', 'N', 'E']
}

/// The stock TODO cycle: no keyword, then `TODO`, then `DONE`, then none.
pub open spec fn next_todo_spec(current: Option<Seq<char>>) -> Option<Seq<char>> {
    match current {
        None => Some(todo_word()),
        Some(k) => if k == todo_word() {
            Some(done_word())
        } else {
            None
        },
    }
}

/// The stock TODO cycle has period three: from no keyword, `TODO` or `DONE`,
/// three cycles come back to where they started; any other keyword leaves the
/// cycle at "no keyword" on the first one.
pub proof fn lemma_todo_cycle_has_period_three(current: Option<Seq<char>>)
    ensures
        (current is None || current == Some(todo_word()) || current == Some(done_word()))
            ==> next_todo_spec(next_todo_spec(next_todo_spec(current))) == current,
        (current is Some && current != Some(todo_word())) ==> next_todo_spec(current) is None,
{
    assert(todo_word() != done_word()) by {
        assert(todo_word()[0] != done_word()[0]);
    }
}

pub open spec fn opt_str_view(s: Option<&str>) -> Option<Seq<char>> {
    match s {
        Some(x) => Some(x@),
        None => None,
    }
}

/// The default TODO cycle the engine ships (org's stock workflow):
/// no keyword, then `TODO`, then `DONE`, then none. A custom workflow order is
/// the app's configuration.
pub fn next_todo_keyword(current: Option<&str>) -> (r: Option<String>)
    ensures
        opt_string_view(r) == next_todo_spec(opt_str_view(current)),
{
    let todo = "TODO";
    let done = "DONE";
    proof {
        reveal_strlit("TODO");
        reveal_strlit("DONE");
        assert(todo@ =~= todo_word());
        assert(done@ =~= done_word());
    }
    match current {
        None => Some(todo.to_owned()),
        Some(k) => {
            if same_chars(k, todo) {
                Some(done.to_owned())
            } else {
                None
            }
        },
    }
}

/// Where a keyword is inserted into a headline that has none: after the stars
/// and their space.
pub open spec fn keyword_slot(h: HeadingM) -> int {
    h.range.0 + h.level + 1
}

/// The bytes the cycled keyword ends at when it is removed: the single space
/// that follows it goes too.
pub open spec fn removal_end(b: Seq<u8>, end: int) -> int {
    if 0 <= end < b.len() && b[end] == 0x20u8 {
        end + 1
    } else {
        end
    }
}

/// What cycling the TODO keyword of headline `h` makes of the source bytes `b`.
pub open spec fn cycle_todo_bytes(b: Seq<u8>, h: HeadingM) -> Seq<u8> {
    match h.keyword_range {
        Some(r) => match next_todo_spec(h.todo) {
            Some(k) => spliced(b, r.0, r.1, encode_utf8(k)),
            None => spliced(b, r.0, removal_end(b, r.1), Seq::empty()),
        },
        None => match next_todo_spec(h.todo) {
            Some(k) => spliced(b, keyword_slot(h), keyword_slot(h), encode_utf8(k.push(' '))),
            None => b,
        },
    }
}

/// The splice targets of a TODO cycle lie on char boundaries of the source.
pub open spec fn cycle_todo_fits(b: Seq<u8>, h: HeadingM) -> bool {
    match h.keyword_range {
        Some(r) => r.0 <= r.1 && is_char_boundary(b, r.0) && is_char_boundary(b, r.1),
        None => next_todo_spec(h.todo) is Some ==> is_char_boundary(b, keyword_slot(h)),
    }
}

/// Cycle the TODO keyword of one heading in `source`, byte-exactly: the title,
/// tags, and every other line are untouched. A keyword is removed together
/// with the single space that follows it.
pub fn cycle_todo(source: &str, heading: &Heading) -> (r: String)
    requires
        cycle_todo_fits(source.spec_bytes(), heading@),
    ensures
        encode_utf8(r@) == cycle_todo_bytes(source.spec_bytes(), heading@),
{
    let current = match &heading.todo {
        Some(t) => Some(t.as_str()),
        None => None,
    };
    let next = next_todo_keyword(current);
    let ghost b = source.spec_bytes();
    let blen = source.as_bytes().len();
    proof {
        encode_utf8_valid_utf8(source@);
    }
    match &heading.keyword_range {
        Some(range) => match next {
            Some(keyword) => splice(source, range.start..range.end, keyword.as_str()),
            None => {
                let bytes = source.as_bytes();
                let mut end = range.end;
                proof {
                    lemma_boundary_in_range(b, range.end as int);
                }
                if end < bytes.len() && bytes[end] == 0x20u8 {
                    proof {
                        lemma_ascii_boundary_step(source@, end as int);
                    }
                    end = end + 1;
                }
                let empty = "";
                proof {
                    reveal_strlit("");
                    assert(empty@ =~= Seq::<char>::empty());
                    assert(encode_utf8(empty@) =~= Seq::<u8>::empty());
                }
                splice(source, range.start..end, empty)
            },
        },
        None => match next {
            Some(keyword) => {
                proof {
                    lemma_boundary_in_range(b, keyword_slot(heading@));
                }
                let at = heading.range.start + heading.level as usize + 1;
                let space = " ";
                proof {
                    reveal_strlit(" ");
                    assert(space@ =~= seq![' ']);
                }
                let mut ins = keyword;
                ins.append(space);
                proof {
                    assert(ins@ =~= next_todo_spec(heading@.todo).unwrap().push(' '));
                }
                splice(source, at..at, ins.as_str())
            },
            None => {
                let r = source.to_owned();
                proof {
                    assert(b.subrange(0, 0) + Seq::<u8>::empty() + b.subrange(0, b.len() as int) =~= b);
                }
                r
            },
        },
    }
}

/// The state char a toggle writes: a checked box is cleared, an unchecked one
/// gets `X`.
pub open spec fn toggled_state(checked: bool) -> Seq<char> {
    if checked {
        seq![' ']
    } else {
        seq!['X']
    }
}

/// Toggle one checkbox in `source`, byte-exactly: space becomes `X`, any
/// checked state becomes a space.
pub fn toggle_checkbox(source: &str, item: &CheckboxItem) -> (r: String)
    requires
        item.state_range.start <= item.state_range.end,
        is_char_boundary(source.spec_bytes(), item.state_range.start as int),
        is_char_boundary(source.spec_bytes(), item.state_range.end as int),
    ensures
        encode_utf8(r@) == spliced(
            source.spec_bytes(),
            item.state_range.start as int,
            item.state_range.end as int,
            encode_utf8(toggled_state(item.checked)),
        ),
{
    let state = if item.checked {
        proof {
            reveal_strlit(" ");
        }
        " "
    } else {
        proof {
            reveal_strlit("X");
        }
        "X"
    };
    proof {
        assert(state@ =~= toggled_state(item.checked));
    }
    splice(source, clone_range(&item.state_range), state)
}

} // verus!
