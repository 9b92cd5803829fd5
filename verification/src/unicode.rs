//! Char classes and char-level text scanning.
//!
//! Unicode's `White_Space` and alphanumeric properties are std's (`char`'s
//! methods). `White_Space` is spelled out (25 code points) and computed here;
//! the alphanumeric property is named and reached through a wrapper. The
//! ASCII classes are spelled out.

use vstd::prelude::*;
use vstd::utf8::*;
use vstd::string::*;
use crate::utf8::{byte_pos, char_width, lemma_byte_pos_step, lemma_byte_pos_bounds, lemma_encode_single};

verus! {

broadcast use vstd::seq::group_seq_axioms, vstd::seq_lib::group_seq_properties, vstd::string::group_string_axioms;

/// Whether a char has Unicode's `White_Space` property (`char::is_whitespace`):
/// the 25 code points U+0009 to U+000D, U+0020, U+0085, U+00A0, U+1680, U+2000
/// to U+200A, U+2028, U+2029, U+202F, U+205F and U+3000.
pub open spec fn is_white_space(c: char) -> bool {
    let v = c as u32;
    (0x09 <= v <= 0x0D) || v == 0x20 || v == 0x85 || v == 0xA0 || v == 0x1680 || (0x2000 <= v <= 0x200A)
        || v == 0x2028 || v == 0x2029 || v == 0x202F || v == 0x205F || v == 0x3000
}

/// Whether a char is alphabetic or numeric in Unicode's sense (`char::is_alphanumeric`).
pub uninterp spec fn is_alphanumeric_char(c: char) -> bool;

/// Whether a char is white space, as `char::is_whitespace` answers: exactly
/// the code points `is_white_space` lists.
pub(crate) fn char_is_whitespace(c: char) -> (r: bool)
    ensures
        r == is_white_space(c),
{
    let v = c as u32;
    (0x09 <= v && v <= 0x0D) || v == 0x20 || v == 0x85 || v == 0xA0 || v == 0x1680 || (0x2000 <= v
        && v <= 0x200A) || v == 0x2028 || v == 0x2029 || v == 0x202F || v == 0x205F || v == 0x3000
}

/// `char::is_alphanumeric`: true exactly for the chars that are alphabetic or
/// numeric, which this crate names `is_alphanumeric_char`.
#[verifier::external_body]
pub(crate) fn char_is_alphanumeric(c: char) -> (r: bool)
    ensures
        r == is_alphanumeric_char(c),
{
    c.is_alphanumeric()
}

pub open spec fn is_ascii_digit(c: char) -> bool {
    '0' <= c <= '9'
}

pub open spec fn is_ascii_upper(c: char) -> bool {
    'A' <= c <= 'Z'
}

pub open spec fn is_ascii_lower_letter(c: char) -> bool {
    'a' <= c <= 'z'
}

pub open spec fn is_ascii_alnum(c: char) -> bool {
    is_ascii_digit(c) || is_ascii_upper(c) || is_ascii_lower_letter(c)
}

/// ASCII lowercase: `A`-`Z` map to `a`-`z`, every other char is unchanged.
pub open spec fn ascii_lower(c: char) -> char {
    if is_ascii_upper(c) {
        ((c as u32) + 32) as char
    } else {
        c
    }
}

pub fn ascii_lower_exec(c: char) -> (r: char)
    ensures
        r == ascii_lower(c),
{
    if 'A' <= c && c <= 'Z' {
        let v = (c as u32) + 32;
        proof {
            assert(v <= 0x7a);
        }
        char_from_ascii(v)
    } else {
        c
    }
}

fn char_from_ascii(v: u32) -> (r: char)
    requires
        v < 0x80,
    ensures
        r == v as char,
{
    (v as u8) as char
}

/// The first index in `i..end` whose char is not white space (`end` if none).
pub open spec fn skip_white(s: Seq<char>, i: int, end: int) -> int
    decreases end - i,
{
    if i < end && is_white_space(s[i]) {
        skip_white(s, i + 1, end)
    } else {
        i
    }
}

/// The end of `start..j` once its trailing white space is dropped.
pub open spec fn back_white(s: Seq<char>, start: int, j: int) -> int
    decreases j - start,
{
    if j > start && is_white_space(s[j - 1]) {
        back_white(s, start, j - 1)
    } else {
        j
    }
}

/// The first index in `i..end` whose char is white space (`end` if none).
pub open spec fn find_white(s: Seq<char>, i: int, end: int) -> int
    decreases end - i,
{
    if i < end && !is_white_space(s[i]) {
        find_white(s, i + 1, end)
    } else {
        i
    }
}

/// The first index in `i..end` holding `ch` (`end` if none).
pub open spec fn find_char(s: Seq<char>, ch: char, i: int, end: int) -> int
    decreases end - i,
{
    if i < end && s[i] != ch {
        find_char(s, ch, i + 1, end)
    } else {
        i
    }
}

/// `start..end` with white space trimmed from both ends, as `str::trim` does.
pub open spec fn trimmed(s: Seq<char>, start: int, end: int) -> (int, int) {
    let a = skip_white(s, start, end);
    (a, back_white(s, a, end))
}

pub proof fn lemma_skip_white_bounds(s: Seq<char>, i: int, end: int)
    requires
        i <= end,
    ensures
        i <= skip_white(s, i, end) <= end,
        forall|k: int| i <= k < skip_white(s, i, end) ==> is_white_space(#[trigger] s[k]),
        skip_white(s, i, end) < end ==> !is_white_space(s[skip_white(s, i, end)]),
    decreases end - i,
{
    if i < end && is_white_space(s[i]) {
        lemma_skip_white_bounds(s, i + 1, end);
    }
}

pub proof fn lemma_back_white_bounds(s: Seq<char>, start: int, j: int)
    requires
        start <= j,
    ensures
        start <= back_white(s, start, j) <= j,
    decreases j - start,
{
    if j > start && is_white_space(s[j - 1]) {
        lemma_back_white_bounds(s, start, j - 1);
    }
}

pub proof fn lemma_find_white_bounds(s: Seq<char>, i: int, end: int)
    requires
        i <= end,
    ensures
        i <= find_white(s, i, end) <= end,
    decreases end - i,
{
    if i < end && !is_white_space(s[i]) {
        lemma_find_white_bounds(s, i + 1, end);
    }
}

pub proof fn lemma_find_char_bounds(s: Seq<char>, ch: char, i: int, end: int)
    requires
        i <= end,
    ensures
        i <= find_char(s, ch, i, end) <= end,
        find_char(s, ch, i, end) < end ==> s[find_char(s, ch, i, end)] == ch,
        forall|k: int| i <= k < find_char(s, ch, i, end) ==> #[trigger] s[k] != ch,
    decreases end - i,
{
    if i < end && s[i] != ch {
        lemma_find_char_bounds(s, ch, i + 1, end);
    }
}

pub fn skip_white_exec(s: &Vec<char>, i: usize, end: usize) -> (r: usize)
    requires
        i <= end <= s@.len(),
    ensures
        r == skip_white(s@, i as int, end as int),
        i <= r <= end,
{
    let mut k = i;
    while k < end && char_is_whitespace(s[k])
        invariant
            i <= k <= end <= s@.len(),
            skip_white(s@, k as int, end as int) == skip_white(s@, i as int, end as int),
        decreases end - k,
    {
        k = k + 1;
    }
    k
}

pub fn back_white_exec(s: &Vec<char>, start: usize, j: usize) -> (r: usize)
    requires
        start <= j <= s@.len(),
    ensures
        r == back_white(s@, start as int, j as int),
        start <= r <= j,
{
    let mut k = j;
    while k > start && char_is_whitespace(s[k - 1])
        invariant
            start <= k <= j <= s@.len(),
            back_white(s@, start as int, k as int) == back_white(s@, start as int, j as int),
        decreases k - start,
    {
        k = k - 1;
    }
    k
}

pub fn find_white_exec(s: &Vec<char>, i: usize, end: usize) -> (r: usize)
    requires
        i <= end <= s@.len(),
    ensures
        r == find_white(s@, i as int, end as int),
        i <= r <= end,
{
    let mut k = i;
    while k < end && !char_is_whitespace(s[k])
        invariant
            i <= k <= end <= s@.len(),
            find_white(s@, k as int, end as int) == find_white(s@, i as int, end as int),
        decreases end - k,
    {
        k = k + 1;
    }
    k
}

pub fn find_char_exec(s: &Vec<char>, ch: char, i: usize, end: usize) -> (r: usize)
    requires
        i <= end <= s@.len(),
    ensures
        r == find_char(s@, ch, i as int, end as int),
        i <= r <= end,
{
    let mut k = i;
    while k < end && s[k] != ch
        invariant
            i <= k <= end <= s@.len(),
            find_char(s@, ch, k as int, end as int) == find_char(s@, ch, i as int, end as int),
        decreases end - k,
    {
        k = k + 1;
    }
    k
}

pub fn trimmed_exec(s: &Vec<char>, start: usize, end: usize) -> (r: (usize, usize))
    requires
        start <= end <= s@.len(),
    ensures
        (r.0 as int, r.1 as int) == trimmed(s@, start as int, end as int),
        start <= r.0 <= r.1 <= end,
{
    let a = skip_white_exec(s, start, end);
    let b = back_white_exec(s, a, end);
    (a, b)
}

/// The chars of a str, in order.
pub fn chars_of(s: &str) -> (r: Vec<char>)
    ensures
        r@ == s@,
{
    let mut it = s.chars();
    let mut out: Vec<char> = Vec::new();
    loop
        invariant
            out@ + vstd::std_specs::iter::IteratorSpec::remaining(&it) == s@,
            vstd::std_specs::iter::IteratorSpec::obeys_prophetic_iter_laws(&it),
        ensures
            out@ == s@,
        decreases s@.len() - out@.len(),
    {
        let ghost before = it;
        match it.next() {
            Some(c) => {
                out.push(c);
            },
            None => {
                proof {
                    assert(vstd::std_specs::iter::IteratorSpec::remaining(&it).len() == 0);
                    assert(out@ + vstd::std_specs::iter::IteratorSpec::remaining(&it) =~= out@);
                }
                break;
            },
        }
    }
    out
}

/// The byte width of a char's UTF-8 encoding.
pub fn char_width_exec(c: char) -> (r: usize)
    ensures
        r == char_width(c),
        1 <= r <= 4,
{
    proof {
        broadcast use char_is_scalar;
        lemma_encode_single(c);
    }
    let v = c as u32;
    if v < 0x80 {
        1
    } else if v < 0x800 {
        2
    } else if v < 0x10000 {
        3
    } else {
        4
    }
}

/// The byte offset of every char position: `r[k]` is where char `k` starts,
/// and `r[len]` is the byte length.
pub fn char_positions(cs: &Vec<char>) -> (r: Vec<usize>)
    requires
        vstd::utf8::encode_utf8(cs@).len() <= usize::MAX,
    ensures
        r@.len() == cs@.len() + 1,
        forall|k: int| 0 <= k <= cs@.len() ==> r@[k] as int == #[trigger] byte_pos(cs@, k),
{
    let mut out: Vec<usize> = Vec::new();
    out.push(0);
    let mut total: usize = 0;
    let mut k: usize = 0;
    proof {
        lemma_byte_pos_bounds(cs@, 0);
    }
    while k < cs.len()
        invariant
            0 <= k <= cs@.len(),
            out@.len() == k + 1,
            total == byte_pos(cs@, k as int),
            forall|j: int| 0 <= j <= k ==> out@[j] as int == #[trigger] byte_pos(cs@, j),
            vstd::utf8::encode_utf8(cs@).len() <= usize::MAX,
        decreases cs@.len() - k,
    {
        proof {
            lemma_byte_pos_step(cs@, k as int);
            lemma_byte_pos_bounds(cs@, k + 1);
        }
        let w = char_width_exec(cs[k]);
        total = total + w;
        out.push(total);
        k = k + 1;
    }
    out
}

/// Whether two strs hold the same chars.
pub fn same_chars(a: &str, b: &str) -> (r: bool)
    ensures
        r == (a@ == b@),
{
    let x = chars_of(a);
    let y = chars_of(b);
    if x.len() != y.len() {
        return false;
    }
    let mut k: usize = 0;
    while k < x.len()
        invariant
            x@ == a@,
            y@ == b@,
            x@.len() == y@.len(),
            k <= x@.len(),
            forall|m: int| 0 <= m < k ==> x@[m] == y@[m],
        decreases x@.len() - k,
    {
        if x[k] != y[k] {
            return false;
        }
        k = k + 1;
    }
    proof {
        assert(x@ =~= y@);
    }
    true
}

} // verus!
