//! Facts about UTF-8 byte sequences that the text surfaces rest on: how the
//! encoding of a char sequence splits, where its char boundaries are, and how
//! a `&str` is cut at a boundary into owned pieces.

use vstd::prelude::*;
use vstd::utf8::*;
use vstd::string::*;

verus! {

broadcast use vstd::seq::group_seq_axioms, vstd::seq_lib::group_seq_properties;

/// The bytes of a char sequence, as `str::as_bytes` reports them.
pub open spec fn utf8(s: Seq<char>) -> Seq<u8> {
    encode_utf8(s)
}

/// The byte offset of the char at index `k` (the byte length of the first `k` chars).
pub open spec fn byte_pos(s: Seq<char>, k: int) -> int {
    encode_utf8(s.subrange(0, k)).len() as int
}

/// The byte length of one char's encoding.
pub open spec fn char_width(c: char) -> int {
    encode_scalar(c as u32).len() as int
}

pub proof fn lemma_encode_single(c: char)
    ensures
        encode_utf8(seq![c]) == encode_scalar(c as u32),
        1 <= char_width(c) <= 4,
        (c as u32) < 0x80 ==> encode_scalar(c as u32) == seq![c as u8],
        (c as u32) < 0x80 ==> char_width(c) == 1,
        (c as u32) >= 0x80 ==> char_width(c) >= 2,
{
    reveal_with_fuel(encode_utf8, 2);
    assert(seq![c].drop_first() =~= Seq::<char>::empty());
    assert(encode_scalar(c as u32) + Seq::<u8>::empty() =~= encode_scalar(c as u32));
    broadcast use char_is_scalar;
    let v = c as u32;
    if v < 0x80 {
        assert(v & 0x7F == v) by (bit_vector)
            requires v < 0x80;
    }
}

/// Encoding distributes over concatenation.
pub proof fn lemma_encode_concat(a: Seq<char>, b: Seq<char>)
    ensures
        encode_utf8(a + b) == encode_utf8(a) + encode_utf8(b),
    decreases a.len(),
{
    if a.len() == 0 {
        assert(a + b =~= b);
        assert(encode_utf8(a) =~= Seq::<u8>::empty());
        assert(Seq::<u8>::empty() + encode_utf8(b) =~= encode_utf8(b));
    } else {
        assert((a + b).drop_first() =~= a.drop_first() + b);
        assert((a + b)[0] == a[0]);
        lemma_encode_concat(a.drop_first(), b);
        assert(encode_scalar(a[0] as u32) + (encode_utf8(a.drop_first()) + encode_utf8(b))
            =~= (encode_scalar(a[0] as u32) + encode_utf8(a.drop_first())) + encode_utf8(b));
    }
}

/// Pushing one char appends its encoding.
pub proof fn lemma_encode_push(a: Seq<char>, c: char)
    ensures
        encode_utf8(a.push(c)) == encode_utf8(a) + encode_scalar(c as u32),
        encode_utf8(a.push(c)).len() == encode_utf8(a).len() + char_width(c),
{
    assert(a.push(c) =~= a + seq![c]);
    lemma_encode_concat(a, seq![c]);
    lemma_encode_single(c);
}

/// Encoding is injective: equal bytes mean equal chars.
pub proof fn lemma_encode_injective(a: Seq<char>, b: Seq<char>)
    requires
        encode_utf8(a) == encode_utf8(b),
    ensures
        a == b,
{
    encode_utf8_decode_utf8(a);
    encode_utf8_decode_utf8(b);
}

/// The encoding of a prefix is a prefix of the encoding.
pub proof fn lemma_encode_prefix(s: Seq<char>, k: int)
    requires
        0 <= k <= s.len(),
    ensures
        encode_utf8(s).subrange(0, byte_pos(s, k)) == encode_utf8(s.subrange(0, k)),
        encode_utf8(s).subrange(byte_pos(s, k), encode_utf8(s).len() as int) == encode_utf8(
            s.subrange(k, s.len() as int),
        ),
        byte_pos(s, k) + encode_utf8(s.subrange(k, s.len() as int)).len() == encode_utf8(s).len(),
{
    assert(s =~= s.subrange(0, k) + s.subrange(k, s.len() as int));
    lemma_encode_concat(s.subrange(0, k), s.subrange(k, s.len() as int));
}

/// The bytes of a char range are the bytes between the two byte positions.
pub proof fn lemma_encode_range(s: Seq<char>, i: int, j: int)
    requires
        0 <= i <= j <= s.len(),
    ensures
        encode_utf8(s).subrange(byte_pos(s, i), byte_pos(s, j)) == encode_utf8(s.subrange(i, j)),
        byte_pos(s, i) + encode_utf8(s.subrange(i, j)).len() == byte_pos(s, j),
{
    assert(s.subrange(0, j) =~= s.subrange(0, i) + s.subrange(i, j));
    lemma_encode_concat(s.subrange(0, i), s.subrange(i, j));
    lemma_encode_prefix(s, j);
    let e = encode_utf8(s);
    let ej = encode_utf8(s.subrange(0, j));
    assert(e.subrange(byte_pos(s, i), byte_pos(s, j)) =~= ej.subrange(
        byte_pos(s, i),
        byte_pos(s, j),
    ));
    assert(ej.subrange(byte_pos(s, i), byte_pos(s, j)) =~= encode_utf8(s.subrange(i, j)));
}

/// Byte positions grow by each char's width.
pub proof fn lemma_byte_pos_step(s: Seq<char>, k: int)
    requires
        0 <= k < s.len(),
    ensures
        byte_pos(s, k + 1) == byte_pos(s, k) + char_width(s[k]),
        byte_pos(s, k) < byte_pos(s, k + 1),
{
    assert(s.subrange(0, k + 1) =~= s.subrange(0, k).push(s[k]));
    lemma_encode_push(s.subrange(0, k), s[k]);
    lemma_encode_single(s[k]);
}

pub proof fn lemma_byte_pos_bounds(s: Seq<char>, k: int)
    requires
        0 <= k <= s.len(),
    ensures
        k <= byte_pos(s, k) <= encode_utf8(s).len(),
        byte_pos(s, 0) == 0,
        byte_pos(s, s.len() as int) == encode_utf8(s).len(),
    decreases k,
{
    assert(s.subrange(0, 0) =~= Seq::<char>::empty());
    assert(s.subrange(0, s.len() as int) =~= s);
    lemma_encode_prefix(s, k);
    if k > 0 {
        lemma_byte_pos_bounds(s, k - 1);
        lemma_byte_pos_step(s, k - 1);
    }
}

pub proof fn lemma_byte_pos_mono(s: Seq<char>, i: int, j: int)
    requires
        0 <= i <= j <= s.len(),
    ensures
        byte_pos(s, i) <= byte_pos(s, j),
        i < j ==> byte_pos(s, i) < byte_pos(s, j),
    decreases j - i,
{
    if i < j {
        lemma_byte_pos_mono(s, i, j - 1);
        lemma_byte_pos_step(s, j - 1);
    }
}

/// Every char position is a char boundary of the encoding.
pub proof fn lemma_byte_pos_is_boundary(s: Seq<char>, k: int)
    requires
        0 <= k <= s.len(),
    ensures
        is_char_boundary(encode_utf8(s), byte_pos(s, k)),
    decreases s.len(),
{
    broadcast use encode_utf8_valid_utf8;

    let e = encode_utf8(s);
    if k == 0 {
        assert(s.subrange(0, 0) =~= Seq::<char>::empty());
    } else {
        encode_utf8_first_scalar(s);
        let rest = s.drop_first();
        assert(pop_first_scalar(e) =~= encode_utf8(rest));
        lemma_byte_pos_is_boundary(rest, k - 1);
        lemma_encode_single(s[0]);
        assert(s.subrange(0, k) =~= seq![s[0]] + rest.subrange(0, k - 1));
        lemma_encode_concat(seq![s[0]], rest.subrange(0, k - 1));
        lemma_byte_pos_bounds(s, k);
        assert(byte_pos(s, k) - length_of_first_scalar(e) == byte_pos(rest, k - 1));
    }
}

/// A byte position that is a char boundary is the position of some char.
pub proof fn lemma_boundary_is_byte_pos(s: Seq<char>, b: int)
    requires
        is_char_boundary(encode_utf8(s), b),
    ensures
        exists|k: int| 0 <= k <= s.len() && byte_pos(s, k) == b,
    decreases s.len(),
{
    broadcast use encode_utf8_valid_utf8;

    let e = encode_utf8(s);
    if b == 0 {
        assert(s.subrange(0, 0) =~= Seq::<char>::empty());
        assert(byte_pos(s, 0) == 0);
    } else {
        assert(e.len() > 0);
        if s.len() == 0 {
            assert(e =~= Seq::<u8>::empty());
        }
        encode_utf8_first_scalar(s);
        let rest = s.drop_first();
        assert(pop_first_scalar(e) =~= encode_utf8(rest));
        let w = length_of_first_scalar(e);
        lemma_boundary_is_byte_pos(rest, b - w);
        let k = choose|k: int| 0 <= k <= rest.len() && byte_pos(rest, k) == b - w;
        lemma_encode_single(s[0]);
        assert(s.subrange(0, k + 1) =~= seq![s[0]] + rest.subrange(0, k));
        lemma_encode_concat(seq![s[0]], rest.subrange(0, k));
        assert(byte_pos(s, k + 1) == b);
    }
}

/// A char boundary lies within the sequence.
pub proof fn lemma_boundary_in_range(b: Seq<u8>, i: int)
    requires
        valid_utf8(b),
        is_char_boundary(b, i),
    ensures
        0 <= i <= b.len(),
    decreases b.len(),
{
    if i != 0 {
        lemma_boundary_in_range(pop_first_scalar(b), i - length_of_first_scalar(b));
    }
}

/// The end of a well-formed prefix is a char boundary.
pub proof fn lemma_valid_prefix_is_boundary(b: Seq<u8>, k: int)
    requires
        valid_utf8(b),
        0 <= k <= b.len(),
        valid_utf8(b.subrange(0, k)),
    ensures
        is_char_boundary(b, k),
    decreases k,
{
    if k > 0 {
        let p = b.subrange(0, k);
        assert(p[0] == b[0]);
        assert(k >= 2 ==> p[1] == b[1]);
        assert(k >= 3 ==> p[2] == b[2]);
        assert(k >= 4 ==> p[3] == b[3]);
        let w = length_of_first_scalar(b);
        assert(length_of_first_scalar(p) == w);
        assert(pop_first_scalar(p) =~= pop_first_scalar(b).subrange(0, k - w));
        lemma_valid_prefix_is_boundary(pop_first_scalar(b), k - w);
    }
}

/// The first byte of a char's encoding is ASCII exactly when the char is.
pub proof fn lemma_first_byte_ascii(c: char)
    ensures
        (encode_scalar(c as u32)[0] < 0x80) == ((c as u32) < 0x80),
{
    broadcast use char_is_scalar;

    let v = c as u32;
    if v < 0x80 {
        assert(v & 0x7F == v) by (bit_vector)
            requires
                v < 0x80,
        ;
    } else {
        let y2 = ((v >> 6) & 0x1F) as u8;
        let y3 = ((v >> 12) & 0x0F) as u8;
        let y4 = ((v >> 18) & 0x7) as u8;
        assert(0xC0u8 | y2 >= 0xC0u8) by (bit_vector);
        assert(0xE0u8 | y3 >= 0xE0u8) by (bit_vector);
        assert(0xF0u8 | y4 >= 0xF0u8) by (bit_vector);
    }
}

/// After a char boundary that holds an ASCII byte, the next index is a char
/// boundary too.
pub proof fn lemma_ascii_boundary_step(s: Seq<char>, i: int)
    requires
        is_char_boundary(encode_utf8(s), i),
        0 <= i < encode_utf8(s).len(),
        encode_utf8(s)[i] < 0x80,
    ensures
        is_char_boundary(encode_utf8(s), i + 1),
{
    lemma_boundary_is_byte_pos(s, i);
    let k = choose|k: int| 0 <= k <= s.len() && byte_pos(s, k) == i;
    lemma_byte_pos_bounds(s, s.len() as int);
    assert(k < s.len());
    lemma_byte_pos_step(s, k);
    lemma_byte_pos_bounds(s, k + 1);
    lemma_encode_range(s, k, k + 1);
    assert(s.subrange(k, k + 1) =~= seq![s[k]]);
    lemma_encode_single(s[k]);
    lemma_first_byte_ascii(s[k]);
    let e = encode_utf8(s);
    assert(e.subrange(byte_pos(s, k), byte_pos(s, k + 1))[0] == e[i]);
    lemma_byte_pos_is_boundary(s, k + 1);
}

/// A str cut at a char boundary: the owned pieces before and after it.
pub fn split_owned(s: &str, at: usize) -> (r: (String, String))
    requires
        is_char_boundary(s.spec_bytes(), at as int),
    ensures
        encode_utf8(r.0@) == s.spec_bytes().subrange(0, at as int),
        encode_utf8(r.1@) == s.spec_bytes().subrange(at as int, s.spec_bytes().len() as int),
        r.0@ + r.1@ == s@,
{
    let (a, b) = s.split_at(at);
    let a_owned = a.to_owned();
    let b_owned = b.to_owned();
    proof {
        let sb = s.spec_bytes();
        encode_utf8_valid_utf8(s@);
        lemma_boundary_in_range(sb, at as int);
        lemma_encode_concat(a@, b@);
        assert(sb =~= sb.subrange(0, at as int) + sb.subrange(at as int, sb.len() as int));
        lemma_encode_injective(a@ + b@, s@);
    }
    (a_owned, b_owned)
}

/// The owned text between two char boundaries.
pub fn substring(s: &str, start: usize, end: usize) -> (r: String)
    requires
        start <= end <= s.spec_bytes().len(),
        is_char_boundary(s.spec_bytes(), start as int),
        is_char_boundary(s.spec_bytes(), end as int),
    ensures
        encode_utf8(r@) == s.spec_bytes().subrange(start as int, end as int),
{
    let (a, _rest) = s.split_at(end);
    proof {
        let sb = s.spec_bytes();
        encode_utf8_valid_utf8(s@);
        valid_utf8_split(sb, end as int);
        let ab = a.spec_bytes();
        assert(ab =~= sb.subrange(0, end as int));
        if start < end {
            is_char_boundary_iff_not_is_continuation_byte(sb, start as int);
            is_char_boundary_iff_not_is_continuation_byte(ab, start as int);
        } else {
            is_char_boundary_start_end_of_seq(ab);
        }
    }
    let (_skip, c) = a.split_at(start);
    proof {
        let sb = s.spec_bytes();
        assert(c.spec_bytes() =~= sb.subrange(start as int, end as int));
    }
    c.to_owned()
}

} // verus!
