//! The intellitype law's mechanics: a per-field history of accepted values
//! (most recent first, deduplicated, capped), the completion offered for what
//! was typed, the insertion-versus-deletion rule, and the guarded write-back.
//! Where the histories live is the host's; these are the rules applied to one
//! field's history.

use vstd::prelude::*;
use vstd::utf8::*;
use vstd::string::*;
use crate::unicode::{chars_of, trimmed, trimmed_exec, same_chars};
use crate::org::strings_view;
use crate::script::{adoption_js, adoptable, adoption_script, opt_text};
use crate::text::owned;
use crate::utf8::{split_owned, lemma_encode_injective};
use crate::command_palette::typed_text;

verus! {

broadcast use vstd::seq::group_seq_axioms, vstd::seq_lib::group_seq_properties;

/// How many accepted values one field remembers.
pub const SCOPE_HISTORY_CAP: usize = 50;

/// `s` with white space trimmed from both ends.
pub open spec fn trim_text(s: Seq<char>) -> Seq<char> {
    let t = trimmed(s, 0, s.len() as int);
    s.subrange(t.0, t.1)
}

/// `s` without any copy of `v`, the rest in order.
pub open spec fn without(s: Seq<Seq<char>>, v: Seq<char>) -> Seq<Seq<char>>
    decreases s.len(),
{
    if s.len() == 0 {
        seq![]
    } else {
        let r = without(s.drop_last(), v);
        if s.last() == v {
            r
        } else {
            r.push(s.last())
        }
    }
}

/// The first `n` entries of `s` (all of them when there are fewer).
pub open spec fn capped(s: Seq<Seq<char>>, n: nat) -> Seq<Seq<char>> {
    if s.len() <= n {
        s
    } else {
        s.subrange(0, n as int)
    }
}

/// A history after `v` is accepted: `v` first, every older copy of it
/// dropped, at most `SCOPE_HISTORY_CAP` entries.
pub open spec fn recorded(s: Seq<Seq<char>>, v: Seq<char>) -> Seq<Seq<char>> {
    capped(seq![v] + without(s, v), SCOPE_HISTORY_CAP as nat)
}

/// What a field records when the user accepts `value`: the value trimmed, and
/// nothing for a field without a scope or for white space alone.
pub open spec fn accepted(scope: Seq<char>, value: Seq<char>) -> Option<Seq<char>> {
    if scope.len() == 0 || trim_text(value).len() == 0 {
        None
    } else {
        Some(trim_text(value))
    }
}

/// The value a field records when the user accepts `value`: trimmed, and none
/// for a field without a scope or for white space alone.
pub fn accepted_value(scope: &str, value: &str) -> (r: Option<String>)
    ensures
        opt_text(r) == accepted(scope@, value@),
{
    let cs = chars_of(value);
    let (a, b) = trimmed_exec(&cs, 0, cs.len());
    if scope.is_empty() || a == b {
        return None;
    }
    Some(value.substring_char(a, b).to_owned())
}

proof fn lemma_without_step(s: Seq<Seq<char>>, k: int, v: Seq<char>)
    requires
        0 <= k < s.len(),
    ensures
        without(s.subrange(0, k + 1), v) == (if s[k] == v {
            without(s.subrange(0, k), v)
        } else {
            without(s.subrange(0, k), v).push(s[k])
        }),
{
    assert(s.subrange(0, k + 1).drop_last() =~= s.subrange(0, k));
}

/// Record an accepted value at the front of a history: older copies of it are
/// dropped and the oldest entries fall off past the cap.
pub fn record_value(entries: &mut Vec<String>, value: &str)
    ensures
        strings_view(final(entries)@) == recorded(strings_view(old(entries)@), value@),
{
    let ghost sv = strings_view(entries@);
    let ghost v = value@;
    let mut next: Vec<String> = Vec::new();
    next.push(owned(value));
    let mut k: usize = 0;
    proof {
        assert(sv.subrange(0, 0) =~= Seq::<Seq<char>>::empty());
        assert(strings_view(next@) =~= capped(seq![v] + without(sv.subrange(0, 0), v), SCOPE_HISTORY_CAP as nat));
    }
    while k < entries.len()
        invariant
            sv == strings_view(entries@),
            v == value@,
            k <= entries@.len(),
            strings_view(next@) == capped(seq![v] + without(sv.subrange(0, k as int), v), SCOPE_HISTORY_CAP as nat),
            next@.len() <= SCOPE_HISTORY_CAP,
        decreases entries@.len() - k,
    {
        proof {
            lemma_without_step(sv, k as int, v);
        }
        let same = same_chars(entries[k].as_str(), value);
        if !same && next.len() < SCOPE_HISTORY_CAP {
            let copy = entries[k].clone();
            proof {
                let x = seq![v] + without(sv.subrange(0, k as int), v);
                assert(strings_view(next@).len() == next@.len());
                assert(x.len() < SCOPE_HISTORY_CAP);
                assert(seq![v] + without(sv.subrange(0, k as int), v).push(sv[k as int]) =~= x.push(sv[k as int]));
                assert(strings_view(next@.push(copy)) =~= strings_view(next@).push(copy@));
            }
            next.push(copy);
        } else if !same {
            proof {
                let x = seq![v] + without(sv.subrange(0, k as int), v);
                assert(seq![v] + without(sv.subrange(0, k as int), v).push(sv[k as int]) =~= x.push(sv[k as int]));
                assert(capped(x.push(sv[k as int]), SCOPE_HISTORY_CAP as nat) =~= capped(x, SCOPE_HISTORY_CAP as nat));
            }
        }
        k = k + 1;
    }
    proof {
        assert(sv.subrange(0, sv.len() as int) =~= sv);
    }
    *entries = next;
}

/// No value occurs twice.
pub open spec fn distinct(s: Seq<Seq<char>>) -> bool {
    forall|i: int, j: int| 0 <= i < j < s.len() ==> s[i] != s[j]
}

proof fn lemma_without_facts(s: Seq<Seq<char>>, v: Seq<char>)
    ensures
        !without(s, v).contains(v),
        forall|x: Seq<char>| without(s, v).contains(x) ==> s.contains(x),
        distinct(s) ==> distinct(without(s, v)),
        without(s, v).len() <= s.len(),
    decreases s.len(),
{
    if s.len() > 0 {
        let d = s.drop_last();
        lemma_without_facts(d, v);
        let r = without(d, v);
        if s.last() != v {
            let w = r.push(s.last());
            assert forall|x: Seq<char>| w.contains(x) implies s.contains(x) by {
                let i = choose|i: int| 0 <= i < w.len() && w[i] == x;
                if i < r.len() {
                    assert(r[i] == x);
                    assert(r.contains(x));
                    assert(d.contains(x));
                    let j = choose|j: int| 0 <= j < d.len() && d[j] == x;
                    assert(d[j] == s[j]);
                    assert(s[j] == x);
                } else {
                    assert(s[s.len() - 1] == x);
                }
            }
            if distinct(s) {
                assert(!r.contains(s.last())) by {
                    if r.contains(s.last()) {
                        assert(d.contains(s.last()));
                        let j = choose|j: int| 0 <= j < d.len() && d[j] == s.last();
                        assert(d[j] == s[j]);
                        assert(s[j] == s[s.len() - 1]);
                    }
                }
                assert forall|i: int, j: int| 0 <= i < j < w.len() implies w[i] != w[j] by {
                    if j == w.len() - 1 {
                        assert(r.contains(w[i]));
                    }
                }
            }
        } else {
            assert forall|x: Seq<char>| r.contains(x) implies s.contains(x) by {
                assert(d.contains(x));
                let j = choose|j: int| 0 <= j < d.len() && d[j] == x;
                assert(d[j] == s[j]);
            }
        }
    }
}

/// Recording keeps a history honest: the accepted value comes first and
/// nowhere else, the history never exceeds the cap, and a history without
/// repeats stays without repeats.
pub proof fn lemma_recording_keeps_history_deduped(s: Seq<Seq<char>>, v: Seq<char>)
    ensures
        recorded(s, v).len() >= 1,
        recorded(s, v)[0] == v,
        forall|i: int| 1 <= i < recorded(s, v).len() ==> recorded(s, v)[i] != v,
        recorded(s, v).len() <= SCOPE_HISTORY_CAP,
        distinct(s) ==> distinct(recorded(s, v)),
{
    lemma_without_facts(s, v);
    let w = without(s, v);
    let full = seq![v] + w;
    assert forall|i: int| 1 <= i < full.len() implies full[i] != v by {
        assert(full[i] == w[i - 1]);
        assert(w.contains(full[i]));
    }
    if distinct(s) {
        assert forall|i: int, j: int| 0 <= i < j < full.len() implies full[i] != full[j] by {
            if i > 0 {
                assert(full[i] == w[i - 1] && full[j] == w[j - 1]);
            }
        }
    }
}

/// Forgetting a value removes every copy of it and keeps a history without
/// repeats without repeats.
pub proof fn lemma_forgetting_removes_every_copy(s: Seq<Seq<char>>, v: Seq<char>)
    ensures
        !without(s, v).contains(v),
        distinct(s) ==> distinct(without(s, v)),
        forall|x: Seq<char>| x != v && s.contains(x) ==> without(s, v).contains(x),
    decreases s.len(),
{
    lemma_without_facts(s, v);
    if s.len() > 0 {
        let d = s.drop_last();
        lemma_forgetting_removes_every_copy(d, v);
        assert forall|x: Seq<char>| x != v && s.contains(x) implies without(s, v).contains(x) by {
            let i = choose|i: int| 0 <= i < s.len() && s[i] == x;
            if i < s.len() - 1 {
                assert(d[i] == x);
                assert(d.contains(x));
                let r = without(d, v);
                let k = choose|k: int| 0 <= k < r.len() && r[k] == x;
                if s.last() != v {
                    assert(r.push(s.last())[k] == x);
                }
            } else {
                assert(without(s, v) == without(d, v).push(s.last()));
                assert(without(s, v)[without(d, v).len() as int] == x);
            }
        }
    }
}

/// Forget every copy of one value.
pub fn forget_value(entries: &mut Vec<String>, value: &str)
    ensures
        strings_view(final(entries)@) == without(strings_view(old(entries)@), value@),
{
    let ghost sv = strings_view(entries@);
    let ghost v = value@;
    let mut next: Vec<String> = Vec::new();
    let mut k: usize = 0;
    proof {
        assert(sv.subrange(0, 0) =~= Seq::<Seq<char>>::empty());
        assert(strings_view(next@) =~= without(sv.subrange(0, 0), v));
    }
    while k < entries.len()
        invariant
            sv == strings_view(entries@),
            v == value@,
            k <= entries@.len(),
            strings_view(next@) == without(sv.subrange(0, k as int), v),
        decreases entries@.len() - k,
    {
        proof {
            lemma_without_step(sv, k as int, v);
        }
        if !same_chars(entries[k].as_str(), value) {
            let copy = entries[k].clone();
            proof {
                assert(strings_view(next@.push(copy)) =~= strings_view(next@).push(copy@));
            }
            next.push(copy);
        }
        k = k + 1;
    }
    proof {
        assert(sv.subrange(0, sv.len() as int) =~= sv);
    }
    *entries = next;
}

/// ASCII lowercase of a byte.
pub open spec fn lower_byte(b: u8) -> u8 {
    if 65 <= b <= 90 {
        (b + 32) as u8
    } else {
        b
    }
}

/// Whether candidate bytes `c` extend typed bytes `t`: longer, cut at a char
/// boundary after `t`'s length, and equal to `t` there ignoring ASCII case.
pub open spec fn extends(c: Seq<u8>, t: Seq<u8>) -> bool {
    &&& c.len() > t.len()
    &&& is_char_boundary(c, t.len() as int)
    &&& forall|i: int| 0 <= i < t.len() ==> #[trigger] lower_byte(c[i]) == lower_byte(t[i])
}

/// The first entry (most recent first) that extends what was typed.
pub open spec fn first_extension(s: Seq<Seq<char>>, typed: Seq<char>) -> Option<Seq<char>>
    decreases s.len(),
{
    if s.len() == 0 {
        None
    } else if extends(encode_utf8(s[0]), encode_utf8(typed)) {
        Some(s[0])
    } else {
        first_extension(s.subrange(1, s.len() as int), typed)
    }
}

fn lower_byte_exec(b: u8) -> (r: u8)
    ensures
        r == lower_byte(b),
{
    if 65 <= b && b <= 90 {
        b + 32
    } else {
        b
    }
}

fn extends_exec(candidate: &str, typed: &str) -> (r: bool)
    ensures
        r == extends(candidate.spec_bytes(), typed.spec_bytes()),
{
    let c = candidate.as_bytes();
    let t = typed.as_bytes();
    if c.len() <= t.len() || !candidate.is_char_boundary(t.len()) {
        return false;
    }
    let mut k: usize = 0;
    while k < t.len()
        invariant
            c@ == candidate.spec_bytes(),
            t@ == typed.spec_bytes(),
            c@.len() > t@.len(),
            k <= t@.len(),
            forall|i: int| 0 <= i < k ==> #[trigger] lower_byte(c@[i]) == lower_byte(t@[i]),
        decreases t@.len() - k,
    {
        if lower_byte_exec(c[k]) != lower_byte_exec(t[k]) {
            proof {
                assert(lower_byte(c@[k as int]) != lower_byte(t@[k as int]));
            }
            return false;
        }
        k = k + 1;
    }
    true
}

/// The completion for `typed`: the most recent entry that extends it, case-
/// insensitively on the typed part, as the full text. `None` when nothing
/// extends it, including when the typed text is a whole entry.
pub fn complete_from(entries: &Vec<String>, typed: &str) -> (r: Option<String>)
    ensures
        opt_text(r) == first_extension(strings_view(entries@), typed@),
{
    let ghost sv = strings_view(entries@);
    let mut k: usize = 0;
    proof {
        assert(sv.subrange(0, sv.len() as int) =~= sv);
    }
    while k < entries.len()
        invariant
            sv == strings_view(entries@),
            k <= entries@.len(),
            first_extension(sv, typed@) == first_extension(sv.subrange(k as int, sv.len() as int), typed@),
        decreases entries@.len() - k,
    {
        let ghost t = sv.subrange(k as int, sv.len() as int);
        proof {
            assert(t[0] == entries@[k as int]@);
            assert(t.subrange(1, t.len() as int) =~= sv.subrange(k + 1, sv.len() as int));
        }
        if extends_exec(entries[k].as_str(), typed) {
            return Some(entries[k].clone());
        }
        k = k + 1;
    }
    None
}

/// What was typed, without one trailing newline.
pub open spec fn without_newline(s: Seq<char>) -> Seq<char> {
    if s.len() > 0 && s.last() == '\n' {
        s.drop_last()
    } else {
        s
    }
}

/// The completion for what was typed into a field with history `entries`: a
/// trailing newline is not part of the typing, and empty typing completes
/// nothing.
pub fn complete_typed(entries: &Vec<String>, typed: &str) -> (r: Option<String>)
    ensures
        opt_text(r) == (if without_newline(typed@).len() == 0 {
            None
        } else {
            first_extension(strings_view(entries@), without_newline(typed@))
        }),
{
    let cs = chars_of(typed);
    let n = cs.len();
    let end = if n > 0 && cs[n - 1] == '\n' {
        n - 1
    } else {
        n
    };
    if end == 0 {
        return None;
    }
    let stripped = typed.substring_char(0, end);
    proof {
        assert(stripped@ =~= without_newline(typed@));
    }
    complete_from(entries, stripped)
}

pub open spec fn opt_completion(r: Option<(String, usize, usize)>) -> Option<(Seq<char>, int, int)> {
    match r {
        Some(x) => Some((x.0@, x.1 as int, x.2 as int)),
        None => None,
    }
}

/// The insertion-versus-deletion rule: only typing that reaches past where the
/// user's own typing last ended (`prev_typed_len`, else the draft's length) may
/// be completed, so the first backspace over a prefill clears it. When it may,
/// the completion, the typed length and the completed length, in bytes.
pub fn completion_on_input(
    entries: &Vec<String>,
    prev_draft_len: usize,
    prev_typed_len: Option<usize>,
    value: &str,
) -> (r: Option<(String, usize, usize)>)
    ensures
        opt_completion(r) == ({
            let prev = match prev_typed_len {
                Some(p) => p,
                None => prev_draft_len,
            };
            if value.spec_bytes().len() <= prev {
                None
            } else {
                let typed = without_newline(value@);
                if typed.len() == 0 {
                    None
                } else {
                    match first_extension(strings_view(entries@), typed) {
                        Some(c) => Some((c, value.spec_bytes().len() as int, encode_utf8(c).len() as int)),
                        None => None,
                    }
                }
            }
        }),
{
    let prev = match prev_typed_len {
        Some(p) => p,
        None => prev_draft_len,
    };
    let value_len = value.as_bytes().len();
    if value_len <= prev {
        return None;
    }
    match complete_typed(entries, value) {
        Some(completed) => {
            let completed_len = completed.as_str().as_bytes().len();
            Some((completed, value_len, completed_len))
        },
        None => None,
    }
}

/// Whether a selector holds a single quote, which would break the script's
/// quoting.
pub open spec fn has_quote(s: Seq<char>) -> bool {
    exists|i: int| 0 <= i < s.len() && s[i] == '\''
}

/// The write-back for a host-rendered input found by CSS `selector`: deferred a
/// frame and dropped if the field has left the text it was computed from.
/// `None` when the completion cannot be adopted or the selector holds a quote.
pub fn intellitype_js(
    selector: &str,
    completed: &str,
    typed_prefix: &str,
    typed_len: usize,
    completed_len: usize,
) -> (r: Option<String>)
    ensures
        opt_text(r) == (if adoptable(completed.spec_bytes(), typed_prefix.spec_bytes(), typed_len as int, completed_len as int)
            && !has_quote(selector@) {
            Some(adoption_script(selector@, completed@, typed_prefix@, typed_len as nat, completed_len as nat))
        } else {
            None
        }),
{
    let cs = chars_of(selector);
    let mut k: usize = 0;
    while k < cs.len()
        invariant
            cs@ == selector@,
            k <= cs@.len(),
            forall|i: int| 0 <= i < k ==> cs@[i] != '\'',
        decreases cs@.len() - k,
    {
        if cs[k] == '\'' {
            return None;
        }
        k = k + 1;
    }
    adoption_js(selector, completed, typed_prefix, typed_len, completed_len)
}

/// The write-back for a completion whose typing ends at byte `typed_len`: the
/// typed prefix is the completion's own first `typed_len` bytes. `None` when
/// `typed_len` is past the end or not a char boundary, or the selector holds
/// a quote.
pub fn intellitype_for(selector: &str, completion: &str, typed_len: usize) -> (r: Option<String>)
    ensures
        opt_text(r) == (if typed_len <= completion.spec_bytes().len()
            && is_char_boundary(completion.spec_bytes(), typed_len as int) && !has_quote(selector@) {
            Some(adoption_script(
                selector@,
                completion@,
                typed_text(completion@, typed_len as int),
                typed_len as nat,
                completion.spec_bytes().len() as nat,
            ))
        } else {
            None
        }),
{
    let len = completion.as_bytes().len();
    if typed_len > len || !completion.is_char_boundary(typed_len) {
        return None;
    }
    let (prefix, _rest) = split_owned(completion, typed_len);
    proof {
        let cb = completion.spec_bytes();
        let t = typed_text(completion@, typed_len as int);
        assert(encode_utf8(prefix@) == encode_utf8(completion@).subrange(0, typed_len as int));
        assert(encode_utf8(t) == encode_utf8(completion@).subrange(0, typed_len as int));
        lemma_encode_injective(t, prefix@);
        encode_utf8_valid_utf8(completion@);
        is_char_boundary_start_end_of_seq(cb);
        assert(cb.subrange(0, typed_len as int) == encode_utf8(prefix@));
        assert(adoptable(cb, encode_utf8(prefix@), typed_len as int, len as int));
    }
    intellitype_js(selector, completion, prefix.as_str(), typed_len, len)
}

/// The prefill offers what was accepted last: right after a value is recorded,
/// it is the completion for anything it extends.
pub proof fn lemma_recorded_value_is_offered_first(s: Seq<Seq<char>>, v: Seq<char>, typed: Seq<char>)
    requires
        extends(encode_utf8(v), encode_utf8(typed)),
    ensures
        first_extension(recorded(s, v), typed) == Some(v),
{
    lemma_recording_keeps_history_deduped(s, v);
}

/// One field's history: the scope that names the field, and its accepted
/// values, most recent first.
struct ScopeHistory {
    scope: String,
    entries: Vec<String>,
}

/// Every field's history, by scope. Scopes never share a history: recording
/// or forgetting in one leaves every other untouched.
pub struct IntelliHistories {
    scopes: Vec<ScopeHistory>,
}

/// Whether some history is kept under `scope`.
spec fn has_scope(s: Seq<ScopeHistory>, scope: Seq<char>) -> bool {
    exists|k: int| 0 <= k < s.len() && (#[trigger] s[k]).scope@ == scope
}

/// The first history kept under `scope`.
spec fn first_scope(s: Seq<ScopeHistory>, scope: Seq<char>) -> int {
    choose|k: int| 0 <= k < s.len() && (#[trigger] s[k]).scope@ == scope && forall|j: int| 0 <= j < k ==> (#[trigger] s[j]).scope@ != scope
}

/// The history of the field named `scope` in the list `s` (empty when none is
/// kept).
spec fn history_in(s: Seq<ScopeHistory>, scope: Seq<char>) -> Seq<Seq<char>> {
    if has_scope(s, scope) {
        strings_view(s[first_scope(s, scope)].entries@)
    } else {
        seq![]
    }
}

proof fn lemma_first_scope_exists(s: Seq<ScopeHistory>, scope: Seq<char>, k: int)
    requires
        0 <= k < s.len(),
        s[k].scope@ == scope,
    ensures
        has_scope(s, scope),
        0 <= first_scope(s, scope) < s.len(),
        s[first_scope(s, scope)].scope@ == scope,
        forall|j: int| 0 <= j < first_scope(s, scope) ==> (#[trigger] s[j]).scope@ != scope,
    decreases k,
{
    assert(s[k].scope@ == scope);
    if exists|j: int| 0 <= j < k && (#[trigger] s[j]).scope@ == scope {
        let j = choose|j: int| 0 <= j < k && (#[trigger] s[j]).scope@ == scope;
        lemma_first_scope_exists(s, scope, j);
    } else {
        assert(0 <= k < s.len() && s[k].scope@ == scope && forall|j: int| 0 <= j < k ==> (#[trigger] s[j]).scope@ != scope);
    }
}

proof fn lemma_first_scope_is(s: Seq<ScopeHistory>, scope: Seq<char>, k: int)
    requires
        0 <= k < s.len(),
        s[k].scope@ == scope,
        forall|j: int| 0 <= j < k ==> (#[trigger] s[j]).scope@ != scope,
    ensures
        has_scope(s, scope),
        first_scope(s, scope) == k,
{
    lemma_first_scope_exists(s, scope, k);
    let f = first_scope(s, scope);
    if f < k {
        assert(s[f].scope@ != scope);
    }
    if k < f {
        assert(s[k].scope@ != scope);
    }
}

/// Replacing the history at `k`, the first kept under its scope, changes the
/// history of that scope and no other.
proof fn lemma_history_after_set(s: Seq<ScopeHistory>, k: int, h: ScopeHistory, other: Seq<char>)
    requires
        0 <= k < s.len(),
        h.scope@ == s[k].scope@,
        forall|j: int| 0 <= j < k ==> (#[trigger] s[j]).scope@ != s[k].scope@,
    ensures
        other != s[k].scope@ ==> history_in(s.update(k, h), other) == history_in(s, other),
        history_in(s.update(k, h), s[k].scope@) == strings_view(h.entries@),
{
    let t = s.update(k, h);
    assert forall|j: int| 0 <= j < k implies (#[trigger] t[j]).scope@ != t[k].scope@ by {
        assert(t[j] == s[j]);
    }
    lemma_first_scope_is(t, s[k].scope@, k);
    if other != s[k].scope@ {
        if has_scope(s, other) {
            let w = choose|w: int| 0 <= w < s.len() && (#[trigger] s[w]).scope@ == other;
            lemma_first_scope_exists(s, other, w);
            let f = first_scope(s, other);
            assert(f != k);
            assert(t[f] == s[f]);
            assert forall|j: int| 0 <= j < f implies (#[trigger] t[j]).scope@ != other by {
                if j != k {
                    assert(t[j] == s[j]);
                    assert(s[j].scope@ != other);
                }
            }
            lemma_first_scope_is(t, other, f);
        } else {
            assert(!has_scope(t, other)) by {
                if has_scope(t, other) {
                    let w = choose|w: int| 0 <= w < t.len() && (#[trigger] t[w]).scope@ == other;
                    if w != k {
                        assert(t[w] == s[w]);
                        assert(s[w].scope@ == other);
                    }
                }
            }
        }
    }
}

/// Adding a history for a new scope gives it that history and leaves every
/// other scope's alone.
proof fn lemma_history_after_push(s: Seq<ScopeHistory>, h: ScopeHistory, other: Seq<char>)
    requires
        !has_scope(s, h.scope@),
    ensures
        history_in(s.push(h), h.scope@) == strings_view(h.entries@),
        other != h.scope@ ==> history_in(s.push(h), other) == history_in(s, other),
{
    let t = s.push(h);
    assert forall|j: int| 0 <= j < s.len() implies (#[trigger] t[j]).scope@ != h.scope@ by {
        assert(t[j] == s[j]);
        if s[j].scope@ == h.scope@ {
            assert(has_scope(s, h.scope@));
        }
    }
    lemma_first_scope_is(t, h.scope@, s.len() as int);
    if other != h.scope@ {
        if has_scope(s, other) {
            let w = choose|w: int| 0 <= w < s.len() && (#[trigger] s[w]).scope@ == other;
            lemma_first_scope_exists(s, other, w);
            let f = first_scope(s, other);
            assert(t[f] == s[f]);
            assert forall|j: int| 0 <= j < f implies (#[trigger] t[j]).scope@ != other by {
                assert(t[j] == s[j]);
                assert(s[j].scope@ != other);
            }
            lemma_first_scope_is(t, other, f);
        } else {
            assert(!has_scope(t, other)) by {
                if has_scope(t, other) {
                    let w = choose|w: int| 0 <= w < t.len() && (#[trigger] t[w]).scope@ == other;
                    if w < s.len() {
                        assert(t[w] == s[w]);
                        assert(s[w].scope@ == other);
                    }
                }
            }
        }
    }
}

impl IntelliHistories {
    /// The history of the field named `scope` (empty when it has none).
    pub closed spec fn history(&self, scope: Seq<char>) -> Seq<Seq<char>> {
        history_in(self.scopes@, scope)
    }

    /// No field has a history yet.
    pub fn new() -> (r: Self)
        ensures
            forall|scope: Seq<char>| #[trigger] r.history(scope) == Seq::<Seq<char>>::empty(),
    {
        IntelliHistories { scopes: Vec::new() }
    }

    /// Where the history of `scope` is kept, if anywhere: the first place.
    fn find(&self, scope: &str) -> (r: Option<usize>)
        ensures
            match r {
                Some(k) => k < self.scopes@.len() && self.scopes@[k as int].scope@ == scope@
                    && forall|j: int| 0 <= j < k ==> (#[trigger] self.scopes@[j]).scope@ != scope@,
                None => !has_scope(self.scopes@, scope@),
            },
    {
        let mut k: usize = 0;
        while k < self.scopes.len()
            invariant
                k <= self.scopes@.len(),
                forall|j: int| 0 <= j < k ==> (#[trigger] self.scopes@[j]).scope@ != scope@,
            decreases self.scopes@.len() - k,
        {
            if same_chars(self.scopes[k].scope.as_str(), scope) {
                return Some(k);
            }
            k = k + 1;
        }
        proof {
            if has_scope(self.scopes@, scope@) {
                let w = choose|w: int| 0 <= w < self.scopes@.len() && (#[trigger] self.scopes@[w]).scope@ == scope@;
                assert(self.scopes@[w].scope@ != scope@);
            }
        }
        None
    }

    /// A copy of the history of `scope`, most recent first.
    pub fn entries(&self, scope: &str) -> (r: Vec<String>)
        ensures
            strings_view(r@) == self.history(scope@),
    {
        match self.find(scope) {
            Some(k) => {
                proof {
                    lemma_first_scope_is(self.scopes@, scope@, k as int);
                }
                copy_strings(&self.scopes[k].entries)
            },
            None => Vec::new(),
        }
    }

    /// Record an accepted value for the field named `scope`: the trimmed value
    /// goes first in its history, older copies of it are dropped and the
    /// history keeps at most `SCOPE_HISTORY_CAP` entries. White space alone, or
    /// a field with no scope, records nothing; no other field's history moves.
    pub fn record(&mut self, scope: &str, value: &str)
        ensures
            forall|s: Seq<char>| #[trigger] final(self).history(s) == (if s == scope@ {
                match accepted(scope@, value@) {
                    Some(v) => recorded(old(self).history(s), v),
                    None => old(self).history(s),
                }
            } else {
                old(self).history(s)
            }),
    {
        let v = match accepted_value(scope, value) {
            Some(v) => v,
            None => return,
        };
        let ghost before = self.scopes@;
        match self.find(scope) {
            Some(k) => {
                let mut slot = ScopeHistory { scope: String::new(), entries: Vec::new() };
                self.scopes.set_and_swap(k, &mut slot);
                proof {
                    lemma_first_scope_is(before, scope@, k as int);
                }
                record_value(&mut slot.entries, v.as_str());
                self.scopes.set_and_swap(k, &mut slot);
                proof {
                    assert(self.scopes@ == before.update(k as int, self.scopes@[k as int]));
                    assert forall|s: Seq<char>| #[trigger] self.history(s) == (if s == scope@ {
                        recorded(history_in(before, s), v@)
                    } else {
                        history_in(before, s)
                    }) by {
                        if s == scope@ {
                            lemma_history_after_set(before, k as int, self.scopes@[k as int], s);
                        } else {
                            lemma_history_after_set(before, k as int, self.scopes@[k as int], s);
                        }
                    }
                }
            },
            None => {
                let mut entries: Vec<String> = Vec::new();
                proof {
                    assert(strings_view(entries@) =~= Seq::<Seq<char>>::empty());
                }
                record_value(&mut entries, v.as_str());
                let h = ScopeHistory { scope: owned(scope), entries };
                proof {
                    assert forall|s: Seq<char>| #[trigger] history_in(before.push(h), s) == (if s == scope@ {
                        recorded(history_in(before, s), v@)
                    } else {
                        history_in(before, s)
                    }) by {
                        lemma_history_after_push(before, h, s);
                    }
                }
                self.scopes.push(h);
            },
        }
    }

    /// Forget one value from the history of the field named `scope`; no other
    /// field's history moves.
    pub fn forget(&mut self, scope: &str, value: &str)
        ensures
            forall|s: Seq<char>| #[trigger] final(self).history(s) == (if s == scope@ {
                without(old(self).history(s), value@)
            } else {
                old(self).history(s)
            }),
    {
        let ghost before = self.scopes@;
        match self.find(scope) {
            Some(k) => {
                let mut slot = ScopeHistory { scope: String::new(), entries: Vec::new() };
                self.scopes.set_and_swap(k, &mut slot);
                proof {
                    lemma_first_scope_is(before, scope@, k as int);
                }
                forget_value(&mut slot.entries, value);
                self.scopes.set_and_swap(k, &mut slot);
                proof {
                    assert(self.scopes@ == before.update(k as int, self.scopes@[k as int]));
                    assert forall|s: Seq<char>| #[trigger] self.history(s) == (if s == scope@ {
                        without(history_in(before, s), value@)
                    } else {
                        history_in(before, s)
                    }) by {
                        if s == scope@ {
                            lemma_history_after_set(before, k as int, self.scopes@[k as int], s);
                        } else {
                            lemma_history_after_set(before, k as int, self.scopes@[k as int], s);
                        }
                    }
                }
            },
            None => {
                proof {
                    assert forall|s: Seq<char>| #[trigger] self.history(s) == (if s == scope@ {
                        without(history_in(before, s), value@)
                    } else {
                        history_in(before, s)
                    }) by {
                        if s == scope@ {
                            assert(without(Seq::<Seq<char>>::empty(), value@) =~= Seq::<Seq<char>>::empty());
                        }
                    }
                }
            },
        }
    }

    /// The completion for `typed` in the field named `scope`: the most recent
    /// accepted value that extends the typing (without one trailing newline).
    pub fn complete(&self, scope: &str, typed: &str) -> (r: Option<String>)
        ensures
            opt_text(r) == (if without_newline(typed@).len() == 0 {
                None
            } else {
                first_extension(self.history(scope@), without_newline(typed@))
            }),
    {
        let entries = self.entries(scope);
        complete_typed(&entries, typed)
    }

    /// The insertion-versus-deletion rule against the field's own history:
    /// the completion, the typed length and the completed length, when typing
    /// reaches past where the user's own typing last ended.
    pub fn on_input(&self, scope: &str, prev_draft_len: usize, prev_typed_len: Option<usize>, value: &str) -> (r: Option<(String, usize, usize)>)
        ensures
            opt_completion(r) == ({
                let prev = match prev_typed_len {
                    Some(p) => p,
                    None => prev_draft_len,
                };
                if value.spec_bytes().len() <= prev {
                    None
                } else {
                    let typed = without_newline(value@);
                    if typed.len() == 0 {
                        None
                    } else {
                        match first_extension(self.history(scope@), typed) {
                            Some(c) => Some((c, value.spec_bytes().len() as int, encode_utf8(c).len() as int)),
                            None => None,
                        }
                    }
                }
            }),
    {
        let entries = self.entries(scope);
        completion_on_input(&entries, prev_draft_len, prev_typed_len, value)
    }
}

/// The completion the insertion-versus-deletion rule offers for `value` in a
/// field with history `history`, when the user's own typing last ended at
/// byte `prev`: the completion, the typed length and the completed length.
pub open spec fn completion_rule(history: Seq<Seq<char>>, prev: int, value: Seq<char>) -> Option<(Seq<char>, int, int)> {
    if encode_utf8(value).len() <= prev {
        None
    } else {
        let typed = without_newline(value);
        if typed.len() == 0 {
            None
        } else {
            match first_extension(history, typed) {
                Some(c) => Some((c, encode_utf8(value).len() as int, encode_utf8(c).len() as int)),
                None => None,
            }
        }
    }
}

/// What one keystroke does to an intellitype field: the text Enter would
/// accept, where the user's own typing now ends, the field's length, and the
/// completion to write back, if any.
pub struct FieldStep {
    pub draft: String,
    pub typed_len: usize,
    pub draft_len: usize,
    pub completion: Option<(String, usize, usize)>,
}

/// Whether accepting a field's value records it: never for a secret field.
pub fn records_on_accept(secret: bool) -> (r: bool)
    ensures
        r == !secret,
{
    !secret
}

impl IntelliHistories {
    /// One keystroke in the field named `scope`, whose value is now `value`:
    /// a secret field offers nothing and keeps no draft; any other field
    /// offers the completion of the insertion-versus-deletion rule (the typing
    /// last ended at `prev_typed_len`), and its draft is the completed text
    /// when there is one and the value otherwise.
    pub fn field_input(&self, secret: bool, scope: &str, prev_draft_len: usize, prev_typed_len: usize, value: &str) -> (r: FieldStep)
        ensures
            r.draft_len == value.spec_bytes().len(),
            secret ==> r.completion is None && r.draft@ == Seq::<char>::empty() && r.typed_len == value.spec_bytes().len(),
            !secret ==> opt_completion(r.completion) == completion_rule(self.history(scope@), prev_typed_len as int, value@),
            !secret ==> r.draft@ == (match opt_completion(r.completion) {
                Some(c) => c.0,
                None => value@,
            }),
            !secret ==> r.typed_len == (match r.completion {
                Some(c) => c.1,
                None => value.spec_bytes().len() as usize,
            }),
    {
        let value_len = value.as_bytes().len();
        if secret {
            return FieldStep { draft: String::new(), typed_len: value_len, draft_len: value_len, completion: None };
        }
        let completion = self.on_input(scope, prev_draft_len, Some(prev_typed_len), value);
        match completion {
            Some(c) => {
                let draft = owned(c.0.as_str());
                let typed = c.1;
                FieldStep { draft, typed_len: typed, draft_len: value_len, completion: Some(c) }
            },
            None => FieldStep { draft: owned(value), typed_len: value_len, draft_len: value_len, completion: None },
        }
    }
}

/// A copy of a list of strings.
fn copy_strings(v: &Vec<String>) -> (r: Vec<String>)
    ensures
        strings_view(r@) == strings_view(v@),
{
    let mut out: Vec<String> = Vec::new();
    let mut k: usize = 0;
    while k < v.len()
        invariant
            k <= v@.len(),
            out@.len() == k,
            forall|j: int| 0 <= j < k ==> (#[trigger] out@[j])@ == v@[j]@,
        decreases v@.len() - k,
    {
        out.push(owned(v[k].as_str()));
        k = k + 1;
    }
    proof {
        assert(strings_view(out@) =~= strings_view(v@));
    }
    out
}

} // verus!
