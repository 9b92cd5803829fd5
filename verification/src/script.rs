//! The guarded completion write-back shared by the command palette and every
//! intellitype field: a script that adopts a host-computed completion into a
//! field with the tail selected, and only while the field still holds the text
//! the completion was computed from.

use vstd::prelude::*;
use vstd::utf8::*;
use vstd::string::*;
use crate::text::{decimal, push_decimal, owned};

verus! {

broadcast use vstd::seq::group_seq_axioms, vstd::seq_lib::group_seq_properties;

/// The JSON string literal (quoted and escaped) that `serde_json` writes for a
/// str's chars.
pub uninterp spec fn json_string_literal(s: Seq<char>) -> Seq<char>;

/// `serde_json::to_string` on a `str`: the JSON string literal of its chars,
/// named `json_string_literal`. A str is serialized into a `Vec<u8>`, whose
/// writes cannot fail, so the call always succeeds; what the literal looks
/// like (quotes and escapes) is left to the name.
#[verifier::external_body]
fn json_string(s: &str) -> (r: Option<String>)
    ensures
        r is Some,
        r.unwrap()@ == json_string_literal(s@),
{
    serde_json::to_string(s).ok()
}

/// A completion can be adopted: the typed length does not pass the completed
/// length, both are char boundaries of the completion, and the completion's
/// first `typed_len` bytes are exactly the typed prefix.
pub open spec fn adoptable(completed: Seq<u8>, typed_prefix: Seq<u8>, typed_len: int, completed_len: int) -> bool {
    &&& typed_len <= completed_len
    &&& is_char_boundary(completed, typed_len)
    &&& is_char_boundary(completed, completed_len)
    &&& completed.subrange(0, typed_len) == typed_prefix
}

/// The adoption script for the field found by `selector`: deferred to the next
/// frame, dropped unless the field still holds the typed prefix or the
/// completion, and selecting the completed tail.
pub open spec fn adoption_script(
    selector: Seq<char>,
    completed: Seq<char>,
    typed_prefix: Seq<char>,
    typed_len: nat,
    completed_len: nat,
) -> Seq<char> {
    "requestAnimationFrame(function(){\n    var el = document.querySelector('"@ + selector
        + "');\n    if (!el) return;\n    // Still what we completed from? A completion for text the user has left\n    // behind must not land on top of what they typed since.\n    if (el.value !== "@
        + json_string_literal(typed_prefix) + " && el.value !== "@ + json_string_literal(completed)
        + ") return;\n    if (el.value !== "@ + json_string_literal(completed) + ") el.value = "@
        + json_string_literal(completed) + ";\n    if (el.setSelectionRange) el.setSelectionRange("@
        + decimal(typed_len) + ", "@ + decimal(completed_len) + ");\n});"@
}

pub open spec fn opt_text(r: Option<String>) -> Option<Seq<char>> {
    match r {
        Some(s) => Some(s@),
        None => None,
    }
}

/// Whether the first `n` bytes of `a` are exactly `b`.
fn starts_with_bytes(a: &[u8], b: &[u8], n: usize) -> (r: bool)
    requires
        n <= a@.len(),
    ensures
        r == (a@.subrange(0, n as int) == b@),
{
    if b.len() != n {
        return false;
    }
    let mut k: usize = 0;
    while k < n
        invariant
            n <= a@.len(),
            b@.len() == n,
            k <= n,
            forall|m: int| 0 <= m < k ==> a@[m] == b@[m],
        decreases n - k,
    {
        if a[k] != b[k] {
            proof {
                assert(a@.subrange(0, n as int)[k as int] != b@[k as int]);
            }
            return false;
        }
        k = k + 1;
    }
    proof {
        assert(a@.subrange(0, n as int) =~= b@);
    }
    true
}

/// The guarded write-back for the field found by `selector`, or `None` when
/// the completion cannot be adopted.
pub fn adoption_js(
    selector: &str,
    completed: &str,
    typed_prefix: &str,
    typed_len: usize,
    completed_len: usize,
) -> (r: Option<String>)
    ensures
        opt_text(r) == (if adoptable(completed.spec_bytes(), typed_prefix.spec_bytes(), typed_len as int, completed_len as int) {
            Some(adoption_script(selector@, completed@, typed_prefix@, typed_len as nat, completed_len as nat))
        } else {
            None
        }),
{
    let cb = completed.as_bytes();
    let pb = typed_prefix.as_bytes();
    proof {
        encode_utf8_valid_utf8(completed@);
    }
    if typed_len > completed_len || !completed.is_char_boundary(typed_len)
        || !completed.is_char_boundary(completed_len) {
        return None;
    }
    proof {
        crate::utf8::lemma_boundary_in_range(completed.spec_bytes(), typed_len as int);
    }
    if !starts_with_bytes(cb, pb, typed_len) {
        return None;
    }
    let completed_js = match json_string(completed) {
        Some(j) => j,
        None => return None,
    };
    let typed_prefix_js = match json_string(typed_prefix) {
        Some(j) => j,
        None => return None,
    };
    let mut out = owned("requestAnimationFrame(function(){\n    var el = document.querySelector('");
    out.append(selector);
    out.append(
        "');\n    if (!el) return;\n    // Still what we completed from? A completion for text the user has left\n    // behind must not land on top of what they typed since.\n    if (el.value !== ",
    );
    out.append(typed_prefix_js.as_str());
    out.append(" && el.value !== ");
    out.append(completed_js.as_str());
    out.append(") return;\n    if (el.value !== ");
    out.append(completed_js.as_str());
    out.append(") el.value = ");
    out.append(completed_js.as_str());
    out.append(";\n    if (el.setSelectionRange) el.setSelectionRange(");
    push_decimal(&mut out, typed_len);
    out.append(", ");
    push_decimal(&mut out, completed_len);
    out.append(");\n});");
    Some(out)
}

} // verus!
