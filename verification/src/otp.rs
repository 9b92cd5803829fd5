//! The six-cell login code entry's rules: when a code is complete, how a code
//! is pulled out of typed or pasted text, how pasted characters spread over
//! the cells, and the scripts that move focus and bridge paste.

use vstd::prelude::*;
use vstd::string::*;
use crate::unicode::{chars_of, is_ascii_digit, is_ascii_alnum, trimmed_exec};
use crate::components::{blank, is_blank};
use crate::org::strings_view;
use crate::intellitype::trim_text;
use crate::script::opt_text;
use crate::text::{decimal, push_decimal, owned};

verus! {

broadcast use vstd::seq::group_seq_axioms, vstd::seq_lib::group_seq_properties;

/// How many cells a code has.
pub const YGGUI_OTP_CODE_LEN: usize = 6;

/// The code made of the cells' trimmed contents, in order.
pub open spec fn joined_trims(cells: Seq<Seq<char>>) -> Seq<char>
    decreases cells.len(),
{
    if cells.len() == 0 {
        seq![]
    } else {
        joined_trims(cells.drop_last()) + trim_text(cells.last())
    }
}

/// The code, if there are exactly `YGGUI_OTP_CODE_LEN` cells and none is blank.
pub open spec fn complete_code(cells: Seq<Seq<char>>) -> Option<Seq<char>> {
    if cells.len() != YGGUI_OTP_CODE_LEN || exists|i: int| 0 <= i < cells.len() && #[trigger] blank(cells[i]) {
        None
    } else {
        Some(joined_trims(cells))
    }
}

/// The code, if every cell is filled; `None` while it is not.
pub fn complete_otp(cells: &[String]) -> (r: Option<String>)
    ensures
        opt_text(r) == complete_code(strings_view(cells@)),
{
    let ghost sv = strings_view(cells@);
    if cells.len() != YGGUI_OTP_CODE_LEN {
        return None;
    }
    let mut k: usize = 0;
    while k < cells.len()
        invariant
            sv == strings_view(cells@),
            k <= cells@.len(),
            forall|i: int| 0 <= i < k ==> !blank(#[trigger] sv[i]),
        decreases cells@.len() - k,
    {
        if is_blank(cells[k].as_str()) {
            proof {
                assert(blank(sv[k as int]));
            }
            return None;
        }
        k = k + 1;
    }
    let mut code = String::new();
    let mut j: usize = 0;
    proof {
        assert(sv.subrange(0, 0) =~= Seq::<Seq<char>>::empty());
    }
    while j < cells.len()
        invariant
            sv == strings_view(cells@),
            j <= cells@.len(),
            code@ == joined_trims(sv.subrange(0, j as int)),
        decreases cells@.len() - j,
    {
        let cs = chars_of(cells[j].as_str());
        let (a, b) = trimmed_exec(&cs, 0, cs.len());
        let piece = cells[j].as_str().substring_char(a, b);
        proof {
            assert(sv.subrange(0, j + 1).drop_last() =~= sv.subrange(0, j as int));
        }
        code.append(piece);
        j = j + 1;
    }
    proof {
        assert(sv.subrange(0, sv.len() as int) =~= sv);
    }
    Some(code)
}

/// Which characters a code is made of.
#[derive(Clone, Copy, Debug, PartialEq, Eq, Structural)]
pub enum OtpAlphabet {
    /// `0-9`.
    Digits,
    /// `A-Z` and `0-9`, upper-cased on the way in.
    Alphanumeric,
}

impl Default for OtpAlphabet {
    fn default() -> (r: Self)
        ensures
            r == OtpAlphabet::Digits,
    {
        OtpAlphabet::Digits
    }
}

/// Unicode uppercase of a char sequence (`str::to_uppercase`).
pub uninterp spec fn uppercase(s: Seq<char>) -> Seq<char>;

/// `str::to_uppercase`: the Unicode uppercase mapping of every char (which may
/// change the char count), named `uppercase`.
#[verifier::external_body]
fn str_to_uppercase(s: &str) -> (r: String)
    ensures
        r@ == uppercase(s@),
{
    s.to_uppercase()
}

/// `char::to_string`: a string holding exactly that char.
#[verifier::external_body]
fn char_string(c: char) -> (r: String)
    ensures
        r@ == seq![c],
{
    c.to_string()
}

pub open spec fn passes(c: char, alphabet: OtpAlphabet) -> bool {
    match alphabet {
        OtpAlphabet::Digits => is_ascii_digit(c),
        OtpAlphabet::Alphanumeric => is_ascii_alnum(c),
    }
}

/// The chars of `s` in the alphabet, in order.
pub open spec fn kept(s: Seq<char>, alphabet: OtpAlphabet) -> Seq<char>
    decreases s.len(),
{
    if s.len() == 0 {
        seq![]
    } else if passes(s.last(), alphabet) {
        kept(s.drop_last(), alphabet).push(s.last())
    } else {
        kept(s.drop_last(), alphabet)
    }
}

/// The first `n` chars of `s` (all of them when there are fewer).
pub open spec fn first_n(s: Seq<char>, n: nat) -> Seq<char> {
    if s.len() <= n {
        s
    } else {
        s.subrange(0, n as int)
    }
}

/// Whether `u[a..b]` holds an ASCII digit.
pub open spec fn has_digit(u: Seq<char>, a: int, b: int) -> bool {
    exists|k: int| a <= k < b && #[trigger] is_ascii_digit(u[k])
}

/// Whether the token `u[a..b]` is code-shaped: exactly a code's length, and
/// holding a digit when one is asked for.
pub open spec fn code_shaped(u: Seq<char>, a: int, b: int, need_digit: bool) -> bool {
    b - a == YGGUI_OTP_CODE_LEN && (need_digit ==> has_digit(u, a, b))
}

/// The first code-shaped token of `u[j..]` (tokens are the runs between chars
/// that are not ASCII alphanumeric), the current token having begun at `start`.
pub open spec fn code_token(u: Seq<char>, start: int, j: int, need_digit: bool) -> Option<(int, int)>
    decreases u.len() - j,
{
    if j >= u.len() {
        if code_shaped(u, start, j, need_digit) {
            Some((start, j))
        } else {
            None
        }
    } else if !is_ascii_alnum(u[j]) {
        if code_shaped(u, start, j, need_digit) {
            Some((start, j))
        } else {
            code_token(u, j + 1, j + 1, need_digit)
        }
    } else {
        code_token(u, start, j + 1, need_digit)
    }
}

/// The code's chars pulled out of typed or pasted text. Digits: the first six
/// digits. Alphanumeric: in the uppercased text, the first six-char token that
/// holds a digit, else the first six-char token, else the first six ASCII
/// letters and digits.
pub open spec fn otp_chars(raw: Seq<char>, alphabet: OtpAlphabet) -> Seq<char> {
    match alphabet {
        OtpAlphabet::Digits => first_n(kept(raw, OtpAlphabet::Digits), YGGUI_OTP_CODE_LEN as nat),
        OtpAlphabet::Alphanumeric => {
            let u = uppercase(raw);
            match code_token(u, 0, 0, true) {
                Some(t) => u.subrange(t.0, t.1),
                None => match code_token(u, 0, 0, false) {
                    Some(t) => u.subrange(t.0, t.1),
                    None => first_n(kept(u, OtpAlphabet::Alphanumeric), YGGUI_OTP_CODE_LEN as nat),
                },
            }
        },
    }
}

/// One string per char.
pub open spec fn singles(s: Seq<char>) -> Seq<Seq<char>> {
    s.map_values(|c: char| seq![c])
}

fn passes_exec(c: char, alphabet: OtpAlphabet) -> (r: bool)
    ensures
        r == passes(c, alphabet),
{
    let digit = '0' <= c && c <= '9';
    match alphabet {
        OtpAlphabet::Digits => digit,
        OtpAlphabet::Alphanumeric => digit || ('A' <= c && c <= 'Z') || ('a' <= c && c <= 'z'),
    }
}

/// The first six chars of `cs` in the alphabet.
fn kept_prefix(cs: &Vec<char>, alphabet: OtpAlphabet) -> (r: Vec<char>)
    ensures
        r@ == first_n(kept(cs@, alphabet), YGGUI_OTP_CODE_LEN as nat),
{
    let mut out: Vec<char> = Vec::new();
    let mut k: usize = 0;
    proof {
        assert(cs@.subrange(0, 0) =~= Seq::<char>::empty());
    }
    while k < cs.len()
        invariant
            k <= cs@.len(),
            out@ == first_n(kept(cs@.subrange(0, k as int), alphabet), YGGUI_OTP_CODE_LEN as nat),
        decreases cs@.len() - k,
    {
        proof {
            assert(cs@.subrange(0, k + 1).drop_last() =~= cs@.subrange(0, k as int));
            assert(cs@.subrange(0, k + 1).last() == cs@[k as int]);
        }
        if passes_exec(cs[k], alphabet) {
            let ghost before = kept(cs@.subrange(0, k as int), alphabet);
            if out.len() < YGGUI_OTP_CODE_LEN {
                out.push(cs[k]);
            } else {
                proof {
                    assert(first_n(before.push(cs@[k as int]), YGGUI_OTP_CODE_LEN as nat) =~= first_n(
                        before,
                        YGGUI_OTP_CODE_LEN as nat,
                    ));
                }
            }
        }
        k = k + 1;
    }
    proof {
        assert(cs@.subrange(0, cs@.len() as int) =~= cs@);
    }
    out
}

fn has_digit_exec(u: &Vec<char>, a: usize, b: usize) -> (r: bool)
    requires
        a <= b <= u@.len(),
    ensures
        r == has_digit(u@, a as int, b as int),
{
    let mut k = a;
    while k < b
        invariant
            a <= k <= b <= u@.len(),
            forall|m: int| a <= m < k ==> !is_ascii_digit(#[trigger] u@[m]),
        decreases b - k,
    {
        if '0' <= u[k] && u[k] <= '9' {
            proof {
                assert(is_ascii_digit(u@[k as int]));
            }
            return true;
        }
        k = k + 1;
    }
    false
}

fn code_shaped_exec(u: &Vec<char>, a: usize, b: usize, need_digit: bool) -> (r: bool)
    requires
        a <= b <= u@.len(),
    ensures
        r == code_shaped(u@, a as int, b as int, need_digit),
{
    b - a == YGGUI_OTP_CODE_LEN && (!need_digit || has_digit_exec(u, a, b))
}

fn code_token_exec(u: &Vec<char>, need_digit: bool) -> (r: Option<(usize, usize)>)
    ensures
        match r {
            Some(t) => code_token(u@, 0, 0, need_digit) == Some((t.0 as int, t.1 as int)) && t.0 <= t.1
                <= u@.len(),
            None => code_token(u@, 0, 0, need_digit) is None,
        },
{
    let mut start: usize = 0;
    let mut j: usize = 0;
    while j < u.len()
        invariant
            start <= j <= u@.len(),
            code_token(u@, start as int, j as int, need_digit) == code_token(u@, 0, 0, need_digit),
        decreases u@.len() - j,
    {
        let c = u[j];
        let alnum = ('0' <= c && c <= '9') || ('A' <= c && c <= 'Z') || ('a' <= c && c <= 'z');
        if !alnum {
            if code_shaped_exec(u, start, j, need_digit) {
                return Some((start, j));
            }
            start = j + 1;
        }
        j = j + 1;
    }
    if code_shaped_exec(u, start, j, need_digit) {
        Some((start, j))
    } else {
        None
    }
}

fn single_strings(cs: &Vec<char>, a: usize, b: usize) -> (r: Vec<String>)
    requires
        a <= b <= cs@.len(),
    ensures
        strings_view(r@) == singles(cs@.subrange(a as int, b as int)),
{
    let mut out: Vec<String> = Vec::new();
    let mut k = a;
    proof {
        assert(strings_view(out@) =~= singles(cs@.subrange(a as int, a as int)));
    }
    while k < b
        invariant
            a <= k <= b <= cs@.len(),
            strings_view(out@) == singles(cs@.subrange(a as int, k as int)),
        decreases b - k,
    {
        let s = char_string(cs[k]);
        proof {
            assert(strings_view(out@.push(s)) =~= strings_view(out@).push(s@));
            assert(singles(cs@.subrange(a as int, k + 1)) =~= singles(cs@.subrange(a as int, k as int)).push(
                seq![cs@[k as int]],
            ));
        }
        out.push(s);
        k = k + 1;
    }
    out
}

/// Pull a code out of whatever the user typed or pasted: one string per char.
pub fn chars_for_otp(raw: &str, alphabet: OtpAlphabet) -> (r: Vec<String>)
    ensures
        strings_view(r@) == singles(otp_chars(raw@, alphabet)),
{
    match alphabet {
        OtpAlphabet::Digits => {
            let cs = chars_of(raw);
            let kept_chars = kept_prefix(&cs, OtpAlphabet::Digits);
            proof {
                assert(kept_chars@.subrange(0, kept_chars@.len() as int) =~= kept_chars@);
            }
            single_strings(&kept_chars, 0, kept_chars.len())
        },
        OtpAlphabet::Alphanumeric => {
            let upper = str_to_uppercase(raw);
            let u = chars_of(upper.as_str());
            if let Some((a, b)) = code_token_exec(&u, true) {
                return single_strings(&u, a, b);
            }
            if let Some((a, b)) = code_token_exec(&u, false) {
                return single_strings(&u, a, b);
            }
            let kept_chars = kept_prefix(&u, OtpAlphabet::Alphanumeric);
            proof {
                assert(kept_chars@.subrange(0, kept_chars@.len() as int) =~= kept_chars@);
            }
            single_strings(&kept_chars, 0, kept_chars.len())
        },
    }
}

/// Keep only digits, and only as many as a code holds.
pub fn digits_for_otp(raw: &str) -> (r: Vec<String>)
    ensures
        strings_view(r@) == singles(otp_chars(raw@, OtpAlphabet::Digits)),
{
    chars_for_otp(raw, OtpAlphabet::Digits)
}

/// The cells after `digits` spread over them: the current cells padded or cut
/// to a code's length, then the digits written from `from` (from the start
/// when a whole code arrives), those past the last cell dropped.
pub open spec fn filled(current: Seq<Seq<char>>, digits: Seq<Seq<char>>, from: int) -> Seq<Seq<char>> {
    let start = if digits.len() == YGGUI_OTP_CODE_LEN {
        0
    } else if from < YGGUI_OTP_CODE_LEN {
        from
    } else {
        YGGUI_OTP_CODE_LEN as int
    };
    Seq::new(
        YGGUI_OTP_CODE_LEN as nat,
        |i: int|
            if start <= i < start + digits.len() {
                digits[i - start]
            } else if i < current.len() {
                current[i]
            } else {
                seq![]
            },
    )
}

/// Spread pasted (or typed) digits across the cells from a starting index.
pub fn fill_cells(current: &[String], digits: &[String], from: usize) -> (r: Vec<String>)
    ensures
        strings_view(r@) == filled(strings_view(current@), strings_view(digits@), from as int),
{
    let ghost cv = strings_view(current@);
    let ghost dv = strings_view(digits@);
    let mut next: Vec<String> = Vec::new();
    let mut i: usize = 0;
    while i < YGGUI_OTP_CODE_LEN
        invariant
            cv == strings_view(current@),
            i <= YGGUI_OTP_CODE_LEN,
            next@.len() == i,
            forall|m: int| 0 <= m < i ==> (#[trigger] next@[m])@ == (if m < cv.len() {
                cv[m]
            } else {
                Seq::<char>::empty()
            }),
        decreases YGGUI_OTP_CODE_LEN - i,
    {
        if i < current.len() {
            next.push(current[i].clone());
        } else {
            next.push(String::new());
        }
        i = i + 1;
    }
    let start = if digits.len() == YGGUI_OTP_CODE_LEN {
        0
    } else if from < YGGUI_OTP_CODE_LEN {
        from
    } else {
        YGGUI_OTP_CODE_LEN
    };
    let mut offset: usize = 0;
    while offset < digits.len() && start + offset < YGGUI_OTP_CODE_LEN
        invariant
            cv == strings_view(current@),
            dv == strings_view(digits@),
            start <= YGGUI_OTP_CODE_LEN,
            next@.len() == YGGUI_OTP_CODE_LEN,
            offset <= digits@.len(),
            start + offset <= YGGUI_OTP_CODE_LEN || offset == 0,
            forall|m: int| 0 <= m < YGGUI_OTP_CODE_LEN ==> (#[trigger] next@[m])@ == (if start <= m < start + offset {
                dv[m - start]
            } else if m < cv.len() {
                cv[m]
            } else {
                Seq::<char>::empty()
            }),
        decreases digits@.len() - offset,
    {
        let d = digits[offset].clone();
        next.set(start + offset, d);
        offset = offset + 1;
    }
    proof {
        let f = filled(cv, dv, from as int);
        assert forall|m: int| 0 <= m < YGGUI_OTP_CODE_LEN implies strings_view(next@)[m] == f[m] by {
            if start <= m < start + dv.len() {
                assert(m < start + offset);
            }
        }
        assert(strings_view(next@) =~= f);
    }
    next
}

/// The script that focuses cell `index` (optionally selecting its contents),
/// answering "no-cell" for an index past the last cell.
pub open spec fn focus_script(index: nat, select: bool) -> Seq<char> {
    "(function(){ var c = document.querySelector('[data-yggui-otp-cell=\""@ + decimal(index)
        + "\"]'); if (!c) { return \"no-cell\"; } c.focus(); if ("@ + (if select {
        "true"@
    } else {
        "false"@
    }) + ") { c.select(); } return \"focused\"; })()"@
}

/// Focus one cell by index, optionally selecting its contents.
pub fn focus_otp_cell_script(index: usize, select: bool) -> (r: String)
    ensures
        r@ == focus_script(index as nat, select),
{
    let mut out = owned("(function(){ var c = document.querySelector('[data-yggui-otp-cell=\"");
    push_decimal(&mut out, index);
    out.append("\"]'); if (!c) { return \"no-cell\"; } c.focus(); if (");
    out.append(if select {
        "true"
    } else {
        "false"
    });
    out.append(") { c.select(); } return \"focused\"; })()");
    out
}

/// The document-level paste listener, idempotent: installing it twice does
/// not double-handle a paste.
pub const OTP_PASTE_BRIDGE_SCRIPT: &'static str = r#"(function () {
  if (window.__ygguiOtpPasteBridge) { return "already-installed"; }
  window.__ygguiOtpPasteBridge = true;
  function deliver(text) {
    if (!text) { return; }
    var target = document.querySelector('[data-yggui-otp-sink="1"]');
    if (!target) { return; }
    target.value = String(text);
    target.dispatchEvent(new Event("input", { bubbles: true }));
  }
  document.addEventListener("paste", function (event) {
    var data = event.clipboardData || window.clipboardData;
    if (!data) { return; }
    var text = data.getData("text");
    if (!text) { return; }
    event.preventDefault();
    deliver(text);
  }, true);
  // The Android side of the same job: the native bridge, when the host has
  // registered it. Absent on desktop and in a browser, where the listener
  // above is enough.
  window.__ygguiOtpPasteFromNative = function () {
    try {
      if (window.AndroidClipboard && window.AndroidClipboard.getText) {
        deliver(window.AndroidClipboard.getText());
        return "native";
      }
    } catch (error) { /* fall through to the async path */ }
    if (navigator.clipboard && navigator.clipboard.readText) {
      navigator.clipboard.readText().then(deliver).catch(function () {});
      return "async";
    }
    return "unavailable";
  };
  return "installed";
})()"#;

/// The script the "Paste code" button runs.
pub const OTP_PASTE_FROM_NATIVE_SCRIPT: &'static str = "window.__ygguiOtpPasteFromNative ? window.__ygguiOtpPasteFromNative() : \"not-installed\"";

/// The document-level paste listener script.
pub fn install_otp_paste_bridge_script() -> (r: String)
    ensures
        r@ == OTP_PASTE_BRIDGE_SCRIPT@,
{
    owned(OTP_PASTE_BRIDGE_SCRIPT)
}

/// The script the "Paste code" button runs: the native bridge if installed.
pub fn otp_paste_from_native_script() -> (r: String)
    ensures
        r@ == OTP_PASTE_FROM_NATIVE_SCRIPT@,
{
    owned(OTP_PASTE_FROM_NATIVE_SCRIPT)
}

/// A key pressed in a code cell, as far as the entry cares.
#[derive(Clone, Copy, Debug, PartialEq, Eq, Structural)]
pub enum OtpKey {
    Backspace,
    ArrowLeft,
    ArrowRight,
    /// Any other key: it belongs to the cell.
    Other,
}

/// What the entry does with a key in a code cell.
#[derive(Clone, Copy, Debug, PartialEq, Eq, Structural)]
pub enum OtpKeyAction {
    /// Leave the key to the cell.
    Pass,
    /// Swallow the key and move the caret to this cell.
    Focus(usize),
    /// Swallow the key, clear this cell and move the caret to it.
    ClearAndFocus(usize),
}

/// The entry's answer to a key in cell `index`.
pub open spec fn otp_key_rule(key: OtpKey, cell_empty: bool, index: int) -> OtpKeyAction {
    match key {
        OtpKey::Backspace => if cell_empty && index > 0 {
            OtpKeyAction::ClearAndFocus((index - 1) as usize)
        } else {
            OtpKeyAction::Pass
        },
        OtpKey::ArrowLeft => if index > 0 {
            OtpKeyAction::Focus((index - 1) as usize)
        } else {
            OtpKeyAction::Pass
        },
        OtpKey::ArrowRight => if index + 1 < YGGUI_OTP_CODE_LEN {
            OtpKeyAction::Focus((index + 1) as usize)
        } else {
            OtpKeyAction::Pass
        },
        OtpKey::Other => OtpKeyAction::Pass,
    }
}

/// A key in cell `index`: Backspace out of an empty cell clears the cell
/// before it and takes the caret there; the arrows move between cells; the
/// first and last cells keep their keys at the edges.
pub fn otp_key_action(key: OtpKey, cell_empty: bool, index: usize) -> (r: OtpKeyAction)
    ensures
        r == otp_key_rule(key, cell_empty, index as int),
{
    match key {
        OtpKey::Backspace => if cell_empty && index > 0 {
            OtpKeyAction::ClearAndFocus(index - 1)
        } else {
            OtpKeyAction::Pass
        },
        OtpKey::ArrowLeft => if index > 0 {
            OtpKeyAction::Focus(index - 1)
        } else {
            OtpKeyAction::Pass
        },
        OtpKey::ArrowRight => if index < YGGUI_OTP_CODE_LEN - 1 {
            OtpKeyAction::Focus(index + 1)
        } else {
            OtpKeyAction::Pass
        },
        OtpKey::Other => OtpKeyAction::Pass,
    }
}

/// The cells with cell `index` emptied (unchanged when there is no such cell).
pub open spec fn cleared(cells: Seq<Seq<char>>, index: int) -> Seq<Seq<char>> {
    if 0 <= index < cells.len() {
        cells.update(index, seq![])
    } else {
        cells
    }
}

/// The cells with one of them emptied.
pub fn clear_cell(cells: &[String], index: usize) -> (r: Vec<String>)
    ensures
        strings_view(r@) == cleared(strings_view(cells@), index as int),
{
    let ghost cv = strings_view(cells@);
    let mut next: Vec<String> = Vec::new();
    let mut i: usize = 0;
    while i < cells.len()
        invariant
            cv == strings_view(cells@),
            i <= cells@.len(),
            next@.len() == i,
            forall|m: int| 0 <= m < i ==> (#[trigger] next@[m])@ == cleared(cv, index as int)[m],
        decreases cells@.len() - i,
    {
        if i == index {
            next.push(String::new());
        } else {
            next.push(cells[i].clone());
        }
        i = i + 1;
    }
    proof {
        assert(strings_view(next@) =~= cleared(cv, index as int));
    }
    next
}

/// What typing `raw` into cell `index` does: the cells after it, and the cell
/// that takes the caret next, if any.
pub open spec fn typed_into(cells: Seq<Seq<char>>, index: int, raw: Seq<char>, alphabet: OtpAlphabet) -> (Seq<Seq<char>>, Option<usize>) {
    let got = otp_chars(raw, alphabet);
    if got.len() == 0 {
        (cleared(cells, index), None)
    } else {
        (
            filled(cells, singles(got), index),
            if got.len() == 1 && index + 1 < YGGUI_OTP_CODE_LEN {
                Some((index + 1) as usize)
            } else {
                None
            },
        )
    }
}

/// Input in cell `index`: nothing usable clears the cell (the user is backing
/// out of a wrong character); otherwise the characters spread from this cell
/// (from the first when a whole code arrives), and a single character carries
/// the caret to the next cell.
pub fn otp_cell_input(cells: &[String], index: usize, raw: &str, alphabet: OtpAlphabet) -> (r: (Vec<String>, Option<usize>))
    ensures
        (strings_view(r.0@), r.1) == typed_into(strings_view(cells@), index as int, raw@, alphabet),
{
    let got = chars_for_otp(raw, alphabet);
    if got.len() == 0 {
        proof {
            assert(singles(otp_chars(raw@, alphabet)).len() == otp_chars(raw@, alphabet).len());
        }
        return (clear_cell(cells, index), None);
    }
    proof {
        assert(singles(otp_chars(raw@, alphabet)).len() == otp_chars(raw@, alphabet).len());
    }
    let next = fill_cells(cells, &got, index);
    let focus = if got.len() == 1 && index < YGGUI_OTP_CODE_LEN - 1 {
        Some(index + 1)
    } else {
        None
    };
    (next, focus)
}

/// What the hidden paste sink does with `raw`: the cells with the code spread
/// from the first cell, or nothing when `raw` holds no usable character.
pub open spec fn pasted_into(cells: Seq<Seq<char>>, raw: Seq<char>, alphabet: OtpAlphabet) -> Option<Seq<Seq<char>>> {
    let got = otp_chars(raw, alphabet);
    if got.len() == 0 {
        None
    } else {
        Some(filled(cells, singles(got), 0))
    }
}

/// The paste sink: a paste fills from the first cell; one with no usable
/// character changes nothing.
pub fn otp_sink_input(cells: &[String], raw: &str, alphabet: OtpAlphabet) -> (r: Option<Vec<String>>)
    ensures
        match r {
            Some(next) => pasted_into(strings_view(cells@), raw@, alphabet) == Some(strings_view(next@)),
            None => pasted_into(strings_view(cells@), raw@, alphabet).is_none(),
        },
{
    let got = chars_for_otp(raw, alphabet);
    proof {
        assert(singles(otp_chars(raw@, alphabet)).len() == otp_chars(raw@, alphabet).len());
    }
    if got.len() == 0 {
        None
    } else {
        Some(fill_cells(cells, &got, 0))
    }
}

/// The code cells' own stylesheet: size, focus ring and the paste control.
pub const YGGUI_OTP_CSS: &'static str = r#"
.yggui-otp {
  display: flex;
  gap: 10px;
  justify-content: center;
  align-items: center;
}
.yggui-otp-cell {
  width: 46px;
  height: 56px;
  text-align: center;
  font-size: 22px;
  font-weight: 600;
  font-variant-numeric: tabular-nums;
  border-radius: 12px;
  outline: none;
  /* ⛔ Ink pairs with the background, which is `composer_surface` and flips
     under dark mode. A host-fixed ink goes dark-on-dark the moment the OS
     does (practice.gour.top, 2026-09-10). `--yggui-conv-work-ink` lives on
     the same sheet as the surface and flips with it; the fallback is the
     light-arm ink-ish default for a host that ships neither. */
  color: var(--yggui-conv-work-ink, #1b232b);
  caret-color: var(--yggui-conv-work-ink, #1b232b);
  transition: border-color 140ms cubic-bezier(0.2, 0, 0, 1),
    box-shadow 140ms cubic-bezier(0.2, 0, 0, 1);
}
.yggui-otp-cell:focus {
  border-color: var(--yggui-otp-focus);
  box-shadow: 0 0 0 3px var(--yggui-otp-ring);
}
.yggui-otp-paste {
  display: block;
  margin: 12px auto 0 auto;
  padding: 8px 16px;
  border-radius: 999px;
  cursor: pointer;
  font-size: 12.5px;
  font-weight: 600;
  transition: background-color 140ms cubic-bezier(0.2, 0, 0, 1);
}
.yggui-otp-paste:hover {
  background-color: var(--yggui-otp-hover);
}
"#;

/// The cells as the entry draws them: padded with empty cells, or cut, to a
/// code's length.
pub fn pad_cells(cells: &[String]) -> (r: Vec<String>)
    ensures
        strings_view(r@) == filled(strings_view(cells@), seq![], YGGUI_OTP_CODE_LEN as int),
{
    let none: Vec<String> = Vec::new();
    proof {
        assert(strings_view(none@) =~= Seq::<Seq<char>>::empty());
    }
    fill_cells(cells, none.as_slice(), YGGUI_OTP_CODE_LEN)
}

/// A whole code lands from the first cell whichever cell had focus.
pub proof fn lemma_full_paste_ignores_focus(current: Seq<Seq<char>>, digits: Seq<Seq<char>>, from: int)
    requires
        digits.len() == YGGUI_OTP_CODE_LEN,
    ensures
        filled(current, digits, from) == filled(current, digits, 0),
        filled(current, digits, from) == digits,
{
    assert(filled(current, digits, from) =~= digits);
    assert(filled(current, digits, 0) =~= digits);
}

/// The keys never send the caret out of the cells: from any cell, a key moves
/// it to another cell or leaves it where it is.
pub proof fn lemma_keys_stay_in_cells(key: OtpKey, cell_empty: bool, index: int)
    requires
        0 <= index < YGGUI_OTP_CODE_LEN,
    ensures
        match otp_key_rule(key, cell_empty, index) {
            OtpKeyAction::Pass => true,
            OtpKeyAction::Focus(k) => k < YGGUI_OTP_CODE_LEN && k != index,
            OtpKeyAction::ClearAndFocus(k) => k < YGGUI_OTP_CODE_LEN && k + 1 == index,
        },
{
}

/// Typing into a cell: one usable character lands in that cell and leaves
/// every other cell as it was, and it carries the caret to the next cell
/// unless the cell is the last; more than one character, or none, leaves the
/// caret where it is, and nothing usable empties the cell.
pub proof fn lemma_one_char_fills_its_cell_and_moves_on(cells: Seq<Seq<char>>, index: int, raw: Seq<char>, alphabet: OtpAlphabet)
    requires
        0 <= index < YGGUI_OTP_CODE_LEN,
    ensures
        ({
            let got = otp_chars(raw, alphabet);
            let r = typed_into(cells, index, raw, alphabet);
            &&& got.len() == 1 ==> r.0.len() == YGGUI_OTP_CODE_LEN && r.0[index] == seq![got[0]]
            &&& got.len() == 1 ==> forall|j: int|
                0 <= j < YGGUI_OTP_CODE_LEN && j != index ==> #[trigger] r.0[j] == (if j < cells.len() {
                    cells[j]
                } else {
                    Seq::<char>::empty()
                })
            &&& got.len() == 1 && index + 1 < YGGUI_OTP_CODE_LEN ==> r.1 == Some((index + 1) as usize)
            &&& got.len() == 1 && index + 1 == YGGUI_OTP_CODE_LEN ==> r.1 is None
            &&& got.len() != 1 ==> r.1 is None
            &&& got.len() == 0 && index < cells.len() ==> r.0.len() == cells.len() && r.0[index] == Seq::<char>::empty()
        }),
{
    let got = otp_chars(raw, alphabet);
    if got.len() == 1 {
        assert(singles(got)[0] == seq![got[0]]);
    }
}

} // verus!
