//! The command palette's rules: where the selection lands for one move, and
//! the guarded adoption of a host-computed completion into the palette field.
//! The palette owns no state and no ranking; the host holds the query, the
//! items and the selection, and applies these rules to them.

use vstd::prelude::*;
use vstd::string::*;
use crate::script::{adoption_js, adoptable, adoption_script, opt_text};
use crate::text::owned;
use crate::chat_input::{lowercase, str_to_lowercase};
use crate::utf8::{split_owned, lemma_encode_injective};
use crate::conversation::{row_tooltip, work_row_tooltip};
use vstd::utf8::*;

verus! {

/// The palette's brand. Material, radius and motion are the component's.
#[derive(Clone, PartialEq, Debug)]
pub struct CommandPalettePalette {
    /// Ink for typed text and result labels.
    pub ink: String,
    /// Ink for the placeholder, secondary detail and shortcut hints.
    pub muted: String,
    /// The surface's own fill: the field and the list share it.
    pub surface: String,
    /// The hairline around the surface, and between the field and the results.
    pub hairline: String,
    /// The selected row's fill.
    pub selected: String,
    /// The dimming laid over whatever the palette is covering.
    pub scrim: String,
}

impl CommandPalettePalette {
    pub fn new(ink: &str, muted: &str, surface: &str, hairline: &str, selected: &str, scrim: &str) -> (r: Self)
        ensures
            r.ink@ == ink@,
            r.muted@ == muted@,
            r.surface@ == surface@,
            r.hairline@ == hairline@,
            r.selected@ == selected@,
            r.scrim@ == scrim@,
    {
        CommandPalettePalette {
            ink: owned(ink),
            muted: owned(muted),
            surface: owned(surface),
            hairline: owned(hairline),
            selected: owned(selected),
            scrim: owned(scrim),
        }
    }
}

/// One offered row. `id` is the host's own handle and comes straight back on
/// accept; `label` is what the row is; `detail` the quieter half; `hint` the
/// far-right note.
#[derive(Clone, PartialEq, Debug)]
pub struct CommandPaletteItem {
    pub id: String,
    pub label: String,
    pub detail: String,
    pub hint: String,
}

impl Default for CommandPaletteItem {
    fn default() -> (r: Self)
        ensures
            r.id@.len() == 0 && r.label@.len() == 0 && r.detail@.len() == 0 && r.hint@.len() == 0,
    {
        CommandPaletteItem { id: String::new(), label: String::new(), detail: String::new(), hint: String::new() }
    }
}

impl CommandPaletteItem {
    /// A row with its handle and label; the optional halves stay empty.
    pub fn new(id: &str, label: &str) -> (r: Self)
        ensures
            r.id@ == id@,
            r.label@ == label@,
            r.detail@.len() == 0,
            r.hint@.len() == 0,
    {
        CommandPaletteItem { id: owned(id), label: owned(label), detail: String::new(), hint: String::new() }
    }

    pub fn detail(self, detail: &str) -> (r: Self)
        ensures
            r.id@ == self.id@,
            r.label@ == self.label@,
            r.detail@ == detail@,
            r.hint@ == self.hint@,
    {
        CommandPaletteItem { detail: owned(detail), ..self }
    }

    pub fn hint(self, hint: &str) -> (r: Self)
        ensures
            r.id@ == self.id@,
            r.label@ == self.label@,
            r.detail@ == self.detail@,
            r.hint@ == hint@,
    {
        CommandPaletteItem { hint: owned(hint), ..self }
    }
}

/// Which way the keyboard moved the selection.
#[derive(Clone, Copy, PartialEq, Eq, Debug, Structural)]
pub enum PaletteMove {
    Previous,
    Next,
    First,
    Last,
}

/// Where the selection lands for one move over `len` rows. It wraps in both
/// directions; a selection already out of range sits at the end; an empty list
/// answers 0.
pub open spec fn index_after(current: nat, len: nat, moved: PaletteMove) -> nat {
    if len == 0 {
        0
    } else {
        let c = if current < len {
            current
        } else {
            (len - 1) as nat
        };
        match moved {
            PaletteMove::Previous => if c == 0 {
                (len - 1) as nat
            } else {
                (c - 1) as nat
            },
            PaletteMove::Next => if c + 1 >= len {
                0
            } else {
                c + 1
            },
            PaletteMove::First => 0,
            PaletteMove::Last => (len - 1) as nat,
        }
    }
}

/// Where the selection lands, for one move.
pub fn palette_index_after(current: usize, len: usize, moved: PaletteMove) -> (r: usize)
    ensures
        r == index_after(current as nat, len as nat, moved),
{
    if len == 0 {
        return 0;
    }
    let current = if current < len - 1 {
        current
    } else {
        len - 1
    };
    match moved {
        PaletteMove::Previous => {
            if current == 0 {
                len - 1
            } else {
                current - 1
            }
        },
        PaletteMove::Next => {
            if current + 1 >= len {
                0
            } else {
                current + 1
            }
        },
        PaletteMove::First => 0,
        PaletteMove::Last => len - 1,
    }
}

/// A move always lands on a row (or on 0 for an empty list), so a host never
/// indexes past its own results.
pub proof fn lemma_move_lands_in_range(current: nat, len: nat, moved: PaletteMove)
    ensures
        len > 0 ==> index_after(current, len, moved) < len,
        len == 0 ==> index_after(current, len, moved) == 0,
{
}

/// Down then Up (and Up then Down) come back to the row you were on: the
/// selection wraps in both directions.
pub proof fn lemma_next_and_previous_undo_each_other(current: nat, len: nat)
    requires
        current < len,
    ensures
        index_after(index_after(current, len, PaletteMove::Next), len, PaletteMove::Previous) == current,
        index_after(index_after(current, len, PaletteMove::Previous), len, PaletteMove::Next) == current,
{
}

/// The selector of the palette's field.
pub open spec fn palette_field_selector() -> Seq<char> {
    "[data-yggui-palette-input]"@
}

/// The completion-adoption script for the palette field: the omnibox's inline
/// completion, deferred a frame and dropped if the field has moved on. `None`
/// when the completion does not extend the typed prefix, or a length is not a
/// char boundary of the completion.
pub fn palette_completion_js(completed: &str, typed_prefix: &str, typed_len: usize, completed_len: usize) -> (r: Option<String>)
    ensures
        opt_text(r) == (if adoptable(completed.spec_bytes(), typed_prefix.spec_bytes(), typed_len as int, completed_len as int) {
            Some(adoption_script(palette_field_selector(), completed@, typed_prefix@, typed_len as nat, completed_len as nat))
        } else {
            None
        }),
{
    adoption_js("[data-yggui-palette-input]", completed, typed_prefix, typed_len, completed_len)
}

/// A key pressed in the palette field, as far as the palette cares.
#[derive(Clone, PartialEq, Eq, Debug)]
pub enum PaletteKey {
    /// A key that types text; the string is what it types.
    Character(String),
    ArrowDown,
    ArrowUp,
    PageUp,
    PageDown,
    Enter,
    Escape,
    /// Any other key (Home and End among them: they belong to the caret).
    Other,
}

/// The emacs kills the palette field answers, applied by the shared text-kill
/// helper so the text, the caret and the host's query move together.
#[derive(Clone, Copy, PartialEq, Eq, Debug, Structural)]
pub enum TextKill {
    /// Ctrl+K: kill to the end of the line.
    KillEnd,
    /// Ctrl+D: delete the character after the caret.
    DeleteForward,
    /// Alt+D: kill the word after the caret.
    KillWordForward,
}

/// What the palette does with a key in its field. Every answer but `Pass`
/// consumes the key.
#[derive(Clone, Copy, PartialEq, Eq, Debug, Structural)]
pub enum PaletteKeyAction {
    /// Leave the key to the field.
    Pass,
    /// Run a text kill in the field.
    Kill(TextKill),
    /// Move the selection.
    Move(PaletteMove),
    /// Accept the selected row, if there is one.
    Accept,
    /// Dismiss the palette.
    Dismiss,
}

/// The palette's answer to a key, given whether Control and Alt are held:
/// Control+K and Control+D (either case) and Alt+D are the field's kills; the
/// arrows and PageUp/PageDown move the list; Enter accepts; Escape dismisses.
pub open spec fn palette_key_rule(key: PaletteKey, control: bool, alt: bool) -> PaletteKeyAction {
    match key {
        PaletteKey::Character(ch) => {
            let low = lowercase(ch@);
            if control && low == "k"@ {
                PaletteKeyAction::Kill(TextKill::KillEnd)
            } else if control && low == "d"@ {
                PaletteKeyAction::Kill(TextKill::DeleteForward)
            } else if alt && low == "d"@ {
                PaletteKeyAction::Kill(TextKill::KillWordForward)
            } else {
                PaletteKeyAction::Pass
            }
        },
        PaletteKey::ArrowDown => PaletteKeyAction::Move(PaletteMove::Next),
        PaletteKey::ArrowUp => PaletteKeyAction::Move(PaletteMove::Previous),
        PaletteKey::PageUp => PaletteKeyAction::Move(PaletteMove::First),
        PaletteKey::PageDown => PaletteKeyAction::Move(PaletteMove::Last),
        PaletteKey::Enter => PaletteKeyAction::Accept,
        PaletteKey::Escape => PaletteKeyAction::Dismiss,
        PaletteKey::Other => PaletteKeyAction::Pass,
    }
}

fn is_single(s: &str, c: char) -> (r: bool)
    ensures
        r == (s@ == seq![c]),
{
    let n = s.unicode_len();
    if n != 1 {
        proof {
            assert(s@.len() != seq![c].len());
        }
        return false;
    }
    let first = s.get_char(0);
    proof {
        if first == c {
            assert(s@ =~= seq![c]);
        }
    }
    first == c
}

/// What a key in the palette field does.
pub fn palette_key_action(key: &PaletteKey, control: bool, alt: bool) -> (r: PaletteKeyAction)
    ensures
        r == palette_key_rule(*key, control, alt),
{
    match key {
        PaletteKey::Character(ch) => {
            if !control && !alt {
                return PaletteKeyAction::Pass;
            }
            let low = str_to_lowercase(ch.as_str());
            proof {
                reveal_strlit("k");
                reveal_strlit("d");
                assert("k"@ =~= seq!['k']);
                assert("d"@ =~= seq!['d']);
            }
            let is_k = is_single(low.as_str(), 'k');
            let is_d = is_single(low.as_str(), 'd');
            if control && is_k {
                PaletteKeyAction::Kill(TextKill::KillEnd)
            } else if control && is_d {
                PaletteKeyAction::Kill(TextKill::DeleteForward)
            } else if alt && is_d {
                PaletteKeyAction::Kill(TextKill::KillWordForward)
            } else {
                PaletteKeyAction::Pass
            }
        },
        PaletteKey::ArrowDown => PaletteKeyAction::Move(PaletteMove::Next),
        PaletteKey::ArrowUp => PaletteKeyAction::Move(PaletteMove::Previous),
        PaletteKey::PageUp => PaletteKeyAction::Move(PaletteMove::First),
        PaletteKey::PageDown => PaletteKeyAction::Move(PaletteMove::Last),
        PaletteKey::Enter => PaletteKeyAction::Accept,
        PaletteKey::Escape => PaletteKeyAction::Dismiss,
        PaletteKey::Other => PaletteKeyAction::Pass,
    }
}

/// The name the shared text-kill helper knows a kill by.
pub open spec fn kill_op(kill: TextKill) -> Seq<char> {
    match kill {
        TextKill::KillEnd => "kill-end"@,
        TextKill::DeleteForward => "del-forward"@,
        TextKill::KillWordForward => "kill-word-forward"@,
    }
}

/// The script that runs a text kill in the focused field.
pub fn text_kill_script(kill: TextKill) -> (r: String)
    ensures
        r@ == "__ygguiTextKill('"@ + kill_op(kill) + "')"@,
{
    let mut out = owned("__ygguiTextKill('");
    match kill {
        TextKill::KillEnd => out.append("kill-end"),
        TextKill::DeleteForward => out.append("del-forward"),
        TextKill::KillWordForward => out.append("kill-word-forward"),
    }
    out.append("')");
    out
}

/// The chars whose UTF-8 encoding is the first `n` bytes of `s`'s.
pub open spec fn typed_text(s: Seq<char>, n: int) -> Seq<char> {
    choose|p: Seq<char>| encode_utf8(p) == encode_utf8(s).subrange(0, n)
}

/// The adoption script for a host's completion whose typing ends at byte
/// `typed_len`: the typed prefix is the completion's own first `typed_len`
/// bytes, and the tail to its end is selected. `None` when `typed_len` is
/// past the end or not a char boundary.
pub fn palette_completion_for(completion: &str, typed_len: usize) -> (r: Option<String>)
    ensures
        opt_text(r) == (if typed_len <= completion.spec_bytes().len() && is_char_boundary(completion.spec_bytes(), typed_len as int) {
            Some(adoption_script(
                palette_field_selector(),
                completion@,
                typed_text(completion@, typed_len as int),
                typed_len as nat,
                completion.spec_bytes().len() as nat,
            ))
        } else {
            None
        }),
{
    let len = completion.as_bytes().len();
    if typed_len > len || !completion.is_char_boundary(typed_len) {
        return None;
    }
    let (prefix, _rest) = split_owned(completion, typed_len);
    proof {
        let cb = completion.spec_bytes();
        let t = typed_text(completion@, typed_len as int);
        assert(encode_utf8(prefix@) == encode_utf8(completion@).subrange(0, typed_len as int));
        assert(encode_utf8(t) == encode_utf8(completion@).subrange(0, typed_len as int));
        lemma_encode_injective(t, prefix@);
        encode_utf8_valid_utf8(completion@);
        is_char_boundary_start_end_of_seq(cb);
        assert(cb.subrange(0, typed_len as int) == encode_utf8(prefix@));
        assert(adoptable(cb, encode_utf8(prefix@), typed_len as int, len as int));
    }
    palette_completion_js(completion, prefix.as_str(), typed_len, len)
}

/// The row a selection stands on: out of range reads as the last row, and an
/// empty list as 0.
pub fn palette_selection(selected: usize, count: usize) -> (r: usize)
    ensures
        r == (if count == 0 {
            0
        } else if selected < count {
            selected
        } else {
            (count - 1) as usize
        }),
{
    if count == 0 {
        0
    } else if selected < count {
        selected
    } else {
        count - 1
    }
}

/// Hover, focus and scroll behaviour, which inline styles cannot express.
pub const YGGUI_COMMAND_PALETTE_CSS: &'static str = r#"
[data-yggui-command-palette] input:focus {
  outline: none;
}
[data-yggui-command-palette] input::placeholder {
  color: var(--yggui-palette-muted);
  opacity: 1;
}
[data-yggui-palette-row]:hover {
  background-color: var(--yggui-palette-selected);
}
/* A SELECTED row must not amputate a long URL. Every row ellipsizes at rest —
   a dropdown of full URLs is noise — but the row the user is ON is the row
   they are reading, so it stops clipping and scrolls instead. The owner asked
   for exactly this: selection "should not auto cutoff and should scroll (very
   useful for long urls)". */
[data-yggui-palette-row][data-yggui-palette-row-selected="true"] {
  overflow-x: auto;
  scrollbar-width: thin;
  scrollbar-color: var(--yggui-palette-hairline) transparent;
}
[data-yggui-palette-row][data-yggui-palette-row-selected="true"] [data-yggui-palette-row-text] {
  overflow: visible;
  text-overflow: clip;
}
[data-yggui-palette-results] {
  scrollbar-width: thin;
  scrollbar-color: var(--yggui-palette-hairline) transparent;
}
[data-yggui-palette-results]::-webkit-scrollbar {
  width: 10px;
}
[data-yggui-palette-results]::-webkit-scrollbar-thumb {
  background-color: var(--yggui-palette-hairline);
  border-radius: 999px;
  border: 3px solid transparent;
  background-clip: content-box;
}
[data-yggui-command-palette-scrim] {
  animation: yggui-palette-in 120ms cubic-bezier(0.05, 0.7, 0.1, 1);
}
@keyframes yggui-palette-in {
  from { opacity: 0; }
  to { opacity: 1; }
}
"#;

/// THE TEXT-KILL KEYS, as one embedded helper: `__ygguiTextKill(op)` applies an
/// emacs-style edit to WHATEVER editable element holds focus and returns the
/// new value (null when it did not apply).
///
/// ⛔ WHY A GLOBAL HELPER AND NOT COMPONENT KEYS: the owner's ruling is that
/// text editing belongs to the COMPONENT LAYER, not to each surface — "input
/// bugs should be fixed in the libyggterm components themselves, and the
/// omnibox flourishes are extras". One helper, three ops, every input box:
/// `kill-end` (Ctrl+K), `del-forward` (Ctrl+D), `kill-word-forward` (Alt+D).
/// The host shells install this once and bind the keys once, and every input
/// box in the app grows the same emacs fingers.
///
/// Guards, in the helper because every caller needs them: it refuses anything
/// that is not an `input`/`textarea`, and it refuses xterm's hidden textarea —
/// the terminal owns Ctrl+D (EOF) and Ctrl+K absolutely. After editing it
/// DISPATCHES a bubbling `input` event, so controlled inputs (Dioxus `oninput`
/// handlers) hear the change exactly as if the user had typed it — no host
/// desyncs from a value only the DOM saw.
pub const YGGUI_TEXT_KILL_JS: &'static str = r#"
window.__ygguiTextKill = function (op) {
  var el = document.activeElement;
  if (!el) return null;
  var tag = (el.tagName || '').toLowerCase();
  if (tag !== 'input' && tag !== 'textarea') return null;
  if (el.closest && el.closest('.xterm')) return null;
  var s = el.selectionStart, e = el.selectionEnd, v = el.value;
  if (s == null || e == null) return null;
  var nv = v, caret = s;
  if (op === 'kill-end') {
    nv = v.slice(0, s); caret = s;
  } else if (op === 'del-forward') {
    if (s !== e) { nv = v.slice(0, s) + v.slice(e); caret = s; }
    else if (e < v.length) { nv = v.slice(0, s) + v.slice(e + 1); caret = s; }
  } else if (op === 'kill-word-forward') {
    var rest = v.slice(e);
    var m = rest.match(/^\s*\S+/);
    var cut = m ? m[0].length : 0;
    nv = v.slice(0, s) + rest.slice(cut); caret = s;
  } else {
    return null;
  }
  if (nv === v) return nv;
  el.value = nv;
  try { el.setSelectionRange(caret, caret); } catch (_) {}
  el.dispatchEvent(new Event('input', { bubbles: true }));
  return nv;
};
"#;

impl CommandPaletteItem {
    /// The full text a row's title carries: the label, then the detail when
    /// there is one, so even an ellipsized row answers a hover.
    pub fn title(&self) -> (r: String)
        ensures
            r@ == row_tooltip(self.label@, self.detail@),
    {
        work_row_tooltip(self.label.as_str(), self.detail.as_str())
    }
}

/// The palette's keys read a typed character without regard to case: two
/// characters with the same lowercase form do the same thing under the same
/// modifiers, and Control with any character whose lowercase is `k` kills to
/// the end of the line, `d` deletes forward; Alt with `d` (without Control)
/// kills the word forward; a character typed with neither modifier is the
/// field's.
pub proof fn lemma_palette_keys_ignore_case(a: String, b: String, control: bool, alt: bool)
    ensures
        lowercase(a@) == lowercase(b@) ==> palette_key_rule(PaletteKey::Character(a), control, alt)
            == palette_key_rule(PaletteKey::Character(b), control, alt),
        control && lowercase(a@) == seq!['k'] ==> palette_key_rule(PaletteKey::Character(a), control, alt)
            == PaletteKeyAction::Kill(TextKill::KillEnd),
        control && lowercase(a@) == seq!['d'] ==> palette_key_rule(PaletteKey::Character(a), control, alt)
            == PaletteKeyAction::Kill(TextKill::DeleteForward),
        !control && alt && lowercase(a@) == seq!['d'] ==> palette_key_rule(PaletteKey::Character(a), control, alt)
            == PaletteKeyAction::Kill(TextKill::KillWordForward),
        !control && !alt ==> palette_key_rule(PaletteKey::Character(a), control, alt) == PaletteKeyAction::Pass,
{
    reveal_strlit("k");
    reveal_strlit("d");
    assert("k"@ =~= seq!['k']);
    assert("d"@ =~= seq!['d']);
    assert(seq!['k'] != seq!['d']) by {
        assert(seq!['k'][0] != seq!['d'][0]);
    }
}

} // verus!
