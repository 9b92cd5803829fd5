//! The composer's rules: which keystroke sends, when sending is possible,
//! which context options a typed filter shows, and the custom properties the
//! composer's stylesheet reads.

use vstd::prelude::*;
use vstd::string::*;
use crate::conversation::ConversationTokens;
use crate::components::{blank, is_blank};
use crate::unicode::chars_of;
use crate::text::owned;

verus! {

broadcast use vstd::seq::group_seq_axioms, vstd::seq_lib::group_seq_properties;

/// One entry in the composer's context menu: another conversation, a file, a
/// chart. The host decides what a key means; the composer only hands it back.
#[derive(Clone, PartialEq, Eq, Debug)]
pub struct ChatContextOption {
    pub key: String,
    pub label: String,
}

/// Which keystroke sends.
#[derive(Clone, Copy, PartialEq, Eq, Debug, Structural)]
pub enum ComposerSendShortcut {
    /// Enter sends; Shift+Enter inserts a newline.
    Enter,
    /// Shift+Enter sends; Enter inserts a newline.
    ShiftEnter,
}

impl Default for ComposerSendShortcut {
    fn default() -> (r: Self)
        ensures
            r == ComposerSendShortcut::Enter,
    {
        ComposerSendShortcut::Enter
    }
}

pub open spec fn shortcut_hint(s: ComposerSendShortcut) -> Seq<char> {
    match s {
        ComposerSendShortcut::Enter => "Enter"@,
        ComposerSendShortcut::ShiftEnter => "Shift+Enter"@,
    }
}

impl ComposerSendShortcut {
    /// The hint printed beside the send control: the key that actually sends.
    pub fn hint(self) -> (r: &'static str)
        ensures
            r@ == shortcut_hint(self),
    {
        match self {
            ComposerSendShortcut::Enter => "Enter",
            ComposerSendShortcut::ShiftEnter => "Shift+Enter",
        }
    }

    /// Whether Enter, with Shift held or not, sends: the two conventions are
    /// exact opposites.
    pub fn sends(self, shift_held: bool) -> (r: bool)
        ensures
            r == (match self {
                ComposerSendShortcut::Enter => !shift_held,
                ComposerSendShortcut::ShiftEnter => shift_held,
            }),
    {
        match self {
            ComposerSendShortcut::Enter => !shift_held,
            ComposerSendShortcut::ShiftEnter => shift_held,
        }
    }
}

/// Exactly one of the two Enter chords sends, whichever convention a host
/// declared.
pub proof fn lemma_exactly_one_chord_sends(s: ComposerSendShortcut)
    ensures
        (match s {
            ComposerSendShortcut::Enter => !false,
            ComposerSendShortcut::ShiftEnter => false,
        }) != (match s {
            ComposerSendShortcut::Enter => !true,
            ComposerSendShortcut::ShiftEnter => true,
        }),
{
}

/// Hover, focus and the context menu: the parts inline styles cannot express.
pub const CHAT_INPUT_CSS: &'static str = r#"
.yggui-composer {
  transition: border-color 160ms cubic-bezier(0.2, 0, 0, 1),
    box-shadow 160ms cubic-bezier(0.2, 0, 0, 1);
}
.yggui-composer:focus-within {
  border-color: var(--yggui-composer-focus);
  box-shadow: 0 0 0 3px var(--yggui-composer-ring);
}
.yggui-composer-textarea {
  resize: none;
  border: none;
  outline: none;
  background: transparent;
  width: 100%;
  font: inherit;
  color: inherit;
}
.yggui-composer-textarea::placeholder {
  color: var(--yggui-composer-placeholder);
  opacity: 1;
}
.yggui-composer-icon-button {
  transition: background-color 140ms cubic-bezier(0.2, 0, 0, 1),
    color 140ms cubic-bezier(0.2, 0, 0, 1), opacity 140ms cubic-bezier(0.2, 0, 0, 1);
}
.yggui-composer-icon-button:disabled {
  opacity: 0.4;
  cursor: default;
}
.yggui-composer-icon-button:not(:disabled):hover {
  background-color: var(--yggui-composer-hover);
}
.yggui-composer-menu-row {
  transition: background-color 120ms cubic-bezier(0.2, 0, 0, 1);
}
.yggui-composer-menu-row:hover,
.yggui-composer-menu-row:focus-visible {
  background-color: var(--yggui-composer-hover);
}
"#;

pub open spec fn composer_variables_text(t: ConversationTokens) -> Seq<char> {
    "--yggui-composer-focus:"@ + t.accent@ + "; --yggui-composer-ring:"@ + (if t.is_dark {
        "rgba(124,200,255,0.16)"@
    } else {
        "rgba(47,124,246,0.12)"@
    }) + "; --yggui-composer-placeholder:"@ + t.meta@ + "; --yggui-composer-hover:"@ + t.row_hover@
        + ";"@
}

/// The custom properties the composer's stylesheet reads.
pub fn composer_variables(tokens: &ConversationTokens) -> (r: String)
    ensures
        r@ == composer_variables_text(*tokens),
{
    let mut out = owned("--yggui-composer-focus:");
    out.append(tokens.accent);
    out.append("; --yggui-composer-ring:");
    out.append(if tokens.is_dark {
        "rgba(124,200,255,0.16)"
    } else {
        "rgba(47,124,246,0.12)"
    });
    out.append("; --yggui-composer-placeholder:");
    out.append(tokens.meta);
    out.append("; --yggui-composer-hover:");
    out.append(tokens.row_hover);
    out.append(";");
    out
}

/// A message can be sent when none is in flight and the box holds more than
/// white space.
pub fn can_send(sending: bool, value: &str) -> (r: bool)
    ensures
        r == (!sending && !blank(value@)),
{
    !sending && !is_blank(value)
}

/// Unicode lowercase of a char sequence (`str::to_lowercase`).
pub uninterp spec fn lowercase(s: Seq<char>) -> Seq<char>;

/// `str::to_lowercase`: the Unicode lowercase mapping of every char, which
/// this crate names `lowercase`.
#[verifier::external_body]
pub(crate) fn str_to_lowercase(s: &str) -> (r: String)
    ensures
        r@ == lowercase(s@),
{
    s.to_lowercase()
}

/// Whether `needle` occurs in `hay` as a run of consecutive chars.
pub open spec fn occurs_in(hay: Seq<char>, needle: Seq<char>) -> bool {
    exists|i: int| 0 <= i && i + needle.len() <= hay.len() && #[trigger] hay.subrange(i, i + needle.len()) == needle
}

fn occurs_at(hay: &Vec<char>, needle: &Vec<char>, i: usize) -> (r: bool)
    requires
        i + needle@.len() <= hay@.len(),
    ensures
        r == (hay@.subrange(i as int, i + needle@.len()) == needle@),
{
    let n = hay.len();
    let mut k: usize = 0;
    while k < needle.len()
        invariant
            n == hay@.len(),
            i + needle@.len() <= hay@.len(),
            k <= needle@.len(),
            forall|m: int| 0 <= m < k ==> hay@[i + m] == needle@[m],
        decreases needle@.len() - k,
    {
        if hay[i + k] != needle[k] {
            proof {
                assert(hay@.subrange(i as int, i + needle@.len())[k as int] != needle@[k as int]);
            }
            return false;
        }
        k = k + 1;
    }
    proof {
        assert(hay@.subrange(i as int, i + needle@.len()) =~= needle@);
    }
    true
}

/// Whether `needle` occurs in `hay`.
pub fn contains_chars(hay: &Vec<char>, needle: &Vec<char>) -> (r: bool)
    ensures
        r == occurs_in(hay@, needle@),
{
    if needle.len() > hay.len() {
        return false;
    }
    if needle.len() == 0 {
        proof {
            assert(hay@.subrange(0, 0int + needle@.len()) =~= needle@);
        }
        return true;
    }
    let count = hay.len() - needle.len() + 1;
    let mut i: usize = 0;
    while i < count
        invariant
            count + needle@.len() == hay@.len() + 1,
            i <= count,
            forall|j: int| 0 <= j < i ==> #[trigger] hay@.subrange(j, j + needle@.len()) != needle@,
        decreases count - i,
    {
        if occurs_at(hay, needle, i) {
            return true;
        }
        i = i + 1;
    }
    proof {
        assert forall|j: int| 0 <= j && j + needle@.len() <= hay@.len() implies #[trigger] hay@.subrange(
            j,
            j + needle@.len(),
        ) != needle@ by {
            assert(j < count);
        }
    }
    false
}

/// Whether an option with label `label` shows under the typed filter `needle`
/// (already lowercased): an empty filter shows everything.
pub open spec fn shows(label: Seq<char>, needle: Seq<char>) -> bool {
    needle.len() == 0 || occurs_in(lowercase(label), needle)
}

/// The options a filter shows, in order.
pub open spec fn visible_options(s: Seq<ChatContextOption>, needle: Seq<char>) -> Seq<ChatContextOption>
    decreases s.len(),
{
    if s.len() == 0 {
        seq![]
    } else {
        let rest = visible_options(s.drop_last(), needle);
        if shows(s.last().label@, needle) {
            rest.push(s.last())
        } else {
            rest
        }
    }
}

pub open spec fn option_views(s: Seq<ChatContextOption>) -> Seq<(Seq<char>, Seq<char>)> {
    s.map_values(|o: ChatContextOption| (o.key@, o.label@))
}

/// The context options a typed filter shows: those whose lowercased label
/// contains the lowercased filter, in their order; all of them for an empty
/// filter.
pub fn visible_context_options(options: &Vec<ChatContextOption>, filter: &str) -> (r: Vec<ChatContextOption>)
    ensures
        option_views(r@) == option_views(visible_options(options@, lowercase(filter@))),
{
    let needle_text = str_to_lowercase(filter);
    let needle = chars_of(needle_text.as_str());
    let ghost nd = lowercase(filter@);
    let mut out: Vec<ChatContextOption> = Vec::new();
    let mut k: usize = 0;
    proof {
        assert(options@.subrange(0, 0) =~= Seq::<ChatContextOption>::empty());
        assert(option_views(out@) =~= option_views(visible_options(options@.subrange(0, 0), nd)));
    }
    while k < options.len()
        invariant
            needle@ == nd,
            k <= options@.len(),
            option_views(out@) == option_views(visible_options(options@.subrange(0, k as int), nd)),
        decreases options@.len() - k,
    {
        let o = &options[k];
        proof {
            assert(options@.subrange(0, k + 1).drop_last() =~= options@.subrange(0, k as int));
            assert(options@.subrange(0, k + 1).last() == options@[k as int]);
        }
        let label_lower = str_to_lowercase(o.label.as_str());
        let hay = chars_of(label_lower.as_str());
        if needle.len() == 0 || contains_chars(&hay, &needle) {
            let copy = ChatContextOption { key: o.key.clone(), label: o.label.clone() };
            proof {
                assert(option_views(out@.push(copy)) =~= option_views(out@).push((copy.key@, copy.label@)));
                assert(option_views(visible_options(options@.subrange(0, k as int), nd).push(options@[k as int]))
                    =~= option_views(visible_options(options@.subrange(0, k as int), nd)).push((copy.key@, copy.label@)));
            }
            out.push(copy);
        }
        k = k + 1;
    }
    proof {
        assert(options@.subrange(0, options@.len() as int) =~= options@);
    }
    out
}

} // verus!
