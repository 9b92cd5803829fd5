//! The split button's rules: which member is the face (chosen by id, the
//! first when the sticky choice is gone), and how the face is painted and
//! labelled.

use vstd::prelude::*;
use vstd::string::*;
use crate::components::{blank, is_blank};
use crate::intellitype::trim_text;
use crate::unicode::{chars_of, trimmed_exec, same_chars};
use crate::text::owned;

verus! {

broadcast use vstd::seq::group_seq_axioms, vstd::seq_lib::group_seq_properties;

/// The control's brand. Material and radius are the component's.
#[derive(Clone, PartialEq, Debug)]
pub struct SplitButtonPalette {
    /// Ink for the face of a neutral button and for menu labels.
    pub ink: String,
    /// Ink for the menu's per-item detail line.
    pub muted: String,
    /// Fill for a neutral button and for the menu surface.
    pub surface: String,
    /// The hairline around the menu and between the two hit targets.
    pub hairline: String,
    /// The tint a menu item takes when hovered.
    pub hover: String,
    /// Fill for an accented button, and the tick beside the selected item.
    pub accent: String,
    /// Ink that reads on `accent`.
    pub on_accent: String,
}

impl SplitButtonPalette {
    pub fn new(
        ink: &str,
        muted: &str,
        surface: &str,
        hairline: &str,
        hover: &str,
        accent: &str,
        on_accent: &str,
    ) -> (r: Self)
        ensures
            r.ink@ == ink@,
            r.muted@ == muted@,
            r.surface@ == surface@,
            r.hairline@ == hairline@,
            r.hover@ == hover@,
            r.accent@ == accent@,
            r.on_accent@ == on_accent@,
    {
        SplitButtonPalette {
            ink: owned(ink),
            muted: owned(muted),
            surface: owned(surface),
            hairline: owned(hairline),
            hover: owned(hover),
            accent: owned(accent),
            on_accent: owned(on_accent),
        }
    }
}

/// One member of the family. `id` is the stable identity the host persists;
/// an empty `accent` means neutral.
#[derive(Clone, PartialEq, Debug)]
pub struct SplitButtonItem {
    pub id: String,
    pub label: String,
    pub detail: String,
    pub accent: String,
}

impl SplitButtonItem {
    pub fn new(id: &str, label: &str) -> (r: Self)
        ensures
            r.id@ == id@,
            r.label@ == label@,
            r.detail@.len() == 0,
            r.accent@.len() == 0,
    {
        SplitButtonItem { id: owned(id), label: owned(label), detail: String::new(), accent: String::new() }
    }

    pub fn detail(self, detail: &str) -> (r: Self)
        ensures
            r.id@ == self.id@,
            r.label@ == self.label@,
            r.detail@ == detail@,
            r.accent@ == self.accent@,
    {
        SplitButtonItem { detail: owned(detail), ..self }
    }

    pub fn accent(self, accent: &str) -> (r: Self)
        ensures
            r.id@ == self.id@,
            r.label@ == self.label@,
            r.detail@ == self.detail@,
            r.accent@ == accent@,
    {
        SplitButtonItem { accent: owned(accent), ..self }
    }
}

/// Which member is the face: chosen by id, never by position, and the first
/// member when the persisted choice names none of them.
pub fn selected_item(items: &Vec<SplitButtonItem>, selected_id: &str) -> (r: Option<usize>)
    ensures
        match r {
            Some(k) => k < items@.len() && (items@[k as int].id@ == selected_id@ && forall|j: int|
                0 <= j < k ==> items@[j].id@ != selected_id@) || (k == 0 && items@.len() > 0 && forall|j: int|
                0 <= j < items@.len() ==> items@[j].id@ != selected_id@),
            None => items@.len() == 0,
        },
{
    if items.len() == 0 {
        return None;
    }
    let mut k: usize = 0;
    while k < items.len()
        invariant
            k <= items@.len(),
            forall|j: int| 0 <= j < k ==> items@[j].id@ != selected_id@,
        decreases items@.len() - k,
    {
        if same_chars(items[k].id.as_str(), selected_id) {
            return Some(k);
        }
        k = k + 1;
    }
    Some(0)
}

/// How the face is painted and labelled.
#[derive(Clone, PartialEq, Debug)]
pub struct SplitFace {
    pub background: String,
    pub ink: String,
    pub divider: String,
    pub label: String,
}

/// An accented member paints the face in its accent with `on_accent` ink and a
/// light divider; a neutral one uses the palette's surface, ink and hairline.
/// The label is the member's, after the trimmed prefix and a space when there
/// is a prefix.
pub fn split_face(palette: &SplitButtonPalette, item: &SplitButtonItem, prefix: &str) -> (r: SplitFace)
    ensures
        r.background@ == (if blank(item.accent@) { palette.surface@ } else { item.accent@ }),
        r.ink@ == (if blank(item.accent@) { palette.ink@ } else { palette.on_accent@ }),
        r.divider@ == (if blank(item.accent@) { palette.hairline@ } else { "rgba(255,255,255,0.34)"@ }),
        r.label@ == (if blank(prefix@) { item.label@ } else { trim_text(prefix@) + " "@ + item.label@ }),
{
    let accented = !is_blank(item.accent.as_str());
    let background = if accented { item.accent.clone() } else { palette.surface.clone() };
    let ink = if accented { palette.on_accent.clone() } else { palette.ink.clone() };
    let divider = if accented { owned("rgba(255,255,255,0.34)") } else { palette.hairline.clone() };
    let label = if is_blank(prefix) {
        item.label.clone()
    } else {
        let cs = chars_of(prefix);
        let (a, b) = trimmed_exec(&cs, 0, cs.len());
        let mut out = prefix.substring_char(a, b).to_owned();
        out.append(" ");
        out.append(item.label.as_str());
        out
    };
    SplitFace { background, ink, divider, label }
}

/// Hover and focus behaviour, which inline styles cannot express.
pub const SPLIT_BUTTON_CSS: &'static str = r#"
[data-yggui-split-button] button {
  transition: background-color 130ms cubic-bezier(0.2, 0, 0, 1),
    color 130ms cubic-bezier(0.2, 0, 0, 1);
}
[data-yggui-split-button] button:disabled {
  opacity: 0.38;
  cursor: default;
}
[data-yggui-split-menu] [data-yggui-split-item]:hover {
  background-color: var(--yggui-split-hover);
}
[data-yggui-split-button] button:focus-visible,
[data-yggui-split-menu] [data-yggui-split-item]:focus-visible {
  outline: 2px solid var(--yggui-split-accent);
  outline-offset: -2px;
}
"#;

} // verus!
