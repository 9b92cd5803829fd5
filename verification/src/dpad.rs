//! The scroll D-pad's vocabulary: the four actions, their stable tokens and
//! glyphs, and where each sits on the 3x3 grid. Up and down are the EDGES,
//! left and right are PAGES, and the centre cell is a hole.

use vstd::prelude::*;
use vstd::string::*;
use crate::text::owned;

verus! {

broadcast use vstd::seq::group_seq_axioms, vstd::seq_lib::group_seq_properties;

/// The four-way vocabulary: up/down are the edges, left/right are pages.
#[derive(Clone, Copy, PartialEq, Eq, Debug, Structural)]
pub enum DpadAction {
    Top,
    PageUp,
    PageDown,
    Bottom,
}

pub open spec fn token_text(a: DpadAction) -> Seq<char> {
    match a {
        DpadAction::Top => "top"@,
        DpadAction::PageUp => "page_up"@,
        DpadAction::PageDown => "page_down"@,
        DpadAction::Bottom => "bottom"@,
    }
}

pub open spec fn dom_token_text(a: DpadAction) -> Seq<char> {
    match a {
        DpadAction::Top => "top"@,
        DpadAction::PageUp => "page-up"@,
        DpadAction::PageDown => "page-down"@,
        DpadAction::Bottom => "bottom"@,
    }
}

pub open spec fn glyph_text(a: DpadAction) -> Seq<char> {
    match a {
        DpadAction::Top => "↑"@,
        DpadAction::PageUp => "←"@,
        DpadAction::PageDown => "→"@,
        DpadAction::Bottom => "↓"@,
    }
}

/// Where an action sits on the 3x3 grid, as `(column, row)`, 1-based.
pub open spec fn cell_of(a: DpadAction) -> (u8, u8) {
    match a {
        DpadAction::Top => (2, 1),
        DpadAction::PageUp => (1, 2),
        DpadAction::PageDown => (3, 2),
        DpadAction::Bottom => (2, 3),
    }
}

impl DpadAction {
    /// A stable token for probes and scripting, in snake case.
    pub fn token(self) -> (r: &'static str)
        ensures
            r@ == token_text(self),
    {
        match self {
            DpadAction::Top => "top",
            DpadAction::PageUp => "page_up",
            DpadAction::PageDown => "page_down",
            DpadAction::Bottom => "bottom",
        }
    }

    /// The `data-*` value, in the kebab case DOM attributes use.
    pub fn dom_token(self) -> (r: &'static str)
        ensures
            r@ == dom_token_text(self),
    {
        match self {
            DpadAction::Top => "top",
            DpadAction::PageUp => "page-up",
            DpadAction::PageDown => "page-down",
            DpadAction::Bottom => "bottom",
        }
    }

    /// The arrow the key shows.
    pub fn glyph(self) -> (r: &'static str)
        ensures
            r@ == glyph_text(self),
    {
        match self {
            DpadAction::Top => "↑",
            DpadAction::PageUp => "←",
            DpadAction::PageDown => "→",
            DpadAction::Bottom => "↓",
        }
    }

    /// Where this action sits on the 3x3 grid, as `(column, row)`, 1-based.
    pub fn cell(self) -> (r: (u8, u8))
        ensures
            r == cell_of(self),
    {
        match self {
            DpadAction::Top => (2, 1),
            DpadAction::PageUp => (1, 2),
            DpadAction::PageDown => (3, 2),
            DpadAction::Bottom => (2, 3),
        }
    }

    /// Reading order, so a host's tooltips and a probe's expectations agree.
    pub const ALL: [DpadAction; 4] = [DpadAction::Top, DpadAction::PageUp, DpadAction::PageDown, DpadAction::Bottom];
}

/// The pad is a cross with a hole in the middle: no action stands in the
/// centre cell, and no two actions share a cell.
pub proof fn lemma_pad_is_a_cross(a: DpadAction, b: DpadAction)
    ensures
        cell_of(a) != (2u8, 2u8),
        a != b ==> cell_of(a) != cell_of(b),
        1 <= cell_of(a).0 <= 3 && 1 <= cell_of(a).1 <= 3,
{
}

/// `_` in a token becomes `-`.
pub open spec fn kebab(s: Seq<char>) -> Seq<char> {
    s.map_values(|c: char| if c == '_' { '-' } else { c })
}

/// Every action's DOM token is its script token in kebab case.
pub proof fn lemma_dom_token_is_kebab_token(a: DpadAction)
    ensures
        dom_token_text(a) == kebab(token_text(a)),
        token_text(a).len() > 0,
{
    reveal_strlit("top");
    reveal_strlit("page_up");
    reveal_strlit("page_down");
    reveal_strlit("bottom");
    reveal_strlit("page-up");
    reveal_strlit("page-down");
    assert(dom_token_text(a) =~= kebab(token_text(a)));
}

/// Where the pad sits inside its (positioned) parent.
#[derive(Clone, Copy, PartialEq, Eq, Debug, Structural)]
pub enum DpadPlacement {
    TopRight,
    BottomRight,
}

impl Default for DpadPlacement {
    fn default() -> (r: Self)
        ensures
            r == DpadPlacement::TopRight,
    {
        DpadPlacement::TopRight
    }
}

pub open spec fn anchor_text(p: DpadPlacement) -> Seq<char> {
    match p {
        DpadPlacement::TopRight => "top:12px; right:12px;"@,
        DpadPlacement::BottomRight => "bottom:14px; right:14px;"@,
    }
}

impl DpadPlacement {
    /// The inline offsets that anchor the pad.
    pub fn anchor_css(self) -> (r: &'static str)
        ensures
            r@ == anchor_text(self),
    {
        match self {
            DpadPlacement::TopRight => "top:12px; right:12px;",
            DpadPlacement::BottomRight => "bottom:14px; right:14px;",
        }
    }
}

/// The pad's brand. Everything else is the component's.
#[derive(Clone, PartialEq, Debug)]
pub struct DpadPalette {
    /// Glyph ink on a key.
    pub ink: String,
    /// The dead centre's ink, quieter than a key's.
    pub muted: String,
}

impl DpadPalette {
    pub fn new(ink: &str, muted: &str) -> (r: Self)
        ensures
            r.ink@ == ink@,
            r.muted@ == muted@,
    {
        DpadPalette { ink: owned(ink), muted: owned(muted) }
    }
}

/// Hover-reveal, which an inline style cannot express. A host that wants the
/// pad always visible passes `hover_reveal: false` and can skip this sheet.
pub const DPAD_CSS: &'static str = r#"
[data-yggui-dpad][data-yggui-dpad-hover-reveal="1"] {
  opacity: 0;
  pointer-events: none;
  transition: opacity 120ms ease;
}
[data-yggui-dpad][data-yggui-dpad-hover-reveal="1"][data-yggui-dpad-visible="true"] {
  opacity: 1;
  pointer-events: auto;
}
[data-yggui-dpad] button {
  transition: background-color 120ms ease;
}
[data-yggui-dpad] button:hover {
  background: rgba(255, 255, 255, 0.26);
}
"#;

} // verus!
