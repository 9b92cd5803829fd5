//! The pill toolbar's brand and the stepper's vocabulary.

use vstd::prelude::*;
use crate::text::owned;
use crate::components::{blank, is_blank};

verus! {

/// The bar's brand. Material, radius and motion are the component's.
#[derive(Clone, PartialEq, Debug)]
pub struct PillToolbarPalette {
    /// Ink for typed text and active glyphs.
    pub ink: String,
    /// Ink for placeholder text, the counter, and resting glyphs.
    pub muted: String,
    /// The bar's own fill, under its blur.
    pub surface: String,
    /// The hairline that separates the bar from whatever it floats over.
    pub hairline: String,
    /// The tint a control takes when hovered.
    pub hover: String,
}

impl PillToolbarPalette {
    pub fn new(ink: &str, muted: &str, surface: &str, hairline: &str, hover: &str) -> (r: Self)
        ensures
            r.ink@ == ink@,
            r.muted@ == muted@,
            r.surface@ == surface@,
            r.hairline@ == hairline@,
            r.hover@ == hover@,
    {
        PillToolbarPalette {
            ink: owned(ink),
            muted: owned(muted),
            surface: owned(surface),
            hairline: owned(hairline),
            hover: owned(hover),
        }
    }
}

/// Which way the stepper moved.
#[derive(Clone, Copy, PartialEq, Eq, Debug, Structural)]
pub enum PillStep {
    Previous,
    Next,
}

/// Hover and focus behaviour, which inline styles cannot express.
pub const PILL_TOOLBAR_CSS: &'static str = r#"
[data-yggui-pill-toolbar] button {
  transition: background-color 130ms cubic-bezier(0.2, 0, 0, 1),
    color 130ms cubic-bezier(0.2, 0, 0, 1);
}
[data-yggui-pill-toolbar] button:hover:not(:disabled) {
  background-color: var(--yggui-pill-hover);
  color: var(--yggui-pill-ink);
}
[data-yggui-pill-toolbar] button:disabled {
  opacity: 0.38;
  cursor: default;
}
[data-yggui-pill-toolbar] input::placeholder {
  color: var(--yggui-pill-muted);
  opacity: 1;
}
[data-yggui-pill-toolbar] input:focus {
  outline: none;
}
"#;

/// The stepper steps, and the counter shows, only when the host has a match
/// label: an empty `0/0` is noise.
pub fn stepper_enabled(match_label: &str) -> (r: bool)
    ensures
        r == !blank(match_label@),
{
    !is_blank(match_label)
}

/// The theme control is named for its outcome: in dark it offers light.
pub fn theme_toggle_title(is_dark: bool) -> (r: &'static str)
    ensures
        r@ == (if is_dark {
            "Switch to light"@
        } else {
            "Switch to dark"@
        }),
{
    if is_dark {
        "Switch to light"
    } else {
        "Switch to dark"
    }
}

} // verus!
