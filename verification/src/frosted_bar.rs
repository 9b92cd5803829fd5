//! The frosted glass recipe shared by the D-pad and the rail bars: a panel and
//! its keys, as inline styles.

use vstd::prelude::*;
use vstd::string::*;
use crate::text::owned;

verus! {

/// The panel recipe, before the host's own additions.
pub open spec fn panel_recipe() -> Seq<char> {
    "display:flex; flex-wrap:wrap; align-items:center; column-gap:2px; row-gap:1px; \
     padding:5px 8px 6px; border-radius:12px; user-select:none; \
     background:rgba(22,27,34,0.10); backdrop-filter:blur(14px) saturate(130%); \
     box-shadow:inset 0 0 0 1px rgba(255,255,255,0.10), 0 12px 28px rgba(0,0,0,0.14); "@
}

/// The frosted panel's recipe, inline-style form. `extra` is appended after the
/// recipe, so a host's margin or width cannot shadow the glass.
pub fn frosted_panel_style(extra: &str) -> (r: String)
    ensures
        r@ == panel_recipe() + extra@,
{
    let mut out = owned(
        "display:flex; flex-wrap:wrap; align-items:center; column-gap:2px; row-gap:1px; \
         padding:5px 8px 6px; border-radius:12px; user-select:none; \
         background:rgba(22,27,34,0.10); backdrop-filter:blur(14px) saturate(130%); \
         box-shadow:inset 0 0 0 1px rgba(255,255,255,0.10), 0 12px 28px rgba(0,0,0,0.14); ",
    );
    out.append(extra);
    out
}

/// A glass key's recipe: one property-key set, where `enabled` moves only the
/// cursor and the opacity, so a disabled key keeps its body and only dims.
pub open spec fn key_recipe(enabled: bool) -> Seq<char> {
    "border:none; background:rgba(255,255,255,0.16); font-size:15px; line-height:1; \
     padding:5px 9px; border-radius:7px; cursor:"@ + (if enabled {
        "pointer"@
    } else {
        "default"@
    }) + "; opacity:"@ + (if enabled {
        "0.9"@
    } else {
        "0.35"@
    }) + "; box-shadow:inset 0 0 0 1px rgba(255,255,255,0.20);"@
}

/// A glass key's recipe, inline-style form.
pub fn frosted_key_style(enabled: bool) -> (r: String)
    ensures
        r@ == key_recipe(enabled),
{
    let mut out = owned(
        "border:none; background:rgba(255,255,255,0.16); font-size:15px; line-height:1; \
         padding:5px 9px; border-radius:7px; cursor:",
    );
    out.append(if enabled {
        "pointer"
    } else {
        "default"
    });
    out.append("; opacity:");
    out.append(if enabled {
        "0.9"
    } else {
        "0.35"
    });
    out.append("; box-shadow:inset 0 0 0 1px rgba(255,255,255,0.20);");
    out
}

/// Hover and focus behaviour the inline styles cannot express: a key
/// brightens under the pointer, and a keyboard-focus key shows the ring —
/// a glass panel whose keys give no focus answer reads as mouse-only.
pub const YGGUI_FROSTED_BAR_CSS: &'static str = r#"
[data-yggui-frosted-key]:hover {
  background: rgba(255, 255, 255, 0.26);
}
[data-yggui-frosted-key]:focus-visible {
  outline: none;
  box-shadow: inset 0 0 0 1px rgba(255, 255, 255, 0.45);
}
"#;

} // verus!
