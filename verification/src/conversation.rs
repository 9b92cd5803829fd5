//! The conversation surface's tokens: every colour, face and measure an agent
//! transcript draws with, derived from the host's palette, and the style
//! strings built from them.
//!
//! No component invents a colour: everything comes from `ConversationTokens`,
//! so a host retheming its shell rethemes the transcript too. Every style
//! helper emits a FIXED property-key set and varies only values.

use vstd::prelude::*;
use vstd::string::*;
use crate::unicode::chars_of;
use crate::text::{owned, decimal, push_decimal};
use crate::components::{blank, is_blank};

verus! {

broadcast use vstd::seq::group_seq_axioms, vstd::seq_lib::group_seq_properties;

/// Hover-reveal and row-hover behaviour, which inline styles cannot express.
pub const CONVERSATION_CSS: &'static str = r#"
.yggui-conv-actions {
  opacity: 0;
  transition: opacity 160ms cubic-bezier(0.2, 0, 0, 1);
}
.yggui-conv-turn:hover .yggui-conv-actions,
.yggui-conv-turn:focus-within .yggui-conv-actions {
  opacity: 1;
}
@media (hover: none) {
  .yggui-conv-actions { opacity: 1; }
}
.yggui-conv-work-row {
  transition: background-color 140ms cubic-bezier(0.2, 0, 0, 1);
}
.yggui-conv-work-row:hover,
.yggui-conv-work-row:focus-visible {
  background-color: var(--yggui-conv-row-hover);
}
.yggui-conv-quiet-button {
  transition: color 140ms cubic-bezier(0.2, 0, 0, 1),
    background-color 140ms cubic-bezier(0.2, 0, 0, 1);
}
.yggui-conv-quiet-button:hover {
  color: var(--yggui-conv-ink);
  background-color: var(--yggui-conv-row-hover);
}
@keyframes yggui-conv-pulse {
  0%, 100% { opacity: 0.25; transform: scale(0.82); }
  50% { opacity: 0.9; transform: scale(1); }
}
.yggui-conv-pulse-dot {
  animation: yggui-conv-pulse 1200ms ease-in-out infinite;
}
"#;

/// The reading column's width, in CSS pixels.
pub const CONVERSATION_COLUMN_PX: u32 = 720;

/// The assistant run's left inset, shared by the answer and its work so the
/// machine's side of the page has exactly one left edge.
pub const CONVERSATION_RUN_INSET_PX: u32 = 14;

/// How many changed-file chips a work row draws before it counts the rest.
pub const CHANGED_FILE_CHIP_LIMIT: usize = 4;

/// How many rows a work group shows before it offers "show more".
pub const WORK_GROUP_COLLAPSED_ROWS: usize = 6;

pub const PROSE_FONT: &'static str = "\"Source Serif 4\", \"Noto Serif\", \"Iowan Old Style\", Georgia, serif";
pub const UI_FONT: &'static str = "\"Inter Variable\", \"Inter\", system-ui, sans-serif";
pub const MONO_FONT: &'static str = "\"JetBrains Mono\", \"Iosevka Term\", ui-monospace, monospace";

/// Every colour, face and measure the conversation surface draws with.
#[derive(Clone, Copy, PartialEq)]
pub struct ConversationTokens {
    pub is_dark: bool,
    /// Body ink: the host's own text colour.
    pub ink: &'static str,
    /// The host's secondary ink, used for de-emphasised prose.
    pub muted: &'static str,
    /// The host's accent, used for the live/streaming signal and links.
    pub accent: &'static str,
    /// Metadata ink, quieter than the host's muted.
    pub meta: &'static str,
    /// The universal hairline.
    pub hairline: &'static str,
    /// The person's card.
    pub ask_surface: &'static str,
    pub ask_hairline: &'static str,
    pub ask_shadow: &'static str,
    /// The work seam.
    pub work_surface: &'static str,
    pub work_hairline: &'static str,
    /// A work row's own name, one step below prose ink.
    pub work_ink: &'static str,
    /// The well an expanded work row prints its output into.
    pub well_surface: &'static str,
    /// A changed-file chip.
    pub chip_surface: &'static str,
    pub chip_hairline: &'static str,
    /// The tint a hoverable row takes.
    pub row_hover: &'static str,
    /// The composer's fill, a step above the ask card.
    pub composer_surface: &'static str,
    /// Ink on the filled send button, which is `accent`.
    pub send_glyph: &'static str,
    /// The diff stat's pair; `removed` doubles as the failed-call ink.
    pub added: &'static str,
    pub removed: &'static str,
    /// The answer's face.
    pub prose_font: &'static str,
    /// The person's face, and every label and control.
    pub ui_font: &'static str,
    /// The machine's face.
    pub mono_font: &'static str,
    /// The reading column, in px.
    pub column_px: u32,
    /// The assistant run's left inset, in px.
    pub run_inset_px: u32,
}

/// The light/dark values as CSS, for a host whose theme is resolved by the
/// stylesheet rather than by Rust.
pub const CONVERSATION_THEME_CSS: &'static str = r#"
:root {
  --yggui-conv-meta: #8b96a2;
  --yggui-conv-hairline: rgba(20,32,44,0.10);
  --yggui-conv-ask-surface: #eef2f7;
  --yggui-conv-ask-hairline: rgba(20,32,44,0.09);
  --yggui-conv-ask-shadow: 0 8px 20px rgba(90,116,140,0.10);
  --yggui-conv-work-surface: rgba(20,32,44,0.028);
  --yggui-conv-work-hairline: rgba(20,32,44,0.08);
  --yggui-conv-work-ink: #43525f;
  --yggui-conv-well-surface: rgba(20,32,44,0.045);
  --yggui-conv-chip-surface: rgba(255,255,255,0.86);
  --yggui-conv-chip-hairline: rgba(20,32,44,0.10);
  --yggui-conv-row-hover: rgba(20,32,44,0.045);
  --yggui-conv-composer-surface: #ffffff;
  --yggui-conv-send-glyph: #ffffff;
  --yggui-conv-added: #2f7d55;
  --yggui-conv-removed: #b4525f;
}
@media (prefers-color-scheme: dark) {
  :root:not(.light):not([data-theme="light"]) {
    --yggui-conv-meta: #8595a5;
    --yggui-conv-hairline: rgba(190,214,238,0.12);
    --yggui-conv-ask-surface: rgba(255,255,255,0.082);
    --yggui-conv-ask-hairline: rgba(190,214,238,0.19);
    --yggui-conv-ask-shadow: 0 10px 26px rgba(0,0,0,0.28);
    --yggui-conv-work-surface: rgba(255,255,255,0.032);
    --yggui-conv-work-hairline: rgba(190,214,238,0.10);
    --yggui-conv-work-ink: #b7c5d4;
    --yggui-conv-well-surface: rgba(0,0,0,0.24);
    --yggui-conv-chip-surface: rgba(255,255,255,0.07);
    --yggui-conv-chip-hairline: rgba(190,214,238,0.12);
    --yggui-conv-row-hover: rgba(255,255,255,0.055);
    --yggui-conv-composer-surface: #1d242c;
    --yggui-conv-send-glyph: #0e1418;
    --yggui-conv-added: #5fbf88;
    --yggui-conv-removed: #e08594;
  }
}
:root.dark, :root[data-theme="dark"] {
  --yggui-conv-meta: #8595a5;
  --yggui-conv-hairline: rgba(190,214,238,0.12);
  --yggui-conv-ask-surface: rgba(255,255,255,0.082);
  --yggui-conv-ask-hairline: rgba(190,214,238,0.19);
  --yggui-conv-ask-shadow: 0 10px 26px rgba(0,0,0,0.28);
  --yggui-conv-work-surface: rgba(255,255,255,0.032);
  --yggui-conv-work-hairline: rgba(190,214,238,0.10);
  --yggui-conv-work-ink: #b7c5d4;
  --yggui-conv-well-surface: rgba(0,0,0,0.24);
  --yggui-conv-chip-surface: rgba(255,255,255,0.07);
  --yggui-conv-chip-hairline: rgba(190,214,238,0.12);
  --yggui-conv-row-hover: rgba(255,255,255,0.055);
  --yggui-conv-composer-surface: #1d242c;
  --yggui-conv-send-glyph: #0e1418;
  --yggui-conv-added: #5fbf88;
  --yggui-conv-removed: #e08594;
}
"#;

/// The tokens `from_palette` derives for a theme.
pub open spec fn palette_tokens(is_dark: bool, ink: &'static str, muted: &'static str, accent: &'static str) -> ConversationTokens {
    if is_dark {
        ConversationTokens {
            is_dark,
            ink,
            muted,
            accent,
            meta: "#8595a5",
            hairline: "rgba(190,214,238,0.12)",
            ask_surface: "rgba(255,255,255,0.082)",
            ask_hairline: "rgba(190,214,238,0.19)",
            ask_shadow: "0 10px 26px rgba(0,0,0,0.28)",
            work_surface: "rgba(255,255,255,0.032)",
            work_hairline: "rgba(190,214,238,0.10)",
            work_ink: "#b7c5d4",
            well_surface: "rgba(0,0,0,0.24)",
            chip_surface: "rgba(255,255,255,0.07)",
            chip_hairline: "rgba(190,214,238,0.12)",
            row_hover: "rgba(255,255,255,0.055)",
            composer_surface: "#1d242c",
            send_glyph: "#0e1418",
            added: "#5fbf88",
            removed: "#e08594",
            prose_font: PROSE_FONT,
            ui_font: UI_FONT,
            mono_font: MONO_FONT,
            column_px: CONVERSATION_COLUMN_PX,
            run_inset_px: CONVERSATION_RUN_INSET_PX,
        }
    } else {
        ConversationTokens {
            is_dark,
            ink,
            muted,
            accent,
            meta: "#8b96a2",
            hairline: "rgba(20,32,44,0.10)",
            ask_surface: "#eef2f7",
            ask_hairline: "rgba(20,32,44,0.09)",
            ask_shadow: "0 8px 20px rgba(90,116,140,0.10)",
            work_surface: "rgba(20,32,44,0.028)",
            work_hairline: "rgba(20,32,44,0.08)",
            work_ink: "#43525f",
            well_surface: "rgba(20,32,44,0.045)",
            chip_surface: "rgba(255,255,255,0.86)",
            chip_hairline: "rgba(20,32,44,0.10)",
            row_hover: "rgba(20,32,44,0.045)",
            composer_surface: "#ffffff",
            send_glyph: "#ffffff",
            added: "#2f7d55",
            removed: "#b4525f",
            prose_font: PROSE_FONT,
            ui_font: UI_FONT,
            mono_font: MONO_FONT,
            column_px: CONVERSATION_COLUMN_PX,
            run_inset_px: CONVERSATION_RUN_INSET_PX,
        }
    }
}

/// The tokens `from_css_variables` builds: every derived value is a custom
/// property the theme sheet defines.
pub open spec fn variable_tokens(ink: &'static str, muted: &'static str, accent: &'static str) -> ConversationTokens {
    ConversationTokens {
        is_dark: false,
        ink,
        muted,
        accent,
        meta: "var(--yggui-conv-meta)",
        hairline: "var(--yggui-conv-hairline)",
        ask_surface: "var(--yggui-conv-ask-surface)",
        ask_hairline: "var(--yggui-conv-ask-hairline)",
        ask_shadow: "var(--yggui-conv-ask-shadow)",
        work_surface: "var(--yggui-conv-work-surface)",
        work_hairline: "var(--yggui-conv-work-hairline)",
        work_ink: "var(--yggui-conv-work-ink)",
        well_surface: "var(--yggui-conv-well-surface)",
        chip_surface: "var(--yggui-conv-chip-surface)",
        chip_hairline: "var(--yggui-conv-chip-hairline)",
        row_hover: "var(--yggui-conv-row-hover)",
        composer_surface: "var(--yggui-conv-composer-surface)",
        send_glyph: "var(--yggui-conv-send-glyph)",
        added: "var(--yggui-conv-added)",
        removed: "var(--yggui-conv-removed)",
        prose_font: PROSE_FONT,
        ui_font: UI_FONT,
        mono_font: MONO_FONT,
        column_px: CONVERSATION_COLUMN_PX,
        run_inset_px: CONVERSATION_RUN_INSET_PX,
    }
}

/// The custom properties the column emits for the stylesheet's `:hover` rules.
pub open spec fn css_variables_text(t: ConversationTokens) -> Seq<char> {
    "--yggui-conv-row-hover:"@ + t.row_hover@ + "; --yggui-conv-ink:"@ + t.ink@ + ";"@
}

impl ConversationTokens {
    /// The same design language, addressed through CSS custom properties, for a
    /// host whose theme is decided in the stylesheet. `is_dark` reads `false`
    /// here and must not be used to decide anything.
    pub fn from_css_variables(ink: &'static str, muted: &'static str, accent: &'static str) -> (r: Self)
        ensures
            r == variable_tokens(ink, muted, accent),
    {
        ConversationTokens {
            is_dark: false,
            ink,
            muted,
            accent,
            meta: "var(--yggui-conv-meta)",
            hairline: "var(--yggui-conv-hairline)",
            ask_surface: "var(--yggui-conv-ask-surface)",
            ask_hairline: "var(--yggui-conv-ask-hairline)",
            ask_shadow: "var(--yggui-conv-ask-shadow)",
            work_surface: "var(--yggui-conv-work-surface)",
            work_hairline: "var(--yggui-conv-work-hairline)",
            work_ink: "var(--yggui-conv-work-ink)",
            well_surface: "var(--yggui-conv-well-surface)",
            chip_surface: "var(--yggui-conv-chip-surface)",
            chip_hairline: "var(--yggui-conv-chip-hairline)",
            row_hover: "var(--yggui-conv-row-hover)",
            composer_surface: "var(--yggui-conv-composer-surface)",
            send_glyph: "var(--yggui-conv-send-glyph)",
            added: "var(--yggui-conv-added)",
            removed: "var(--yggui-conv-removed)",
            prose_font: PROSE_FONT,
            ui_font: UI_FONT,
            mono_font: MONO_FONT,
            column_px: CONVERSATION_COLUMN_PX,
            run_inset_px: CONVERSATION_RUN_INSET_PX,
        }
    }

    /// Derive the surface from a host palette: `ink`, `muted` and `accent` are
    /// the host's; every surface, hairline and tint is derived from the theme.
    pub fn from_palette(is_dark: bool, ink: &'static str, muted: &'static str, accent: &'static str) -> (r: Self)
        ensures
            r == palette_tokens(is_dark, ink, muted, accent),
    {
        if is_dark {
            ConversationTokens {
                is_dark,
                ink,
                muted,
                accent,
                meta: "#8595a5",
                hairline: "rgba(190,214,238,0.12)",
                ask_surface: "rgba(255,255,255,0.082)",
                ask_hairline: "rgba(190,214,238,0.19)",
                ask_shadow: "0 10px 26px rgba(0,0,0,0.28)",
                work_surface: "rgba(255,255,255,0.032)",
                work_hairline: "rgba(190,214,238,0.10)",
                work_ink: "#b7c5d4",
                well_surface: "rgba(0,0,0,0.24)",
                chip_surface: "rgba(255,255,255,0.07)",
                chip_hairline: "rgba(190,214,238,0.12)",
                row_hover: "rgba(255,255,255,0.055)",
                composer_surface: "#1d242c",
                send_glyph: "#0e1418",
                added: "#5fbf88",
                removed: "#e08594",
                prose_font: PROSE_FONT,
                ui_font: UI_FONT,
                mono_font: MONO_FONT,
                column_px: CONVERSATION_COLUMN_PX,
                run_inset_px: CONVERSATION_RUN_INSET_PX,
            }
        } else {
            ConversationTokens {
                is_dark,
                ink,
                muted,
                accent,
                meta: "#8b96a2",
                hairline: "rgba(20,32,44,0.10)",
                ask_surface: "#eef2f7",
                ask_hairline: "rgba(20,32,44,0.09)",
                ask_shadow: "0 8px 20px rgba(90,116,140,0.10)",
                work_surface: "rgba(20,32,44,0.028)",
                work_hairline: "rgba(20,32,44,0.08)",
                work_ink: "#43525f",
                well_surface: "rgba(20,32,44,0.045)",
                chip_surface: "rgba(255,255,255,0.86)",
                chip_hairline: "rgba(20,32,44,0.10)",
                row_hover: "rgba(20,32,44,0.045)",
                composer_surface: "#ffffff",
                send_glyph: "#ffffff",
                added: "#2f7d55",
                removed: "#b4525f",
                prose_font: PROSE_FONT,
                ui_font: UI_FONT,
                mono_font: MONO_FONT,
                column_px: CONVERSATION_COLUMN_PX,
                run_inset_px: CONVERSATION_RUN_INSET_PX,
            }
        }
    }

    /// The custom properties the stylesheet reads, emitted on the column so a
    /// `:hover` rule can reach a themed colour.
    pub fn css_variables(&self) -> (r: String)
        ensures
            r@ == css_variables_text(*self),
    {
        let mut out = owned("--yggui-conv-row-hover:");
        out.append(self.row_hover);
        out.append("; --yggui-conv-ink:");
        out.append(self.ink);
        out.append(";");
        out
    }
}

/// The diff pair stays distinguishable in both themes: the added ink is never
/// the removed (failed-call) ink.
pub proof fn lemma_diff_pair_is_distinct(is_dark: bool, ink: &'static str, muted: &'static str, accent: &'static str)
    ensures
        palette_tokens(is_dark, ink, muted, accent).added@ != palette_tokens(is_dark, ink, muted, accent).removed@,
{
    reveal_strlit("#5fbf88");
    reveal_strlit("#e08594");
    reveal_strlit("#2f7d55");
    reveal_strlit("#b4525f");
    let t = palette_tokens(is_dark, ink, muted, accent);
    assert(t.added@[1] != t.removed@[1]);
}

/// What a work row did, which is what its mark draws.
#[derive(Clone, Copy, PartialEq, Eq, Debug)]
pub enum WorkMark {
    Command,
    FileChange,
    FileRead,
    Search,
    Thinking,
    Generic,
}

pub open spec fn mark_path(m: WorkMark) -> Seq<char> {
    match m {
        WorkMark::Command => "M3.2 4.4 6 7.2 3.2 10M7.4 10.4h4.6"@,
        WorkMark::FileChange => "M4 11.6h2.2l5-5a1.2 1.2 0 0 0-1.7-1.7l-5 5V11.6Z"@,
        WorkMark::FileRead => "M1.8 7.5S3.9 3.9 7.5 3.9s5.7 3.6 5.7 3.6-2.1 3.6-5.7 3.6S1.8 7.5 1.8 7.5Z"@,
        WorkMark::Search => "M6.8 10.4a3.6 3.6 0 1 0 0-7.2 3.6 3.6 0 0 0 0 7.2ZM9.6 9.6l2.6 2.6"@,
        WorkMark::Thinking => "M3 8.6a2 2 0 0 1 1.2-3.7 2.6 2.6 0 0 1 5-.5 2 2 0 0 1 .4 3.9M5 11.4h5"@,
        WorkMark::Generic => "M10.6 3.4a2.8 2.8 0 0 0-3.5 3.5l-3.6 3.6 1.4 1.4 3.6-3.6a2.8 2.8 0 0 0 3.5-3.5L10.1 6.4 8.6 4.9Z"@,
    }
}

impl WorkMark {
    /// The stroked path, on a shared 15x15 box, in `currentColor`. Every mark
    /// draws something: its path starts with a move-to.
    pub fn path(self) -> (r: &'static str)
        ensures
            r@ == mark_path(self),
            r@.len() > 0 && r@[0] == 'M',
    {
        proof {
            reveal_strlit("M3.2 4.4 6 7.2 3.2 10M7.4 10.4h4.6");
            reveal_strlit("M4 11.6h2.2l5-5a1.2 1.2 0 0 0-1.7-1.7l-5 5V11.6Z");
            reveal_strlit("M1.8 7.5S3.9 3.9 7.5 3.9s5.7 3.6 5.7 3.6-2.1 3.6-5.7 3.6S1.8 7.5 1.8 7.5Z");
            reveal_strlit("M6.8 10.4a3.6 3.6 0 1 0 0-7.2 3.6 3.6 0 0 0 0 7.2ZM9.6 9.6l2.6 2.6");
            reveal_strlit("M3 8.6a2 2 0 0 1 1.2-3.7 2.6 2.6 0 0 1 5-.5 2 2 0 0 1 .4 3.9M5 11.4h5");
            reveal_strlit("M10.6 3.4a2.8 2.8 0 0 0-3.5 3.5l-3.6 3.6 1.4 1.4 3.6-3.6a2.8 2.8 0 0 0 3.5-3.5L10.1 6.4 8.6 4.9Z");
        }
        match self {
            WorkMark::Command => "M3.2 4.4 6 7.2 3.2 10M7.4 10.4h4.6",
            WorkMark::FileChange => "M4 11.6h2.2l5-5a1.2 1.2 0 0 0-1.7-1.7l-5 5V11.6Z",
            WorkMark::FileRead => "M1.8 7.5S3.9 3.9 7.5 3.9s5.7 3.6 5.7 3.6-2.1 3.6-5.7 3.6S1.8 7.5 1.8 7.5Z",
            WorkMark::Search => "M6.8 10.4a3.6 3.6 0 1 0 0-7.2 3.6 3.6 0 0 0 0 7.2ZM9.6 9.6l2.6 2.6",
            WorkMark::Thinking => "M3 8.6a2 2 0 0 1 1.2-3.7 2.6 2.6 0 0 1 5-.5 2 2 0 0 1 .4 3.9M5 11.4h5",
            WorkMark::Generic => "M10.6 3.4a2.8 2.8 0 0 0-3.5 3.5l-3.6 3.6 1.4 1.4 3.6-3.6a2.8 2.8 0 0 0 3.5-3.5L10.1 6.4 8.6 4.9Z",
        }
    }
}

/// The folded work row's style: one fixed property-key set, whose only values
/// that move are the cursor (with a body or not), the ink (failed or not) and
/// the machine's face.
pub open spec fn work_row_style_text(t: ConversationTokens, failed: bool, has_body: bool) -> Seq<char> {
    "display:flex; align-items:center; gap:8px; width:100%; box-sizing:border-box; \
     padding:4px 6px; border:none; border-radius:7px; background:transparent; \
     text-align:left; cursor:"@ + (if has_body {
        "pointer"@
    } else {
        "default"@
    }) + "; color:"@ + (if failed {
        t.removed@
    } else {
        t.meta@
    }) + "; font-family:"@ + t.mono_font@ + "; font-size:11px; line-height:1.55;"@
}

/// The folded work row's style. Every branch emits the identical property-key
/// set; a failed call and a normal one differ only in values.
pub fn work_row_style(tokens: &ConversationTokens, failed: bool, has_body: bool) -> (r: String)
    ensures
        r@ == work_row_style_text(*tokens, failed, has_body),
{
    let mut out = owned(
        "display:flex; align-items:center; gap:8px; width:100%; box-sizing:border-box; \
         padding:4px 6px; border:none; border-radius:7px; background:transparent; \
         text-align:left; cursor:",
    );
    out.append(if has_body {
        "pointer"
    } else {
        "default"
    });
    out.append("; color:");
    out.append(if failed {
        tokens.removed
    } else {
        tokens.meta
    });
    out.append("; font-family:");
    out.append(tokens.mono_font);
    out.append("; font-size:11px; line-height:1.55;");
    out
}

/// The index just past the last `/` before `j`, or 0 when there is none.
pub open spec fn after_slash_before(s: Seq<char>, j: int) -> int
    decreases j,
{
    if j <= 0 {
        0
    } else if s[j - 1] == '/' {
        j
    } else {
        after_slash_before(s, j - 1)
    }
}

/// Where a chip label starts: after the second-to-last `/`, so the label is
/// the trailing two segments (or the whole path when it has fewer).
pub open spec fn label_start(s: Seq<char>) -> int {
    let last = after_slash_before(s, s.len() as int);
    if last == 0 {
        0
    } else {
        after_slash_before(s, last - 1)
    }
}

proof fn lemma_after_slash_bounds(s: Seq<char>, j: int)
    requires
        0 <= j <= s.len(),
    ensures
        0 <= after_slash_before(s, j) <= j,
        after_slash_before(s, j) > 0 ==> s[after_slash_before(s, j) - 1] == '/',
    decreases j,
{
    if j > 0 && s[j - 1] != '/' {
        lemma_after_slash_bounds(s, j - 1);
    }
}

fn after_slash_exec(cs: &Vec<char>, j: usize) -> (r: usize)
    requires
        j <= cs@.len(),
    ensures
        r == after_slash_before(cs@, j as int),
        r <= j,
{
    let mut k = j;
    while k > 0 && cs[k - 1] != '/'
        invariant
            k <= j <= cs@.len(),
            after_slash_before(cs@, k as int) == after_slash_before(cs@, j as int),
        decreases k,
    {
        k = k - 1;
    }
    k
}

/// The trailing two segments of a path: enough to identify a file, short
/// enough to sit in a chip.
pub fn changed_file_label(path: &str) -> (r: String)
    ensures
        r@ == path@.subrange(label_start(path@), path@.len() as int),
{
    let cs = chars_of(path);
    let last = after_slash_exec(&cs, cs.len());
    let start = if last == 0 {
        0
    } else {
        after_slash_exec(&cs, last - 1)
    };
    path.substring_char(start, cs.len()).to_owned()
}

/// The metadata line under an answer: the timestamp and the host's second
/// term joined by " · ", either one alone when the other is blank.
pub open spec fn footer_line(timestamp: Seq<char>, meta: Seq<char>) -> Seq<char> {
    if blank(meta) {
        timestamp
    } else if blank(timestamp) {
        meta
    } else {
        timestamp + " · "@ + meta
    }
}

/// The metadata line an answer's footer prints.
pub fn assistant_footer_text(timestamp: &str, meta: &str) -> (r: String)
    ensures
        r@ == footer_line(timestamp@, meta@),
{
    if is_blank(meta) {
        owned(timestamp)
    } else if is_blank(timestamp) {
        owned(meta)
    } else {
        let mut out = owned(timestamp);
        out.append(" · ");
        out.append(meta);
        out
    }
}

/// Whether a turn's footer has anything to show: a timestamp that is not
/// blank, or at least one action.
pub fn footer_shown(timestamp: &str, action_count: usize) -> (r: bool)
    ensures
        r == (!blank(timestamp@) || action_count > 0),
{
    !is_blank(timestamp) || action_count > 0
}

/// Whether a work group shows its more/less control: some rows are hidden, or
/// an expanded group is longer than a collapsed one.
pub fn shows_group_control(count: usize, hidden_count: usize, expanded: bool) -> (r: bool)
    ensures
        r == (hidden_count > 0 || (expanded && count > WORK_GROUP_COLLAPSED_ROWS)),
{
    hidden_count > 0 || (expanded && count > WORK_GROUP_COLLAPSED_ROWS)
}

/// The label of a work group's control.
pub open spec fn group_control_text(hidden_count: nat) -> Seq<char> {
    if hidden_count > 0 {
        "Show "@ + decimal(hidden_count) + " more"@
    } else {
        "Show less"@
    }
}

/// The label of a work group's more/less control.
pub fn group_control_label(hidden_count: usize) -> (r: String)
    ensures
        r@ == group_control_text(hidden_count as nat),
{
    if hidden_count > 0 {
        let mut out = owned("Show ");
        push_decimal(&mut out, hidden_count);
        out.append(" more");
        out
    } else {
        owned("Show less")
    }
}

/// A work row's tooltip: the tool's name, then what it acted on when there is
/// anything.
pub open spec fn row_tooltip(label: Seq<char>, headline: Seq<char>) -> Seq<char> {
    if blank(headline) {
        label
    } else {
        label + " — "@ + headline
    }
}

/// The tooltip a work row carries.
pub fn work_row_tooltip(label: &str, headline: &str) -> (r: String)
    ensures
        r@ == row_tooltip(label@, headline@),
{
    if is_blank(headline) {
        owned(label)
    } else {
        let mut out = owned(label);
        out.append(" — ");
        out.append(headline);
        out
    }
}

/// How many changed files do not get a chip.
pub fn chip_overflow(file_count: usize) -> (r: usize)
    ensures
        r == (if file_count > CHANGED_FILE_CHIP_LIMIT {
            file_count - CHANGED_FILE_CHIP_LIMIT
        } else {
            0
        }),
{
    if file_count > CHANGED_FILE_CHIP_LIMIT {
        file_count - CHANGED_FILE_CHIP_LIMIT
    } else {
        0
    }
}

} // verus!
