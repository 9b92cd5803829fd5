//! The prose surfaces' brand and the analytical text roles: which face, size,
//! leading, tracking and weight each role of a typed analytical component
//! wears. Hosts choose colour and layout; these roles keep the type scale
//! under one owner.

use vstd::prelude::*;
use vstd::string::*;
use crate::text::{decimal, push_decimal, owned};

verus! {

/// A host's brand for a prose surface: the colours.
#[derive(Clone, PartialEq, Debug)]
pub struct ProseInk {
    /// Body ink.
    pub ink: String,
    /// De-emphasised prose: a blockquote's text.
    pub muted: String,
    /// Links and the blockquote bar.
    pub accent: String,
    /// Rules, table separators, code borders.
    pub hairline: String,
    /// The fill behind code, inline and block.
    pub code_surface: String,
}

impl ProseInk {
    pub fn new(ink: &str, muted: &str, accent: &str, hairline: &str, code_surface: &str) -> (r: Self)
        ensures
            r.ink@ == ink@,
            r.muted@ == muted@,
            r.accent@ == accent@,
            r.hairline@ == hairline@,
            r.code_surface@ == code_surface@,
    {
        ProseInk {
            ink: owned(ink),
            muted: owned(muted),
            accent: owned(accent),
            hairline: owned(hairline),
            code_surface: owned(code_surface),
        }
    }
}

/// The value a surface that decides nothing about a property gives it.
pub fn inherit() -> (r: String)
    ensures
        r@ == "inherit"@,
{
    owned("inherit")
}

/// Semantic text roles used by typed analytical components.
#[derive(Clone, Copy, PartialEq, Eq, Debug, Structural)]
pub enum AnalyticalTextRole {
    Badge,
    Evidence,
    Title,
    Subtitle,
    Axis,
    Legend,
    Label,
    Caption,
    ExactValue,
    MetricValue,
    QueryHeader,
    MonoLabel,
    MonoBody,
    DataTable,
    DataHeader,
    Eyebrow,
    CardTitle,
    Body,
    CompactBody,
    PanelTitle,
    Control,
    ErrorTitle,
}

/// A role's typography: whether it wears the machine's (mono) face, then its
/// size, leading, tracking and weight.
pub open spec fn role_row(role: AnalyticalTextRole) -> (bool, &'static str, &'static str, &'static str, u16) {
    match role {
        AnalyticalTextRole::Badge => (false, "0.68em", "1.3", "0.055em", 700),
        AnalyticalTextRole::Evidence => (false, "0.72em", "1.45", "0", 400),
        AnalyticalTextRole::Title => (false, "0.98em", "1.3", "0", 720),
        AnalyticalTextRole::Subtitle => (false, "0.76em", "1.4", "0", 400),
        AnalyticalTextRole::Axis => (false, "11px", "1.2", "0", 400),
        AnalyticalTextRole::Legend => (false, "0.72em", "1.35", "0", 400),
        AnalyticalTextRole::Label => (false, "0.76em", "1.35", "0", 650),
        AnalyticalTextRole::Caption => (false, "0.68em", "1.35", "0", 400),
        AnalyticalTextRole::ExactValue => (false, "0.86em", "1.2", "0", 720),
        AnalyticalTextRole::MetricValue => (false, "1.55em", "1.2", "0", 760),
        AnalyticalTextRole::QueryHeader => (false, "0.75em", "1.35", "0", 680),
        AnalyticalTextRole::MonoLabel => (true, "0.75em", "1.35", "0", 500),
        AnalyticalTextRole::MonoBody => (true, "0.76em", "1.55", "0", 400),
        AnalyticalTextRole::DataTable => (false, "0.72em", "1.5", "0", 400),
        AnalyticalTextRole::DataHeader => (false, "0.72em", "1.5", "0", 700),
        AnalyticalTextRole::Eyebrow => (false, "0.72em", "1.35", "0.04em", 400),
        AnalyticalTextRole::CardTitle => (false, "0.9em", "1.35", "0", 720),
        AnalyticalTextRole::Body => (false, "0.78em", "1.5", "0", 400),
        AnalyticalTextRole::CompactBody => (false, "0.74em", "1.5", "0", 400),
        AnalyticalTextRole::PanelTitle => (false, "0.88em", "1.35", "0", 730),
        AnalyticalTextRole::Control => (false, "0.68em", "1.3", "0", 400),
        AnalyticalTextRole::ErrorTitle => (false, "0.9em", "1.35", "0", 720),
    }
}

fn role_row_exec(role: AnalyticalTextRole) -> (r: (bool, &'static str, &'static str, &'static str, u16))
    ensures
        r == role_row(role),
{
    match role {
        AnalyticalTextRole::Badge => (false, "0.68em", "1.3", "0.055em", 700),
        AnalyticalTextRole::Evidence => (false, "0.72em", "1.45", "0", 400),
        AnalyticalTextRole::Title => (false, "0.98em", "1.3", "0", 720),
        AnalyticalTextRole::Subtitle => (false, "0.76em", "1.4", "0", 400),
        AnalyticalTextRole::Axis => (false, "11px", "1.2", "0", 400),
        AnalyticalTextRole::Legend => (false, "0.72em", "1.35", "0", 400),
        AnalyticalTextRole::Label => (false, "0.76em", "1.35", "0", 650),
        AnalyticalTextRole::Caption => (false, "0.68em", "1.35", "0", 400),
        AnalyticalTextRole::ExactValue => (false, "0.86em", "1.2", "0", 720),
        AnalyticalTextRole::MetricValue => (false, "1.55em", "1.2", "0", 760),
        AnalyticalTextRole::QueryHeader => (false, "0.75em", "1.35", "0", 680),
        AnalyticalTextRole::MonoLabel => (true, "0.75em", "1.35", "0", 500),
        AnalyticalTextRole::MonoBody => (true, "0.76em", "1.55", "0", 400),
        AnalyticalTextRole::DataTable => (false, "0.72em", "1.5", "0", 400),
        AnalyticalTextRole::DataHeader => (false, "0.72em", "1.5", "0", 700),
        AnalyticalTextRole::Eyebrow => (false, "0.72em", "1.35", "0.04em", 400),
        AnalyticalTextRole::CardTitle => (false, "0.9em", "1.35", "0", 720),
        AnalyticalTextRole::Body => (false, "0.78em", "1.5", "0", 400),
        AnalyticalTextRole::CompactBody => (false, "0.74em", "1.5", "0", 400),
        AnalyticalTextRole::PanelTitle => (false, "0.88em", "1.35", "0", 730),
        AnalyticalTextRole::Control => (false, "0.68em", "1.3", "0", 400),
        AnalyticalTextRole::ErrorTitle => (false, "0.9em", "1.35", "0", 720),
    }
}

/// The complete typography of a role, as one fixed property-key set.
pub open spec fn role_style_text(ui_font: Seq<char>, mono_font: Seq<char>, role: AnalyticalTextRole) -> Seq<char> {
    let row = role_row(role);
    "font-family:"@ + (if row.0 {
        mono_font
    } else {
        ui_font
    }) + "; font-size:"@ + row.1@ + "; line-height:"@ + row.2@ + "; letter-spacing:"@ + row.3@
        + "; font-weight:"@ + decimal(row.4 as nat) + "; font-style:normal;"@
}

/// Complete typography for an analytical text role, given the surface's sans
/// and mono faces.
pub fn analytical_role_style(ui_font: &str, mono_font: &str, role: AnalyticalTextRole) -> (r: String)
    ensures
        r@ == role_style_text(ui_font@, mono_font@, role),
{
    let (mono, size, leading, tracking, weight) = role_row_exec(role);
    let mut out = owned("font-family:");
    out.append(if mono {
        mono_font
    } else {
        ui_font
    });
    out.append("; font-size:");
    out.append(size);
    out.append("; line-height:");
    out.append(leading);
    out.append("; letter-spacing:");
    out.append(tracking);
    out.append("; font-weight:");
    push_decimal(&mut out, weight as usize);
    out.append("; font-style:normal;");
    out
}

/// The heading slot a level uses: levels past four reuse the fourth, and a
/// level of zero is read as the first.
pub fn heading_slot(level: u8) -> (r: usize)
    ensures
        r == (if level <= 1 {
            0
        } else if level >= 4 {
            3
        } else {
            level - 1
        }),
{
    if level <= 1 {
        0
    } else if level >= 4 {
        3
    } else {
        (level - 1) as usize
    }
}

/// The serif that used to set the machine's answer. Kept because a host may
/// still want an article face for a document surface; nothing in the
/// conversation presets reads it any more.
pub const PROSE_SERIF_STACK: &'static str =
    "\"Source Serif 4\", \"Noto Serif\", \"Iowan Old Style\", Georgia, serif";

/// The interface face — labels, controls, the person's own words, AND both
/// sides of a transcript.
///
/// The chat surface reached this the long way round. It was a serif, which the
/// user asked for and then withdrew on seeing t3code's chat beside ours; it was
/// then DM Sans, t3code's own first choice, which they rejected on sight once
/// it was actually installed and rendering (*"I don't like DM Sans. I liked our
/// previous Noto Sans or Inter variable"*). What they had been looking at in
/// between was this stack, reached as a FALLBACK while DM Sans was missing from
/// the host — so the face they liked was already ours.
///
/// It stays one constant rather than two identical ones: a chat face and an
/// interface face that hold the same value are a duplicate waiting to drift.
/// What was worth keeping from t3code is the SCALE — 14px, 1.625, weight-600
/// headings — and that is [`ProseBody::CONVERSATION_ANSWER`], not this.
pub const UI_SANS_STACK: &'static str = "\"Inter Variable\", \"Inter\", system-ui, sans-serif";

/// The document reader's face. Deliberately NOT [`UI_SANS_STACK`]: a rendered
/// article falls back through the platform's reading sans (SF Pro Text, Segoe
/// UI, Noto Sans) rather than through the interface stack, so a machine without
/// Inter still reads like a page instead of like chrome. User-directed
/// 2026-07-23, after a serif pass was tried and rejected.
pub const READING_SANS_STACK: &'static str = "'Inter', 'SF Pro Text', 'Segoe UI', 'Noto Sans', \
     'Liberation Sans', 'Helvetica Neue', Arial, sans-serif";

/// The machine's face, everywhere. JetBrains Mono is the project-wide preferred
/// monospace; a host that spells `ui-monospace` instead is not overriding a
/// decision, it is missing one.
pub const MONO_STACK: &'static str = "\"JetBrains Mono\", \"Iosevka Term\", ui-monospace, monospace";

/// The reading column's width, in CSS pixels.
///
/// 720 is a measure of roughly 78 characters at the prose size, which is the
/// upper end of comfortable. It is a token rather than a literal because the
/// user card, the work card and the divider all have to agree with it — three
/// call sites spelling 720 is how a column starts drifting.
pub const PROSE_COLUMN_PX: u32 = 720;

/// A face, as the one property a host adds beside an analytical label.
pub fn face_style(font: &str) -> (r: String)
    ensures
        r@ == "font-family:"@ + font@ + ";"@,
{
    let mut out = owned("font-family:");
    out.append(font);
    out.append(";");
    out
}

/// A paragraph: the gap below it and the body ink.
pub fn paragraph_style(gap_px: u32, ink: &ProseInk) -> (r: String)
    ensures
        r@ == "margin:0 0 "@ + decimal(gap_px as nat) + "px 0; color:"@ + ink.ink@ + ";"@,
{
    let mut out = owned("margin:0 0 ");
    push_decimal(&mut out, gap_px as usize);
    out.append("px 0; color:");
    out.append(ink.ink.as_str());
    out.append(";");
    out
}

/// A link is told apart by the accent alone: never an underline.
pub fn link_style(ink: &ProseInk) -> (r: String)
    ensures
        r@ == "color:"@ + ink.accent@ + "; text-decoration:none;"@,
{
    let mut out = owned("color:");
    out.append(ink.accent.as_str());
    out.append("; text-decoration:none;");
    out
}

/// A quote: one hairline in the body ink (so it inverts with the theme) and
/// italic copy in the muted ink.
pub fn blockquote_style(block_gap_px: u32, quote_inset_px: u32, ink: &ProseInk) -> (r: String)
    ensures
        r@ == "border-left:1px solid "@ + ink.ink@ + "; margin:"@ + decimal(block_gap_px as nat)
            + "px 0; padding:2px 0 2px "@ + decimal(quote_inset_px as nat) + "px; color:"@ + ink.muted@
            + "; font-style:italic;"@,
{
    let mut out = owned("border-left:1px solid ");
    out.append(ink.ink.as_str());
    out.append("; margin:");
    push_decimal(&mut out, block_gap_px as usize);
    out.append("px 0; padding:2px 0 2px ");
    push_decimal(&mut out, quote_inset_px as usize);
    out.append("px; color:");
    out.append(ink.muted.as_str());
    out.append("; font-style:italic;");
    out
}

/// A list: the paragraph gap below, its indent, and the body ink.
pub fn list_style(gap_px: u32, indent_px: u32, ink: &ProseInk) -> (r: String)
    ensures
        r@ == "margin:0 0 "@ + decimal(gap_px as nat) + "px 0; padding-left:"@ + decimal(indent_px as nat)
            + "px; color:"@ + ink.ink@ + ";"@,
{
    let mut out = owned("margin:0 0 ");
    push_decimal(&mut out, gap_px as usize);
    out.append("px 0; padding-left:");
    push_decimal(&mut out, indent_px as usize);
    out.append("px; color:");
    out.append(ink.ink.as_str());
    out.append(";");
    out
}

/// A vertical margin of `px` pixels, and nothing else.
pub open spec fn margin_text(px: nat) -> Seq<char> {
    "margin:"@ + decimal(px) + "px 0;"@
}

fn vertical_margin(px: u32) -> (r: String)
    ensures
        r@ == margin_text(px as nat),
{
    let mut out = owned("margin:");
    push_decimal(&mut out, px as usize);
    out.append("px 0;");
    out
}

/// A list item's gap.
pub fn list_item_style(gap_px: u32) -> (r: String)
    ensures
        r@ == margin_text(gap_px as nat),
{
    vertical_margin(gap_px)
}

/// A wide table scrolls inside its own wrapper; the document never scrolls
/// sideways.
pub fn table_wrap_style(block_gap_px: u32) -> (r: String)
    ensures
        r@ == "overflow-x:auto; "@ + margin_text(block_gap_px as nat),
{
    let mut out = owned("overflow-x:auto; ");
    let tail = vertical_margin(block_gap_px);
    out.append(tail.as_str());
    proof {
        assert(out@ =~= "overflow-x:auto; "@ + margin_text(block_gap_px as nat));
    }
    out
}

/// A rule: one hairline with its gap.
pub fn rule_style(rule_gap_px: u32, ink: &ProseInk) -> (r: String)
    ensures
        r@ == "border-top:1px solid "@ + ink.hairline@ + "; "@ + margin_text(rule_gap_px as nat),
{
    let mut out = owned("border-top:1px solid ");
    out.append(ink.hairline.as_str());
    out.append("; ");
    let tail = vertical_margin(rule_gap_px);
    out.append(tail.as_str());
    proof {
        assert(out@ =~= "border-top:1px solid "@ + ink.hairline@ + "; "@ + margin_text(rule_gap_px as nat));
    }
    out
}

/// An image is displayed, bounded in both directions, never cropped.
pub fn image_style(max_width_px: u32, max_height_px: u32, radius_px: u32) -> (r: String)
    ensures
        r@ == "display:block; width:auto; max-width:min(100%, "@ + decimal(max_width_px as nat)
            + "px); max-height:"@ + decimal(max_height_px as nat) + "px; border-radius:"@
            + decimal(radius_px as nat) + "px; object-fit:contain;"@,
{
    let mut out = owned("display:block; width:auto; max-width:min(100%, ");
    push_decimal(&mut out, max_width_px as usize);
    out.append("px); max-height:");
    push_decimal(&mut out, max_height_px as usize);
    out.append("px; border-radius:");
    push_decimal(&mut out, radius_px as usize);
    out.append("px; object-fit:contain;");
    out
}

/// The frame an image sits in.
pub fn image_frame_style() -> (r: String)
    ensures
        r@ == "display:block; margin:8px 0 4px 0;"@,
{
    owned("display:block; margin:8px 0 4px 0;")
}

/// A decided value, or `inherit` for a surface that declines to decide.
pub open spec fn or_inherit(v: Option<Seq<char>>) -> Seq<char> {
    match v {
        Some(x) => x,
        None => "inherit"@,
    }
}

pub open spec fn opt_str(v: Option<&str>) -> Option<Seq<char>> {
    match v {
        Some(x) => Some(x@),
        None => None,
    }
}

pub open spec fn opt_number(v: Option<u16>) -> Option<Seq<char>> {
    match v {
        Some(x) => Some(decimal(x as nat)),
        None => None,
    }
}

fn push_or_inherit(out: &mut String, v: Option<&str>)
    ensures
        final(out)@ == old(out)@ + or_inherit(opt_str(v)),
{
    match v {
        Some(x) => out.append(x),
        None => out.append("inherit"),
    }
}

/// Body copy as the five type properties, always the same five keys; a
/// property a surface does not decide reads `inherit`. Lengths arrive as CSS
/// text.
pub fn body_style(
    font: Option<&str>,
    size: Option<&str>,
    line_height: Option<&str>,
    tracking: Option<&str>,
    weight: Option<u16>,
) -> (r: String)
    ensures
        r@ == "font-family:"@ + or_inherit(opt_str(font)) + "; font-size:"@ + or_inherit(opt_str(size))
            + "; line-height:"@ + or_inherit(opt_str(line_height)) + "; letter-spacing:"@
            + or_inherit(opt_str(tracking)) + "; font-weight:"@ + or_inherit(opt_number(weight)) + ";"@,
{
    let mut out = owned("font-family:");
    push_or_inherit(&mut out, font);
    out.append("; font-size:");
    push_or_inherit(&mut out, size);
    out.append("; line-height:");
    push_or_inherit(&mut out, line_height);
    out.append("; letter-spacing:");
    push_or_inherit(&mut out, tracking);
    out.append("; font-weight:");
    match weight {
        Some(w) => push_decimal(&mut out, w as usize),
        None => out.append("inherit"),
    }
    out.append(";");
    out
}

/// The rendering a prose root asks for after its body copy.
pub open spec fn root_rendering() -> Seq<char> {
    " text-rendering:optimizeLegibility; -webkit-font-smoothing:subpixel-antialiased; font-synthesis:none; font-optical-sizing:auto; font-feature-settings:'kern' 1, 'liga' 1;"@
}

/// The wrapper a rendered document sits in: its body copy, then hinted,
/// kerned, ligatured rendering.
pub fn root_style(body: &str) -> (r: String)
    ensures
        r@ == body@ + root_rendering(),
{
    let mut out = owned(body);
    out.append(" text-rendering:optimizeLegibility; -webkit-font-smoothing:subpixel-antialiased; font-synthesis:none; font-optical-sizing:auto; font-feature-settings:'kern' 1, 'liga' 1;");
    out
}

/// A heading: its size (CSS text), weight, the air above and below it, its
/// tracking, and the body ink.
pub fn heading_style(size: &str, weight: u16, above_px: u32, below_px: u32, tracking: &str, ink: &ProseInk) -> (r: String)
    ensures
        r@ == "font-size:"@ + size@ + "; font-weight:"@ + decimal(weight as nat) + "; margin:"@
            + decimal(above_px as nat) + "px 0 "@ + decimal(below_px as nat) + "px 0; letter-spacing:"@
            + tracking@ + "; line-height:1.25; color:"@ + ink.ink@ + ";"@,
{
    let mut out = owned("font-size:");
    out.append(size);
    out.append("; font-weight:");
    push_decimal(&mut out, weight as usize);
    out.append("; margin:");
    push_decimal(&mut out, above_px as usize);
    out.append("px 0 ");
    push_decimal(&mut out, below_px as usize);
    out.append("px 0; letter-spacing:");
    out.append(tracking);
    out.append("; line-height:1.25; color:");
    out.append(ink.ink.as_str());
    out.append(";");
    out
}

/// Inline code: the code fill and hairline, its radius, the mono face at its
/// size (CSS text), and the body ink.
pub fn inline_code_style(radius_px: u32, mono_font: &str, size: &str, ink: &ProseInk) -> (r: String)
    ensures
        r@ == "background:"@ + ink.code_surface@ + "; border:1px solid "@ + ink.hairline@ + "; border-radius:"@
            + decimal(radius_px as nat) + "px; padding:1px 5px; font-family:"@ + mono_font@ + "; font-size:"@
            + size@ + "; color:"@ + ink.ink@ + ";"@,
{
    let mut out = owned("background:");
    out.append(ink.code_surface.as_str());
    out.append("; border:1px solid ");
    out.append(ink.hairline.as_str());
    out.append("; border-radius:");
    push_decimal(&mut out, radius_px as usize);
    out.append("px; padding:1px 5px; font-family:");
    out.append(mono_font);
    out.append("; font-size:");
    out.append(size);
    out.append("; color:");
    out.append(ink.ink.as_str());
    out.append(";");
    out
}

/// A code block: the code fill and hairline, radius, padding, the block gap,
/// the mono face at its size and leading (CSS text), and the body ink; wide
/// code scrolls inside the block.
pub fn code_block_style(
    radius_px: u32,
    pad: &str,
    gap_px: u32,
    mono_font: &str,
    size: &str,
    line_height: &str,
    ink: &ProseInk,
) -> (r: String)
    ensures
        r@ == "background:"@ + ink.code_surface@ + "; border:1px solid "@ + ink.hairline@ + "; border-radius:"@
            + decimal(radius_px as nat) + "px; padding:"@ + pad@ + "; overflow-x:auto; margin:"@
            + decimal(gap_px as nat) + "px 0; font-family:"@ + mono_font@ + "; font-size:"@ + size@
            + "; line-height:"@ + line_height@ + "; color:"@ + ink.ink@ + ";"@,
{
    let mut out = owned("background:");
    out.append(ink.code_surface.as_str());
    out.append("; border:1px solid ");
    out.append(ink.hairline.as_str());
    out.append("; border-radius:");
    push_decimal(&mut out, radius_px as usize);
    out.append("px; padding:");
    out.append(pad);
    out.append("; overflow-x:auto; margin:");
    push_decimal(&mut out, gap_px as usize);
    out.append("px 0; font-family:");
    out.append(mono_font);
    out.append("; font-size:");
    out.append(size);
    out.append("; line-height:");
    out.append(line_height);
    out.append("; color:");
    out.append(ink.ink.as_str());
    out.append(";");
    out
}

/// A table: collapsed borders at its size (CSS text).
pub fn table_style(size: &str) -> (r: String)
    ensures
        r@ == "border-collapse:collapse; font-size:"@ + size@ + ";"@,
{
    let mut out = owned("border-collapse:collapse; font-size:");
    out.append(size);
    out.append(";");
    out
}

/// A table cell: a rule below it only (no vertical grid, no fill), its
/// padding, leading (CSS text) and weight, and the body ink.
pub fn table_cell_style(rule_px: u32, pad: &str, line_height: &str, weight: u16, ink: &ProseInk) -> (r: String)
    ensures
        r@ == "border:0; border-bottom:"@ + decimal(rule_px as nat) + "px solid "@ + ink.hairline@ + "; padding:"@
            + pad@ + "; text-align:left; vertical-align:top; line-height:"@ + line_height@ + "; font-weight:"@
            + decimal(weight as nat) + "; color:"@ + ink.ink@ + ";"@,
{
    let mut out = owned("border:0; border-bottom:");
    push_decimal(&mut out, rule_px as usize);
    out.append("px solid ");
    out.append(ink.hairline.as_str());
    out.append("; padding:");
    out.append(pad);
    out.append("; text-align:left; vertical-align:top; line-height:");
    out.append(line_height);
    out.append("; font-weight:");
    push_decimal(&mut out, weight as usize);
    out.append("; color:");
    out.append(ink.ink.as_str());
    out.append(";");
    out
}

} // verus!
