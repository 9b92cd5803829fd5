use libyggterm::command_palette::{
    palette_completion_for, palette_completion_js, palette_selection, CommandPaletteItem,
};
use libyggterm::conversation::{
    assistant_footer_text, chip_overflow, footer_shown, group_control_label,
    shows_group_control, work_row_tooltip, WORK_GROUP_COLLAPSED_ROWS,
};
use libyggterm::intellitype::{intellitype_for, intellitype_js, records_on_accept, IntelliHistories};
use libyggterm::otp::{pad_cells, YGGUI_OTP_CODE_LEN};
use libyggterm::pill_toolbar::{stepper_enabled, theme_toggle_title};
use libyggterm::prose::{
    analytical_role_style, blockquote_style, body_style, code_block_style, face_style,
    heading_style, inline_code_style, root_style, table_cell_style, table_style, heading_slot, image_frame_style,
    image_style, link_style, list_item_style, list_style, paragraph_style, rule_style,
    table_wrap_style, AnalyticalTextRole, ProseInk, MONO_STACK, UI_SANS_STACK,
};
use libyggterm::scroll_rail::rail_scope;
use libyggterm::plot::observed_runs;
use libyggterm::components::is_blank;

#[test]
fn a_completion_adopts_its_own_typed_prefix() {
    let completed = "https://example.com";
    assert_eq!(
        palette_completion_for(completed, 3),
        palette_completion_js(completed, "htt", 3, completed.len())
    );
    assert!(palette_completion_for(completed, 3).is_some());
    // Past the end, or inside a multi-byte char: nothing to adopt.
    assert_eq!(palette_completion_for("ab", 3), None);
    assert_eq!(palette_completion_for("héllo", 2), None);
    assert!(palette_completion_for("héllo", 3).is_some());
}

#[test]
fn the_field_write_back_uses_the_completions_own_prefix() {
    let completed = "hello world";
    assert_eq!(
        intellitype_for("#intelli-1", completed, 5),
        intellitype_js("#intelli-1", completed, "hello", 5, completed.len())
    );
    assert!(intellitype_for("#intelli-1", completed, 5).is_some());
    // A selector with a quote would break the script's quoting.
    assert_eq!(intellitype_for("#it's", completed, 5), None);
    assert_eq!(intellitype_for("#intelli-1", "é", 1), None);
}

#[test]
fn a_stale_selection_reads_as_the_last_row() {
    assert_eq!(palette_selection(7, 3), 2);
    assert_eq!(palette_selection(1, 3), 1);
    assert_eq!(palette_selection(4, 0), 0);
}

#[test]
fn a_row_title_carries_the_detail_when_there_is_one() {
    let bare = CommandPaletteItem::new("a", "Open");
    assert_eq!(bare.title(), "Open");
    let detailed = CommandPaletteItem::new("a", "Open").detail("a file");
    assert_eq!(detailed.title(), "Open — a file");
}

#[test]
fn the_answer_footer_joins_its_terms() {
    assert_eq!(assistant_footer_text("12:01", "4 s"), "12:01 · 4 s");
    assert_eq!(assistant_footer_text("12:01", "  "), "12:01");
    assert_eq!(assistant_footer_text("", "4 s"), "4 s");
    assert!(footer_shown("12:01", 0));
    assert!(footer_shown(" ", 1));
    assert!(!footer_shown(" ", 0));
}

#[test]
fn the_group_control_appears_only_when_it_can_do_something() {
    assert!(shows_group_control(10, 3, false));
    assert!(!shows_group_control(10, 0, false));
    assert!(shows_group_control(WORK_GROUP_COLLAPSED_ROWS + 1, 0, true));
    assert!(!shows_group_control(WORK_GROUP_COLLAPSED_ROWS, 0, true));
    assert_eq!(group_control_label(12), "Show 12 more");
    assert_eq!(group_control_label(0), "Show less");
}

#[test]
fn a_work_rows_tooltip_names_what_it_acted_on() {
    assert_eq!(work_row_tooltip("bash", "cargo test"), "bash — cargo test");
    assert_eq!(work_row_tooltip("bash", ""), "bash");
}

#[test]
fn chips_past_the_limit_are_counted() {
    assert_eq!(chip_overflow(2), 0);
    assert_eq!(chip_overflow(4), 0);
    assert_eq!(chip_overflow(9), 5);
}

#[test]
fn the_stepper_waits_for_a_match_label() {
    assert!(stepper_enabled("3/17"));
    assert!(!stepper_enabled(""));
    assert!(!stepper_enabled("  "));
    assert_eq!(theme_toggle_title(true), "Switch to light");
    assert_eq!(theme_toggle_title(false), "Switch to dark");
}

#[test]
fn an_unnamed_rail_is_the_default_one() {
    assert_eq!(rail_scope(""), "default");
    assert_eq!(rail_scope("transcript"), "transcript");
}

#[test]
fn the_cells_are_padded_or_cut_to_a_code() {
    let short = vec!["1".to_string(), "2".to_string()];
    let padded = pad_cells(&short);
    assert_eq!(padded.len(), YGGUI_OTP_CODE_LEN);
    assert_eq!(padded[0], "1");
    assert_eq!(padded[1], "2");
    assert!(padded[2..].iter().all(|c| c.is_empty()));
    let long: Vec<String> = (0..9).map(|n| n.to_string()).collect();
    assert_eq!(pad_cells(&long), long[..YGGUI_OTP_CODE_LEN].to_vec());
}

fn ink() -> ProseInk {
    ProseInk::new("#111", "#666", "#07c", "#ddd", "#f4f4f4")
}

#[test]
fn quotes_use_an_inverting_hairline_and_italic_text() {
    // The document surface's block gap and quote inset.
    let light = ProseInk::new("#111111", "#555555", "#0066cc", "#dddddd", "#f6f6f6");
    let dark = ProseInk::new("#f4f4f4", "#b8b8b8", "#66aaff", "#333333", "#181818");
    let light_style = blockquote_style(14, 16, &light);
    let dark_style = blockquote_style(14, 16, &dark);
    assert!(light_style.contains("border-left:1px solid #111111"));
    assert!(dark_style.contains("border-left:1px solid #f4f4f4"));
    assert!(light_style.contains("font-style:italic"));
    assert!(!light_style.contains("#0066cc"), "quotes do not use accent blue");
    assert_eq!(
        light_style,
        "border-left:1px solid #111111; margin:14px 0; padding:2px 0 2px 16px; color:#555555; font-style:italic;"
    );
}

#[test]
fn analytical_faces_are_owned_here_too() {
    assert_eq!(face_style(UI_SANS_STACK), format!("font-family:{};", UI_SANS_STACK));
    assert_eq!(face_style(MONO_STACK), format!("font-family:{};", MONO_STACK));
    let axis = analytical_role_style(UI_SANS_STACK, MONO_STACK, AnalyticalTextRole::Axis);
    assert!(axis.contains("font-size:11px"), "{axis}");
    assert!(axis.contains(UI_SANS_STACK), "{axis}");
    let source = analytical_role_style(UI_SANS_STACK, MONO_STACK, AnalyticalTextRole::MonoBody);
    assert!(source.contains(MONO_STACK), "{source}");
    assert!(source.contains("line-height:1.55"), "{source}");
}

#[test]
fn a_deep_heading_reuses_the_last_level() {
    assert_eq!(heading_slot(6), heading_slot(4));
    assert_eq!(heading_slot(0), heading_slot(1));
}

#[test]
fn the_block_styles_are_exact() {
    assert_eq!(paragraph_style(14, &ink()), "margin:0 0 14px 0; color:#111;");
    assert_eq!(link_style(&ink()), "color:#07c; text-decoration:none;");
    assert_eq!(list_style(10, 20, &ink()), "margin:0 0 10px 0; padding-left:20px; color:#111;");
    assert_eq!(list_item_style(6), "margin:6px 0;");
    assert_eq!(table_wrap_style(14), "overflow-x:auto; margin:14px 0;");
    assert_eq!(rule_style(20, &ink()), "border-top:1px solid #ddd; margin:20px 0;");
    assert_eq!(
        image_style(560, 320, 14),
        "display:block; width:auto; max-width:min(100%, 560px); max-height:320px; border-radius:14px; object-fit:contain;"
    );
    assert_eq!(image_frame_style(), "display:block; margin:8px 0 4px 0;");
}

#[test]
fn a_body_always_emits_the_same_five_keys() {
    let keys = |style: String| {
        style
            .split(';')
            .filter_map(|part| part.split_once(':').map(|(key, _)| key.trim().to_string()))
            .collect::<Vec<String>>()
    };
    let decided = body_style(Some("Inter"), Some("16px"), Some("1.7"), Some("0.002em"), Some(420));
    let inherited = body_style(None, None, None, None, None);
    assert_eq!(
        decided,
        "font-family:Inter; font-size:16px; line-height:1.7; letter-spacing:0.002em; font-weight:420;"
    );
    assert_eq!(
        inherited,
        "font-family:inherit; font-size:inherit; line-height:inherit; letter-spacing:inherit; font-weight:inherit;"
    );
    assert_eq!(keys(decided), keys(inherited));
    assert!(root_style("x;").starts_with("x; text-rendering:optimizeLegibility;"));
}

#[test]
fn the_code_heading_and_table_styles_are_exact() {
    assert_eq!(
        heading_style("1.8em", 800, 34, 16, "-0.015em", &ink()),
        "font-size:1.8em; font-weight:800; margin:34px 0 16px 0; letter-spacing:-0.015em; line-height:1.25; color:#111;"
    );
    assert_eq!(
        inline_code_style(4, "Mono", "0.82em", &ink()),
        "background:#f4f4f4; border:1px solid #ddd; border-radius:4px; padding:1px 5px; font-family:Mono; font-size:0.82em; color:#111;"
    );
    assert_eq!(
        code_block_style(8, "12px 16px", 14, "Mono", "0.8em", "1.55", &ink()),
        "background:#f4f4f4; border:1px solid #ddd; border-radius:8px; padding:12px 16px; overflow-x:auto; margin:14px 0; font-family:Mono; font-size:0.8em; line-height:1.55; color:#111;"
    );
    assert_eq!(table_style("0.88em"), "border-collapse:collapse; font-size:0.88em;");
    assert_eq!(
        table_cell_style(2, "8px 14px 8px 0", "1.55", 700, &ink()),
        "border:0; border-bottom:2px solid #ddd; padding:8px 14px 8px 0; text-align:left; vertical-align:top; line-height:1.55; font-weight:700; color:#111;"
    );
}

#[test]
fn a_secret_field_neither_offers_nor_records() {
    let mut store = IntelliHistories::new();
    store.record("login", "alice@example.test");
    let step = store.field_input(true, "login", 0, 0, "ali");
    assert_eq!(step.completion, None);
    assert_eq!(step.draft, "");
    assert_eq!((step.typed_len, step.draft_len), (3, 3));
    assert!(!records_on_accept(true));
    assert!(records_on_accept(false));
}

#[test]
fn an_open_field_drafts_the_completion_it_offers() {
    let mut store = IntelliHistories::new();
    store.record("login", "alice@example.test");
    let step = store.field_input(false, "login", 0, 0, "ali");
    assert_eq!(step.completion, Some(("alice@example.test".to_string(), 3, 18)));
    assert_eq!(step.draft, "alice@example.test");
    assert_eq!((step.typed_len, step.draft_len), (3, 3));
    // A deletion offers nothing, and the draft is what is in the field.
    let step = store.field_input(false, "login", 18, 3, "al");
    assert_eq!(step.completion, None);
    assert_eq!(step.draft, "al");
    assert_eq!((step.typed_len, step.draft_len), (2, 2));
}

#[test]
fn a_missing_value_draws_a_gap() {
    let observed = vec![true, true, false, true, false, false, true];
    assert_eq!(observed_runs(&observed), vec![(0, 2), (3, 4), (6, 7)]);
    assert_eq!(observed_runs(&vec![false, false]), Vec::<(usize, usize)>::new());
    assert_eq!(observed_runs(&Vec::new()), Vec::<(usize, usize)>::new());
    assert_eq!(observed_runs(&vec![true; 3]), vec![(0, 3)]);
}

#[test]
fn unicode_white_space_is_blank() {
    assert!(is_blank(" \t\n\u{0B}\u{0C}\r\u{85}\u{A0}\u{1680}\u{2000}\u{200A}\u{2028}\u{2029}\u{202F}\u{205F}\u{3000}"));
    assert!(!is_blank("\u{200B}"));
    assert!(!is_blank(" x "));
}
