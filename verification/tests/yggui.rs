use libyggterm::chat_input::{
    can_send, composer_variables, visible_context_options, ChatContextOption,
    ComposerSendShortcut, CHAT_INPUT_CSS,
};
use libyggterm::command_palette::{
    palette_completion_js, palette_index_after, CommandPaletteItem, CommandPalettePalette,
    PaletteMove,
};
use libyggterm::conversation::{
    changed_file_label, work_row_style, ConversationTokens, WorkMark, CONVERSATION_CSS,
    CONVERSATION_THEME_CSS,
};
use libyggterm::dpad::{DpadAction, DpadPalette, DpadPlacement};
use libyggterm::frosted_bar::{frosted_key_style, frosted_panel_style};
use libyggterm::intellitype::{
    accepted_value, complete_from, complete_typed, completion_on_input, forget_value,
    intellitype_js, record_value, IntelliHistories, SCOPE_HISTORY_CAP,
};
use libyggterm::otp::{
    chars_for_otp, complete_otp, digits_for_otp, fill_cells, focus_otp_cell_script,
    install_otp_paste_bridge_script, otp_paste_from_native_script, OtpAlphabet,
    YGGUI_OTP_CODE_LEN,
};
use libyggterm::pill_toolbar::PillToolbarPalette;
use libyggterm::prose::{analytical_role_style, heading_slot, inherit, AnalyticalTextRole, ProseInk};
use libyggterm::scroll_rail::{tick, RailPalette};
use libyggterm::split_button::{
    selected_item, split_face, SplitButtonItem, SplitButtonPalette,
};

// ----- chat input ------------------------------------------------------------

#[test]
fn the_send_shortcut_is_the_one_the_host_declared() {
    assert!(ComposerSendShortcut::Enter.sends(false));
    assert!(!ComposerSendShortcut::Enter.sends(true));
    assert!(ComposerSendShortcut::ShiftEnter.sends(true));
    assert!(!ComposerSendShortcut::ShiftEnter.sends(false));
    // The hint must name the key that actually sends.
    assert_eq!(ComposerSendShortcut::Enter.hint(), "Enter");
    assert_eq!(ComposerSendShortcut::ShiftEnter.hint(), "Shift+Enter");
}

#[test]
fn the_default_shortcut_is_enter() {
    assert_eq!(ComposerSendShortcut::default(), ComposerSendShortcut::Enter);
}

#[test]
fn the_stylesheet_variables_are_the_ones_the_composer_emits() {
    let tokens = ConversationTokens::from_palette(false, "#111", "#666", "#2f7cf6");
    let variables = composer_variables(&tokens);
    for name in [
        "--yggui-composer-focus",
        "--yggui-composer-ring",
        "--yggui-composer-placeholder",
        "--yggui-composer-hover",
    ] {
        assert!(variables.contains(name), "composer must emit {name}");
        assert!(CHAT_INPUT_CSS.contains(name), "stylesheet must read {name}");
    }
}

#[test]
fn composer_variables_are_exact() {
    let tokens = ConversationTokens::from_palette(true, "#fff", "#ccc", "#7cc8ff");
    assert_eq!(
        composer_variables(&tokens),
        "--yggui-composer-focus:#7cc8ff; --yggui-composer-ring:rgba(124,200,255,0.16); --yggui-composer-placeholder:#8595a5; --yggui-composer-hover:rgba(255,255,255,0.055);"
    );
}

#[test]
fn sending_needs_text_and_no_send_in_flight() {
    assert!(can_send(false, "hi"));
    assert!(!can_send(true, "hi"));
    assert!(!can_send(false, " \n\t"));
    assert!(!can_send(false, ""));
}

#[test]
fn the_context_filter_is_case_insensitive_and_keeps_order() {
    let options = vec![
        ChatContextOption { key: "a".to_string(), label: "Release Notes".to_string() },
        ChatContextOption { key: "b".to_string(), label: "Budget".to_string() },
        ChatContextOption { key: "c".to_string(), label: "notes on ÉTÉ".to_string() },
    ];
    let shown = visible_context_options(&options, "NOTES");
    let keys: Vec<&str> = shown.iter().map(|o| o.key.as_str()).collect();
    assert_eq!(keys, vec!["a", "c"]);
    assert_eq!(visible_context_options(&options, "").len(), 3);
    assert_eq!(visible_context_options(&options, "été").len(), 1);
    assert!(visible_context_options(&options, "zzz").is_empty());
}

// ----- command palette ---------------------------------------------------------

#[test]
fn the_selection_wraps_in_both_directions() {
    assert_eq!(palette_index_after(0, 3, PaletteMove::Next), 1);
    assert_eq!(
        palette_index_after(2, 3, PaletteMove::Next),
        0,
        "Down at the bottom reaches the top"
    );
    assert_eq!(palette_index_after(0, 3, PaletteMove::Previous), 2);
    assert_eq!(palette_index_after(1, 3, PaletteMove::Previous), 0);
    assert_eq!(palette_index_after(1, 3, PaletteMove::First), 0);
    assert_eq!(palette_index_after(0, 3, PaletteMove::Last), 2);
}

#[test]
fn a_stale_selection_is_clamped_rather_than_indexed() {
    assert_eq!(palette_index_after(99, 3, PaletteMove::Next), 0);
    assert_eq!(palette_index_after(99, 3, PaletteMove::Previous), 1);
    assert_eq!(palette_index_after(99, 3, PaletteMove::Last), 2);
    for moved in [
        PaletteMove::Next,
        PaletteMove::Previous,
        PaletteMove::First,
        PaletteMove::Last,
    ] {
        assert_eq!(palette_index_after(7, 0, moved), 0, "{moved:?}");
    }
}

#[test]
fn a_completion_that_does_not_extend_the_typing_is_refused() {
    let completed = "https://example.com";
    let script = palette_completion_js(completed, "htt", 3, completed.len())
        .expect("an honest completion builds");
    assert!(script.contains("requestAnimationFrame"), "{script}");
    // The tail is what gets selected, so the next keystroke types over it.
    assert!(script.contains("setSelectionRange(3, 19)"), "{script}");
    // The stale guard: the field must still hold what was completed from.
    assert!(script.contains("el.value !== \"htt\""), "{script}");
    // Not an extension of the typing: no script at all.
    assert_eq!(palette_completion_js(completed, "ftp", 3, completed.len()), None);
    // A byte offset inside a multi-byte char cannot select.
    assert_eq!(palette_completion_js("héllo", "h", 2, 6), None);
    // ...but the honest prefix of one does build.
    assert!(palette_completion_js("héllo", "h", 1, 6).is_some());
    // A completion shorter than what was typed is a regression, not a tail.
    assert_eq!(palette_completion_js("ht", "htt", 3, 2), None);
}

#[test]
fn the_palette_script_is_exact() {
    let script = palette_completion_js("ab\"c", "a", 1, 4).unwrap();
    assert_eq!(
        script,
        "requestAnimationFrame(function(){\n    var el = document.querySelector('[data-yggui-palette-input]');\n    if (!el) return;\n    // Still what we completed from? A completion for text the user has left\n    // behind must not land on top of what they typed since.\n    if (el.value !== \"a\" && el.value !== \"ab\\\"c\") return;\n    if (el.value !== \"ab\\\"c\") el.value = \"ab\\\"c\";\n    if (el.setSelectionRange) el.setSelectionRange(1, 4);\n});"
    );
}

#[test]
fn an_item_carries_its_own_handle_back_unparsed() {
    let item = CommandPaletteItem::new("tab:17", "Release notes")
        .detail("https://example.invalid/notes")
        .hint("Tab");
    assert_eq!(item.id, "tab:17");
    assert_eq!(item.hint, "Tab");
    let bare = CommandPaletteItem::new("cmd:quit", "Quit");
    assert!(bare.detail.is_empty() && bare.hint.is_empty());
}

#[test]
fn palettes_keep_what_the_host_gave() {
    let p = CommandPalettePalette::new("i", "m", "s", "h", "sel", "scr");
    assert_eq!((p.ink.as_str(), p.scrim.as_str()), ("i", "scr"));
    let d = DpadPalette::new("ink", "muted");
    assert_eq!(d.muted, "muted");
    let t = PillToolbarPalette::new("a", "b", "c", "d", "e");
    assert_eq!(t.hover, "e");
    let ink = ProseInk::new("1", "2", "3", "4", "5");
    assert_eq!(ink.code_surface, "5");
    assert_eq!(CommandPaletteItem::default().id, "");
}

// ----- conversation --------------------------------------------------------------

#[test]
fn the_diff_pair_and_the_failure_ink_are_the_same_colour() {
    for is_dark in [false, true] {
        let tokens = ConversationTokens::from_palette(is_dark, "#000", "#111", "#222");
        assert_ne!(
            tokens.added, tokens.removed,
            "added and removed must be distinguishable"
        );
        assert_ne!(tokens.removed, tokens.ink);
    }
}

#[test]
fn every_css_variable_token_is_defined_by_the_theme_sheet() {
    let css = ConversationTokens::from_css_variables("#111", "#666", "#2f7cf6");
    let referenced = [
        css.meta,
        css.hairline,
        css.ask_surface,
        css.ask_hairline,
        css.ask_shadow,
        css.work_surface,
        css.work_hairline,
        css.work_ink,
        css.well_surface,
        css.chip_surface,
        css.chip_hairline,
        css.row_hover,
        css.composer_surface,
        css.send_glyph,
        css.added,
        css.removed,
    ];
    for value in referenced {
        let name = value
            .trim_start_matches("var(")
            .trim_end_matches(')')
            .trim();
        assert!(value.starts_with("var(--"), "{value} must be a variable");
        assert!(
            CONVERSATION_THEME_CSS.contains(&format!("{name}:")),
            "{name} is referenced but never defined by CONVERSATION_THEME_CSS"
        );
        assert_eq!(
            CONVERSATION_THEME_CSS.matches(&format!("{name}:")).count(),
            3,
            "{name} must be set in the light root and both dark arms"
        );
    }
}

#[test]
fn a_chip_label_keeps_the_identifying_end_of_a_path() {
    assert_eq!(
        changed_file_label("/home/user/gh/yggterm/crates/yggui/src/conversation.rs"),
        "src/conversation.rs"
    );
    assert_eq!(changed_file_label("Cargo.toml"), "Cargo.toml");
    assert_eq!(changed_file_label("a/b"), "a/b");
}

#[test]
fn chip_labels_at_the_edges() {
    assert_eq!(changed_file_label("/x"), "/x");
    assert_eq!(changed_file_label("a/"), "a/");
    assert_eq!(changed_file_label("a//b"), "/b");
    assert_eq!(changed_file_label(""), "");
    assert_eq!(changed_file_label("über/straße/ü.rs"), "straße/ü.rs");
}

#[test]
fn every_work_mark_has_a_path() {
    for mark in [
        WorkMark::Command,
        WorkMark::FileChange,
        WorkMark::FileRead,
        WorkMark::Search,
        WorkMark::Thinking,
        WorkMark::Generic,
    ] {
        assert!(!mark.path().trim().is_empty(), "{mark:?} has no path");
    }
}

#[test]
fn a_work_rows_style_keys_do_not_move_with_its_state() {
    let keys = |style: &str| -> Vec<String> {
        let mut names: Vec<String> = style
            .split(';')
            .filter_map(|declaration| declaration.split(':').next())
            .map(|name| name.trim().to_string())
            .filter(|name| !name.is_empty())
            .collect();
        names.sort();
        names
    };
    for is_dark in [false, true] {
        let tokens = ConversationTokens::from_palette(is_dark, "#111", "#666", "#2f7cf6");
        let base = work_row_style(&tokens, false, true);
        for (failed, has_body) in [(true, true), (false, false), (true, false)] {
            assert_eq!(
                keys(&base),
                keys(&work_row_style(&tokens, failed, has_body)),
                "dark={is_dark} failed={failed} has_body={has_body}"
            );
        }
        assert_ne!(base, work_row_style(&tokens, true, true));
        assert_ne!(base, work_row_style(&tokens, false, false));
    }
}

#[test]
fn the_stylesheet_variables_are_the_ones_the_column_emits() {
    let tokens = ConversationTokens::from_palette(true, "#fff", "#ccc", "#7cc8ff");
    let variables = tokens.css_variables();
    for name in ["--yggui-conv-row-hover", "--yggui-conv-ink"] {
        assert!(
            variables.contains(name),
            "the column must emit {name}: {variables}"
        );
        assert!(
            CONVERSATION_CSS.contains(name),
            "the stylesheet must read {name}"
        );
    }
    assert_eq!(
        variables,
        "--yggui-conv-row-hover:rgba(255,255,255,0.055); --yggui-conv-ink:#fff;"
    );
}

#[test]
fn a_light_work_row_style_is_exact() {
    let tokens = ConversationTokens::from_palette(false, "#111", "#666", "#2f7cf6");
    assert_eq!(
        work_row_style(&tokens, true, false),
        "display:flex; align-items:center; gap:8px; width:100%; box-sizing:border-box; padding:4px 6px; border:none; border-radius:7px; background:transparent; text-align:left; cursor:default; color:#b4525f; font-family:\"JetBrains Mono\", \"Iosevka Term\", ui-monospace, monospace; font-size:11px; line-height:1.55;"
    );
}

// ----- d-pad -----------------------------------------------------------------------

#[test]
fn the_pad_is_a_cross_with_a_hole_in_the_middle() {
    assert_eq!(DpadAction::Top.cell(), (2, 1));
    assert_eq!(DpadAction::Bottom.cell(), (2, 3));
    assert_eq!(DpadAction::PageUp.cell(), (1, 2));
    assert_eq!(DpadAction::PageDown.cell(), (3, 2));
    for action in DpadAction::ALL {
        assert_ne!(action.cell(), (2, 2), "{action:?} is standing in the hole");
    }
    let cells: std::collections::BTreeSet<_> =
        DpadAction::ALL.iter().map(|a| a.cell()).collect();
    assert_eq!(cells.len(), 4);
}

#[test]
fn the_vertical_axis_is_the_edges_and_the_horizontal_is_pages() {
    assert_eq!(DpadAction::Top.glyph(), "↑");
    assert_eq!(DpadAction::Bottom.glyph(), "↓");
    assert_eq!(DpadAction::PageUp.glyph(), "←");
    assert_eq!(DpadAction::PageDown.glyph(), "→");
}

#[test]
fn every_action_carries_both_of_its_stable_tokens() {
    for action in DpadAction::ALL {
        assert!(!action.token().is_empty());
        assert!(!action.dom_token().is_empty());
        assert_eq!(action.token().replace('_', "-"), action.dom_token());
    }
}

#[test]
fn the_pad_anchors_top_right_by_default() {
    assert_eq!(DpadPlacement::default(), DpadPlacement::TopRight);
    assert_eq!(DpadPlacement::default().anchor_css(), "top:12px; right:12px;");
    assert_eq!(DpadPlacement::BottomRight.anchor_css(), "bottom:14px; right:14px;");
}

// ----- frosted bar -----------------------------------------------------------------

#[test]
fn the_recipe_is_the_dpad_glass_verbatim() {
    let panel = frosted_panel_style("");
    for want in [
        "background:rgba(22,27,34,0.10)",
        "backdrop-filter:blur(14px) saturate(130%)",
        "inset 0 0 0 1px rgba(255,255,255,0.10)",
        "0 12px 28px rgba(0,0,0,0.14)",
        "border-radius:12px",
    ] {
        assert!(panel.contains(want), "panel lost `{want}`: {panel}");
    }
    let key = frosted_key_style(true);
    for want in [
        "background:rgba(255,255,255,0.16)",
        "border-radius:7px",
        "inset 0 0 0 1px rgba(255,255,255,0.20)",
    ] {
        assert!(key.contains(want), "key lost `{want}`: {key}");
    }
}

#[test]
fn host_style_appends_after_the_recipe() {
    let panel = frosted_panel_style("margin:2px 2px 0; width:100%;");
    assert!(panel.ends_with("margin:2px 2px 0; width:100%;"));
}

#[test]
fn a_disabled_key_only_dims() {
    assert!(frosted_key_style(false).contains("opacity:0.35"));
    assert!(frosted_key_style(true).contains("opacity:0.9"));
    assert!(frosted_key_style(false).contains("cursor:default"));
}

// ----- intellitype -----------------------------------------------------------------

#[test]
fn the_prefill_extends_the_typing_and_nothing_else_offers() {
    let entries = vec![
        "https://en.wikipedia.org/wiki/Favicon".to_string(),
        "emudhra digital signature".to_string(),
    ];
    assert_eq!(
        complete_from(&entries, "http"),
        Some("https://en.wikipedia.org/wiki/Favicon".to_string())
    );
    assert_eq!(
        complete_from(&entries, "EMUDHRA"),
        Some("emudhra digital signature".to_string())
    );
    assert_eq!(complete_from(&entries, "emudhra digital signature"), None);
    assert_eq!(complete_from(&entries, "zzz"), None);
}

#[test]
fn the_first_backspace_clears_and_never_re_offers() {
    let mut store = IntelliHistories::new();
    // value.len() <= prev_typed_len is a deletion; the mechanics refuse.
    assert_eq!(store.on_input("s", 10, Some(4), "http"), None);
    // A genuine insertion beyond the typing may prefill.
    store.record("s", "https://example.test/page");
    assert_eq!(
        store.on_input("s", 4, Some(4), "https://"),
        Some(("https://example.test/page".to_string(), 8, 25))
    );
    // The same store answers the plain mechanics over a history the same way.
    let entries = vec!["https://example.test/page".to_string()];
    assert_eq!(
        completion_on_input(&entries, 4, Some(4), "https://"),
        Some(("https://example.test/page".to_string(), 8, 25))
    );
}

#[test]
fn the_write_back_is_guarded_against_the_fast_typist() {
    let script = intellitype_js("#field", "https://example.test", "https", 5, 20)
        .expect("an honest completion builds");
    assert!(script.contains("requestAnimationFrame"));
    assert!(script.contains("el.value !== \"https\""));
    assert!(script.contains("setSelectionRange(5, 20)"));
    assert_eq!(intellitype_js("#f", "ab", "abc", 3, 2), None);
    assert_eq!(intellitype_js("#f", "héllo", "h", 2, 6), None);
    assert_eq!(intellitype_js("#f'", "ab", "a", 1, 2), None);
}

#[test]
fn recording_is_deduped_recent_first_and_capped() {
    let mut store = IntelliHistories::new();
    store.record("t::dedupe", "alpha");
    store.record("t::dedupe", "beta");
    store.record("t::dedupe", "alpha");
    store.record("t::dedupe", "  "); // whitespace is never history
    assert_eq!(store.entries("t::dedupe"), vec!["alpha".to_string(), "beta".to_string()]);
    store.forget("t::dedupe", "alpha");
    assert_eq!(store.entries("t::dedupe"), vec!["beta".to_string()]);
    // The same rules over a bare list.
    let mut entries: Vec<String> = Vec::new();
    for value in ["alpha", "beta", "alpha", "  "] {
        if let Some(v) = accepted_value("t::dedupe", value) {
            record_value(&mut entries, &v);
        }
    }
    assert_eq!(entries, vec!["alpha".to_string(), "beta".to_string()]);
    forget_value(&mut entries, "alpha");
    assert_eq!(entries, vec!["beta".to_string()]);
}

#[test]
fn scopes_keep_separate_histories() {
    let mut store = IntelliHistories::new();
    store.record("search", "rust borrow checker");
    store.record("address", "https://example.test");
    store.record("", "ignored");
    assert_eq!(store.complete("search", "rust"), Some("rust borrow checker".to_string()));
    assert_eq!(store.complete("address", "rust"), None);
    assert_eq!(store.complete("address", "HTTPS"), Some("https://example.test".to_string()));
    store.forget("search", "rust borrow checker");
    assert_eq!(store.complete("search", "rust"), None);
    assert_eq!(store.entries("address"), vec!["https://example.test".to_string()]);
    assert_eq!(store.entries(""), Vec::<String>::new());
    assert_eq!(store.entries("nowhere"), Vec::<String>::new());
}

#[test]
fn a_history_holds_at_most_the_cap() {
    let mut entries: Vec<String> = Vec::new();
    for n in 0..(SCOPE_HISTORY_CAP + 7) {
        record_value(&mut entries, &format!("v{n}"));
    }
    assert_eq!(entries.len(), SCOPE_HISTORY_CAP);
    assert_eq!(entries[0], format!("v{}", SCOPE_HISTORY_CAP + 6));
    assert_eq!(accepted_value("", "x"), None);
    assert_eq!(accepted_value("s", "  padded  "), Some("padded".to_string()));
}

#[test]
fn a_trailing_newline_is_not_typing() {
    let entries = vec!["hello world".to_string()];
    assert_eq!(
        complete_typed(&entries, "hel\n"),
        Some("hello world".to_string())
    );
    assert_eq!(complete_typed(&entries, "\n"), None);
    assert_eq!(complete_typed(&entries, ""), None);
}

// ----- otp -------------------------------------------------------------------------

#[test]
fn a_code_is_complete_only_when_every_cell_is_filled() {
    let full: Vec<String> = "481920".chars().map(|c| c.to_string()).collect();
    assert_eq!(complete_otp(&full).as_deref(), Some("481920"));

    let mut short = full.clone();
    short[3] = String::new();
    assert!(complete_otp(&short).is_none());

    assert!(complete_otp(&full[..5]).is_none());
    assert!(complete_otp(&[]).is_none());
}

#[test]
fn pasting_a_whole_sms_keeps_only_the_code() {
    assert_eq!(
        digits_for_otp("Your Jyas code is 481920 — do not share").join(""),
        "481920"
    );
    assert_eq!(digits_for_otp("481920").join(""), "481920");
    assert_eq!(digits_for_otp("no digits here"), Vec::<String>::new());
    assert_eq!(digits_for_otp("1234567890").join(""), "123456");
}

#[test]
fn a_full_paste_ignores_which_cell_was_focused() {
    let empty = vec![String::new(); YGGUI_OTP_CODE_LEN];
    let digits = digits_for_otp("481920");
    assert_eq!(fill_cells(&empty, &digits, 3).join(""), "481920");
    assert_eq!(fill_cells(&empty, &digits, 0).join(""), "481920");
}

#[test]
fn a_typed_digit_lands_in_its_own_cell() {
    let empty = vec![String::new(); YGGUI_OTP_CODE_LEN];
    let filled = fill_cells(&empty, &digits_for_otp("7"), 2);
    assert_eq!(filled[2], "7");
    assert!(filled[0].is_empty());
    assert!(complete_otp(&filled).is_none());
}

#[test]
fn the_paste_bridge_installs_once_and_names_its_sink() {
    let script = install_otp_paste_bridge_script();
    assert!(script.contains("__ygguiOtpPasteBridge"));
    assert!(script.contains("already-installed"));
    assert!(script.contains(r#"[data-yggui-otp-sink="1"]"#));
    assert!(script.contains("window.AndroidClipboard"));
    assert!(otp_paste_from_native_script().contains("__ygguiOtpPasteFromNative"));
}

#[test]
fn alphanumeric_paste_finds_the_code_inside_the_sentence() {
    assert_eq!(
        chars_for_otp(
            "Hi, Your Practice sign-in code is: KYAXU8",
            OtpAlphabet::Alphanumeric
        )
        .join(""),
        "KYAXU8"
    );
}

#[test]
fn alphanumeric_prefers_the_token_that_mixes_letters_and_digits() {
    assert_eq!(
        chars_for_otp("PLEASE use code AB12CD now", OtpAlphabet::Alphanumeric).join(""),
        "AB12CD"
    );
}

#[test]
fn alphanumeric_uppercases_so_either_case_pastes() {
    assert_eq!(
        chars_for_otp("kyaxu8", OtpAlphabet::Alphanumeric).join(""),
        "KYAXU8"
    );
}

#[test]
fn alphanumeric_accepts_a_single_typed_letter() {
    assert_eq!(chars_for_otp("k", OtpAlphabet::Alphanumeric).join(""), "K");
}

#[test]
fn digits_alphabet_is_unchanged_by_the_alphanumeric_work() {
    assert_eq!(
        chars_for_otp("Your code is 481920", OtpAlphabet::Digits).join(""),
        "481920"
    );
    assert_eq!(
        chars_for_otp("no digits here", OtpAlphabet::Digits),
        Vec::<String>::new()
    );
}

#[test]
fn the_focus_helper_names_its_cell_and_selects_on_request() {
    let script = focus_otp_cell_script(2, true);
    assert!(script.contains(r#"[data-yggui-otp-cell="2"]"#));
    assert!(script.contains(".select()"));
    assert!(focus_otp_cell_script(2, true).contains("if (true)"));
    assert!(focus_otp_cell_script(3, false).contains("if (false)"));
    let past_end = focus_otp_cell_script(YGGUI_OTP_CODE_LEN, true);
    assert!(past_end.contains(r#"[data-yggui-otp-cell="6"]"#));
    assert!(past_end.contains("no-cell"));
}

#[test]
fn a_cell_overfill_and_padding() {
    let long: Vec<String> = (0..8).map(|n| n.to_string()).collect();
    let cells = fill_cells(&long, &digits_for_otp("9"), 7);
    assert_eq!(cells.len(), YGGUI_OTP_CODE_LEN);
    assert_eq!(cells.join(""), "012345");
    let short = vec!["1".to_string()];
    assert_eq!(fill_cells(&short, &digits_for_otp("23"), 4).join(""), "123");
    assert_eq!(OtpAlphabet::default(), OtpAlphabet::Digits);
    assert_eq!(
        chars_for_otp("code ab-12 straße", OtpAlphabet::Alphanumeric).join(""),
        "CODEAB"
    );
}

// ----- prose, rail, split button -----------------------------------------------

#[test]
fn analytical_roles_keep_one_property_set() {
    assert_eq!(
        analytical_role_style("UI", "MONO", AnalyticalTextRole::Badge),
        "font-family:UI; font-size:0.68em; line-height:1.3; letter-spacing:0.055em; font-weight:700; font-style:normal;"
    );
    assert_eq!(
        analytical_role_style("UI", "MONO", AnalyticalTextRole::MonoBody),
        "font-family:MONO; font-size:0.76em; line-height:1.55; letter-spacing:0; font-weight:400; font-style:normal;"
    );
    assert_eq!(inherit(), "inherit");
    assert_eq!((heading_slot(0), heading_slot(2), heading_slot(9)), (0, 1, 3));
}

#[test]
fn depth_ticks_shrink() {
    let (w0, _) = tick(0);
    let (w1, _) = tick(1);
    let (w2, _) = tick(2);
    assert!(w0 > w1 && w1 > w2);
}

#[test]
fn unknown_depth_is_the_short_tick() {
    let (w3, _) = tick(3);
    let (w2, _) = tick(2);
    assert_eq!(w3, w2);
}

#[test]
fn the_rail_palette_defaults() {
    let p = RailPalette::default();
    assert_eq!(p.track, "rgba(127,127,127,0.35)");
    assert_eq!(p.mark_hover, "rgba(0,0,0,0.85)");
}

fn family() -> Vec<SplitButtonItem> {
    vec![
        SplitButtonItem::new("agent-a", "Agent A Session").accent("#2563eb"),
        SplitButtonItem::new("agent-b", "Agent B Session").accent("#d97706"),
        SplitButtonItem::new("terminal", "Terminal"),
    ]
}

#[test]
fn the_selected_id_picks_the_face() {
    let items = family();
    let selected = items
        .iter()
        .find(|item| item.id == "agent-b")
        .expect("present");
    assert_eq!(selected.label, "Agent B Session");
    assert_eq!(selected.accent, "#d97706");
    assert_eq!(selected_item(&items, "agent-b"), Some(1));
}

#[test]
fn an_unknown_selection_falls_back_to_the_first_item() {
    let items = family();
    let resolved = items
        .iter()
        .find(|item| item.id == "yedit-that-was-removed")
        .unwrap_or(&items[0]);
    assert_eq!(resolved.id, "agent-a");
    assert_eq!(selected_item(&items, "yedit-that-was-removed"), Some(0));
    assert_eq!(selected_item(&Vec::new(), "agent-a"), None);
}

#[test]
fn an_item_without_an_accent_reads_as_neutral() {
    let items = family();
    let terminal = items.iter().find(|item| item.id == "terminal").unwrap();
    assert!(terminal.accent.trim().is_empty());
    assert!(!items[0].accent.trim().is_empty());
}

#[test]
fn the_face_is_painted_from_the_member() {
    let palette = SplitButtonPalette::new("ink", "muted", "surface", "hair", "hover", "acc", "on");
    let items = family();
    let accented = split_face(&palette, &items[0], "  New ");
    assert_eq!(accented.background, "#2563eb");
    assert_eq!(accented.ink, "on");
    assert_eq!(accented.divider, "rgba(255,255,255,0.34)");
    assert_eq!(accented.label, "New Agent A Session");
    let neutral = split_face(&palette, &items[2], " ");
    assert_eq!(neutral.background, "surface");
    assert_eq!(neutral.ink, "ink");
    assert_eq!(neutral.divider, "hair");
    assert_eq!(neutral.label, "Terminal");
}
