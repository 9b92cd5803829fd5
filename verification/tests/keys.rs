use libyggterm::command_palette::{
    palette_key_action, text_kill_script, PaletteKey, PaletteKeyAction, PaletteMove, TextKill,
    YGGUI_TEXT_KILL_JS,
};
use libyggterm::intellitype::{forget_value, record_value};
use libyggterm::otp::{
    clear_cell, otp_cell_input, otp_key_action, otp_sink_input, OtpAlphabet, OtpKey,
    OtpKeyAction, YGGUI_OTP_CODE_LEN,
};

fn cells(values: &[&str]) -> Vec<String> {
    values.iter().map(|v| v.to_string()).collect()
}

#[test]
fn backspace_out_of_an_empty_cell_clears_the_one_before() {
    assert_eq!(otp_key_action(OtpKey::Backspace, true, 3), OtpKeyAction::ClearAndFocus(2));
    // A filled cell keeps its Backspace: the cell deletes its own character.
    assert_eq!(otp_key_action(OtpKey::Backspace, false, 3), OtpKeyAction::Pass);
    // The first cell has nothing before it.
    assert_eq!(otp_key_action(OtpKey::Backspace, true, 0), OtpKeyAction::Pass);
}

#[test]
fn the_arrows_walk_the_cells_and_stop_at_the_edges() {
    assert_eq!(otp_key_action(OtpKey::ArrowLeft, false, 2), OtpKeyAction::Focus(1));
    assert_eq!(otp_key_action(OtpKey::ArrowLeft, false, 0), OtpKeyAction::Pass);
    assert_eq!(otp_key_action(OtpKey::ArrowRight, true, 2), OtpKeyAction::Focus(3));
    assert_eq!(
        otp_key_action(OtpKey::ArrowRight, true, YGGUI_OTP_CODE_LEN - 1),
        OtpKeyAction::Pass
    );
    assert_eq!(otp_key_action(OtpKey::Other, true, 2), OtpKeyAction::Pass);
}

#[test]
fn clearing_a_cell_touches_only_that_cell() {
    let current = cells(&["1", "2", "3"]);
    assert_eq!(clear_cell(&current, 1), cells(&["1", "", "3"]));
    assert_eq!(clear_cell(&current, 7), current);
}

#[test]
fn a_typed_character_fills_its_cell_and_moves_the_caret_on() {
    let current = cells(&["", "", "", "", "", ""]);
    let (next, focus) = otp_cell_input(&current, 2, "7", OtpAlphabet::Digits);
    assert_eq!(next, cells(&["", "", "7", "", "", ""]));
    assert_eq!(focus, Some(3));
    // The last cell keeps the caret.
    let (next, focus) = otp_cell_input(&current, 5, "9", OtpAlphabet::Digits);
    assert_eq!(next, cells(&["", "", "", "", "", "9"]));
    assert_eq!(focus, None);
}

#[test]
fn input_with_nothing_usable_clears_the_cell() {
    let current = cells(&["1", "2", "3", "", "", ""]);
    let (next, focus) = otp_cell_input(&current, 1, "x", OtpAlphabet::Digits);
    assert_eq!(next, cells(&["1", "", "3", "", "", ""]));
    assert_eq!(focus, None);
}

#[test]
fn a_whole_code_typed_into_a_middle_cell_starts_at_the_first() {
    let current = cells(&["", "", "", "", "", ""]);
    let (next, focus) = otp_cell_input(&current, 3, "123456", OtpAlphabet::Digits);
    assert_eq!(next, cells(&["1", "2", "3", "4", "5", "6"]));
    assert_eq!(focus, None);
}

#[test]
fn the_sink_fills_from_the_first_cell_or_does_nothing() {
    let current = cells(&["", "", "", "", "", ""]);
    assert_eq!(
        otp_sink_input(&current, "code: 42", OtpAlphabet::Digits),
        Some(cells(&["4", "2", "", "", "", ""]))
    );
    assert_eq!(otp_sink_input(&current, "no digits", OtpAlphabet::Digits), None);
}

#[test]
fn the_palette_keys_map_to_their_actions() {
    assert_eq!(
        palette_key_action(&PaletteKey::ArrowDown, false, false),
        PaletteKeyAction::Move(PaletteMove::Next)
    );
    assert_eq!(
        palette_key_action(&PaletteKey::ArrowUp, false, false),
        PaletteKeyAction::Move(PaletteMove::Previous)
    );
    assert_eq!(
        palette_key_action(&PaletteKey::PageUp, false, false),
        PaletteKeyAction::Move(PaletteMove::First)
    );
    assert_eq!(
        palette_key_action(&PaletteKey::PageDown, false, false),
        PaletteKeyAction::Move(PaletteMove::Last)
    );
    assert_eq!(palette_key_action(&PaletteKey::Enter, false, false), PaletteKeyAction::Accept);
    assert_eq!(palette_key_action(&PaletteKey::Escape, false, false), PaletteKeyAction::Dismiss);
    assert_eq!(palette_key_action(&PaletteKey::Other, false, false), PaletteKeyAction::Pass);
}

#[test]
fn the_emacs_kills_answer_either_case() {
    let k = PaletteKey::Character("K".to_string());
    let d = PaletteKey::Character("d".to_string());
    assert_eq!(palette_key_action(&k, true, false), PaletteKeyAction::Kill(TextKill::KillEnd));
    assert_eq!(palette_key_action(&d, true, false), PaletteKeyAction::Kill(TextKill::DeleteForward));
    assert_eq!(palette_key_action(&d, false, true), PaletteKeyAction::Kill(TextKill::KillWordForward));
    // Control wins over Alt for D.
    assert_eq!(palette_key_action(&d, true, true), PaletteKeyAction::Kill(TextKill::DeleteForward));
    // Plain typing and Alt+K stay the field's.
    assert_eq!(palette_key_action(&d, false, false), PaletteKeyAction::Pass);
    assert_eq!(palette_key_action(&k, false, true), PaletteKeyAction::Pass);
    let x = PaletteKey::Character("x".to_string());
    assert_eq!(palette_key_action(&x, true, false), PaletteKeyAction::Pass);
}

#[test]
fn the_kill_script_names_the_helper_and_the_op() {
    assert_eq!(text_kill_script(TextKill::KillEnd), "__ygguiTextKill('kill-end')");
    assert_eq!(text_kill_script(TextKill::DeleteForward), "__ygguiTextKill('del-forward')");
    assert_eq!(
        text_kill_script(TextKill::KillWordForward),
        "__ygguiTextKill('kill-word-forward')"
    );
}

#[test]
fn a_recorded_history_never_repeats_a_value() {
    let mut entries = cells(&["b", "a", "c"]);
    record_value(&mut entries, "a");
    assert_eq!(entries, cells(&["a", "b", "c"]));
    forget_value(&mut entries, "b");
    assert_eq!(entries, cells(&["a", "c"]));
}

#[test]
fn the_text_kill_helper_is_exported_and_spares_the_terminal() {
    assert!(YGGUI_TEXT_KILL_JS.contains("window.__ygguiTextKill = function (op)"));
    assert!(YGGUI_TEXT_KILL_JS.contains("closest('.xterm')"));
    for op in ["'kill-end'", "'del-forward'", "'kill-word-forward'"] {
        assert!(YGGUI_TEXT_KILL_JS.contains(op), "{op}");
    }
}
