use global_hotkey::hotkey::Modifiers;
use langfix::shortcut::{
    begin_swap, label_for_token, normalize_parsed, normalize_shortcut, registration_step,
    shortcut_for_registration, shortcut_to_label, advance_swap, ParsedShortcut, RegistrationStep,
    SwapAction, SwapStage, MODIFIER_ALT, MODIFIER_COMMAND, MODIFIER_CONTROL, MODIFIER_SHIFT,
};
use langfix::outcome::Outcome;

#[test]
fn labels_use_symbols_for_modifiers() {
    assert_eq!(shortcut_to_label("Command+Shift+KeyK"), "⌘ + ⇧ + K");
    assert_eq!(shortcut_to_label("Ctrl+Alt+Digit5"), "⌃ + ⌥ + 5");
    assert_eq!(shortcut_to_label("CmdOrCtrl+Option+ArrowLeft"), "⌘ + ⌥ + ←");
}

#[test]
fn labels_of_named_keys() {
    assert_eq!(shortcut_to_label("Cmd+Space"), "⌘ + Space");
    assert_eq!(shortcut_to_label("Shift+Escape"), "⇧ + Esc");
    assert_eq!(shortcut_to_label("control+enter"), "⌃ + Enter");
    assert_eq!(shortcut_to_label("Alt+Tab"), "⌥ + Tab");
    assert_eq!(shortcut_to_label("Super+ArrowUp"), "⌘ + ↑");
    assert_eq!(shortcut_to_label("Super+ArrowDown"), "⌘ + ↓");
    assert_eq!(shortcut_to_label("Super+ArrowRight"), "⌘ + →");
}

#[test]
fn labels_of_punctuation_keys() {
    assert_eq!(
        shortcut_to_label("Minus+Equal+Comma+Period+Slash+Backquote"),
        "- + = + , + . + / + `"
    );
    assert_eq!(
        shortcut_to_label("Semicolon+Quote+BracketLeft+BracketRight+Backslash"),
        "; + ' + [ + ] + \\"
    );
}

#[test]
fn unknown_tokens_are_shown_in_upper_case() {
    assert_eq!(shortcut_to_label("shift+F5"), "⇧ + F5");
    assert_eq!(shortcut_to_label("a++b"), "A +  + B");
    assert_eq!(shortcut_to_label(""), "");
    assert_eq!(label_for_token("KEYÉ"), "KEYÉ");
    assert_eq!(label_for_token("DIGIT10"), "DIGIT10");
    assert_eq!(label_for_token("KEYQ"), "Q");
}

#[test]
fn normalizing_orders_modifiers() {
    assert_eq!(normalize_shortcut(" shift+cmd+KeyK "), Ok("Command+Shift+KeyK".to_string()));
    assert_eq!(
        normalize_shortcut("Control+Alt+Shift+Super+Digit1"),
        Ok("Command+Control+Alt+Shift+Digit1".to_string())
    );
    assert_eq!(normalize_shortcut("option+Space"), Ok("Alt+Space".to_string()));
    assert_eq!(normalize_shortcut("Command+Shift+KeyK"), Ok("Command+Shift+KeyK".to_string()));
}

#[test]
fn normalizing_refuses_bad_shortcuts() {
    assert_eq!(
        normalize_shortcut("KeyK"),
        Err("Хоткей должен содержать хотя бы один модификатор".to_string())
    );
    assert_eq!(normalize_shortcut("Ctrl+"), Err("Некорректный формат хоткея".to_string()));
    assert_eq!(normalize_shortcut("Ctrl+KeyK+Shift"), Err("Некорректный формат хоткея".to_string()));
    assert_eq!(normalize_shortcut(""), Err("Некорректный формат хоткея".to_string()));
}

#[test]
fn normalizing_a_parsed_shortcut() {
    let parsed = ParsedShortcut { modifiers: MODIFIER_SHIFT | MODIFIER_ALT, key: "KeyA".to_string() };
    assert_eq!(normalize_parsed(Some(parsed)), Ok("Alt+Shift+KeyA".to_string()));
    let parsed = ParsedShortcut { modifiers: 0, key: "KeyA".to_string() };
    assert_eq!(
        normalize_parsed(Some(parsed)),
        Err("Хоткей должен содержать хотя бы один модификатор".to_string())
    );
    assert_eq!(normalize_parsed(None), Err("Некорректный формат хоткея".to_string()));
}

#[test]
fn modifier_bits_are_those_of_the_parser() {
    assert_eq!(Modifiers::ALT.bits(), MODIFIER_ALT);
    assert_eq!(Modifiers::CONTROL.bits(), MODIFIER_CONTROL);
    assert_eq!(Modifiers::SHIFT.bits(), MODIFIER_SHIFT);
    assert_eq!(Modifiers::SUPER.bits(), MODIFIER_COMMAND);
}

#[test]
fn reading_a_shortcut_for_registration() {
    let parsed = shortcut_for_registration("Command+Shift+KeyK").ok().unwrap();
    assert_eq!(parsed.modifiers, MODIFIER_COMMAND | MODIFIER_SHIFT);
    assert_eq!(parsed.key, "KeyK");
    assert_eq!(
        shortcut_for_registration("Command+").err(),
        Some("Некорректный формат хоткея".to_string())
    );
}

#[test]
fn registration_retries_twice() {
    assert!(matches!(registration_step(0, true), RegistrationStep::Registered));
    assert!(matches!(registration_step(0, false), RegistrationStep::RetryAfter { millis: 80 }));
    assert!(matches!(registration_step(1, false), RegistrationStep::RetryAfter { millis: 80 }));
    match registration_step(2, false) {
        RegistrationStep::GiveUp { message } => assert_eq!(
            message,
            "Не удалось зарегистрировать хоткей. Возможно, он уже занят системой или другим приложением."
        ),
        _ => panic!("the third failure gives up"),
    }
}

#[test]
fn a_swap_that_succeeds() {
    let (swap, action) = begin_swap("Command+KeyA");
    assert!(!swap.old_is_empty);
    assert!(matches!(action, SwapAction::UnregisterOld { pause_millis: 60 }));
    let (swap, action) = advance_swap(swap, Outcome::Succeeded);
    assert!(matches!(action, SwapAction::RegisterNew));
    let (swap, action) = advance_swap(swap, Outcome::Succeeded);
    assert!(matches!(swap.stage, SwapStage::Finished));
    assert!(matches!(action, SwapAction::Done { result: Ok(()) }));
}

#[test]
fn a_failed_swap_registers_the_old_shortcut_again() {
    let (swap, _) = begin_swap("Command+KeyA");
    let (swap, _) = advance_swap(swap, Outcome::Failed { message: "ignored".to_string() });
    let (swap, action) = advance_swap(swap, Outcome::Failed { message: "busy".to_string() });
    assert!(matches!(action, SwapAction::RegisterOld));
    let (swap, action) = advance_swap(swap, Outcome::Failed { message: "again".to_string() });
    assert!(matches!(swap.stage, SwapStage::Finished));
    match action {
        SwapAction::Done { result } => assert_eq!(result, Err("busy".to_string())),
        _ => panic!("the swap ends"),
    }
}

#[test]
fn a_failed_swap_from_no_shortcut_ends_at_once() {
    let (swap, _) = begin_swap("");
    assert!(swap.old_is_empty);
    let (swap, _) = advance_swap(swap, Outcome::Succeeded);
    let (swap, action) = advance_swap(swap, Outcome::Failed { message: "busy".to_string() });
    assert!(matches!(swap.stage, SwapStage::Finished));
    match action {
        SwapAction::Done { result } => assert_eq!(result, Err("busy".to_string())),
        _ => panic!("the swap ends"),
    }
}

#[test]
fn a_finished_swap_asks_for_nothing() {
    let (swap, _) = begin_swap("Command+KeyA");
    let (swap, _) = advance_swap(swap, Outcome::Succeeded);
    let (swap, _) = advance_swap(swap, Outcome::Succeeded);
    let (_, action) = advance_swap(swap, Outcome::Succeeded);
    assert!(matches!(action, SwapAction::Nothing));
}

#[test]
fn labels_of_joined_shortcuts_join() {
    let a = "Command+Shift";
    let b = "KeyK";
    assert_eq!(
        shortcut_to_label(&format!("{a}+{b}")),
        format!("{} + {}", shortcut_to_label(a), shortcut_to_label(b))
    );
}

#[test]
fn labels_ignore_ascii_case() {
    for s in ["Command+Shift+KeyK", "ctrl+alt+digit5", "cmd+space", "Shift+f5"] {
        assert_eq!(shortcut_to_label(s), shortcut_to_label(&s.to_ascii_uppercase()));
        assert_eq!(shortcut_to_label(s), shortcut_to_label(&s.to_ascii_lowercase()));
    }
}

#[test]
fn a_stored_form_normalises_to_itself() {
    for s in ["shift+cmd+KeyK", "Control+Alt+Shift+Super+Digit1", "option+Space", "ctrl+ArrowUp"] {
        let stored = normalize_shortcut(s).unwrap();
        assert_eq!(normalize_shortcut(&stored), Ok(stored.clone()));
    }
}
