use langfix::fix::{advance_fix, begin_fix, FixAction, FixEvent, FixStage};
use langfix::outcome::Outcome;
use langfix::settings::{
    advance_change, begin_change, settings_payload, AppSettings, ChangeAction, ChangeStage, Side,
};
use langfix::update::{install_step, update_check_payload, InstallStep, UpdatePayload};

fn settings(shortcut: &str, launch_at_login: bool) -> AppSettings {
    AppSettings { shortcut: shortcut.to_string(), launch_at_login }
}

fn failed(message: &str) -> Outcome {
    Outcome::Failed { message: message.to_string() }
}

#[test]
fn default_settings() {
    let s = AppSettings::default();
    assert_eq!(s.shortcut, "Command+Shift+KeyK");
    assert!(s.launch_at_login);
    let copy = s.duplicate();
    assert_eq!(copy.shortcut, s.shortcut);
    assert_eq!(copy.launch_at_login, s.launch_at_login);
}

#[test]
fn payload_carries_the_label() {
    let p = settings_payload(&settings("Command+Shift+KeyK", false), true);
    assert_eq!(p.shortcut, "Command+Shift+KeyK");
    assert_eq!(p.shortcut_label, "⌘ + ⇧ + K");
    assert!(!p.launch_at_login);
    assert!(p.first_launch);
}

#[test]
fn a_change_that_succeeds() {
    let prev = settings("Command+Shift+KeyK", true);
    let next = settings("Control+KeyL", false);
    let (c, a) = begin_change(&prev, &next, false);
    assert!(c.shortcut_changed);
    assert!(matches!(a, ChangeAction::SwitchShortcut { from: Side::Previous, to: Side::Next }));
    let (c, a) = advance_change(c, Outcome::Succeeded);
    assert!(matches!(a, ChangeAction::SetAutostart { from: Side::Next }));
    let (c, a) = advance_change(c, Outcome::Succeeded);
    assert!(matches!(a, ChangeAction::SaveNext));
    let (c, a) = advance_change(c, Outcome::Succeeded);
    assert!(matches!(a, ChangeAction::Commit));
    assert!(matches!(c.stage, ChangeStage::Finished));
}

#[test]
fn a_change_without_a_new_shortcut_starts_with_autostart() {
    let prev = settings("Command+Shift+KeyK", true);
    let next = settings("Command+Shift+KeyK", false);
    let (c, a) = begin_change(&prev, &next, false);
    assert!(!c.shortcut_changed);
    assert!(matches!(a, ChangeAction::SetAutostart { from: Side::Next }));
    let (c, a) = advance_change(c, failed("autostart"));
    assert!(matches!(c.stage, ChangeStage::Finished));
    match a {
        ChangeAction::Fail { message } => assert_eq!(message, "autostart"),
        _ => panic!("the change fails"),
    }
}

#[test]
fn a_failed_save_is_rolled_back() {
    let prev = settings("Command+Shift+KeyK", true);
    let next = settings("Control+KeyL", false);
    let (c, _) = begin_change(&prev, &next, false);
    let (c, _) = advance_change(c, Outcome::Succeeded);
    let (c, _) = advance_change(c, Outcome::Succeeded);
    let (c, a) = advance_change(c, failed("disk full"));
    assert!(matches!(a, ChangeAction::SwitchShortcut { from: Side::Next, to: Side::Previous }));
    let (c, a) = advance_change(c, failed("ignored"));
    assert!(matches!(a, ChangeAction::SetAutostart { from: Side::Previous }));
    let (c, a) = advance_change(c, Outcome::Succeeded);
    assert!(matches!(c.stage, ChangeStage::Finished));
    match a {
        ChangeAction::Fail { message } => assert_eq!(message, "disk full"),
        _ => panic!("the change fails"),
    }
}

#[test]
fn a_failed_autostart_switches_the_shortcut_back() {
    let prev = settings("Command+Shift+KeyK", true);
    let next = settings("Control+KeyL", false);
    let (c, _) = begin_change(&prev, &next, false);
    let (c, _) = advance_change(c, Outcome::Succeeded);
    let (c, a) = advance_change(c, failed("no login items"));
    assert!(matches!(a, ChangeAction::SwitchShortcut { from: Side::Next, to: Side::Previous }));
    let (_, a) = advance_change(c, Outcome::Succeeded);
    match a {
        ChangeAction::Fail { message } => assert_eq!(message, "no login items"),
        _ => panic!("the change fails"),
    }
}

#[test]
fn a_failed_shortcut_switch_ends_the_change() {
    let prev = settings("Command+Shift+KeyK", true);
    let next = settings("Control+KeyL", true);
    let (c, _) = begin_change(&prev, &next, false);
    let (c, a) = advance_change(c, failed("taken"));
    assert!(matches!(c.stage, ChangeStage::Finished));
    assert!(matches!(a, ChangeAction::Fail { .. }));
}

#[test]
fn a_reset_removes_the_onboarding_marker_before_committing() {
    let prev = settings("Control+KeyL", false);
    let next = AppSettings::default();
    let (c, _) = begin_change(&prev, &next, true);
    let (c, _) = advance_change(c, Outcome::Succeeded);
    let (c, _) = advance_change(c, Outcome::Succeeded);
    let (c, a) = advance_change(c, Outcome::Succeeded);
    assert!(matches!(a, ChangeAction::RemoveOnboardingMarker));
    let (c, a) = advance_change(c, Outcome::Succeeded);
    assert!(matches!(c.stage, ChangeStage::Finished));
    assert!(matches!(a, ChangeAction::Commit));
}

#[test]
fn a_fix_pastes_the_converted_selection_and_restores_the_clipboard() {
    let (stage, action) = begin_fix();
    assert!(matches!(action, FixAction::Prepare));
    let (stage, action) =
        advance_fix(stage, FixEvent::Prepared { previous_clipboard: Some("old".to_string()) });
    assert!(matches!(action, Some(FixAction::CopySelection)));
    let (stage, action) = advance_fix(stage, FixEvent::Copied { selection: "ghbdtn".to_string() });
    match action {
        Some(FixAction::PasteText { text }) => assert_eq!(text, "привет"),
        _ => panic!("the converted text is pasted"),
    }
    let (stage, action) = advance_fix(stage, FixEvent::Pasted);
    match action {
        Some(FixAction::RestoreClipboard { text }) => assert_eq!(text, "old"),
        _ => panic!("the old clipboard text is put back"),
    }
    let (stage, action) = advance_fix(stage, FixEvent::Restored);
    assert!(matches!(stage, FixStage::Finished));
    assert!(matches!(action, Some(FixAction::Done { result: Ok(()) })));
}

#[test]
fn a_fix_without_old_clipboard_text_ends_after_the_paste() {
    let (stage, _) = begin_fix();
    let (stage, _) = advance_fix(stage, FixEvent::Prepared { previous_clipboard: None });
    let (stage, _) = advance_fix(stage, FixEvent::Copied { selection: "руддщ".to_string() });
    let (stage, action) = advance_fix(stage, FixEvent::Pasted);
    assert!(matches!(stage, FixStage::Finished));
    assert!(matches!(action, Some(FixAction::Done { result: Ok(()) })));
}

#[test]
fn a_blank_selection_is_an_error() {
    let (stage, _) = begin_fix();
    let (stage, _) = advance_fix(stage, FixEvent::Prepared { previous_clipboard: None });
    let (stage, action) = advance_fix(stage, FixEvent::Copied { selection: " \n\t".to_string() });
    assert!(matches!(stage, FixStage::Finished));
    match action {
        Some(FixAction::Done { result }) => {
            assert_eq!(result, Err("Не удалось получить выделенный текст".to_string()))
        }
        _ => panic!("the fix ends"),
    }
}

#[test]
fn a_failed_step_ends_the_fix() {
    let (stage, _) = begin_fix();
    let (stage, action) = advance_fix(stage, FixEvent::Failed { message: "no clipboard".to_string() });
    assert!(matches!(stage, FixStage::Finished));
    match action {
        Some(FixAction::Done { result }) => assert_eq!(result, Err("no clipboard".to_string())),
        _ => panic!("the fix ends"),
    }
    let (_, action) = advance_fix(stage, FixEvent::Pasted);
    assert!(action.is_none());
}

#[test]
fn an_out_of_turn_report_changes_nothing() {
    let (stage, _) = begin_fix();
    let (stage, action) = advance_fix(stage, FixEvent::Pasted);
    assert!(matches!(stage, FixStage::Preparing));
    assert!(action.is_none());
}

#[test]
fn update_check_payloads() {
    let p = update_check_payload(None);
    assert!(p.configured);
    assert!(!p.available);
    assert!(p.update.is_none());
    assert_eq!(p.message, "Сейчас установлена актуальная версия.");
    let offered = UpdatePayload {
        version: "0.2.0".to_string(),
        current_version: "0.1.0".to_string(),
        date: None,
        body: Some("notes".to_string()),
    };
    let p = update_check_payload(Some(offered));
    assert!(p.available);
    assert_eq!(p.update.as_ref().map(|u| u.version.clone()), Some("0.2.0".to_string()));
    assert_eq!(p.message, "Доступна новая версия.");
}

#[test]
fn installing_without_an_update() {
    match install_step(false) {
        InstallStep::NothingToInstall { message } => assert_eq!(message, "Новых обновлений нет."),
        _ => panic!("nothing to install"),
    }
    assert!(matches!(install_step(true), InstallStep::DownloadAndRestart));
}

#[test]
fn a_finished_change_asks_for_nothing() {
    let prev = settings("Command+Shift+KeyK", true);
    let next = settings("Control+KeyL", true);
    let (c, _) = begin_change(&prev, &next, false);
    let (c, _) = advance_change(c, failed("taken"));
    let (c, a) = advance_change(c, Outcome::Succeeded);
    assert!(matches!(c.stage, ChangeStage::Finished));
    assert!(matches!(a, ChangeAction::Nothing));
}

#[test]
fn a_change_keeping_the_shortcut_never_switches_it() {
    let prev = AppSettings::default();
    let next = AppSettings::default();
    let (mut c, mut a) = begin_change(&prev, &next, true);
    for outcome in [Outcome::Succeeded, failed("disk"), Outcome::Succeeded, Outcome::Succeeded] {
        assert!(!matches!(a, ChangeAction::SwitchShortcut { .. }));
        let step = advance_change(c, outcome);
        c = step.0;
        a = step.1;
    }
    assert!(!matches!(a, ChangeAction::SwitchShortcut { .. }));
}

#[test]
fn a_failed_clipboard_restore_does_not_fail_the_fix() {
    let (stage, _) = begin_fix();
    let (stage, _) =
        advance_fix(stage, FixEvent::Prepared { previous_clipboard: Some("old".to_string()) });
    let (stage, _) = advance_fix(stage, FixEvent::Copied { selection: "ghbdtn".to_string() });
    let (stage, _) = advance_fix(stage, FixEvent::Pasted);
    let (stage, action) = advance_fix(stage, FixEvent::Failed { message: "busy".to_string() });
    assert!(matches!(stage, FixStage::Finished));
    assert!(matches!(action, Some(FixAction::Done { result: Ok(()) })));
}
