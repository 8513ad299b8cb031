use influence::policy::{confirm_source, decide, Modifiers, RunOptions};
use influence::resolve::{resolve, CommandSource};

#[test]
fn selection_with_fallback_uses_entry_when_nothing_selected() {
    let entry = Some("ls".to_string());
    let r = resolve(CommandSource::ListSelection(true), &None, &entry);
    assert_eq!(r, Some("ls".to_string()));
}

#[test]
fn selection_without_fallback_resolves_to_nothing() {
    let entry = Some("ls".to_string());
    let r = resolve(CommandSource::ListSelection(false), &None, &entry);
    assert_eq!(r, None);
}

#[test]
fn selection_wins_over_entry_when_present() {
    let selection = Some("git status".to_string());
    let entry = Some("ls".to_string());
    let r = resolve(CommandSource::ListSelection(true), &selection, &entry);
    assert_eq!(r, Some("git status".to_string()));
}

#[test]
fn entry_source_ignores_selection() {
    let selection = Some("git status".to_string());
    let entry = Some("htop".to_string());
    let r = resolve(CommandSource::Entry, &selection, &entry);
    assert_eq!(r, Some("htop".to_string()));
}

#[test]
fn empty_entry_resolves_to_nothing() {
    let entry = Some("".to_string());
    assert_eq!(resolve(CommandSource::Entry, &None, &entry), None);
    assert_eq!(resolve(CommandSource::ListSelection(true), &None, &entry), None);
}

#[test]
fn missing_entry_resolves_to_nothing() {
    assert_eq!(resolve(CommandSource::Entry, &None, &None), None);
}

#[test]
fn ctrl_keeps_application_open() {
    let opts = decide(Modifiers { ctrl: true, alt: false, shift: false });
    assert!(!opts.quit);
    assert!(opts.record);
}

#[test]
fn alt_suppresses_recording() {
    let opts = decide(Modifiers { ctrl: false, alt: true, shift: false });
    assert!(opts.quit);
    assert!(!opts.record);
}

#[test]
fn plain_confirm_quits_and_records_from_selection() {
    let m = Modifiers { ctrl: false, alt: false, shift: false };
    let opts = decide(m);
    assert!(opts.quit);
    assert!(opts.record);
    assert!(matches!(confirm_source(m), CommandSource::ListSelection(true)));
}

#[test]
fn shift_and_ctrl_confirm_forces_entry_and_stays_open() {
    let m = Modifiers { ctrl: true, alt: false, shift: true };
    let source = confirm_source(m);
    assert!(matches!(source, CommandSource::Entry));

    let selection = Some("some row".to_string());
    let entry = Some("htop".to_string());
    let launched = resolve(source, &selection, &entry);
    assert_eq!(launched, Some("htop".to_string()));

    let opts = decide(m);
    assert!(!opts.quit);
    assert!(opts.record);
}

#[test]
fn row_activation_always_quits_and_records() {
    let opts = RunOptions::activate();
    assert!(opts.quit);
    assert!(opts.record);
}
