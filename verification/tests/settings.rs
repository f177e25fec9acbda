use luciole::settings::{
    mark_onboarding_complete, mark_onboarding_incomplete, snapshot, Settings, SettingsStore,
};

#[test]
fn defaults() {
    let s = Settings::default();
    assert_eq!(s.language, "fr");
    assert_eq!(s.whisper_model, "small");
    assert_eq!(s.ollama_model, "gemma4:e4b");
    assert_eq!(s.obsidian_vault_path, None);
    assert_eq!(s.shortcut_dictate, "Option");
    assert_eq!(s.shortcut_correct, "Option+P");
    assert_eq!(s.shortcut_translate, "Option+T");
    assert_eq!(s.shortcut_rephrase, "Option+R");
    assert_eq!(s.shortcut_meeting, "Option+M");
    assert!(!s.onboarding_completed);
}

#[test]
fn snapshot_gives_what_was_stored() {
    let mut store = SettingsStore::new();
    assert_eq!(snapshot(&store).language, "fr");
    let mut next = Settings::default();
    next.language = "en".to_string();
    next.obsidian_vault_path = Some("/vault".to_string());
    store.replace(next);
    let s = snapshot(&store);
    assert_eq!(s.language, "en");
    assert_eq!(s.obsidian_vault_path.as_deref(), Some("/vault"));
}

#[test]
fn onboarding_flag() {
    let mut s = Settings::default();
    s.whisper_model = "medium".to_string();
    let done = mark_onboarding_complete(s);
    assert!(done.onboarding_completed);
    assert_eq!(done.whisper_model, "medium");
    let done_again = mark_onboarding_complete(done);
    assert!(done_again.onboarding_completed);
    let undone = mark_onboarding_incomplete(done_again);
    assert!(!undone.onboarding_completed);
    assert_eq!(undone.whisper_model, "medium");
    let store = SettingsStore::holding(undone);
    assert!(!snapshot(&store).onboarding_completed);
}
