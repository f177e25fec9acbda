use luciole::commands::{onboarding_status, system_settings_url, text_action_on, TextActionOnSelectionRequest};
use luciole::settings::Settings;

#[test]
fn onboarding_status_reports_probes() {
    let mut s = Settings::default();
    s.onboarding_completed = true;
    let st = onboarding_status(&s, true, false, true);
    assert!(st.onboarding_completed && st.ollama_installed && !st.microphone_granted && st.accessibility_granted);
    assert!(!st.whisper_ready && !st.ollama_model_ready && !st.diarization_ready);
}

#[test]
fn settings_panels() {
    assert_eq!(
        system_settings_url("microphone"),
        Some("x-apple.systempreferences:com.apple.preference.security?Privacy_Microphone")
    );
    assert_eq!(
        system_settings_url("accessibility"),
        Some("x-apple.systempreferences:com.apple.preference.security?Privacy_Accessibility")
    );
    assert_eq!(system_settings_url("camera"), None);
}

#[test]
fn selection_requests() {
    let r = text_action_on(
        TextActionOnSelectionRequest { action: "translate".to_string(), target_language: Some("en".to_string()), tone: None },
        "texte".to_string(),
    );
    assert_eq!((r.action.as_str(), r.text.as_str()), ("translate", "texte"));
    assert_eq!(r.target_language.as_deref(), Some("en"));
}
