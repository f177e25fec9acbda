//! The values that the application's commands exchange with the user
//! interface, and the decisions some commands make.

use vstd::prelude::*;
use crate::settings::Settings;
use crate::text::same_text;

verus! {

/// A meeting note on disk.
#[derive(Debug)]
pub struct Note {
    pub path: String,
    pub title: String,
    pub created_at: String,
}

/// What the onboarding wizard needs to know.
#[derive(Debug, Clone, Copy, PartialEq, Eq, Structural)]
pub struct OnboardingStatus {
    pub onboarding_completed: bool,
    pub whisper_ready: bool,
    pub ollama_installed: bool,
    pub ollama_model_ready: bool,
    pub diarization_ready: bool,
    pub microphone_granted: bool,
    pub accessibility_granted: bool,
}

/// The onboarding status from the settings and the probes' answers. The
/// model and diarization readiness checks do not exist yet and report not
/// ready.
pub fn onboarding_status(
    settings: &Settings,
    ollama_installed: bool,
    microphone_granted: bool,
    accessibility_granted: bool,
) -> (r: OnboardingStatus)
    ensures
        r == (OnboardingStatus {
            onboarding_completed: settings.onboarding_completed,
            whisper_ready: false,
            ollama_installed,
            ollama_model_ready: false,
            diarization_ready: false,
            microphone_granted,
            accessibility_granted,
        }),
{
    OnboardingStatus {
        onboarding_completed: settings.onboarding_completed,
        whisper_ready: false,
        ollama_installed,
        ollama_model_ready: false,
        diarization_ready: false,
        microphone_granted,
        accessibility_granted,
    }
}

/// A request to run a text action on the current selection.
#[derive(Debug)]
pub struct TextActionOnSelectionRequest {
    pub action: String,
    pub target_language: Option<String>,
    pub tone: Option<String>,
}

/// A request to run a text action (correct, translate, rephrase, clean a
/// dictation) on a text.
#[derive(Debug)]
pub struct TextActionRequest {
    pub action: String,
    pub text: String,
    pub target_language: Option<String>,
    pub tone: Option<String>,
}

/// The request for a text action on the selected `text`.
pub fn text_action_on(req: TextActionOnSelectionRequest, text: String) -> (r: TextActionRequest)
    ensures
        r.action == req.action,
        r.text == text,
        r.target_language == req.target_language,
        r.tone == req.tone,
{
    TextActionRequest {
        action: req.action,
        text,
        target_language: req.target_language,
        tone: req.tone,
    }
}

/// The System Settings page for a privacy panel, if the panel is known.
pub open spec fn system_settings_url_spec(panel: Seq<char>) -> Option<Seq<char>> {
    if panel == "microphone"@ {
        Some("x-apple.systempreferences:com.apple.preference.security?Privacy_Microphone"@)
    } else if panel == "accessibility"@ {
        Some("x-apple.systempreferences:com.apple.preference.security?Privacy_Accessibility"@)
    } else {
        None
    }
}

/// The URL that opens a privacy panel of System Settings.
pub fn system_settings_url(panel: &str) -> (r: Option<&'static str>)
    ensures
        match r {
            Some(u) => system_settings_url_spec(panel@) == Some(u@),
            None => system_settings_url_spec(panel@) is None,
        },
{
    if same_text(panel, "microphone") {
        Some("x-apple.systempreferences:com.apple.preference.security?Privacy_Microphone")
    } else if same_text(panel, "accessibility") {
        Some("x-apple.systempreferences:com.apple.preference.security?Privacy_Accessibility")
    } else {
        None
    }
}

} // verus!
