//! Persistent user settings.
//!
//! The caller keeps them as JSON in `~/.luciole/settings.json`; this module
//! holds the settings record, its defaults, the in-memory copy that the
//! application reads and replaces, and the onboarding flag changes.

use vstd::prelude::*;
use vstd::string::*;

verus! {

/// The user's settings.
#[derive(Debug)]
pub struct Settings {
    pub language: String,
    pub whisper_model: String,
    pub ollama_model: String,
    pub obsidian_vault_path: Option<String>,
    pub shortcut_dictate: String,
    pub shortcut_correct: String,
    pub shortcut_translate: String,
    pub shortcut_rephrase: String,
    pub shortcut_meeting: String,
    pub onboarding_completed: bool,
}

/// The settings of a first launch.
pub open spec fn is_default_settings(s: Settings) -> bool {
    &&& s.language@ == "fr"@
    &&& s.whisper_model@ == "small"@
    &&& s.ollama_model@ == "gemma4:e4b"@
    &&& s.obsidian_vault_path is None
    &&& s.shortcut_dictate@ == "Option"@
    &&& s.shortcut_correct@ == "Option+P"@
    &&& s.shortcut_translate@ == "Option+T"@
    &&& s.shortcut_rephrase@ == "Option+R"@
    &&& s.shortcut_meeting@ == "Option+M"@
    &&& !s.onboarding_completed
}

impl Default for Settings {
    fn default() -> (r: Self)
        ensures
            is_default_settings(r),
    {
        Settings {
            language: String::from_str("fr"),
            whisper_model: String::from_str("small"),
            ollama_model: String::from_str("gemma4:e4b"),
            obsidian_vault_path: None,
            // Hold-to-dictate uses Option alone; the string form documents intent.
            shortcut_dictate: String::from_str("Option"),
            shortcut_correct: String::from_str("Option+P"),
            shortcut_translate: String::from_str("Option+T"),
            shortcut_rephrase: String::from_str("Option+R"),
            shortcut_meeting: String::from_str("Option+M"),
            onboarding_completed: false,
        }
    }
}

/// `s` with the onboarding flag set to `done`, every other field unchanged.
pub open spec fn with_onboarding(s: Settings, done: bool) -> Settings {
    Settings { onboarding_completed: done, ..s }
}

fn copy_opt(o: &Option<String>) -> (r: Option<String>)
    ensures
        r == *o,
{
    match o {
        Some(s) => Some(s.clone()),
        None => None,
    }
}

/// A copy of `s`.
pub fn copy_settings(s: &Settings) -> (r: Settings)
    ensures
        r == *s,
{
    Settings {
        language: s.language.clone(),
        whisper_model: s.whisper_model.clone(),
        ollama_model: s.ollama_model.clone(),
        obsidian_vault_path: copy_opt(&s.obsidian_vault_path),
        shortcut_dictate: s.shortcut_dictate.clone(),
        shortcut_correct: s.shortcut_correct.clone(),
        shortcut_translate: s.shortcut_translate.clone(),
        shortcut_rephrase: s.shortcut_rephrase.clone(),
        shortcut_meeting: s.shortcut_meeting.clone(),
        onboarding_completed: s.onboarding_completed,
    }
}

/// The settings that the running application works with.
pub struct SettingsStore {
    current: Settings,
}

impl SettingsStore {
    /// The settings held.
    pub closed spec fn current(&self) -> Settings {
        self.current
    }

    /// A store that holds the default settings.
    pub fn new() -> (r: Self)
        ensures
            is_default_settings(r.current()),
    {
        SettingsStore { current: Settings::default() }
    }

    /// A store that holds `s`.
    pub fn holding(s: Settings) -> (r: Self)
        ensures
            r.current() == s,
    {
        SettingsStore { current: s }
    }

    /// Puts `next` in place of the settings held.
    pub fn replace(&mut self, next: Settings)
        ensures
            final(self).current() == next,
    {
        self.current = next;
    }
}

/// A copy of the settings held.
pub fn snapshot(store: &SettingsStore) -> (r: Settings)
    ensures
        r == store.current(),
{
    copy_settings(&store.current)
}

/// The settings to store once onboarding is complete: the flag set, the rest
/// unchanged.
pub fn mark_onboarding_complete(current: Settings) -> (r: Settings)
    ensures
        r == with_onboarding(current, true),
{
    let mut next = current;
    next.onboarding_completed = true;
    next
}

/// The settings to store when onboarding is to run again: the flag cleared,
/// the rest unchanged.
pub fn mark_onboarding_incomplete(current: Settings) -> (r: Settings)
    ensures
        r == with_onboarding(current, false),
{
    let mut next = current;
    next.onboarding_completed = false;
    next
}

/// Setting or clearing the onboarding flag changes no other setting, and the
/// last change wins.
pub proof fn law_onboarding_flag(s: Settings, a: bool, b: bool)
    ensures
        with_onboarding(with_onboarding(s, a), b) == with_onboarding(s, b),
        with_onboarding(s, a).onboarding_completed == a,
        with_onboarding(s, s.onboarding_completed) == s,
{
}

} // verus!
