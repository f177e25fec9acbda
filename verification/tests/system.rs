use luciole::system::mic_record::append_mono_i16;
use luciole::system::overlay::{
    poll_state, selected_text_present, selection_signature_of, SelectionMemory, SelectionProbe,
};
use luciole::system::injection::paste_into_focused_app;
use luciole::system::permissions::{
    accessibility_granted, microphone_granted, prompt_accessibility, prompt_microphone, PlatformError,
};
use luciole::system::selection::{selected_text, selection_from_clipboard, SelectionError};
use luciole::system::tray::{route, tray_action, TrayAction};

#[test]
fn mono_from_interleaved() {
    let mut out = vec![7i16];
    append_mono_i16(&mut out, &[1, 2, 3], 1);
    assert_eq!(out, vec![7, 1, 2, 3]);
    let mut out = Vec::new();
    append_mono_i16(&mut out, &[10, 20, -3, -4, 9], 2);
    assert_eq!(out, vec![15, -3, 4]);
    let mut out = Vec::new();
    append_mono_i16(&mut out, &[i16::MIN, i16::MIN, i16::MAX, i16::MAX], 2);
    assert_eq!(out, vec![i16::MIN, i16::MAX]);
    let mut out = Vec::new();
    append_mono_i16(&mut out, &[5, 5, 5], 0);
    assert_eq!(out, vec![5, 5, 5]);
    let mut out = Vec::new();
    append_mono_i16(&mut out, &[-7, 0, 0], 3);
    assert_eq!(out, vec![-2]);
}

type A = (i32, i32);

fn probe(ax: bool, sel: bool, bounds: Option<A>, sig: Option<&str>, mouse: Option<A>) -> SelectionProbe<A> {
    SelectionProbe {
        accessibility_granted: ax,
        has_selection: sel,
        has_selected_text: false,
        bounds,
        signature: sig.map(|s| s.to_string()),
        mouse_anchor: mouse,
    }
}

#[test]
fn overlay_follows_selection() {
    let mut mem: SelectionMemory<A> = SelectionMemory::new();
    let s = poll_state(&mut mem, &probe(true, true, None, Some("range:3:4"), Some((1, 1))));
    assert!(s.visible);
    assert_eq!(s.anchor, Some((1, 1)));
    // Same selection: the anchor stays where it was, though the mouse moved.
    let s = poll_state(&mut mem, &probe(true, true, None, Some("range:3:4"), Some((9, 9))));
    assert_eq!(s.anchor, Some((1, 1)));
    // A new selection freezes the new mouse position.
    let s = poll_state(&mut mem, &probe(true, true, None, Some("range:0:2"), Some((5, 5))));
    assert_eq!(s.anchor, Some((5, 5)));
    // Bounds win and clear the memory.
    let s = poll_state(&mut mem, &probe(true, true, Some((2, 3)), Some("range:0:2"), Some((5, 5))));
    assert_eq!(s.anchor, Some((2, 3)));
    assert!(mem.frozen_fallback_anchor.is_none() && mem.last_selection_sig.is_none());
    // No signature: the mouse, not frozen.
    let s = poll_state(&mut mem, &probe(true, true, None, None, Some((4, 4))));
    assert_eq!(s.anchor, Some((4, 4)));
    assert!(mem.frozen_fallback_anchor.is_none());
    // No selection: hidden.
    let s = poll_state(&mut mem, &probe(true, false, Some((2, 3)), None, None));
    assert!(!s.visible && s.anchor.is_none());
    // No permission: hidden.
    let s = poll_state(&mut mem, &probe(false, true, Some((2, 3)), None, None));
    assert!(!s.visible);
    // No anchor at all: hidden.
    let s = poll_state(&mut mem, &probe(true, true, None, Some("textlen:3"), None));
    assert!(!s.visible);
}

#[test]
fn selection_is_trimmed_clipboard() {
    assert_eq!(selection_from_clipboard(Some("  mot \n".to_string())), Ok("mot".to_string()));
    assert_eq!(selection_from_clipboard(Some(" \t".to_string())), Err(SelectionError::NothingSelected));
    assert_eq!(selection_from_clipboard(None), Err(SelectionError::NothingSelected));
}

#[test]
fn tray_routing() {
    assert_eq!(tray_action("open-notes"), TrayAction::OpenNotes);
    assert_eq!(tray_action("open-glossary"), TrayAction::OpenGlossary);
    assert_eq!(tray_action("open-settings"), TrayAction::OpenSettings);
    assert_eq!(tray_action("toggle-meeting"), TrayAction::ToggleMeeting);
    assert_eq!(tray_action("quit"), TrayAction::Quit);
    assert_eq!(tray_action("other"), TrayAction::Ignore);
    assert_eq!(route(TrayAction::OpenNotes), Some("#/notes"));
    assert_eq!(route(TrayAction::OpenSettings), Some("#/settings"));
    assert_eq!(route(TrayAction::Quit), None);
}

#[test]
fn without_macos_permissions_are_granted_and_services_refused() {
    assert!(microphone_granted());
    assert!(accessibility_granted());
    assert_eq!(prompt_microphone(), Ok(()));
    assert_eq!(prompt_accessibility(), Ok(()));
    assert_eq!(paste_into_focused_app("bonjour"), Err(PlatformError::InjectionUnavailable));
    assert_eq!(selected_text(), Err(PlatformError::SelectionUnavailable));
}

#[test]
fn selection_signatures() {
    assert_eq!(selection_signature_of(Some((12, 5)), Some(99)), Some("range:12:5".to_string()));
    assert_eq!(selection_signature_of(Some((0, 1)), None), Some("range:0:1".to_string()));
    assert_eq!(
        selection_signature_of(Some((i64::MIN, i64::MAX)), None),
        Some(format!("range:{}:{}", i64::MIN, i64::MAX))
    );
    assert_eq!(selection_signature_of(Some((4, 0)), Some(7)), Some("textlen:7".to_string()));
    assert_eq!(selection_signature_of(None, Some(0)), Some("textlen:0".to_string()));
    assert_eq!(selection_signature_of(None, Some(1234567890)), Some("textlen:1234567890".to_string()));
    assert_eq!(selection_signature_of(Some((4, -2)), None), None);
    assert_eq!(selection_signature_of(None, None), None);
}

#[test]
fn blank_selected_text_is_no_selection() {
    assert!(selected_text_present(" a "));
    assert!(!selected_text_present(" \t\n"));
    assert!(!selected_text_present(""));
}
