use luciole::meeting::{
    created_label, extension_of, file_stem_of, is_note_file, list_notes, meeting_files,
    meeting_result, note_path_allowed, note_template, sort_notes_newest_first, start, stop,
    text_less_than, toggle_recording, utc_date, MeetingError, NoteFile,
};
use luciole::commands::Note;
use luciole::state::MeetingRuntime;

const NOW: i64 = 1_700_000_000; // 2023-11-14T22:13:20Z

#[test]
fn start_then_stop() {
    let mut rt = MeetingRuntime::default();
    let id = start(&mut rt, NOW).unwrap();
    assert_eq!(id, "mtg-20231114-221320");
    assert!(rt.recording);
    assert_eq!(rt.started_at, Some(NOW));
    assert_eq!(rt.session_id.as_deref(), Some("mtg-20231114-221320"));
    let (sid, started) = stop(&mut rt).unwrap();
    assert_eq!(sid, id);
    assert_eq!(started, Some(NOW));
    assert!(!rt.recording && rt.started_at.is_none() && rt.session_id.is_none());
}

#[test]
fn refusals() {
    let mut rt = MeetingRuntime::default();
    assert_eq!(stop(&mut rt).unwrap_err(), MeetingError::NotInProgress);
    start(&mut rt, NOW).unwrap();
    assert_eq!(start(&mut rt, NOW + 5).unwrap_err(), MeetingError::AlreadyInProgress);
    assert_eq!(rt.started_at, Some(NOW));
    let mut idle = MeetingRuntime::default();
    assert_eq!(start(&mut idle, i64::MAX).unwrap_err(), MeetingError::ClockOutOfRange);
    assert!(!idle.recording);
}

#[test]
fn toggle_without_session_then_stop() {
    let mut rt = MeetingRuntime::default();
    assert!(toggle_recording(&mut rt));
    assert_eq!(stop(&mut rt).unwrap_err(), MeetingError::MissingSessionId);
    assert!(!rt.recording);
    let mut other = MeetingRuntime::default();
    assert!(toggle_recording(&mut other));
    assert!(!toggle_recording(&mut other));
}

#[test]
fn note_files_and_body() {
    assert_eq!(utc_date(NOW).as_deref(), Some("2023-11-14"));
    assert_eq!(utc_date(0).as_deref(), Some("1970-01-01"));
    let f = meeting_files("/h/.luciole/notes", "/h/.luciole/transcripts", "2023-11-14", "mtg-20231114-221320");
    assert_eq!(f.note_path, "/h/.luciole/notes/2023-11-14-mtg-20231114-221320.md");
    assert_eq!(f.transcript_path, "/h/.luciole/transcripts/2023-11-14-mtg-20231114-221320_transcript.txt");
    let r = meeting_result(f);
    assert!(r.speakers_pending_naming.is_empty());
    assert!(r.note_path.ends_with(".md"));
    assert_eq!(
        note_template("2023-11-14"),
        "# Réunion — 2023-11-14\n\n*Note générée par Luciole. Le pipeline de diarisation et de résumé \
         n'est pas encore câblé dans cette version.*\n\n## Participants\n\n## Résumé\n\n## Décisions\n\n## Actions\n"
    );
}

#[test]
fn extensions_and_stems_follow_std() {
    for name in ["a.md", "a.b.md", ".md", "noext", "a.", "..", ".", "x.MD", "a..md"] {
        let p = std::path::Path::new(name);
        let ext = p.extension().and_then(|s| s.to_str()).map(|s| s.to_string());
        if name != "." {
            assert_eq!(extension_of(name), ext, "{name}");
            let stem = p.file_stem().and_then(|s| s.to_str()).unwrap_or("").to_string();
            if name != ".." {
                assert_eq!(file_stem_of(name), stem, "{name}");
            }
        }
    }
    assert_eq!(file_stem_of(".."), "..");
    assert!(is_note_file("2023-11-14-x.md"));
    assert!(!is_note_file(".md"));
    assert!(!is_note_file("notes.MD"));
    assert!(!is_note_file("a.txt"));
}

#[test]
fn created_dates() {
    assert_eq!(created_label(Some(0), "now"), "1970-01-01T00:00:00+00:00");
    assert_eq!(created_label(None, "now"), "now");
    assert_eq!(created_label(Some(9_000_000_000_000_000), "now"), "now");
    assert_eq!(created_label(Some(u64::MAX), "now"), "1969-12-31T23:59:59+00:00");
}

fn nf(path: &str, name: &str, created: Option<u64>) -> NoteFile {
    NoteFile { path: path.to_string(), name: name.to_string(), name_is_utf8: true, created_secs: created }
}

#[test]
fn notes_are_listed_newest_first() {
    let files = vec![
        nf("/n/a.md", "a.md", Some(100)),
        nf("/n/b.txt", "b.txt", Some(500)),
        nf("/n/c.md", "c.md", Some(300)),
        nf("/n/d.md", "d.md", None),
        NoteFile { path: "/n/\u{fffd}.md".to_string(), name: "\u{fffd}.md".to_string(), name_is_utf8: false, created_secs: Some(50) },
        nf("/n/e.md", "e.md", Some(100)),
    ];
    let notes = list_notes(files, "2100-01-01T00:00:00+00:00");
    let got: Vec<(&str, &str)> = notes.iter().map(|n| (n.title.as_str(), n.created_at.as_str())).collect();
    assert_eq!(
        got,
        vec![
            ("d", "2100-01-01T00:00:00+00:00"),
            ("c", "1970-01-01T00:05:00+00:00"),
            ("a", "1970-01-01T00:01:40+00:00"),
            ("e", "1970-01-01T00:01:40+00:00"),
            ("note", "1970-01-01T00:00:50+00:00"),
        ]
    );
    assert_eq!(notes[1].path, "/n/c.md");
}

fn note(t: &str, c: &str) -> Note {
    Note { path: format!("/n/{t}.md"), title: t.to_string(), created_at: c.to_string() }
}

#[test]
fn sort_is_stable_and_descending() {
    let v = vec![note("1", "b"), note("2", "a"), note("3", "b"), note("4", "c"), note("5", "")];
    let s = sort_notes_newest_first(v);
    let titles: Vec<&str> = s.iter().map(|n| n.title.as_str()).collect();
    assert_eq!(titles, vec!["4", "1", "3", "2", "5"]);
    assert!(text_less_than("a", "b"));
    assert!(text_less_than("ab", "abc"));
    assert!(!text_less_than("abc", "ab"));
    assert!(!text_less_than("x", "x"));
    assert!(text_less_than("z", "é"));
}

#[test]
fn notes_may_only_be_read_inside_the_notes_dir() {
    assert!(note_path_allowed("/h/.luciole/notes/a.md", "/h/.luciole/notes"));
    assert!(!note_path_allowed("/h/.luciole/notes2/a.md", "/h/.luciole/notes"));
    assert!(!note_path_allowed("/etc/passwd", "/h/.luciole/notes"));
    assert!(note_path_allowed("/h/.luciole/notes", "/h/.luciole/notes"));
}

#[test]
fn a_stopped_meetings_note_is_listed_and_readable() {
    let f = meeting_files("/h/.luciole/notes", "/h/.luciole/transcripts", "2023-11-14", "mtg-20231114-221320");
    let name = f.note_path.rsplit('/').next().unwrap().to_string();
    assert!(is_note_file(&name));
    assert_eq!(file_stem_of(&name), "2023-11-14-mtg-20231114-221320");
    assert!(note_path_allowed(&f.note_path, "/h/.luciole/notes"));
    let listed = list_notes(
        vec![NoteFile { path: f.note_path.clone(), name, name_is_utf8: true, created_secs: Some(NOW as u64) }],
        "now",
    );
    assert_eq!(listed.len(), 1);
    assert_eq!(listed[0].title, "2023-11-14-mtg-20231114-221320");
    assert_eq!(listed[0].path, f.note_path);
}
