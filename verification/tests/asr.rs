use luciole::asr::{
    audio_too_large, bundle, classify_timestamp, first_existing, host_triple, language_arg,
    model_base, model_choice, model_file_name, model_path, model_path_in, resolve_bundled_model,
    resolve_whisper_executable, segment_from_flat, segments_from_rows, timestamp_fields,
    transcript_from_output, whisper_rows, BundleCell, BundlePaths, Candidate, Mode, ModelChoice,
    Segment, TimedRow, TimestampForm, Transcript, WhisperError, WhisperJson, WhisperResult,
    WhisperSeg, WhisperTimestamps,
};

fn seg(text: &str) -> Segment {
    Segment { start_ms: 0, end_ms: 0, text: text.to_string() }
}

#[test]
fn model_file_name_maps() {
    assert!(model_file_name("small").contains("small"));
    assert!(model_file_name("large-v3-turbo").contains("large-v3-turbo"));
}

#[test]
fn model_file_name_normalises_the_setting() {
    assert_eq!(model_file_name("  LARGE\t"), "ggml-large-v3-turbo.bin");
    assert_eq!(model_file_name("Tiny"), "ggml-tiny.bin");
    assert_eq!(model_file_name("base"), "ggml-base.bin");
    assert_eq!(model_file_name("MEDIUM "), "ggml-medium.bin");
    assert_eq!(model_file_name("large-v3"), "ggml-large-v3-turbo.bin");
    assert_eq!(model_file_name("huge"), "ggml-small.bin");
    assert_eq!(model_file_name(""), "ggml-small.bin");
}

#[test]
fn model_base_is_exact() {
    assert_eq!(model_base("large"), "large-v3-turbo");
    assert_eq!(model_base("Large"), "small");
    assert_eq!(model_base("medium"), "medium");
}

#[test]
fn model_path_lies_in_models_dir() {
    if let Some(p) = model_path(" Base ") {
        assert!(p.ends_with("/.luciole/models/ggml-base.bin"), "{p}");
    }
}

#[test]
fn flat_text_joins_trimmed_segments() {
    let t = Transcript {
        language: "fr".to_string(),
        segments: vec![seg("  bonjour "), seg("\tà tous\n"), seg("!")],
    };
    assert_eq!(t.flat_text(), "bonjour à tous !");
    let empty = Transcript { language: "fr".to_string(), segments: vec![] };
    assert_eq!(empty.flat_text(), "");
    let one = Transcript { language: "fr".to_string(), segments: vec![seg("  x  ")] };
    assert_eq!(one.flat_text(), "x");
}

#[test]
fn timestamps_are_classified() {
    assert!(matches!(classify_timestamp(" 1234 "), TimestampForm::Millis(1234)));
    assert!(matches!(classify_timestamp("+5"), TimestampForm::Millis(5)));
    assert!(matches!(classify_timestamp("007"), TimestampForm::Millis(7)));
    assert!(matches!(classify_timestamp("18446744073709551615"), TimestampForm::Millis(u64::MAX)));
    assert!(matches!(classify_timestamp("18446744073709551616"), TimestampForm::Unrecognized));
    assert!(matches!(classify_timestamp("-5"), TimestampForm::Unrecognized));
    assert!(matches!(classify_timestamp("+"), TimestampForm::Unrecognized));
    assert!(matches!(classify_timestamp(""), TimestampForm::Unrecognized));
    assert!(matches!(classify_timestamp("1:2"), TimestampForm::Unrecognized));
    match classify_timestamp(" 00:01:02.500 ") {
        TimestampForm::Clock(h, m, s) => {
            assert_eq!((h.as_str(), m.as_str(), s.as_str()), ("00", "01", "02.500"));
        }
        _ => panic!("expected a clock time"),
    }
    match classify_timestamp("a::b") {
        TimestampForm::Clock(h, m, s) => {
            assert_eq!((h.as_str(), m.as_str(), s.as_str()), ("a", "", "b"));
        }
        _ => panic!("expected a clock time"),
    }
}

fn row(text: Option<&str>, a: u64, b: u64) -> TimedRow {
    TimedRow { text: text.map(|s| s.to_string()), start_ms: a, end_ms: b }
}

#[test]
fn rows_become_segments() {
    let rows = vec![row(Some(" hello "), 0, 10), row(Some("  "), 10, 20), row(None, 20, 30), row(Some("world"), 30, 40)];
    let segs = segments_from_rows(&rows).unwrap();
    let got: Vec<(u64, u64, &str)> = segs.iter().map(|s| (s.start_ms, s.end_ms, s.text.as_str())).collect();
    assert_eq!(got, vec![(0, 10, "hello"), (30, 40, "world")]);
    let blank = vec![row(Some(" "), 0, 1), row(None, 1, 2)];
    assert_eq!(segments_from_rows(&blank).unwrap_err(), WhisperError::NoSegments);
    assert_eq!(segments_from_rows(&vec![]).unwrap_err(), WhisperError::NoSegments);
}

fn wseg(text: &str) -> WhisperSeg {
    WhisperSeg { text: Some(text.to_string()), timestamps: None }
}

#[test]
fn whisper_rows_prefer_top_level() {
    let j = WhisperJson {
        transcription: vec![wseg("a")],
        result: Some(WhisperResult { transcription: vec![wseg("b"), wseg("c")] }),
    };
    let r = whisper_rows(j);
    assert_eq!(r.len(), 1);
    assert_eq!(r[0].text.as_deref(), Some("a"));
    let j = WhisperJson {
        transcription: vec![],
        result: Some(WhisperResult { transcription: vec![wseg("b"), wseg("c")] }),
    };
    assert_eq!(whisper_rows(j).len(), 2);
    let j = WhisperJson { transcription: vec![], result: None };
    assert_eq!(whisper_rows(j).len(), 0);
}

#[test]
fn timestamp_fields_default_to_zero() {
    assert!(timestamp_fields(&None).is_none());
    let t = Some(WhisperTimestamps { from: Some("00:00:01,000".to_string()), to: None });
    let (a, b) = timestamp_fields(&t).unwrap();
    assert_eq!((a.as_str(), b.as_str()), ("00:00:01,000", "0"));
}

#[test]
fn language_argument() {
    assert_eq!(language_arg(" fr "), Some("fr".to_string()));
    assert_eq!(language_arg("auto"), None);
    assert_eq!(language_arg(" auto "), None);
    assert_eq!(language_arg("  "), None);
    assert_eq!(language_arg("Auto"), Some("Auto".to_string()));
}

#[test]
fn model_choice_by_mode() {
    assert_eq!(model_choice(Mode::Dictation, true, true), ModelChoice::Configured);
    assert_eq!(model_choice(Mode::Dictation, true, false), ModelChoice::Bundled);
    assert_eq!(model_choice(Mode::Dictation, false, true), ModelChoice::Configured);
    assert_eq!(model_choice(Mode::Dictation, false, false), ModelChoice::Bundled);
    assert_eq!(model_choice(Mode::Meeting, true, true), ModelChoice::Large);
    assert_eq!(model_choice(Mode::Meeting, false, true), ModelChoice::Configured);
    assert_eq!(model_choice(Mode::Meeting, false, false), ModelChoice::Bundled);
}

#[test]
fn audio_size_limit() {
    assert!(!audio_too_large(500 * 1024 * 1024));
    assert!(audio_too_large(500 * 1024 * 1024 + 1));
    assert!(!audio_too_large(0));
}

#[test]
fn transcript_from_whisper_output() {
    let t = transcript_from_output("fr", "  du texte \n", None);
    assert_eq!(t.language, "fr");
    assert_eq!(t.segments.len(), 1);
    assert_eq!(t.segments[0].text, "du texte");
    assert_eq!((t.segments[0].start_ms, t.segments[0].end_ms), (0, 0));
    let t = transcript_from_output("en", "ignored", Some(vec![seg("a"), seg("b")]));
    assert_eq!(t.segments.len(), 2);
    assert_eq!(t.segments[1].text, "b");
    let s = segment_from_flat("x y");
    assert_eq!((s.start_ms, s.end_ms, s.text.as_str()), (0, 0, "x y"));
}

#[test]
fn host_triples() {
    assert_eq!(host_triple("macos", "aarch64"), "aarch64-apple-darwin");
    assert_eq!(host_triple("macos", "x86_64"), "x86_64-apple-darwin");
    assert_eq!(host_triple("linux", "x86_64"), "x86_64-unknown-linux-gnu");
    assert_eq!(host_triple("windows", "x86_64"), "unknown-unknown-unknown");
}

#[test]
fn bundle_is_set_once() {
    let mut cell = BundleCell::new();
    assert!(bundle(&cell).is_none());
    let first = BundlePaths { whisper_exe: "/a/whisper".to_string(), model: "/a/m.bin".to_string() };
    assert!(cell.set(first).is_ok());
    let second = BundlePaths { whisper_exe: "/b/whisper".to_string(), model: "/b/m.bin".to_string() };
    let back = cell.set(second).unwrap_err();
    assert_eq!(back.whisper_exe, "/b/whisper");
    assert_eq!(bundle(&cell).unwrap().whisper_exe, "/a/whisper");
}

fn cand(p: &str, f: bool) -> Candidate {
    Candidate { path: p.to_string(), is_file: f }
}

#[test]
fn bundled_files_are_resolved() {
    assert_eq!(first_existing(&vec![cand("/x", false), cand("/y", true), cand("/z", true)], "/f"), "/y");
    assert_eq!(first_existing(&vec![cand("/x", false)], "/f"), "/f");
    assert_eq!(
        resolve_whisper_executable(&vec![cand("/env/whisper", false)], "/src/app", "aarch64-apple-darwin"),
        "/src/app/binaries/whisper-aarch64-apple-darwin"
    );
    assert_eq!(resolve_whisper_executable(&vec![cand("/env/whisper", true)], "/src/app", "t"), "/env/whisper");
    assert_eq!(resolve_bundled_model(&vec![], "/src/app/"), "/src/app/resources/models/ggml-tiny.bin");
}

#[test]
fn model_path_for_a_given_home() {
    assert_eq!(model_path_in("/home/alice", " Large "), "/home/alice/.luciole/models/ggml-large-v3-turbo.bin");
    assert_eq!(model_path_in("/h", "unknown"), "/h/.luciole/models/ggml-small.bin");
}
