//! Speech recognition with a bundled whisper.cpp executable.
//!
//! Running the executable and reading its files is left to the caller; this
//! module holds what decides and computes around it: which model file to use,
//! the language argument, how whisper's text and JSON output become a
//! transcript, and how timestamps are read.

use vstd::prelude::*;
use vstd::string::*;
use crate::text::{
    trim,
    trim_spec,
    to_lowercase,
    ascii_lower,
    lowercase,
    same_text,
    split_chars,
    split_on,
    parse_u64,
    parse_u64_spec,
    join_with,
    owned,
    views,
};
use crate::paths::{join_path, path_join, data_path, data_path_in, home_dir};

verus! {

/// How a recording is transcribed.
#[derive(Debug, Clone, Copy, PartialEq, Eq, Structural)]
pub enum Mode {
    /// Short utterance (dictation). Uses the model of the `whisper_model`
    /// setting when its file is installed, else the bundled one.
    Dictation,
    /// Long-form batch transcription (meeting). Prefers the large model.
    Meeting,
}

/// One stretch of recognised speech.
#[derive(Debug)]
pub struct Segment {
    pub start_ms: u64,
    pub end_ms: u64,
    pub text: String,
}

/// What is known of a segment: its start, its end and its text.
pub open spec fn segment_view(s: Segment) -> (u64, u64, Seq<char>) {
    (s.start_ms, s.end_ms, s.text@)
}

pub open spec fn segment_views(v: Seq<Segment>) -> Seq<(u64, u64, Seq<char>)> {
    v.map_values(|s: Segment| segment_view(s))
}

/// A transcription: its language and its segments.
#[derive(Debug)]
pub struct Transcript {
    pub language: String,
    pub segments: Vec<Segment>,
}

/// The trimmed text of each segment.
pub open spec fn trimmed_texts(segs: Seq<Segment>) -> Seq<Seq<char>> {
    segs.map_values(|s: Segment| trim_spec(s.text@))
}

impl Transcript {
    /// The segments' texts, each trimmed, joined by single spaces.
    pub fn flat_text(&self) -> (r: String)
        ensures
            r@ == join_with(trimmed_texts(self.segments@), " "@),
    {
        let mut res = String::new();
        let n = self.segments.len();
        let ghost all = trimmed_texts(self.segments@);
        assert(all.take(0) == Seq::<Seq<char>>::empty());
        for i in 0..n
            invariant
                n == self.segments@.len(),
                all == trimmed_texts(self.segments@),
                res@ == join_with(all.take(i as int), " "@),
        {
            let t = trim(self.segments[i].text.as_str());
            assert(all[i as int] == t@);
            assert(all.take(i + 1).drop_last() == all.take(i as int));
            assert(all.take(i + 1).last() == t@);
            if i != 0 {
                res.append(" ");
            } else {
                assert(all.take(1) == seq![t@]);
                assert(res@ == Seq::<char>::empty());
                assert(res@ + t@ == t@);
            }
            res.append(t.as_str());
        }
        assert(all.take(n as int) == all);
        res
    }
}

/// The whisper.cpp model name for a settings key; unknown keys fall back to
/// `small`.
pub open spec fn model_base_spec(key: Seq<char>) -> Seq<char> {
    if key == "tiny"@ {
        "tiny"@
    } else if key == "base"@ {
        "base"@
    } else if key == "small"@ {
        "small"@
    } else if key == "medium"@ {
        "medium"@
    } else if key == "large"@ || key == "large-v3"@ || key == "large-v3-turbo"@ {
        "large-v3-turbo"@
    } else {
        "small"@
    }
}

/// Maps a normalised settings key to a whisper.cpp model name.
pub fn model_base(key: &str) -> (r: &'static str)
    ensures
        r@ == model_base_spec(key@),
{
    if same_text(key, "tiny") {
        "tiny"
    } else if same_text(key, "base") {
        "base"
    } else if same_text(key, "small") {
        "small"
    } else if same_text(key, "medium") {
        "medium"
    } else if same_text(key, "large") || same_text(key, "large-v3") || same_text(
        key,
        "large-v3-turbo",
    ) {
        "large-v3-turbo"
    } else {
        "small"
    }
}

/// The GGML file name for a `whisper_model` setting: the setting is trimmed
/// and lower-cased, then mapped by `model_base_spec`.
pub open spec fn model_file_spec(setting: Seq<char>) -> Seq<char> {
    "ggml-"@ + model_base_spec(lowercase(trim_spec(setting))) + ".bin"@
}

/// Maps a settings key (`small`, `base`, ...) to a whisper.cpp GGML file name.
/// For a setting in ASCII the lower-casing is the ASCII one.
pub fn model_file_name(whisper_model_setting: &str) -> (r: String)
    ensures
        r@ == model_file_spec(whisper_model_setting@),
        vstd::utf8::is_ascii_chars(trim_spec(whisper_model_setting@)) ==> r@ == "ggml-"@
            + model_base_spec(trim_spec(whisper_model_setting@).map_values(|c: char| ascii_lower(c)))
            + ".bin"@,
{
    let trimmed = trim(whisper_model_setting);
    let key = to_lowercase(trimmed.as_str());
    let mut r = owned("ggml-");
    r.append(model_base(key.as_str()));
    r.append(".bin");
    r
}

/// The model file for a setting inside the models directory of `home`:
/// `<home>/.luciole/models/<model file name>`.
pub fn model_path_in(home: &str, whisper_model_setting: &str) -> (r: String)
    ensures
        r@ == path_join(data_path(home@, "models"@), model_file_spec(whisper_model_setting@)),
{
    join_path(
        data_path_in(home, "models").as_str(),
        model_file_name(whisper_model_setting).as_str(),
    )
}

/// The model file for a setting, inside `~/.luciole/models`: `model_path_in`
/// applied to the home directory found, `None` when none is found. Whether
/// one is found, and which, depends on the environment.
pub fn model_path(whisper_model_setting: &str) -> (r: Option<String>)
    ensures
        r matches Some(p) ==> exists|h: Seq<char>|
            h.len() > 0 && p@ == path_join(
                data_path(h, "models"@),
                model_file_spec(whisper_model_setting@),
            ),
{
    match home_dir() {
        Some(h) => Some(model_path_in(h.as_str(), whisper_model_setting)),
        None => None,
    }
}

/// Where the bundled whisper.cpp executable and model were found.
#[derive(Debug)]
pub struct BundlePaths {
    pub whisper_exe: String,
    pub model: String,
}

/// A place that is set at most once, at startup, with the bundle paths.
pub struct BundleCell {
    paths: Option<BundlePaths>,
}

impl BundleCell {
    /// What the cell holds.
    pub closed spec fn contents(&self) -> Option<BundlePaths> {
        self.paths
    }

    /// An empty cell.
    pub fn new() -> (r: Self)
        ensures
            r.contents() is None,
    {
        BundleCell { paths: None }
    }

    /// Sets the cell if it is empty (`OnceLock::set`); a cell that is already
    /// set keeps its contents and hands the new value back.
    pub fn set(&mut self, paths: BundlePaths) -> (r: Result<(), BundlePaths>)
        ensures
            old(self).contents() is None ==> r is Ok && final(self).contents() == Some(paths),
            old(self).contents() is Some ==> r == Err::<(), BundlePaths>(paths),
            old(self).contents() is Some ==> final(self).contents() == old(self).contents(),
    {
        if self.paths.is_some() {
            Err(paths)
        } else {
            self.paths = Some(paths);
            Ok(())
        }
    }
}

/// The bundle paths, once they have been set.
pub fn bundle(cell: &BundleCell) -> (r: Option<&BundlePaths>)
    ensures
        match cell.contents() {
            Some(p) => r == Some(&p),
            None => r is None,
        },
{
    match &cell.paths {
        Some(p) => Some(p),
        None => None,
    }
}

/// The target triple of the `whisper-<triple>` executable shipped for the
/// given operating system and architecture (`std::env::consts::{OS, ARCH}`).
pub open spec fn host_triple_spec(os: Seq<char>, arch: Seq<char>) -> Seq<char> {
    if os == "macos"@ && arch == "aarch64"@ {
        "aarch64-apple-darwin"@
    } else if os == "macos"@ && arch == "x86_64"@ {
        "x86_64-apple-darwin"@
    } else if os == "linux"@ && arch == "x86_64"@ {
        "x86_64-unknown-linux-gnu"@
    } else {
        "unknown-unknown-unknown"@
    }
}

/// The target triple for an operating system and architecture.
pub fn host_triple(os: &str, arch: &str) -> (r: &'static str)
    ensures
        r@ == host_triple_spec(os@, arch@),
{
    if same_text(os, "macos") && same_text(arch, "aarch64") {
        "aarch64-apple-darwin"
    } else if same_text(os, "macos") && same_text(arch, "x86_64") {
        "x86_64-apple-darwin"
    } else if same_text(os, "linux") && same_text(arch, "x86_64") {
        "x86_64-unknown-linux-gnu"
    } else {
        "unknown-unknown-unknown"
    }
}

/// The largest audio file that is transcribed: 500 MiB.
pub const MAX_AUDIO_BYTES: u64 = 524288000;

/// Audio files over 500 MiB are refused.
pub fn audio_too_large(len: u64) -> (r: bool)
    ensures
        r == (len > 500 * 1024 * 1024),
{
    len > MAX_AUDIO_BYTES
}

/// Which model file whisper runs with.
#[derive(Debug, Clone, Copy, PartialEq, Eq, Structural)]
pub enum ModelChoice {
    /// The model bundled with the application.
    Bundled,
    /// `~/.luciole/models/ggml-large-v3-turbo.bin`.
    Large,
    /// The model that the `whisper_model` setting names.
    Configured,
}

/// Dictation uses the model that the `whisper_model` setting names when its
/// file exists, else the bundled one. A meeting uses the large model when
/// its file exists, else the configured model when its file exists, else
/// the bundled one.
pub fn model_choice(mode: Mode, large_is_file: bool, configured_is_file: bool) -> (r: ModelChoice)
    ensures
        mode == Mode::Dictation ==> r == (if configured_is_file {
            ModelChoice::Configured
        } else {
            ModelChoice::Bundled
        }),
        mode == Mode::Meeting ==> r == (if large_is_file {
            ModelChoice::Large
        } else if configured_is_file {
            ModelChoice::Configured
        } else {
            ModelChoice::Bundled
        }),
{
    match mode {
        Mode::Dictation => {
            if configured_is_file {
                ModelChoice::Configured
            } else {
                ModelChoice::Bundled
            }
        },
        Mode::Meeting => {
            if large_is_file {
                ModelChoice::Large
            } else if configured_is_file {
                ModelChoice::Configured
            } else {
                ModelChoice::Bundled
            }
        },
    }
}

/// The `-l` argument for whisper: the trimmed language, unless it is empty or
/// `auto`.
pub open spec fn language_arg_spec(language: Seq<char>) -> Option<Seq<char>> {
    let t = trim_spec(language);
    if t.len() > 0 && t != "auto"@ {
        Some(t)
    } else {
        None
    }
}

/// The language to pass to whisper with `-l`, if any.
pub fn language_arg(language: &str) -> (r: Option<String>)
    ensures
        match r {
            Some(l) => language_arg_spec(language@) == Some(l@),
            None => language_arg_spec(language@) is None,
        },
{
    let t = trim(language);
    let tv = crate::text::to_chars(t.as_str());
    if tv.len() > 0 && !same_text(t.as_str(), "auto") {
        Some(t)
    } else {
        None
    }
}

/// A single segment without timing that holds `text`.
pub fn segment_from_flat(text: &str) -> (r: Segment)
    ensures
        segment_view(r) == (0u64, 0u64, text@),
{
    Segment { start_ms: 0, end_ms: 0, text: owned(text) }
}

/// The transcript of one whisper run: the language as requested, and the
/// segments of its JSON output when that was read, else one segment that
/// holds the whole trimmed text output.
pub fn transcript_from_output(
    language: &str,
    raw_text: &str,
    json_segments: Option<Vec<Segment>>,
) -> (r: Transcript)
    ensures
        r.language@ == language@,
        match json_segments {
            Some(v) => r.segments@ == v@,
            None => segment_views(r.segments@) == seq![(0u64, 0u64, trim_spec(raw_text@))],
        },
{
    let segments = match json_segments {
        Some(v) => v,
        None => {
            let text = trim(raw_text);
            let mut v: Vec<Segment> = Vec::new();
            v.push(segment_from_flat(text.as_str()));
            assert(segment_views(v@) =~= seq![(0u64, 0u64, trim_spec(raw_text@))]);
            v
        },
    };
    Transcript { language: owned(language), segments }
}

/// How a whisper timestamp is written.
#[derive(Debug)]
pub enum TimestampForm {
    /// A plain number of milliseconds.
    Millis(u64),
    /// `hours:minutes:seconds`, each part as written.
    Clock(String, String, String),
    /// Anything else; it stands for 0.
    Unrecognized,
}

/// Reads a whisper timestamp: after trimming, a plain `u64` is a number of
/// milliseconds; otherwise, text with exactly two `:` is a clock time.
pub fn classify_timestamp(s: &str) -> (r: TimestampForm)
    ensures
        match r {
            TimestampForm::Millis(n) => parse_u64_spec(trim_spec(s@)) == Some(n),
            TimestampForm::Clock(h, m, sec) => parse_u64_spec(trim_spec(s@)) is None && split_on(
                trim_spec(s@),
                ':',
            ) == seq![h@, m@, sec@],
            TimestampForm::Unrecognized => parse_u64_spec(trim_spec(s@)) is None && split_on(
                trim_spec(s@),
                ':',
            ).len() != 3,
        },
{
    let t = trim(s);
    match parse_u64(t.as_str()) {
        Some(n) => TimestampForm::Millis(n),
        None => {
            let mut parts = split_chars(t.as_str(), ':');
            if parts.len() == 3 {
                let ghost pv = views(parts@);
                let sec = parts.pop().unwrap();
                let m = parts.pop().unwrap();
                let h = parts.pop().unwrap();
                assert(pv == seq![h@, m@, sec@]);
                TimestampForm::Clock(h, m, sec)
            } else {
                TimestampForm::Unrecognized
            }
        },
    }
}

/// The `from` and `to` fields of a whisper segment's timestamps.
pub struct WhisperTimestamps {
    pub from: Option<String>,
    pub to: Option<String>,
}

/// One row of whisper's JSON output.
pub struct WhisperSeg {
    pub text: Option<String>,
    pub timestamps: Option<WhisperTimestamps>,
}

/// The nested `result` object of whisper's JSON output.
pub struct WhisperResult {
    pub transcription: Vec<WhisperSeg>,
}

/// Whisper's JSON output, as far as it is read.
pub struct WhisperJson {
    pub transcription: Vec<WhisperSeg>,
    pub result: Option<WhisperResult>,
}

/// The rows that are read: the top-level `transcription` when it has any,
/// else the one under `result`, else none.
pub open spec fn whisper_rows_spec(j: WhisperJson) -> Seq<WhisperSeg> {
    if j.transcription@.len() > 0 {
        j.transcription@
    } else {
        match j.result {
            Some(r) => r.transcription@,
            None => Seq::empty(),
        }
    }
}

/// Picks the rows of whisper's JSON output.
pub fn whisper_rows(j: WhisperJson) -> (r: Vec<WhisperSeg>)
    ensures
        r@ == whisper_rows_spec(j),
{
    if j.transcription.len() > 0 {
        j.transcription
    } else {
        match j.result {
            Some(r) => r.transcription,
            None => Vec::new(),
        }
    }
}

/// The text of an optional field, or `default` when it is absent.
pub open spec fn text_or(o: Option<String>, default: Seq<char>) -> Seq<char> {
    match o {
        Some(s) => s@,
        None => default,
    }
}

fn text_or_zero(o: &Option<String>) -> (r: String)
    ensures
        r@ == text_or(*o, "0"@),
{
    match o {
        Some(s) => s.clone(),
        None => owned("0"),
    }
}

/// The texts of a row's `from` and `to` timestamps, each `0` when absent;
/// `None` when the row has no timestamps (both times are then 0).
pub fn timestamp_fields(ts: &Option<WhisperTimestamps>) -> (r: Option<(String, String)>)
    ensures
        match *ts {
            None => r is None,
            Some(t) => r matches Some(p) && p.0@ == text_or(t.from, "0"@) && p.1@ == text_or(
                t.to,
                "0"@,
            ),
        },
{
    match ts {
        None => None,
        Some(t) => Some((text_or_zero(&t.from), text_or_zero(&t.to))),
    }
}

/// A whisper row with its times read.
pub struct TimedRow {
    pub text: Option<String>,
    pub start_ms: u64,
    pub end_ms: u64,
}

/// The trimmed text of a row (empty when it has none).
pub open spec fn row_text(r: TimedRow) -> Seq<char> {
    trim_spec(text_or(r.text, Seq::empty()))
}

/// The segments that the rows give: each row with a non-empty trimmed text,
/// in order.
pub open spec fn kept_rows(rows: Seq<TimedRow>) -> Seq<(u64, u64, Seq<char>)>
    decreases rows.len(),
{
    if rows.len() == 0 {
        Seq::empty()
    } else {
        let p = kept_rows(rows.drop_last());
        let t = row_text(rows.last());
        if t.len() == 0 {
            p
        } else {
            p.push((rows.last().start_ms, rows.last().end_ms, t))
        }
    }
}

/// Why whisper's JSON output gave no transcript.
#[derive(Debug, Clone, Copy, PartialEq, Eq, Structural)]
pub enum WhisperError {
    /// No row had any text.
    NoSegments,
}

proof fn lemma_segment_views_push(v: Seq<Segment>, s: Segment)
    ensures
        segment_views(v.push(s)) == segment_views(v).push(segment_view(s)),
{
    assert(segment_views(v.push(s)) =~= segment_views(v).push(segment_view(s)));
}

/// The segments of whisper's JSON rows; an error when none has text.
pub fn segments_from_rows(rows: &Vec<TimedRow>) -> (r: Result<Vec<Segment>, WhisperError>)
    ensures
        match r {
            Ok(v) => segment_views(v@) == kept_rows(rows@) && v@.len() > 0,
            Err(_) => kept_rows(rows@).len() == 0,
        },
{
    let mut out: Vec<Segment> = Vec::new();
    let n = rows.len();
    assert(rows@.take(0) == Seq::<TimedRow>::empty());
    assert(segment_views(out@) =~= Seq::<(u64, u64, Seq<char>)>::empty());
    for i in 0..n
        invariant
            n == rows@.len(),
            segment_views(out@) == kept_rows(rows@.take(i as int)),
    {
        let row = &rows[i];
        assert(rows@.take(i + 1).drop_last() == rows@.take(i as int));
        assert(rows@.take(i + 1).last() == *row);
        let text = match &row.text {
            Some(t) => trim(t.as_str()),
            None => trim(""),
        };
        proof {
            if row.text is None {
                assert(""@ == Seq::<char>::empty()) by {
                    reveal_strlit("");
                }
            }
        }
        let tv = crate::text::to_chars(text.as_str());
        if tv.len() > 0 {
            let ghost before = out@;
            let seg = Segment { start_ms: row.start_ms, end_ms: row.end_ms, text };
            out.push(seg);
            proof {
                lemma_segment_views_push(before, out@[out@.len() - 1]);
                assert(out@ == before.push(out@[out@.len() - 1]));
            }
        }
    }
    assert(rows@.take(n as int) == rows@);
    if out.len() == 0 {
        Err(WhisperError::NoSegments)
    } else {
        Ok(out)
    }
}

/// Every setting names one of the five models.
pub proof fn law_model_file_is_known(setting: Seq<char>)
    ensures
        ({
            let b = model_base_spec(lowercase(trim_spec(setting)));
            &&& model_file_spec(setting) == "ggml-"@ + b + ".bin"@
            &&& (b == "tiny"@ || b == "base"@ || b == "small"@ || b == "medium"@ || b
                == "large-v3-turbo"@)
        }),
{
}

/// A candidate location of a bundled file, and whether a file is there.
#[derive(Debug)]
pub struct Candidate {
    pub path: String,
    pub is_file: bool,
}

/// The first candidate where a file is, or `fallback` when there is none.
pub open spec fn first_existing_spec(c: Seq<Candidate>, fallback: Seq<char>) -> Seq<char>
    decreases c.len(),
{
    if c.len() == 0 {
        fallback
    } else if c[0].is_file {
        c[0].path@
    } else {
        first_existing_spec(c.drop_first(), fallback)
    }
}

proof fn lemma_first_existing_skip(c: Seq<Candidate>, fallback: Seq<char>, i: int)
    requires
        0 <= i <= c.len(),
        forall|k: int| 0 <= k < i ==> !(#[trigger] c[k]).is_file,
    ensures
        first_existing_spec(c, fallback) == first_existing_spec(c.skip(i), fallback),
    decreases i,
{
    if i == 0 {
        assert(c.skip(0) == c);
    } else {
        lemma_first_existing_skip(c, fallback, i - 1);
        assert(c.skip(i - 1).drop_first() == c.skip(i));
        assert(c.skip(i - 1)[0] == c[i - 1]);
    }
}

/// The first candidate where a file is, else the fallback.
pub fn first_existing(candidates: &Vec<Candidate>, fallback: &str) -> (r: String)
    ensures
        r@ == first_existing_spec(candidates@, fallback@),
{
    let n = candidates.len();
    for i in 0..n
        invariant
            n == candidates@.len(),
            forall|k: int| 0 <= k < i ==> !(#[trigger] candidates@[k]).is_file,
    {
        if candidates[i].is_file {
            proof {
                lemma_first_existing_skip(candidates@, fallback@, i as int);
                assert(candidates@.skip(i as int)[0] == candidates@[i as int]);
            }
            return candidates[i].path.clone();
        }
    }
    proof {
        lemma_first_existing_skip(candidates@, fallback@, n as int);
        assert(candidates@.skip(n as int).len() == 0);
    }
    owned(fallback)
}

/// The whisper executable of a development checkout:
/// `<manifest dir>/binaries/whisper-<triple>`.
pub open spec fn dev_whisper_spec(manifest_dir: Seq<char>, triple: Seq<char>) -> Seq<char> {
    path_join(path_join(manifest_dir, "binaries"@), "whisper-"@ + triple)
}

/// The whisper executable: the first of the candidates (the debugging
/// override, `whisper` next to the application binary, the bundled
/// resource) where a file is, else the one of the development checkout.
pub fn resolve_whisper_executable(candidates: &Vec<Candidate>, manifest_dir: &str, triple: &str) -> (r:
    String)
    ensures
        r@ == first_existing_spec(candidates@, dev_whisper_spec(manifest_dir@, triple@)),
{
    let mut name = owned("whisper-");
    name.append(triple);
    let dev = join_path(join_path(manifest_dir, "binaries").as_str(), name.as_str());
    first_existing(candidates, dev.as_str())
}

/// The bundled model of a development checkout.
pub open spec fn dev_model_spec(manifest_dir: Seq<char>) -> Seq<char> {
    path_join(manifest_dir, "resources/models/ggml-tiny.bin"@)
}

/// The bundled model: the first of the candidates (the bundled resource)
/// where a file is, else the one of the development checkout.
pub fn resolve_bundled_model(candidates: &Vec<Candidate>, manifest_dir: &str) -> (r: String)
    ensures
        r@ == first_existing_spec(candidates@, dev_model_spec(manifest_dir@)),
{
    let dev = join_path(manifest_dir, "resources/models/ggml-tiny.bin");
    first_existing(candidates, dev.as_str())
}

} // verus!
