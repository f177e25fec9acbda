//! Meeting recording and meeting notes.
//!
//! The recorder's state machine (start, stop, the shortcut's toggle), the
//! names and contents of the files a stopped meeting leaves, and the notes
//! listing: which directory entries are notes, their titles and dates, and
//! their order. Capturing audio and touching the disk is left to the caller.

use vstd::prelude::*;
use vstd::string::*;
use crate::state::{MeetingRuntime, meeting_state, idle_state};
use crate::clock::{format_utc, utc_format, rfc3339_utc, utc_rfc3339, end_of_year_9999};
use crate::commands::Note;
use crate::paths::{
    join_path,
    path_join,
    path_starts_with,
    path_starts_with_spec,
    is_component_name,
    law_joined_path_starts_with_base,
};
use crate::text::{owned, to_chars};

verus! {

/// Why a meeting could not be started or stopped.
#[derive(Debug, Clone, Copy, PartialEq, Eq, Structural)]
pub enum MeetingError {
    /// A meeting is already being recorded.
    AlreadyInProgress,
    /// No meeting is being recorded.
    NotInProgress,
    /// The recorder was recording without a session id.
    MissingSessionId,
    /// The clock gave a time that chrono cannot render.
    ClockOutOfRange,
}

/// The recorder's state as values: (recording, started at, session id).
pub type MeetingState = (bool, Option<i64>, Option<Seq<char>>);

/// The stamp in a session id: the start time as `YYYYMMDD-HHMMSS` (UTC).
pub open spec fn session_stamp(now: i64) -> Option<Seq<char>> {
    utc_format(now, "%Y%m%d-%H%M%S"@)
}

/// Starting a meeting at `now`: refused while one is recorded; otherwise the
/// recorder records under the id `mtg-<stamp>`, which is returned.
pub open spec fn start_spec(m: MeetingState, now: i64) -> (Result<Seq<char>, MeetingError>, MeetingState) {
    if m.0 {
        (Err(MeetingError::AlreadyInProgress), m)
    } else {
        match session_stamp(now) {
            Some(st) => (Ok("mtg-"@ + st), (true, Some(now), Some("mtg-"@ + st))),
            None => (Err(MeetingError::ClockOutOfRange), m),
        }
    }
}

/// Stopping a meeting: refused when none is recorded; otherwise the recorder
/// stops and hands back the session id and the start time. A recorder that
/// records without a session id stops, keeps its start time and reports it.
pub open spec fn stop_spec(m: MeetingState) -> (
    Result<(Seq<char>, Option<i64>), MeetingError>,
    MeetingState,
) {
    if !m.0 {
        (Err(MeetingError::NotInProgress), m)
    } else {
        match m.2 {
            None => (Err(MeetingError::MissingSessionId), (false, m.1, None)),
            Some(id) => (Ok((id, m.1)), idle_state()),
        }
    }
}

/// A recorder in a state that `start` and `stop` reach: it never records
/// without a session id.
pub open spec fn well_formed(m: MeetingState) -> bool {
    m.0 ==> m.2 is Some
}

/// Starts recording a meeting at `now` (UNIX seconds) and returns the new
/// session id.
pub fn start(rt: &mut MeetingRuntime, now: i64) -> (r: Result<String, MeetingError>)
    ensures
        (match r {
            Ok(s) => Ok(s@),
            Err(e) => Err(e),
        }, meeting_state(*final(rt))) == start_spec(meeting_state(*old(rt)), now),
        !old(rt).recording && 0 <= now <= end_of_year_9999() ==> r is Ok,
{
    if rt.recording {
        return Err(MeetingError::AlreadyInProgress);
    }
    match format_utc(now, "%Y%m%d-%H%M%S") {
        None => Err(MeetingError::ClockOutOfRange),
        Some(stamp) => {
            let mut id = owned("mtg-");
            id.append(stamp.as_str());
            rt.recording = true;
            rt.started_at = Some(now);
            rt.session_id = Some(id.clone());
            Ok(id)
        },
    }
}

/// Stops recording and returns the session id and the start time.
pub fn stop(rt: &mut MeetingRuntime) -> (r: Result<(String, Option<i64>), MeetingError>)
    ensures
        (match r {
            Ok(p) => Ok((p.0@, p.1)),
            Err(e) => Err(e),
        }, meeting_state(*final(rt))) == stop_spec(meeting_state(*old(rt))),
{
    if !rt.recording {
        return Err(MeetingError::NotInProgress);
    }
    rt.recording = false;
    match rt.session_id.take() {
        None => Err(MeetingError::MissingSessionId),
        Some(id) => {
            let started = rt.started_at.take();
            Ok((id, started))
        },
    }
}

/// The meeting shortcut flips the recording flag and nothing else, and
/// returns the new value.
pub fn toggle_recording(rt: &mut MeetingRuntime) -> (r: bool)
    ensures
        r == !old(rt).recording,
        meeting_state(*final(rt)) == (r, old(rt).started_at, meeting_state(*old(rt)).2),
{
    rt.recording = !rt.recording;
    rt.recording
}

/// A meeting started on an idle recorder and then stopped gives back its
/// session id and start time, and leaves the recorder idle.
pub proof fn law_start_then_stop(m: MeetingState, now: i64)
    requires
        !m.0,
        session_stamp(now) is Some,
    ensures
        ({
            let (started, after_start) = start_spec(m, now);
            let (stopped, after_stop) = stop_spec(after_start);
            &&& started == Ok::<Seq<char>, MeetingError>("mtg-"@ + session_stamp(now)->0)
            &&& stopped == Ok::<(Seq<char>, Option<i64>), MeetingError>(
                ("mtg-"@ + session_stamp(now)->0, Some(now)),
            )
            &&& after_stop == idle_state()
        }),
{
}

/// A refused start or stop leaves the recorder as it was.
pub proof fn law_refusals_change_nothing(m: MeetingState, now: i64)
    ensures
        m.0 ==> start_spec(m, now) == (Err::<Seq<char>, MeetingError>(
            MeetingError::AlreadyInProgress,
        ), m),
        !m.0 ==> stop_spec(m) == (Err::<(Seq<char>, Option<i64>), MeetingError>(
            MeetingError::NotInProgress,
        ), m),
{
}

/// `start` and `stop` keep the recorder well formed, and a well-formed
/// recorder that records always stops with its session id.
pub proof fn law_well_formed_kept(m: MeetingState, now: i64)
    requires
        well_formed(m),
    ensures
        well_formed(start_spec(m, now).1),
        well_formed(stop_spec(m).1),
        m.0 ==> stop_spec(m).0 is Ok,
{
}

/// The stamp of a note's date: `YYYY-MM-DD` (UTC).
pub open spec fn note_date(now: i64) -> Option<Seq<char>> {
    utc_format(now, "%Y-%m-%d"@)
}

/// The date of a note written at `now` (UNIX seconds), as `YYYY-MM-DD`.
pub fn utc_date(now: i64) -> (r: Option<String>)
    ensures
        match r {
            Some(s) => note_date(now) == Some(s@),
            None => note_date(now) is None,
        },
        0 <= now <= end_of_year_9999() ==> r is Some,
{
    format_utc(now, "%Y-%m-%d")
}

/// The title of a meeting's note: `<date>-<session id>`.
pub open spec fn note_title_spec(date: Seq<char>, session_id: Seq<char>) -> Seq<char> {
    date + "-"@ + session_id
}

/// The body of the note written when a meeting stops.
pub open spec fn note_template_spec(date: Seq<char>) -> Seq<char> {
    "# Réunion — "@ + date + "\n\n*Note générée par Luciole. Le pipeline de diarisation et de résumé n'est pas encore câblé dans cette version.*\n\n## Participants\n\n## Résumé\n\n## Décisions\n\n## Actions\n"@
}

/// The note's body for a meeting stopped on `date`.
pub fn note_template(date: &str) -> (r: String)
    ensures
        r@ == note_template_spec(date@),
{
    let mut r = owned("# Réunion — ");
    r.append(date);
    r.append(
        "\n\n*Note générée par Luciole. Le pipeline de diarisation et de résumé n'est pas encore câblé dans cette version.*\n\n## Participants\n\n## Résumé\n\n## Décisions\n\n## Actions\n",
    );
    r
}

/// Where a stopped meeting's note and transcript are written.
#[derive(Debug)]
pub struct MeetingFiles {
    pub note_path: String,
    pub transcript_path: String,
}

/// The note `<notes dir>/<date>-<id>.md` and the transcript
/// `<transcripts dir>/<date>-<id>_transcript.txt` of a meeting.
pub fn meeting_files(notes_dir: &str, transcripts_dir: &str, date: &str, session_id: &str) -> (r:
    MeetingFiles)
    ensures
        r.note_path@ == path_join(notes_dir@, note_title_spec(date@, session_id@) + ".md"@),
        r.transcript_path@ == path_join(
            transcripts_dir@,
            note_title_spec(date@, session_id@) + "_transcript.txt"@,
        ),
{
    let mut title = owned(date);
    title.append("-");
    title.append(session_id);
    let mut note = title.clone();
    note.append(".md");
    let mut transcript = title;
    transcript.append("_transcript.txt");
    MeetingFiles {
        note_path: join_path(notes_dir, note.as_str()),
        transcript_path: join_path(transcripts_dir, transcript.as_str()),
    }
}

/// What a stopped meeting reports.
#[derive(Debug)]
pub struct MeetingResult {
    pub note_path: String,
    pub transcript_path: String,
    pub speakers_pending_naming: Vec<String>,
}

/// The report of a stopped meeting: its two files and, for now, no speaker
/// left to name.
pub fn meeting_result(files: MeetingFiles) -> (r: MeetingResult)
    ensures
        r.note_path == files.note_path,
        r.transcript_path == files.transcript_path,
        r.speakers_pending_naming@.len() == 0,
{
    MeetingResult {
        note_path: files.note_path,
        transcript_path: files.transcript_path,
        speakers_pending_naming: Vec::new(),
    }
}

/// A note may be read only from inside the notes directory: the canonical
/// path of the note must start, component by component, with the canonical
/// notes directory.
pub fn note_path_allowed(canonical: &str, notes_root: &str) -> (r: bool)
    ensures
        r == path_starts_with_spec(canonical@, notes_root@),
{
    path_starts_with(canonical, notes_root)
}

/// No `/` in a piece of a file name.
pub open spec fn no_slash(s: Seq<char>) -> bool {
    forall|i: int| 0 <= i < s.len() ==> s[i] != '/'
}

proof fn lemma_md_name(title: Seq<char>)
    requires
        title.len() > 0,
    ensures
        ({
            let name = title + ".md"@;
            &&& is_note_name(name)
            &&& file_stem_spec(name) == title
        }),
{
    reveal_strlit(".md");
    reveal_strlit("md");
    let name = title + ".md"@;
    assert(name.len() == title.len() + 3);
    assert(name.drop_last().drop_last() == title + seq!['.']);
    assert(name.last() == 'd');
    assert(name.drop_last().last() == 'm');
    assert((title + seq!['.']).last() == '.');
    assert(last_dot(title + seq!['.']) == Some(title.len() as int));
    assert(last_dot(name.drop_last()) == Some(title.len() as int));
    assert(last_dot(name) == Some(title.len() as int));
    assert(name != dot_dot()) by {
        if name == dot_dot() {
            assert(name.len() == 2);
        }
    }
    assert(name.subrange((title.len() + 1) as int, name.len() as int) == "md"@) by {
        assert(name.subrange((title.len() + 1) as int, name.len() as int) =~= "md"@);
    }
    assert(name.take(title.len() as int) == title);
}

/// The note that a stopped meeting writes is one that the notes listing
/// shows, titled `<date>-<session id>`, and one that may be read: it lies
/// inside the notes directory. (The date and the session id hold no `/`, as
/// those the recorder makes do not.)
pub proof fn law_meeting_note_is_listed_and_readable(
    notes_dir: Seq<char>,
    date: Seq<char>,
    session_id: Seq<char>,
)
    requires
        notes_dir.len() > 0,
        no_slash(date),
        no_slash(session_id),
    ensures
        ({
            let name = note_title_spec(date, session_id) + ".md"@;
            &&& is_note_name(name)
            &&& file_stem_spec(name) == note_title_spec(date, session_id)
            &&& path_starts_with_spec(path_join(notes_dir, name), notes_dir)
        }),
{
    reveal_strlit("-");
    reveal_strlit(".md");
    let title = note_title_spec(date, session_id);
    let name = title + ".md"@;
    assert(title.len() > 0);
    lemma_md_name(title);
    assert forall|i: int| 0 <= i < name.len() implies name[i] != '/' by {
        if i < date.len() {
            assert(name[i] == date[i]);
        } else if i == date.len() {
            assert(name[i] == '-');
        } else if i < title.len() {
            assert(name[i] == session_id[i - date.len() - 1]);
        } else {
            assert(name[i] == ".md"@[i - title.len()]);
        }
    }
    assert(name != seq!['.']) by {
        if name == seq!['.'] {
            assert(name.len() == 1);
        }
    }
    assert(is_component_name(name));
    law_joined_path_starts_with_base(notes_dir, name);
}

/// The name `..`.
pub open spec fn dot_dot() -> Seq<char> {
    seq!['.', '.']
}

/// The position of the last `.` in `name`, if any.
pub open spec fn last_dot(name: Seq<char>) -> Option<int>
    decreases name.len(),
{
    if name.len() == 0 {
        None
    } else if name.last() == '.' {
        Some(name.len() - 1)
    } else {
        last_dot(name.drop_last())
    }
}

/// `Path::extension` of a file name: what follows its last `.`, unless the
/// name is `..`, has no `.`, or has its last `.` at the start.
pub open spec fn extension_spec(name: Seq<char>) -> Option<Seq<char>> {
    if name == dot_dot() {
        None
    } else {
        match last_dot(name) {
            None => None,
            Some(i) => if i == 0 {
                None
            } else {
                Some(name.subrange(i + 1, name.len() as int))
            },
        }
    }
}

/// `Path::file_stem` of a file name: what precedes its last `.`, or the whole
/// name when it is `..`, has no `.`, or starts with its last `.`.
pub open spec fn file_stem_spec(name: Seq<char>) -> Seq<char> {
    if name == dot_dot() {
        name
    } else {
        match last_dot(name) {
            None => name,
            Some(i) => if i == 0 {
                name
            } else {
                name.take(i)
            },
        }
    }
}

proof fn lemma_last_dot_suffix(name: Seq<char>, j: int)
    requires
        0 <= j <= name.len(),
        forall|k: int| j <= k < name.len() ==> name[k] != '.',
    ensures
        last_dot(name) == last_dot(name.take(j)),
    decreases name.len() - j,
{
    if j < name.len() {
        lemma_last_dot_suffix(name, j + 1);
        assert(name.take(j + 1).drop_last() == name.take(j));
        assert(name.take(j + 1).last() == name[j]);
    } else {
        assert(name.take(j) == name);
    }
}

/// Finds the last `.` of a file name.
fn find_last_dot(v: &Vec<char>) -> (r: Option<usize>)
    ensures
        match r {
            Some(i) => last_dot(v@) == Some(i as int) && i < v@.len(),
            None => last_dot(v@) is None,
        },
{
    let mut j: usize = v.len();
    while j > 0 && v[j - 1] != '.'
        invariant
            j <= v@.len(),
            forall|k: int| j <= k < v@.len() ==> v@[k] != '.',
        decreases j,
    {
        j = j - 1;
    }
    proof {
        lemma_last_dot_suffix(v@, j as int);
    }
    if j == 0 {
        assert(v@.take(0) == Seq::<char>::empty());
        None
    } else {
        assert(v@.take(j as int).last() == v@[j - 1]);
        Some(j - 1)
    }
}

fn is_dot_dot(v: &Vec<char>) -> (r: bool)
    ensures
        r == (v@ == dot_dot()),
{
    let r = v.len() == 2 && v[0] == '.' && v[1] == '.';
    proof {
        if v@ == dot_dot() {
            assert(v@.len() == 2);
        }
        if r {
            assert(v@ =~= dot_dot());
        }
    }
    r
}

/// `Path::extension` of a file name.
pub fn extension_of(name: &str) -> (r: Option<String>)
    ensures
        match r {
            Some(e) => extension_spec(name@) == Some(e@),
            None => extension_spec(name@) is None,
        },
{
    let v = to_chars(name);
    if is_dot_dot(&v) {
        return None;
    }
    match find_last_dot(&v) {
        None => None,
        Some(i) => if i == 0 {
            None
        } else {
            Some(crate::text::string_from_range(&v, i + 1, v.len()))
        },
    }
}

/// `Path::file_stem` of a file name.
pub fn file_stem_of(name: &str) -> (r: String)
    ensures
        r@ == file_stem_spec(name@),
{
    let v = to_chars(name);
    if is_dot_dot(&v) {
        return owned(name);
    }
    match find_last_dot(&v) {
        None => owned(name),
        Some(i) => if i == 0 {
            owned(name)
        } else {
            let r = crate::text::string_from_range(&v, 0, i);
            assert(v@.subrange(0, i as int) == v@.take(i as int));
            r
        },
    }
}

/// A file is a note when its extension is `md`.
pub open spec fn is_note_name(name: Seq<char>) -> bool {
    extension_spec(name) == Some("md"@)
}

/// Whether a directory entry with this file name is a note.
pub fn is_note_file(name: &str) -> (r: bool)
    ensures
        r == is_note_name(name@),
{
    match extension_of(name) {
        Some(e) => crate::text::same_text(e.as_str(), "md"),
        None => false,
    }
}

/// A directory entry of the notes directory: its path, its file name (with
/// the bytes that are not valid UTF-8 replaced by U+FFFD), whether the name
/// was valid UTF-8, and its creation time in UNIX seconds when the file
/// system reports one.
#[derive(Debug)]
pub struct NoteFile {
    pub path: String,
    pub name: String,
    pub name_is_utf8: bool,
    pub created_secs: Option<u64>,
}

/// The title of a note: its file stem, or `note` when the name is not valid
/// UTF-8 (a note's extension is `md`, so the invalid bytes are in the stem).
pub open spec fn note_title_of(name: Seq<char>, name_is_utf8: bool) -> Seq<char> {
    if name_is_utf8 {
        file_stem_spec(name)
    } else {
        "note"@
    }
}

/// The creation date shown for a note: its creation time in RFC 3339, or
/// `now` when there is none or chrono cannot render it.
pub open spec fn created_label_spec(created: Option<u64>, now: Seq<char>) -> Seq<char> {
    match created {
        Some(d) => match utc_rfc3339(d as i64) {
            Some(s) => s,
            None => now,
        },
        None => now,
    }
}

/// The creation date shown for a note.
pub fn created_label(created: Option<u64>, now: &str) -> (r: String)
    ensures
        r@ == created_label_spec(created, now@),
{
    match created {
        Some(d) => match rfc3339_utc(d as i64) {
            Some(s) => s,
            None => owned(now),
        },
        None => owned(now),
    }
}

/// A note as text: (path, title, creation date).
pub open spec fn note_view(n: Note) -> (Seq<char>, Seq<char>, Seq<char>) {
    (n.path@, n.title@, n.created_at@)
}

pub open spec fn note_views(v: Seq<Note>) -> Seq<(Seq<char>, Seq<char>, Seq<char>)> {
    v.map_values(|n: Note| note_view(n))
}

/// The notes among the entries, in directory order: each entry whose name
/// has the extension `md`, titled by `note_title_of`.
pub open spec fn notes_of(files: Seq<NoteFile>, now: Seq<char>) -> Seq<
    (Seq<char>, Seq<char>, Seq<char>),
>
    decreases files.len(),
{
    if files.len() == 0 {
        Seq::empty()
    } else {
        let p = notes_of(files.drop_last(), now);
        let f = files.last();
        if is_note_name(f.name@) {
            p.push(
                (
                    f.path@,
                    note_title_of(f.name@, f.name_is_utf8),
                    created_label_spec(f.created_secs, now),
                ),
            )
        } else {
            p
        }
    }
}

proof fn lemma_last_dot_is_dot(name: Seq<char>)
    ensures
        last_dot(name) matches Some(i) ==> 0 <= i < name.len() && name[i] == '.',
    decreases name.len(),
{
    if name.len() > 0 && name.last() != '.' {
        lemma_last_dot_is_dot(name.drop_last());
    }
}

/// A note's file stem followed by `.md` gives back its file name.
proof fn lemma_note_stem_md(name: Seq<char>)
    requires
        is_note_name(name),
    ensures
        file_stem_spec(name) + ".md"@ == name,
{
    reveal_strlit(".md");
    reveal_strlit("md");
    lemma_last_dot_is_dot(name);
    let i = last_dot(name)->0;
    assert(name.subrange(i + 1, name.len() as int) == "md"@);
    assert(name.len() == i + 3);
    assert(name[i + 1] == name.subrange(i + 1, name.len() as int)[0]);
    assert(name[i + 2] == name.subrange(i + 1, name.len() as int)[1]);
    assert(file_stem_spec(name) == name.take(i));
    assert(name.take(i) + ".md"@ =~= name);
}

/// The listed note for a note file: its path, its title, its date.
pub open spec fn listed_from(x: (Seq<char>, Seq<char>, Seq<char>), f: NoteFile, now: Seq<char>) -> bool {
    &&& x.0 == f.path@
    &&& is_note_name(f.name@)
    &&& (f.name_is_utf8 ==> x.1 + ".md"@ == f.name@)
    &&& (!f.name_is_utf8 ==> x.1 == "note"@)
    &&& x.2 == created_label_spec(f.created_secs, now)
}

proof fn lemma_notes_of_sound(files: Seq<NoteFile>, now: Seq<char>)
    ensures
        forall|x: (Seq<char>, Seq<char>, Seq<char>)|
            #[trigger] notes_of(files, now).contains(x) ==> exists|j: int|
                0 <= j < files.len() && listed_from(x, #[trigger] files[j], now),
    decreases files.len(),
{
    if files.len() > 0 {
        let p = files.drop_last();
        lemma_notes_of_sound(p, now);
        let f = files.last();
        assert forall|x: (Seq<char>, Seq<char>, Seq<char>)|
            #[trigger] notes_of(files, now).contains(x) implies exists|j: int|
                0 <= j < files.len() && listed_from(x, #[trigger] files[j], now) by {
            let q = notes_of(p, now);
            if q.contains(x) {
                let j = choose|j: int| 0 <= j < p.len() && listed_from(x, #[trigger] p[j], now);
                assert(files[j] == p[j]);
            } else {
                let k = choose|k: int| 0 <= k < notes_of(files, now).len() && notes_of(files, now)[k] == x;
                assert(is_note_name(f.name@));
                assert(k == q.len());
                if f.name_is_utf8 {
                    lemma_note_stem_md(f.name@);
                }
                assert(files[files.len() - 1] == f);
                assert(listed_from(x, files[files.len() - 1], now));
            }
        }
    }
}

proof fn lemma_notes_of_complete(files: Seq<NoteFile>, now: Seq<char>)
    ensures
        forall|j: int|
            0 <= j < files.len() && is_note_name((#[trigger] files[j]).name@) ==> notes_of(
                files,
                now,
            ).contains(
                (
                    files[j].path@,
                    note_title_of(files[j].name@, files[j].name_is_utf8),
                    created_label_spec(files[j].created_secs, now),
                ),
            ),
    decreases files.len(),
{
    if files.len() > 0 {
        let p = files.drop_last();
        lemma_notes_of_complete(p, now);
        let r = notes_of(files, now);
        let q = notes_of(p, now);
        assert forall|j: int|
            0 <= j < files.len() && is_note_name((#[trigger] files[j]).name@) implies r.contains(
                (
                    files[j].path@,
                    note_title_of(files[j].name@, files[j].name_is_utf8),
                    created_label_spec(files[j].created_secs, now),
                ),
            ) by {
            let x = (
                files[j].path@,
                note_title_of(files[j].name@, files[j].name_is_utf8),
                created_label_spec(files[j].created_secs, now),
            );
            if j < p.len() {
                assert(p[j] == files[j]);
                assert(q.contains(x));
                let k = choose|k: int| 0 <= k < q.len() && q[k] == x;
                assert(r[k] == x);
            } else {
                assert(files.last() == files[j]);
                assert(r[q.len() as int] == x);
            }
        }
    }
}

/// The notes listing shows exactly the note files: every listed note comes
/// from a directory entry with the extension `md`, with that entry's path and
/// date, and titled by its file name without the `.md` (or `note` when the
/// name is not valid UTF-8); and every such entry is listed.
pub proof fn law_listed_notes_are_the_note_files(files: Seq<NoteFile>, now: Seq<char>)
    ensures
        forall|x: (Seq<char>, Seq<char>, Seq<char>)|
            #[trigger] sort_newest_first(notes_of(files, now)).contains(x) ==> exists|j: int|
                0 <= j < files.len() && listed_from(x, #[trigger] files[j], now),
        forall|j: int|
            0 <= j < files.len() && is_note_name((#[trigger] files[j]).name@) ==> exists|
                x: (Seq<char>, Seq<char>, Seq<char>),
            |
                #[trigger] sort_newest_first(notes_of(files, now)).contains(x) && listed_from(
                    x,
                    files[j],
                    now,
                ),
{
    broadcast use vstd::seq_lib::group_to_multiset_ensures;

    let n = notes_of(files, now);
    let s = sort_newest_first(n);
    law_sort_keeps_notes(n);
    lemma_notes_of_sound(files, now);
    lemma_notes_of_complete(files, now);
    assert forall|x: (Seq<char>, Seq<char>, Seq<char>)| #[trigger] s.contains(x) implies n.contains(
        x,
    ) by {
        assert(s.to_multiset().count(x) > 0);
        assert(n.to_multiset().count(x) > 0);
    }
    assert forall|j: int|
        0 <= j < files.len() && is_note_name((#[trigger] files[j]).name@) implies exists|
            x: (Seq<char>, Seq<char>, Seq<char>),
        | #[trigger] s.contains(x) && listed_from(x, files[j], now) by {
        let f = files[j];
        let x = (f.path@, note_title_of(f.name@, f.name_is_utf8), created_label_spec(f.created_secs, now));
        assert(n.contains(x));
        assert(n.to_multiset().count(x) > 0);
        assert(s.to_multiset().count(x) > 0);
        assert(s.contains(x));
        if f.name_is_utf8 {
            lemma_note_stem_md(f.name@);
        }
        assert(listed_from(x, f, now));
    }
}

/// `a` comes before `b` in the order of `String`: character by character,
/// a proper prefix first.
pub open spec fn text_less(a: Seq<char>, b: Seq<char>) -> bool
    decreases a.len(),
{
    if a.len() == 0 {
        b.len() > 0
    } else if b.len() == 0 {
        false
    } else if a[0] != b[0] {
        a[0] < b[0]
    } else {
        text_less(a.drop_first(), b.drop_first())
    }
}

/// Inserts `x` into a list sorted newest first: before the first note that
/// is older than `x`, after all those that are not.
pub open spec fn insert_newest_first(
    s: Seq<(Seq<char>, Seq<char>, Seq<char>)>,
    x: (Seq<char>, Seq<char>, Seq<char>),
) -> Seq<(Seq<char>, Seq<char>, Seq<char>)>
    decreases s.len(),
{
    if s.len() == 0 {
        seq![x]
    } else if text_less(s[0].2, x.2) {
        seq![x] + s
    } else {
        seq![s[0]] + insert_newest_first(s.drop_first(), x)
    }
}

/// The notes sorted newest first, notes of equal date in their original
/// order (a stable sort on the date, descending).
pub open spec fn sort_newest_first(s: Seq<(Seq<char>, Seq<char>, Seq<char>)>) -> Seq<
    (Seq<char>, Seq<char>, Seq<char>),
>
    decreases s.len(),
{
    if s.len() == 0 {
        s
    } else {
        insert_newest_first(sort_newest_first(s.drop_last()), s.last())
    }
}

proof fn lemma_text_less_skip(a: Seq<char>, b: Seq<char>, i: int)
    requires
        0 <= i <= a.len(),
        i <= b.len(),
        a.take(i) == b.take(i),
    ensures
        text_less(a, b) == text_less(a.skip(i), b.skip(i)),
    decreases i,
{
    if i > 0 {
        assert(a[0] == a.take(i)[0]);
        assert(b[0] == b.take(i)[0]);
        assert(a.drop_first().take(i - 1) == a.take(i).drop_first());
        assert(b.drop_first().take(i - 1) == b.take(i).drop_first());
        lemma_text_less_skip(a.drop_first(), b.drop_first(), i - 1);
        assert(a.drop_first().skip(i - 1) == a.skip(i));
        assert(b.drop_first().skip(i - 1) == b.skip(i));
    } else {
        assert(a.skip(0) == a);
        assert(b.skip(0) == b);
    }
}

/// Compares two strings as `String`'s order does.
pub fn text_less_than(a: &str, b: &str) -> (r: bool)
    ensures
        r == text_less(a@, b@),
{
    let va = to_chars(a);
    let vb = to_chars(b);
    let mut i: usize = 0;
    while i < va.len() && i < vb.len() && va[i] == vb[i]
        invariant
            va@ == a@,
            vb@ == b@,
            i <= va@.len(),
            i <= vb@.len(),
            va@.take(i as int) == vb@.take(i as int),
        decreases va.len() - i,
    {
        assert(va@.take(i + 1) == va@.take(i as int).push(va@[i as int]));
        assert(vb@.take(i + 1) == vb@.take(i as int).push(vb@[i as int]));
        i = i + 1;
    }
    proof {
        lemma_text_less_skip(va@, vb@, i as int);
    }
    if i == va.len() {
        i < vb.len()
    } else if i == vb.len() {
        false
    } else {
        assert(va@.skip(i as int)[0] == va@[i as int]);
        assert(vb@.skip(i as int)[0] == vb@[i as int]);
        va[i] < vb[i]
    }
}

proof fn lemma_insert_at(
    s: Seq<(Seq<char>, Seq<char>, Seq<char>)>,
    x: (Seq<char>, Seq<char>, Seq<char>),
    j: int,
)
    requires
        0 <= j <= s.len(),
        forall|k: int| 0 <= k < j ==> !text_less(#[trigger] s[k].2, x.2),
        j < s.len() ==> text_less(s[j].2, x.2),
    ensures
        insert_newest_first(s, x) == s.take(j) + seq![x] + s.skip(j),
    decreases j,
{
    if j == 0 {
        assert(s.take(0) == Seq::<(Seq<char>, Seq<char>, Seq<char>)>::empty());
        assert(s.skip(0) == s);
        if s.len() > 0 {
            assert(seq![x] + s == s.take(0) + seq![x] + s.skip(0));
        }
    } else {
        let t = s.drop_first();
        assert forall|k: int| 0 <= k < j - 1 implies !text_less(#[trigger] t[k].2, x.2) by {
            assert(t[k] == s[k + 1]);
        }
        if j - 1 < t.len() {
            assert(t[j - 1] == s[j]);
        }
        lemma_insert_at(t, x, j - 1);
        assert(!text_less(s[0].2, x.2));
        assert(seq![s[0]] + (t.take(j - 1) + seq![x] + t.skip(j - 1)) == s.take(j) + seq![x]
            + s.skip(j));
    }
}

proof fn lemma_note_views_insert(v: Seq<Note>, j: int, n: Note)
    requires
        0 <= j <= v.len(),
    ensures
        note_views(v.insert(j, n)) == note_views(v).take(j) + seq![note_view(n)] + note_views(
            v,
        ).skip(j),
{
    assert(note_views(v.insert(j, n)) =~= note_views(v).take(j) + seq![note_view(n)]
        + note_views(v).skip(j));
}

/// Sorts notes newest first, keeping notes of equal date in their order.
pub fn sort_notes_newest_first(notes: Vec<Note>) -> (r: Vec<Note>)
    ensures
        note_views(r@) == sort_newest_first(note_views(notes@)),
{
    let ghost all = note_views(notes@);
    let mut out: Vec<Note> = Vec::new();
    let mut rest = notes;
    let ghost orig = rest@;
    let n = rest.len();
    let mut i: usize = 0;
    assert(orig.skip(0) == orig);
    assert(all.take(0) == Seq::<(Seq<char>, Seq<char>, Seq<char>)>::empty());
    assert(note_views(out@) =~= Seq::<(Seq<char>, Seq<char>, Seq<char>)>::empty());
    while i < n
        invariant
            n == orig.len(),
            all == note_views(orig),
            i <= n,
            rest@ == orig.skip(i as int),
            note_views(out@) == sort_newest_first(all.take(i as int)),
        decreases n - i,
    {
        let x = rest.remove(0);
        assert(x == orig[i as int]);
        assert(rest@ == orig.skip(i + 1));
        assert(all.take(i + 1).drop_last() == all.take(i as int));
        assert(all.take(i + 1).last() == note_view(x));
        let mut j: usize = 0;
        let ghost s = note_views(out@);
        while j < out.len() && !text_less_than(out[j].created_at.as_str(), x.created_at.as_str())
            invariant
                s == note_views(out@),
                j <= out@.len(),
                forall|k: int| 0 <= k < j ==> !text_less(#[trigger] s[k].2, note_view(x).2),
            decreases out.len() - j,
        {
            assert(s[j as int] == note_view(out@[j as int]));
            j = j + 1;
        }
        proof {
            if j < out@.len() {
                assert(s[j as int] == note_view(out@[j as int]));
            }
            lemma_insert_at(s, note_view(x), j as int);
            lemma_note_views_insert(out@, j as int, x);
        }
        out.insert(j, x);
        i = i + 1;
    }
    assert(all.take(n as int) == all);
    out
}

/// The notes among the entries of the notes directory, newest first.
/// `now` is the date shown for a note whose creation time is unknown.
pub fn list_notes(files: Vec<NoteFile>, now: &str) -> (r: Vec<Note>)
    ensures
        note_views(r@) == sort_newest_first(notes_of(files@, now@)),
{
    let mut notes: Vec<Note> = Vec::new();
    let n = files.len();
    assert(files@.take(0) == Seq::<NoteFile>::empty());
    assert(note_views(notes@) =~= Seq::<(Seq<char>, Seq<char>, Seq<char>)>::empty());
    for i in 0..n
        invariant
            n == files@.len(),
            note_views(notes@) == notes_of(files@.take(i as int), now@),
    {
        let f = &files[i];
        assert(files@.take(i + 1).drop_last() == files@.take(i as int));
        assert(files@.take(i + 1).last() == *f);
        if is_note_file(f.name.as_str()) {
            let title = if f.name_is_utf8 {
                file_stem_of(f.name.as_str())
            } else {
                owned("note")
            };
            let note = Note {
                path: f.path.clone(),
                title,
                created_at: created_label(f.created_secs, now),
            };
            let ghost before = notes@;
            notes.push(note);
            assert(notes@ == before.push(notes@[notes@.len() - 1]));
            assert(note_views(notes@) =~= note_views(before).push(
                note_view(notes@[notes@.len() - 1]),
            ));
        }
    }
    assert(files@.take(n as int) == files@);
    sort_notes_newest_first(notes)
}

/// No note is followed by a newer one.
pub open spec fn newest_first(s: Seq<(Seq<char>, Seq<char>, Seq<char>)>) -> bool {
    forall|i: int| 0 <= i < s.len() - 1 ==> !text_less(#[trigger] s[i].2, s[i + 1].2)
}

proof fn lemma_text_less_asymmetric(a: Seq<char>, b: Seq<char>)
    ensures
        text_less(a, b) ==> !text_less(b, a),
    decreases a.len(),
{
    if a.len() > 0 && b.len() > 0 && a[0] == b[0] {
        lemma_text_less_asymmetric(a.drop_first(), b.drop_first());
    }
}

proof fn lemma_insert_shape(
    t: Seq<(Seq<char>, Seq<char>, Seq<char>)>,
    x: (Seq<char>, Seq<char>, Seq<char>),
)
    ensures
        insert_newest_first(t, x).len() == t.len() + 1,
        insert_newest_first(t, x)[0] == x || (t.len() > 0 && insert_newest_first(t, x)[0]
            == t[0]),
        insert_newest_first(t, x).to_multiset() == t.to_multiset().insert(x),
    decreases t.len(),
{
    broadcast use vstd::seq_lib::group_to_multiset_ensures;

    if t.len() == 0 {
        assert(seq![x] == Seq::<(Seq<char>, Seq<char>, Seq<char>)>::empty().push(x));
    } else {
        let rest = t.drop_first();
        lemma_insert_shape(rest, x);
        vstd::seq_lib::lemma_multiset_commutative(seq![x], t);
        vstd::seq_lib::lemma_multiset_commutative(seq![t[0]], insert_newest_first(rest, x));
        vstd::seq_lib::lemma_multiset_commutative(seq![t[0]], rest);
        assert(seq![t[0]] + rest == t);
        assert(seq![x] == Seq::<(Seq<char>, Seq<char>, Seq<char>)>::empty().push(x));
        assert(seq![t[0]] == Seq::<(Seq<char>, Seq<char>, Seq<char>)>::empty().push(t[0]));
    }
}

proof fn lemma_insert_keeps_order(
    t: Seq<(Seq<char>, Seq<char>, Seq<char>)>,
    x: (Seq<char>, Seq<char>, Seq<char>),
)
    requires
        newest_first(t),
    ensures
        newest_first(insert_newest_first(t, x)),
    decreases t.len(),
{
    if t.len() > 0 {
        let r = insert_newest_first(t, x);
        if text_less(t[0].2, x.2) {
            lemma_text_less_asymmetric(t[0].2, x.2);
            assert forall|i: int| 0 <= i < r.len() - 1 implies !text_less(
                #[trigger] r[i].2,
                r[i + 1].2,
            ) by {
                if i > 0 {
                    assert(r[i] == t[i - 1] && r[i + 1] == t[i]);
                }
            }
        } else {
            let rest = t.drop_first();
            assert forall|i: int| 0 <= i < rest.len() - 1 implies !text_less(
                #[trigger] rest[i].2,
                rest[i + 1].2,
            ) by {
                assert(rest[i] == t[i + 1] && rest[i + 1] == t[i + 2]);
            }
            lemma_insert_keeps_order(rest, x);
            lemma_insert_shape(rest, x);
            let q = insert_newest_first(rest, x);
            if rest.len() > 0 {
                assert(rest[0] == t[1]);
            }
            assert forall|i: int| 0 <= i < r.len() - 1 implies !text_less(
                #[trigger] r[i].2,
                r[i + 1].2,
            ) by {
                if i > 0 {
                    assert(r[i] == q[i - 1] && r[i + 1] == q[i]);
                } else {
                    assert(r[0] == t[0] && r[1] == q[0]);
                }
            }
        }
    }
}

/// The sorted notes are newest first.
pub proof fn law_sorted_newest_first(s: Seq<(Seq<char>, Seq<char>, Seq<char>)>)
    ensures
        newest_first(sort_newest_first(s)),
    decreases s.len(),
{
    if s.len() > 0 {
        law_sorted_newest_first(s.drop_last());
        lemma_insert_keeps_order(sort_newest_first(s.drop_last()), s.last());
    }
}

/// Sorting keeps every note and adds none.
pub proof fn law_sort_keeps_notes(s: Seq<(Seq<char>, Seq<char>, Seq<char>)>)
    ensures
        sort_newest_first(s).to_multiset() == s.to_multiset(),
    decreases s.len(),
{
    broadcast use vstd::seq_lib::group_to_multiset_ensures;

    if s.len() > 0 {
        law_sort_keeps_notes(s.drop_last());
        lemma_insert_shape(sort_newest_first(s.drop_last()), s.last());
        assert(s.drop_last().push(s.last()) == s);
    }
}

} // verus!
