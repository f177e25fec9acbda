//! Runtime state shared by the application's commands.

use vstd::prelude::*;

verus! {

/// The meeting recorder: whether a meeting is being recorded, since when
/// (UNIX seconds) and under which session id.
#[derive(Debug)]
pub struct MeetingRuntime {
    pub recording: bool,
    pub started_at: Option<i64>,
    pub session_id: Option<String>,
}

/// The meeting recorder as values: (recording, started at, session id).
pub open spec fn meeting_state(m: MeetingRuntime) -> (bool, Option<i64>, Option<Seq<char>>) {
    (
        m.recording,
        m.started_at,
        match m.session_id {
            Some(s) => Some(s@),
            None => None,
        },
    )
}

/// The state of a recorder that records nothing.
pub open spec fn idle_state() -> (bool, Option<i64>, Option<Seq<char>>) {
    (false, None, None)
}

impl Default for MeetingRuntime {
    fn default() -> (r: Self)
        ensures
            meeting_state(r) == idle_state(),
    {
        MeetingRuntime { recording: false, started_at: None, session_id: None }
    }
}

/// The dictation listener.
#[derive(Debug)]
pub struct DictationRuntime {
    pub listening: bool,
}

impl Default for DictationRuntime {
    fn default() -> (r: Self)
        ensures
            !r.listening,
    {
        DictationRuntime { listening: false }
    }
}

} // verus!
