//! The selection overlay: a small button shown next to the text selected in
//! any application.
//!
//! The caller polls the accessibility API a few times a second and hands the
//! answers over; this module decides whether the overlay shows and where. An
//! anchor is whatever the caller positions the overlay with (a screen
//! rectangle); nothing here looks inside it.

use vstd::prelude::*;
use crate::text::{same_text, trim, trim_spec, to_chars, owned, push_signed, push_decimal, signed_text, decimal_text};

verus! {

/// What the overlay remembers between two polls: the mouse anchor frozen for
/// the current selection, and that selection's signature.
#[derive(Debug)]
pub struct SelectionMemory<A> {
    pub frozen_fallback_anchor: Option<A>,
    pub last_selection_sig: Option<String>,
}

/// What one poll of the accessibility API found.
#[derive(Debug)]
pub struct SelectionProbe<A> {
    /// The accessibility permission is granted.
    pub accessibility_granted: bool,
    /// The focused element reports a non-empty selected range.
    pub has_selection: bool,
    /// The focused element reports non-blank selected text.
    pub has_selected_text: bool,
    /// The bounds of the selection, when the application gives them.
    pub bounds: Option<A>,
    /// A signature of the selection (its range, or its text length).
    pub signature: Option<String>,
    /// The mouse position.
    pub mouse_anchor: Option<A>,
}

/// Whether the overlay shows, and where.
#[derive(Debug)]
pub struct OverlayState<A> {
    pub visible: bool,
    pub anchor: Option<A>,
}

impl<A> SelectionMemory<A> {
    /// A memory of nothing.
    pub fn new() -> (r: Self)
        ensures
            r.frozen_fallback_anchor is None,
            r.last_selection_sig is None,
    {
        SelectionMemory { frozen_fallback_anchor: None, last_selection_sig: None }
    }
}

/// The text of an optional signature.
pub open spec fn sig_view(s: Option<String>) -> Option<Seq<char>> {
    match s {
        Some(x) => Some(x@),
        None => None,
    }
}

/// The anchor a poll gives, and what is remembered after it: (anchor, frozen
/// anchor, signature). Without permission or selection nothing shows and
/// nothing is remembered. Selection bounds win when there are any, and the
/// memory is cleared. Otherwise the overlay falls back to the mouse position,
/// frozen once per selection signature so that it does not follow the
/// cursor; without a signature a frozen anchor is kept, else the mouse is
/// used without being frozen.
pub open spec fn poll_spec<A>(
    frozen: Option<A>,
    sig: Option<Seq<char>>,
    probe: SelectionProbe<A>,
) -> (Option<A>, Option<A>, Option<Seq<char>>) {
    if !probe.accessibility_granted || (!probe.has_selection && !probe.has_selected_text) {
        (None, None, None)
    } else if probe.bounds is Some {
        (probe.bounds, None, None)
    } else {
        match sig_view(probe.signature) {
            None => (
                if frozen is Some {
                    frozen
                } else {
                    probe.mouse_anchor
                },
                frozen,
                sig,
            ),
            Some(s) => if sig == Some(s) {
                (frozen, frozen, sig)
            } else {
                (probe.mouse_anchor, probe.mouse_anchor, Some(s))
            },
        }
    }
}

/// One poll: updates the memory and says whether and where the overlay
/// shows. It shows exactly when there is an anchor.
pub fn poll_state<A: Copy>(mem: &mut SelectionMemory<A>, probe: &SelectionProbe<A>) -> (r:
    OverlayState<A>)
    ensures
        ({
            let (anchor, frozen, sig) = poll_spec(
                old(mem).frozen_fallback_anchor,
                sig_view(old(mem).last_selection_sig),
                *probe,
            );
            &&& r.anchor == anchor
            &&& r.visible == anchor is Some
            &&& final(mem).frozen_fallback_anchor == frozen
            &&& sig_view(final(mem).last_selection_sig) == sig
        }),
{
    if !probe.accessibility_granted || (!probe.has_selection && !probe.has_selected_text) {
        mem.frozen_fallback_anchor = None;
        mem.last_selection_sig = None;
        return OverlayState { visible: false, anchor: None };
    }
    let anchor = match probe.bounds {
        Some(b) => {
            mem.frozen_fallback_anchor = None;
            mem.last_selection_sig = None;
            Some(b)
        },
        None => match &probe.signature {
            None => {
                if mem.frozen_fallback_anchor.is_some() {
                    mem.frozen_fallback_anchor
                } else {
                    probe.mouse_anchor
                }
            },
            Some(s) => {
                let same = match &mem.last_selection_sig {
                    Some(last) => same_text(last.as_str(), s.as_str()),
                    None => false,
                };
                if !same {
                    mem.last_selection_sig = Some(s.clone());
                    mem.frozen_fallback_anchor = probe.mouse_anchor;
                }
                mem.frozen_fallback_anchor
            },
        },
    };
    OverlayState { visible: anchor.is_some(), anchor }
}

/// The signature of a selection, from what the focused element reports: its
/// selected range (location, length) when the range is read, else the byte
/// length of its selected text when that is read. A range of positive length
/// gives `range:<location>:<length>`; otherwise a selected text gives
/// `textlen:<bytes>`; otherwise there is none.
pub open spec fn selection_signature_spec(range: Option<(i64, i64)>, text_len: Option<usize>) -> Option<
    Seq<char>,
> {
    let by_text = match text_len {
        Some(n) => Some("textlen:"@ + decimal_text(n as nat)),
        None => None,
    };
    match range {
        Some((loc, len)) => if len > 0 {
            Some("range:"@ + signed_text(loc as int) + ":"@ + signed_text(len as int))
        } else {
            by_text
        },
        None => by_text,
    }
}

/// The signature of a selection (see `selection_signature_spec`).
pub fn selection_signature_of(range: Option<(i64, i64)>, text_len: Option<usize>) -> (r: Option<
    String,
>)
    ensures
        match r {
            Some(s) => selection_signature_spec(range, text_len) == Some(s@),
            None => selection_signature_spec(range, text_len) is None,
        },
{
    match range {
        Some((loc, len)) => {
            if len > 0 {
                let mut s = owned("range:");
                push_signed(&mut s, loc);
                s.append(":");
                push_signed(&mut s, len);
                return Some(s);
            }
        },
        None => {},
    }
    match text_len {
        Some(n) => {
            let mut s = owned("textlen:");
            push_decimal(&mut s, n as u64);
            Some(s)
        },
        None => None,
    }
}

/// Whether the selected text that the focused element reports counts as a
/// selection: it is not blank.
pub fn selected_text_present(text: &str) -> (r: bool)
    ensures
        r == (trim_spec(text@).len() > 0),
{
    let t = trim(text);
    to_chars(t.as_str()).len() > 0
}

/// While the selection keeps its signature and gives no bounds, the overlay
/// stays where it was first put and the memory does not change.
pub proof fn law_anchor_stays_frozen<A>(frozen: Option<A>, sig: Seq<char>, probe: SelectionProbe<A>)
    requires
        probe.accessibility_granted,
        probe.has_selection || probe.has_selected_text,
        probe.bounds is None,
        sig_view(probe.signature) == Some(sig),
    ensures
        poll_spec(frozen, Some(sig), probe) == (frozen, frozen, Some(sig)),
{
}

/// Without the accessibility permission, or without a selection, the overlay
/// hides and forgets.
pub proof fn law_hidden_without_selection<A>(
    frozen: Option<A>,
    sig: Option<Seq<char>>,
    probe: SelectionProbe<A>,
)
    requires
        !probe.accessibility_granted || (!probe.has_selection && !probe.has_selected_text),
    ensures
        poll_spec(frozen, sig, probe) == (None::<A>, None::<A>, None::<Seq<char>>),
{
}

/// When a poll finds a selection but neither its bounds nor its signature,
/// an anchor frozen earlier is kept, wherever the mouse is, together with
/// what is remembered; with nothing frozen the overlay shows at the mouse
/// and nothing new is frozen.
pub proof fn law_unsigned_selection_keeps_frozen_anchor<A>(
    frozen: Option<A>,
    sig: Option<Seq<char>>,
    probe: SelectionProbe<A>,
)
    requires
        probe.accessibility_granted,
        probe.has_selection || probe.has_selected_text,
        probe.bounds is None,
        probe.signature is None,
    ensures
        frozen is Some ==> poll_spec(frozen, sig, probe) == (frozen, frozen, sig),
        frozen is None ==> poll_spec(frozen, sig, probe) == (probe.mouse_anchor, frozen, sig),
{
}

/// When the application gives the selection's bounds, the overlay shows at
/// them and forgets any frozen anchor.
pub proof fn law_bounds_win<A>(frozen: Option<A>, sig: Option<Seq<char>>, probe: SelectionProbe<A>)
    requires
        probe.accessibility_granted,
        probe.has_selection || probe.has_selected_text,
        probe.bounds is Some,
    ensures
        poll_spec(frozen, sig, probe) == (probe.bounds, None::<A>, None::<Seq<char>>),
{
}

/// A selection with a new signature and no bounds freezes the mouse position
/// as its anchor.
pub proof fn law_new_signature_freezes_mouse<A>(
    frozen: Option<A>,
    sig: Option<Seq<char>>,
    probe: SelectionProbe<A>,
    s: Seq<char>,
)
    requires
        probe.accessibility_granted,
        probe.has_selection || probe.has_selected_text,
        probe.bounds is None,
        sig_view(probe.signature) == Some(s),
        sig != Some(s),
    ensures
        poll_spec(frozen, sig, probe) == (probe.mouse_anchor, probe.mouse_anchor, Some(s)),
{
}

} // verus!
