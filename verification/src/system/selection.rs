//! Reading the selected text of the focused application.
//!
//! On macOS the selection is copied to the clipboard with Cmd+C by the
//! caller, and this module decides what the clipboard then gives; elsewhere
//! reading the selection is refused.

use vstd::prelude::*;
use crate::text::{trim, trim_spec, to_chars};
use crate::system::permissions::PlatformError;

verus! {

/// Why no selected text was read.
#[derive(Debug, Clone, Copy, PartialEq, Eq, Structural)]
pub enum SelectionError {
    /// Cmd+C left the clipboard empty or holding only whitespace.
    NothingSelected,
}

/// The selected text from what the clipboard holds after Cmd+C: the trimmed
/// clipboard text; an error when that is empty (or the clipboard holds no
/// text).
pub fn selection_from_clipboard(clipboard: Option<String>) -> (r: Result<String, SelectionError>)
    ensures
        ({
            let t = match clipboard {
                Some(s) => trim_spec(s@),
                None => Seq::<char>::empty(),
            };
            match r {
                Ok(s) => t.len() > 0 && s@ == t,
                Err(_) => t.len() == 0,
            }
        }),
{
    let selected = match &clipboard {
        Some(s) => trim(s.as_str()),
        None => String::new(),
    };
    if to_chars(selected.as_str()).len() == 0 {
        Err(SelectionError::NothingSelected)
    } else {
        Ok(selected)
    }
}

/// Reading the selection on a system without the macOS clipboard and event
/// APIs is refused.
pub fn selected_text() -> (r: Result<String, PlatformError>)
    ensures
        r matches Err(e) && e == PlatformError::SelectionUnavailable,
{
    Err(PlatformError::SelectionUnavailable)
}

} // verus!
