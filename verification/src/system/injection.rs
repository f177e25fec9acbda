//! Text injection into the focused application on a system without the
//! macOS clipboard and event APIs: it is refused. On macOS the caller pastes
//! through the clipboard instead.

use vstd::prelude::*;
use crate::system::permissions::PlatformError;

verus! {

/// Pasting `text` into the focused application is refused.
pub fn paste_into_focused_app(text: &str) -> (r: Result<(), PlatformError>)
    ensures
        r == Err::<(), PlatformError>(PlatformError::InjectionUnavailable),
{
    Err(PlatformError::InjectionUnavailable)
}

} // verus!
