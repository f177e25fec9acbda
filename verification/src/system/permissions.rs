//! The privacy permissions on a system without privacy controls for them
//! (anything but macOS, where the application only runs for development):
//! every permission counts as granted, and a prompt has nothing to ask.
//! On macOS the caller probes the operating system instead.

use vstd::prelude::*;

verus! {

/// The microphone may be used.
pub fn microphone_granted() -> (r: bool)
    ensures
        r,
{
    true
}

/// Asking for the microphone succeeds at once.
pub fn prompt_microphone() -> (r: Result<(), PlatformError>)
    ensures
        r is Ok,
{
    Ok(())
}

/// The accessibility API may be used.
pub fn accessibility_granted() -> (r: bool)
    ensures
        r,
{
    true
}

/// Asking for the accessibility permission succeeds at once.
pub fn prompt_accessibility() -> (r: Result<(), PlatformError>)
    ensures
        r is Ok,
{
    Ok(())
}

/// A system service that this platform does not offer.
#[derive(Debug, Clone, Copy, PartialEq, Eq, Structural)]
pub enum PlatformError {
    /// Text injection needs the macOS clipboard and event APIs.
    InjectionUnavailable,
    /// Reading the selection needs the macOS clipboard and event APIs.
    SelectionUnavailable,
}

} // verus!
