//! What the application decides around the operating system: audio frames,
//! the selection overlay, the selected text, the menu bar, and the services
//! of a platform without the macOS APIs.

pub mod injection;
pub mod mic_record;
pub mod overlay;
pub mod permissions;
pub mod selection;
pub mod tray;
