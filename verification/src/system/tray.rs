//! The menu bar (tray) menu.

use vstd::prelude::*;
use vstd::string::*;
use crate::text::same_text;

verus! {

/// What a click on a menu item asks for.
#[derive(Debug, Clone, Copy, PartialEq, Eq, Structural)]
pub enum TrayAction {
    /// Show the main window on the notes.
    OpenNotes,
    /// Show the main window on the glossary.
    OpenGlossary,
    /// Show the main window on the settings.
    OpenSettings,
    /// Start or stop a meeting.
    ToggleMeeting,
    /// Quit the application.
    Quit,
    /// Nothing (an unknown item).
    Ignore,
}

/// The action of a menu item, from its id.
pub open spec fn tray_action_spec(id: Seq<char>) -> TrayAction {
    if id == "open-notes"@ {
        TrayAction::OpenNotes
    } else if id == "open-glossary"@ {
        TrayAction::OpenGlossary
    } else if id == "open-settings"@ {
        TrayAction::OpenSettings
    } else if id == "toggle-meeting"@ {
        TrayAction::ToggleMeeting
    } else if id == "quit"@ {
        TrayAction::Quit
    } else {
        TrayAction::Ignore
    }
}

/// Routes a menu event by the item's id.
pub fn tray_action(id: &str) -> (r: TrayAction)
    ensures
        r == tray_action_spec(id@),
{
    if same_text(id, "open-notes") {
        TrayAction::OpenNotes
    } else if same_text(id, "open-glossary") {
        TrayAction::OpenGlossary
    } else if same_text(id, "open-settings") {
        TrayAction::OpenSettings
    } else if same_text(id, "toggle-meeting") {
        TrayAction::ToggleMeeting
    } else if same_text(id, "quit") {
        TrayAction::Quit
    } else {
        TrayAction::Ignore
    }
}

/// The route of the main window that an action shows, if it shows one.
pub open spec fn route_spec(a: TrayAction) -> Option<Seq<char>> {
    match a {
        TrayAction::OpenNotes => Some("#/notes"@),
        TrayAction::OpenGlossary => Some("#/glossary"@),
        TrayAction::OpenSettings => Some("#/settings"@),
        _ => None,
    }
}

/// The route of the main window that an action shows.
pub fn route(a: TrayAction) -> (r: Option<&'static str>)
    ensures
        match r {
            Some(s) => route_spec(a) == Some(s@),
            None => route_spec(a) is None,
        },
{
    match a {
        TrayAction::OpenNotes => Some("#/notes"),
        TrayAction::OpenGlossary => Some("#/glossary"),
        TrayAction::OpenSettings => Some("#/settings"),
        _ => None,
    }
}

/// A menu item `open-<page>` shows the main window on the route `#/<page>`,
/// for each of the three pages, so the three items show three different
/// pages; the other items show none.
pub proof fn law_open_items_route_to_their_page(page: Seq<char>)
    requires
        page == "notes"@ || page == "glossary"@ || page == "settings"@,
    ensures
        route_spec(tray_action_spec("open-"@ + page)) == Some("#/"@ + page),
        route_spec(TrayAction::OpenNotes) != route_spec(TrayAction::OpenGlossary),
        route_spec(TrayAction::OpenNotes) != route_spec(TrayAction::OpenSettings),
        route_spec(TrayAction::OpenGlossary) != route_spec(TrayAction::OpenSettings),
        route_spec(TrayAction::ToggleMeeting) is None,
        route_spec(TrayAction::Quit) is None,
        route_spec(TrayAction::Ignore) is None,
{
    reveal_strlit("open-");
    reveal_strlit("#/");
    reveal_strlit("notes");
    reveal_strlit("glossary");
    reveal_strlit("settings");
    reveal_strlit("open-notes");
    reveal_strlit("open-glossary");
    reveal_strlit("open-settings");
    reveal_strlit("toggle-meeting");
    reveal_strlit("quit");
    reveal_strlit("#/notes");
    reveal_strlit("#/glossary");
    reveal_strlit("#/settings");
    assert("open-"@ + "notes"@ =~= "open-notes"@);
    assert("open-"@ + "glossary"@ =~= "open-glossary"@);
    assert("open-"@ + "settings"@ =~= "open-settings"@);
    assert("#/"@ + "notes"@ =~= "#/notes"@);
    assert("#/"@ + "glossary"@ =~= "#/glossary"@);
    assert("#/"@ + "settings"@ =~= "#/settings"@);
    assert("#/notes"@[2] != "#/glossary"@[2]);
    assert("#/notes"@[2] != "#/settings"@[2]);
    assert("#/glossary"@[2] != "#/settings"@[2]);
    assert("open-glossary"@ != "open-notes"@) by {
        assert("open-glossary"@[5] != "open-notes"@[5]);
    }
    assert("open-settings"@ != "open-notes"@) by {
        assert("open-settings"@[5] != "open-notes"@[5]);
    }
    assert("open-settings"@ != "open-glossary"@) by {
        assert("open-settings"@[5] != "open-glossary"@[5]);
    }
}

} // verus!
