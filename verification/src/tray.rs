//! The commands of the tray menu.

use vstd::prelude::*;

use crate::text::str_eq;

verus! {

/// What the tray menu asks the window to do.
#[derive(Debug, Clone, Copy, PartialEq, Eq, Structural)]
pub enum TrayCommand {
    ShowSettings,
    Quit,
}

/// The menu item labels.
pub const SETTINGS_LABEL: &'static str = "Settings";

pub const QUIT_LABEL: &'static str = "Quit";

pub const TRAY_TOOLTIP: &'static str = "rclippy";

/// What a click on the menu item `event_id` means, given the ids of the
/// settings and quit items: the command to send, if any, and whether the
/// menu stops listening. Settings is checked first.
pub fn handle_menu_event(settings_id: &str, quit_id: &str, event_id: &str) -> (r: (
    Option<TrayCommand>,
    bool,
))
    ensures
        r == if event_id@ == settings_id@ {
            (Some(TrayCommand::ShowSettings), false)
        } else if event_id@ == quit_id@ {
            (Some(TrayCommand::Quit), true)
        } else {
            (None, false)
        },
{
    if str_eq(event_id, settings_id) {
        (Some(TrayCommand::ShowSettings), false)
    } else if str_eq(event_id, quit_id) {
        (Some(TrayCommand::Quit), true)
    } else {
        (None, false)
    }
}

} // verus!
