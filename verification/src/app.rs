//! Decisions of the application loop: what a window asks of the
//! application, and when the session is saved.
use vstd::prelude::*;

use crate::keybindings::Action;

verus! {

/// Action returned from window event handling to the app level.
#[derive(Clone, Copy, Debug, PartialEq, Eq, Structural)]
pub enum WindowAction {
    NoAction,
    CloseWindow,
    NewWindow,
    SaveSession,
}

/// The application-level effect of a window shortcut, if it has one:
/// opening a window, closing (or killing) this one, or saving the session.
pub fn window_level_action(action: Action) -> (r: Option<WindowAction>)
    ensures
        r == match action {
            Action::NewWindow => Some(WindowAction::NewWindow),
            Action::CloseWindow | Action::KillWindow => Some(WindowAction::CloseWindow),
            Action::SaveSession => Some(WindowAction::SaveSession),
            _ => None,
        },
{
    match action {
        Action::NewWindow => Some(WindowAction::NewWindow),
        Action::CloseWindow | Action::KillWindow => Some(WindowAction::CloseWindow),
        Action::SaveSession => Some(WindowAction::SaveSession),
        _ => None,
    }
}

/// Whether frame `tick_count` is due for the periodic session save, which
/// happens about every thirty seconds at `fps` frames per second.
pub fn periodic_save_due(tick_count: u64, fps: u32) -> (due: bool)
    ensures
        due == (fps > 0 && (tick_count as int) % (fps as int * 30) == 0),
{
    let fps = fps as u64;
    fps > 0 && tick_count % (fps * 30) == 0
}

} // verus!
