use kova::app::{periodic_save_due, window_level_action, WindowAction};
use kova::keybindings::Action;

#[test]
fn window_shortcuts_reach_the_app() {
    assert_eq!(window_level_action(Action::NewWindow), Some(WindowAction::NewWindow));
    assert_eq!(window_level_action(Action::CloseWindow), Some(WindowAction::CloseWindow));
    assert_eq!(window_level_action(Action::KillWindow), Some(WindowAction::CloseWindow));
    assert_eq!(window_level_action(Action::NewTab), None);
    assert_eq!(window_level_action(Action::Copy), None);
}

#[test]
fn session_saved_every_thirty_seconds() {
    assert!(periodic_save_due(0, 60));
    assert!(!periodic_save_due(1, 60));
    assert!(periodic_save_due(1800, 60));
    assert!(!periodic_save_due(1799, 60));
    assert!(periodic_save_due(3600, 60));
    assert!(periodic_save_due(90, 3));
    assert!(!periodic_save_due(0, 0));
    assert!(!periodic_save_due(1800, 0));
}

#[test]
fn save_session_shortcut_reaches_the_app() {
    assert_eq!(window_level_action(Action::SaveSession), Some(WindowAction::SaveSession));
    assert_eq!(window_level_action(Action::ToggleHelp), None);
}
