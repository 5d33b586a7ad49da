use gitmedit::context::GitContext;
use gitmedit::keys::{map_event, Event, Key, KeyCode, Modifiers, MouseKind};
use gitmedit::layout::Pane;
use gitmedit::rebase;
use gitmedit::session::{Action, App, ScrollBy};

/// A commit message with a status trailer.
const AMMEND2: &str = "fix: release volume\n\n# Please enter the commit message for your changes.\n#\n# On branch TASK-1111-fix-stage-view\n# Changes to be committed:\n#\tmodified:   a.rs\n#\n";

/// An interactive rebase todo.
const TODO: &str = "pick 54763e6 # docs(state): record phase 8 context session\npick 45f8bcd # docs(08): create phase plan\n\n# Rebase 36d7eda..aa619f8 onto 36d7eda (2 commands)\n";

fn message_app() -> App {
    App::new(AMMEND2, GitContext::Commit, '#')
}

fn rebase_app() -> App {
    App::new(TODO, GitContext::Rebase, '#')
}

fn mods(ctrl: bool, alt: bool) -> Modifiers {
    Modifiers { ctrl, alt, shift: false, other: false }
}

fn key(code: KeyCode, modifiers: Modifiers) -> Event {
    Event::Key { key: Key { code, modifiers }, press: true }
}

fn ctrl(c: char) -> Event {
    key(KeyCode::Char(c), mods(true, false))
}

fn alt(code: KeyCode) -> Event {
    key(code, mods(false, true))
}

fn plain(code: KeyCode) -> Event {
    key(code, Modifiers::none())
}

fn mouse(kind: MouseKind) -> Event {
    Event::Mouse { kind, column: 7, row: 3 }
}

#[test]
fn mouse_clicks_and_wheel() {
    let mut app = message_app();
    assert_eq!(map_event(&mouse(MouseKind::LeftDown), &app), Some(Action::ClickAt { column: 7, row: 3 }));
    assert_eq!(map_event(&mouse(MouseKind::ScrollDown), &app), Some(Action::WheelAt { column: 7, row: 3, delta: 1 }));
    app.show_help = true;
    assert_eq!(map_event(&mouse(MouseKind::ScrollUp), &app), Some(Action::ScrollHelp(-1)));
    assert_eq!(map_event(&mouse(MouseKind::LeftDown), &app), None);
}

#[test]
fn key_release_is_ignored() {
    let release = Event::Key { key: Key { code: KeyCode::Char('a'), modifiers: Modifiers::none() }, press: false };
    assert_eq!(map_event(&release, &message_app()), None);
}

#[test]
fn help_swallows_everything_but_close_and_scroll() {
    let mut app = message_app();
    app.show_help = true;
    assert_eq!(map_event(&plain(KeyCode::Char('a')), &app), None);
    assert_eq!(map_event(&ctrl('s'), &app), None);
    assert_eq!(map_event(&plain(KeyCode::Esc), &app), Some(Action::ToggleHelp));
    assert_eq!(map_event(&ctrl('h'), &app), Some(Action::ToggleHelp));
    assert_eq!(map_event(&plain(KeyCode::Down), &app), Some(Action::ScrollHelp(1)));
}

#[test]
fn global_and_focus_keys() {
    let app = message_app();
    assert_eq!(map_event(&ctrl('s'), &app), Some(Action::Save));
    assert_eq!(map_event(&ctrl('h'), &app), Some(Action::ToggleHelp));
    assert_eq!(map_event(&alt(KeyCode::Right), &app), Some(Action::FocusRight));
    assert_eq!(map_event(&alt(KeyCode::Char('f')), &app), Some(Action::FocusRight));
    assert_eq!(map_event(&alt(KeyCode::Left), &app), Some(Action::FocusLeft));
    assert_eq!(map_event(&alt(KeyCode::Char('b')), &app), Some(Action::FocusLeft));
    assert_eq!(map_event(&ctrl('t'), &app), Some(Action::ToggleFocus));
    assert_eq!(map_event(&plain(KeyCode::Esc), &app), Some(Action::Cancel));
}

#[test]
fn right_pane_keys_scroll_and_esc_returns() {
    let mut app = message_app();
    app.focus = Pane::Right;
    assert_eq!(map_event(&plain(KeyCode::Char('a')), &app), None);
    assert_eq!(map_event(&plain(KeyCode::Esc), &app), Some(Action::FocusLeft));
    assert_eq!(map_event(&plain(KeyCode::Up), &app), Some(Action::ScrollRight(ScrollBy::Lines(-1))));
    assert_eq!(map_event(&plain(KeyCode::PageDown), &app), Some(Action::ScrollRight(ScrollBy::Pages(1))));
    assert_eq!(map_event(&plain(KeyCode::Home), &app), Some(Action::ScrollRight(ScrollBy::Top)));
    assert_eq!(map_event(&plain(KeyCode::End), &app), Some(Action::ScrollRight(ScrollBy::End)));
}

#[test]
fn message_editor_keys() {
    let app = message_app();
    assert_eq!(map_event(&plain(KeyCode::Up), &app), Some(Action::CursorUp));
    assert_eq!(map_event(&plain(KeyCode::Down), &app), Some(Action::CursorDown));
    assert_eq!(map_event(&ctrl('u'), &app), Some(Action::DeleteLine));
    assert_eq!(map_event(&ctrl('v'), &app), Some(Action::Paste));
    assert!(matches!(map_event(&plain(KeyCode::Char('a')), &app), Some(Action::Edit(_))));
}

#[test]
fn rebase_table_keys() {
    let app = rebase_app();
    assert_eq!(map_event(&plain(KeyCode::Char('f')), &app), Some(Action::SetInstruction(rebase::Action::Fixup)));
    assert_eq!(map_event(&plain(KeyCode::Char('x')), &app), None);
    assert_eq!(map_event(&plain(KeyCode::Tab), &app), Some(Action::CycleInstruction));
    assert_eq!(map_event(&alt(KeyCode::Up), &app), Some(Action::MoveInstruction { up: true }));
    assert_eq!(map_event(&plain(KeyCode::Down), &app), Some(Action::SelectBy(ScrollBy::Lines(1))));
    assert_eq!(map_event(&plain(KeyCode::End), &app), Some(Action::SelectBy(ScrollBy::End)));
    assert_eq!(map_event(&plain(KeyCode::Enter), &app), Some(Action::StartInline));
    assert_eq!(map_event(&ctrl('e'), &app), Some(Action::ToggleRaw));
    assert_eq!(map_event(&plain(KeyCode::Esc), &app), Some(Action::Cancel));
}

#[test]
fn inline_editor_captures_keys() {
    let mut app = rebase_app();
    app.apply(Action::StartInline, &[], &[]);
    assert_eq!(map_event(&plain(KeyCode::Enter), &app), Some(Action::CommitInline));
    assert_eq!(map_event(&plain(KeyCode::Esc), &app), Some(Action::CancelInline));
    assert!(matches!(map_event(&alt(KeyCode::Right), &app), Some(Action::Edit(_))));
    assert!(matches!(map_event(&plain(KeyCode::Char('f')), &app), Some(Action::Edit(_))));
}

#[test]
fn raw_mode_keys_edit_text_and_ctrl_e_returns() {
    let mut app = rebase_app();
    app.apply(Action::ToggleRaw, &[], &[]);
    assert_eq!(map_event(&ctrl('e'), &app), Some(Action::ToggleRaw));
    assert!(matches!(map_event(&plain(KeyCode::Char('f')), &app), Some(Action::Edit(_))));
    assert_eq!(map_event(&plain(KeyCode::Down), &app), Some(Action::CursorDown));
}

#[test]
fn modified_arrows_in_the_editor_go_to_the_editor() {
    let app = message_app();
    let shift_up = key(KeyCode::Up, Modifiers { ctrl: false, alt: false, shift: true, other: false });
    assert!(matches!(map_event(&shift_up, &app), Some(Action::Edit(_))));
    assert_eq!(map_event(&Event::Other, &app), None);
}

#[test]
fn table_letters_with_modifiers_do_nothing() {
    let app = rebase_app();
    assert_eq!(map_event(&alt(KeyCode::Char('s')), &app), None);
    assert_eq!(map_event(&ctrl('d'), &app), None);
    assert_eq!(map_event(&plain(KeyCode::PageUp), &app), Some(Action::SelectBy(ScrollBy::Pages(-1))));
}
