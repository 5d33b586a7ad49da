//! Terminal input and what it means: keys and mouse events, and the action each one asks for
//! in the current state of the editor.
use vstd::prelude::*;

use crate::layout::Pane;
use crate::rebase;
use crate::session::{Action, App, Body, ScrollBy};

verus! {

/// A key on the keyboard.
#[derive(Debug, Clone, Copy, PartialEq, Eq, Structural)]
pub enum KeyCode {
    Char(char),
    F(u8),
    Backspace,
    Enter,
    Left,
    Right,
    Up,
    Down,
    Tab,
    BackTab,
    Delete,
    Insert,
    Home,
    End,
    PageUp,
    PageDown,
    Esc,
    /// Any other key: media, lock and modifier keys, and the like.
    Other,
}

/// The modifier keys held with a key.
#[derive(Debug, Clone, Copy, PartialEq, Eq, Structural)]
pub struct Modifiers {
    pub ctrl: bool,
    pub alt: bool,
    pub shift: bool,
    /// Super, hyper or meta.
    pub other: bool,
}

impl Modifiers {
    /// No modifier held.
    pub fn none() -> (r: Modifiers)
        ensures
            !r.ctrl && !r.alt && !r.shift && !r.other,
    {
        Modifiers { ctrl: false, alt: false, shift: false, other: false }
    }
}

/// A key press: the key and the modifiers held.
#[derive(Debug, Clone, Copy, PartialEq, Eq, Structural)]
pub struct Key {
    pub code: KeyCode,
    pub modifiers: Modifiers,
}

/// No modifier is held.
pub open spec fn no_modifiers(m: Modifiers) -> bool {
    !m.ctrl && !m.alt && !m.shift && !m.other
}

/// What the mouse did.
#[derive(Debug, Clone, Copy, PartialEq, Eq, Structural)]
pub enum MouseKind {
    ScrollUp,
    ScrollDown,
    LeftDown,
    Other,
}

/// A terminal event.
#[derive(Debug, Clone, Copy, PartialEq, Eq, Structural)]
pub enum Event {
    /// A key event: the key, and whether it was pressed (rather than released or repeated).
    Key { key: Key, press: bool },
    Mouse { kind: MouseKind, column: u16, row: u16 },
    /// Resize, focus, paste and other events.
    Other,
}

/// What the current state of the editor says about how keys are read: whether help is shown,
/// which pane has focus, and for a rebase whether the inline and raw editors are open.
pub struct KeyState {
    pub show_help: bool,
    pub focus: Pane,
    pub rebase: Option<(bool, bool)>,
}

/// The key state of an editor.
pub open spec fn key_state(app: App) -> KeyState {
    KeyState {
        show_help: app.show_help,
        focus: app.focus,
        rebase: match app.body {
            Body::Rebase(r) => Some((r.inline, r.raw)),
            _ => None,
        },
    }
}

/// A mouse event: the wheel scrolls the help or the pane under the pointer, a left click
/// focuses the pane under it unless help is shown.
pub open spec fn mouse_spec(kind: MouseKind, column: u16, row: u16, show_help: bool) -> Option<
    Action,
> {
    match kind {
        MouseKind::ScrollUp => Some(
            if show_help {
                Action::ScrollHelp(-1isize)
            } else {
                Action::WheelAt { column, row, delta: -1isize }
            },
        ),
        MouseKind::ScrollDown => Some(
            if show_help {
                Action::ScrollHelp(1isize)
            } else {
                Action::WheelAt { column, row, delta: 1isize }
            },
        ),
        MouseKind::LeftDown => if show_help {
            None
        } else {
            Some(Action::ClickAt { column, row })
        },
        MouseKind::Other => None,
    }
}

/// Keys of an open text editor: the editing shortcuts, and otherwise the key itself.
pub open spec fn editing_spec(key: Key) -> Action {
    if key.modifiers.ctrl {
        match key.code {
            KeyCode::Char('u') => Action::DeleteLine,
            KeyCode::Char('z') => Action::Undo,
            KeyCode::Char('y') => Action::Redo,
            KeyCode::Char('w') => Action::DeleteWord,
            KeyCode::Char('d') => Action::DeleteNextWord,
            KeyCode::Char('c') => Action::Copy,
            KeyCode::Char('x') => Action::Cut,
            KeyCode::Char('v') => Action::Paste,
            _ => Action::Edit(key),
        }
    } else {
        Action::Edit(key)
    }
}

/// Keys of the rebase table.
pub open spec fn table_spec(key: Key) -> Option<Action> {
    let ctrl = key.modifiers.ctrl;
    let alt = key.modifiers.alt;
    match key.code {
        KeyCode::Up => Some(
            if alt {
                Action::MoveInstruction { up: true }
            } else {
                Action::SelectBy(ScrollBy::Lines(-1isize))
            },
        ),
        KeyCode::Down => Some(
            if alt {
                Action::MoveInstruction { up: false }
            } else {
                Action::SelectBy(ScrollBy::Lines(1isize))
            },
        ),
        KeyCode::PageUp => Some(Action::SelectBy(ScrollBy::Pages(-1isize))),
        KeyCode::PageDown => Some(Action::SelectBy(ScrollBy::Pages(1isize))),
        KeyCode::Home => Some(Action::SelectBy(ScrollBy::Top)),
        KeyCode::End => Some(Action::SelectBy(ScrollBy::End)),
        KeyCode::Tab => Some(Action::CycleInstruction),
        KeyCode::Enter => Some(Action::StartInline),
        KeyCode::Char(c) => if ctrl {
            if c == 'e' {
                Some(Action::ToggleRaw)
            } else {
                None
            }
        } else if alt {
            None
        } else {
            match rebase::from_key_spec(c) {
                Some(a) => Some(Action::SetInstruction(a)),
                None => None,
            }
        },
        _ => None,
    }
}

/// A key press, read in this order: with help shown only closing and scrolling the help
/// count; Ctrl+S saves and Ctrl+H toggles help; an open inline editor takes every key but Enter
/// and Esc; Alt+arrows (or Alt+B, Alt+F) and Ctrl+T move the focus; the right pane scrolls;
/// Esc cancels; then the rebase table's keys, or the text editor's.
pub open spec fn key_spec(key: Key, st: KeyState) -> Option<Action> {
    let ctrl = key.modifiers.ctrl;
    let alt = key.modifiers.alt;
    if st.show_help {
        match key.code {
            KeyCode::Esc => Some(Action::ToggleHelp),
            KeyCode::Char('h') => if ctrl {
                Some(Action::ToggleHelp)
            } else {
                None
            },
            KeyCode::Up => Some(Action::ScrollHelp(-1isize)),
            KeyCode::Down => Some(Action::ScrollHelp(1isize)),
            _ => None,
        }
    } else if ctrl && key.code == KeyCode::Char('s') {
        Some(Action::Save)
    } else if ctrl && key.code == KeyCode::Char('h') {
        Some(Action::ToggleHelp)
    } else if st.rebase matches Some((true, _)) {
        match key.code {
            KeyCode::Enter => Some(Action::CommitInline),
            KeyCode::Esc => Some(Action::CancelInline),
            _ => Some(editing_spec(key)),
        }
    } else if alt && (key.code == KeyCode::Left || key.code == KeyCode::Char('b')) {
        Some(Action::FocusLeft)
    } else if alt && (key.code == KeyCode::Right || key.code == KeyCode::Char('f')) {
        Some(Action::FocusRight)
    } else if ctrl && key.code == KeyCode::Char('t') {
        Some(Action::ToggleFocus)
    } else if st.focus == Pane::Right {
        match key.code {
            KeyCode::Esc => Some(Action::FocusLeft),
            KeyCode::Up => Some(Action::ScrollRight(ScrollBy::Lines(-1isize))),
            KeyCode::Down => Some(Action::ScrollRight(ScrollBy::Lines(1isize))),
            KeyCode::PageUp => Some(Action::ScrollRight(ScrollBy::Pages(-1isize))),
            KeyCode::PageDown => Some(Action::ScrollRight(ScrollBy::Pages(1isize))),
            KeyCode::Home => Some(Action::ScrollRight(ScrollBy::Top)),
            KeyCode::End => Some(Action::ScrollRight(ScrollBy::End)),
            _ => None,
        }
    } else if key.code == KeyCode::Esc {
        Some(Action::Cancel)
    } else {
        match st.rebase {
            Some((_, false)) => table_spec(key),
            Some((_, true)) => if ctrl && key.code == KeyCode::Char('e') {
                Some(Action::ToggleRaw)
            } else {
                text_key_spec(key)
            },
            None => text_key_spec(key),
        }
    }
}

/// Keys of the main text editor: plain Up and Down move by display row.
pub open spec fn text_key_spec(key: Key) -> Option<Action> {
    if key.code == KeyCode::Up && no_modifiers(key.modifiers) {
        Some(Action::CursorUp)
    } else if key.code == KeyCode::Down && no_modifiers(key.modifiers) {
        Some(Action::CursorDown)
    } else {
        Some(editing_spec(key))
    }
}

/// The action an event asks for; only key presses and mouse events ask for one.
pub open spec fn event_spec(event: Event, st: KeyState) -> Option<Action> {
    match event {
        Event::Key { key, press } => if press {
            key_spec(key, st)
        } else {
            None
        },
        Event::Mouse { kind, column, row } => mouse_spec(kind, column, row, st.show_help),
        Event::Other => None,
    }
}

/// Translate a terminal event into an action for the current state, or `None` to ignore it.
pub fn map_event(event: &Event, app: &App) -> (r: Option<Action>)
    ensures
        r == event_spec(*event, key_state(*app)),
{
    match event {
        Event::Mouse { kind, column, row } => map_mouse(*kind, *column, *row, app.show_help),
        Event::Key { key, press } => if *press {
            let rebase = match &app.body {
                Body::Rebase(r) => Some((r.inline, r.raw)),
                _ => None,
            };
            map_key(*key, app.show_help, app.focus, rebase)
        } else {
            None
        },
        Event::Other => None,
    }
}

fn map_mouse(kind: MouseKind, column: u16, row: u16, show_help: bool) -> (r: Option<Action>)
    ensures
        r == mouse_spec(kind, column, row, show_help),
{
    let delta: isize = match kind {
        MouseKind::ScrollUp => -1,
        MouseKind::ScrollDown => 1,
        MouseKind::LeftDown => {
            return if show_help {
                None
            } else {
                Some(Action::ClickAt { column, row })
            };
        },
        MouseKind::Other => return None,
    };
    Some(
        if show_help {
            Action::ScrollHelp(delta)
        } else {
            Action::WheelAt { column, row, delta }
        },
    )
}

fn map_key(key: Key, show_help: bool, focus: Pane, rebase: Option<(bool, bool)>) -> (r: Option<
    Action,
>)
    ensures
        r == key_spec(key, KeyState { show_help, focus, rebase }),
{
    let ctrl = key.modifiers.ctrl;
    let alt = key.modifiers.alt;
    if show_help {
        return match key.code {
            KeyCode::Esc => Some(Action::ToggleHelp),
            KeyCode::Char('h') => if ctrl {
                Some(Action::ToggleHelp)
            } else {
                None
            },
            KeyCode::Up => Some(Action::ScrollHelp(-1)),
            KeyCode::Down => Some(Action::ScrollHelp(1)),
            _ => None,
        };
    }
    if ctrl && key.code == KeyCode::Char('s') {
        return Some(Action::Save);
    }
    if ctrl && key.code == KeyCode::Char('h') {
        return Some(Action::ToggleHelp);
    }
    let inline_open = match rebase {
        Some((inline, _)) => inline,
        None => false,
    };
    if inline_open {
        return match key.code {
            KeyCode::Enter => Some(Action::CommitInline),
            KeyCode::Esc => Some(Action::CancelInline),
            _ => Some(editing_key(key)),
        };
    }
    // Many macOS terminals send ESC b / ESC f for Alt+Left / Alt+Right.
    if alt && (key.code == KeyCode::Left || key.code == KeyCode::Char('b')) {
        return Some(Action::FocusLeft);
    }
    if alt && (key.code == KeyCode::Right || key.code == KeyCode::Char('f')) {
        return Some(Action::FocusRight);
    }
    if ctrl && key.code == KeyCode::Char('t') {
        return Some(Action::ToggleFocus);
    }
    if focus == Pane::Right {
        return match key.code {
            KeyCode::Esc => Some(Action::FocusLeft),
            KeyCode::Up => Some(Action::ScrollRight(ScrollBy::Lines(-1))),
            KeyCode::Down => Some(Action::ScrollRight(ScrollBy::Lines(1))),
            KeyCode::PageUp => Some(Action::ScrollRight(ScrollBy::Pages(-1))),
            KeyCode::PageDown => Some(Action::ScrollRight(ScrollBy::Pages(1))),
            KeyCode::Home => Some(Action::ScrollRight(ScrollBy::Top)),
            KeyCode::End => Some(Action::ScrollRight(ScrollBy::End)),
            _ => None,
        };
    }
    if key.code == KeyCode::Esc {
        return Some(Action::Cancel);
    }
    match rebase {
        Some((_, false)) => table_key(key),
        Some((_, true)) => if ctrl && key.code == KeyCode::Char('e') {
            Some(Action::ToggleRaw)
        } else {
            text_key(key)
        },
        None => text_key(key),
    }
}

fn text_key(key: Key) -> (r: Option<Action>)
    ensures
        r == text_key_spec(key),
{
    let m = key.modifiers;
    let plain = !m.ctrl && !m.alt && !m.shift && !m.other;
    if key.code == KeyCode::Up && plain {
        Some(Action::CursorUp)
    } else if key.code == KeyCode::Down && plain {
        Some(Action::CursorDown)
    } else {
        Some(editing_key(key))
    }
}

fn table_key(key: Key) -> (r: Option<Action>)
    ensures
        r == table_spec(key),
{
    let ctrl = key.modifiers.ctrl;
    let alt = key.modifiers.alt;
    match key.code {
        KeyCode::Up => Some(
            if alt {
                Action::MoveInstruction { up: true }
            } else {
                Action::SelectBy(ScrollBy::Lines(-1))
            },
        ),
        KeyCode::Down => Some(
            if alt {
                Action::MoveInstruction { up: false }
            } else {
                Action::SelectBy(ScrollBy::Lines(1))
            },
        ),
        KeyCode::PageUp => Some(Action::SelectBy(ScrollBy::Pages(-1))),
        KeyCode::PageDown => Some(Action::SelectBy(ScrollBy::Pages(1))),
        KeyCode::Home => Some(Action::SelectBy(ScrollBy::Top)),
        KeyCode::End => Some(Action::SelectBy(ScrollBy::End)),
        KeyCode::Tab => Some(Action::CycleInstruction),
        KeyCode::Enter => Some(Action::StartInline),
        KeyCode::Char(c) => if ctrl {
            if c == 'e' {
                Some(Action::ToggleRaw)
            } else {
                None
            }
        } else if alt {
            None
        } else {
            match rebase::Action::from_key(c) {
                Some(a) => Some(Action::SetInstruction(a)),
                None => None,
            }
        },
        _ => None,
    }
}

fn editing_key(key: Key) -> (r: Action)
    ensures
        r == editing_spec(key),
{
    if key.modifiers.ctrl {
        match key.code {
            KeyCode::Char('u') => Action::DeleteLine,
            KeyCode::Char('z') => Action::Undo,
            KeyCode::Char('y') => Action::Redo,
            KeyCode::Char('w') => Action::DeleteWord,
            KeyCode::Char('d') => Action::DeleteNextWord,
            KeyCode::Char('c') => Action::Copy,
            KeyCode::Char('x') => Action::Cut,
            KeyCode::Char('v') => Action::Paste,
            _ => Action::Edit(key),
        }
    } else {
        Action::Edit(key)
    }
}


/// Whether the keys of state `st` go to a text editor: the inline editor of the rebase table,
/// or, with the left pane focused, the message editor or the raw todo editor.
pub open spec fn editor_takes_keys(st: KeyState) -> bool {
    ||| st.rebase matches Some((true, _))
    ||| (st.focus == Pane::Left && (st.rebase is None || st.rebase matches Some((_, true))))
}

/// The editing shortcuts of the text editors: with help closed and a text editor taking the
/// keys, a press of Ctrl+Z undoes and Ctrl+Y redoes; Ctrl+U deletes the line, Ctrl+W and
/// Ctrl+D the word before and after the cursor; Ctrl+C, Ctrl+X and Ctrl+V copy, cut and paste.
pub proof fn law_editor_shortcuts(key: Key, st: KeyState)
    requires
        !st.show_help,
        editor_takes_keys(st),
        key.modifiers.ctrl,
    ensures
        ({
            let r = event_spec(Event::Key { key, press: true }, st);
            &&& key.code == KeyCode::Char('z') ==> r == Some(Action::Undo)
            &&& key.code == KeyCode::Char('y') ==> r == Some(Action::Redo)
            &&& key.code == KeyCode::Char('u') ==> r == Some(Action::DeleteLine)
            &&& key.code == KeyCode::Char('w') ==> r == Some(Action::DeleteWord)
            &&& key.code == KeyCode::Char('d') ==> r == Some(Action::DeleteNextWord)
            &&& key.code == KeyCode::Char('c') ==> r == Some(Action::Copy)
            &&& key.code == KeyCode::Char('x') ==> r == Some(Action::Cut)
            &&& key.code == KeyCode::Char('v') ==> r == Some(Action::Paste)
        }),
{
}


/// The keys every pane answers: with help closed, Ctrl+S saves and Ctrl+H shows the help; with
/// help shown, Esc and Ctrl+H close it, Up and Down scroll it, and no other key does anything.
pub proof fn law_global_keys(key: Key, st: KeyState)
    ensures
        ({
            let r = event_spec(Event::Key { key, press: true }, st);
            &&& !st.show_help && key.modifiers.ctrl && key.code == KeyCode::Char('s') ==> r == Some(
                Action::Save,
            )
            &&& !st.show_help && key.modifiers.ctrl && key.code == KeyCode::Char('h') ==> r == Some(
                Action::ToggleHelp,
            )
            &&& st.show_help && key.code == KeyCode::Esc ==> r == Some(Action::ToggleHelp)
            &&& st.show_help && key.modifiers.ctrl && key.code == KeyCode::Char('h') ==> r == Some(
                Action::ToggleHelp,
            )
            &&& st.show_help && key.code == KeyCode::Up ==> r == Some(Action::ScrollHelp(-1isize))
            &&& st.show_help && key.code == KeyCode::Down ==> r == Some(Action::ScrollHelp(1isize))
            &&& st.show_help && key.code != KeyCode::Esc && key.code != KeyCode::Up && key.code
                != KeyCode::Down && key.code != KeyCode::Char('h') ==> r is None
            &&& event_spec(Event::Key { key, press: false }, st) is None
        }),
{
}

/// The keys of the rebase table (left pane focused, no inline or raw editor open, help
/// closed): p, r, e, s, f and d set the selected instruction to pick, reword, edit, squash,
/// fixup and drop; Tab cycles it; Enter starts rewording it inline; Up and Down select, and
/// with Alt move the instruction; Esc cancels.
pub proof fn law_table_keys(key: Key, st: KeyState)
    requires
        !st.show_help,
        st.focus == Pane::Left,
        st.rebase == Some((false, false)),
    ensures
        ({
            let r = event_spec(Event::Key { key, press: true }, st);
            let plain = !key.modifiers.ctrl && !key.modifiers.alt;
            &&& plain && key.code == KeyCode::Char('p') ==> r == Some(
                Action::SetInstruction(rebase::Action::Pick),
            )
            &&& plain && key.code == KeyCode::Char('r') ==> r == Some(
                Action::SetInstruction(rebase::Action::Reword),
            )
            &&& plain && key.code == KeyCode::Char('e') ==> r == Some(
                Action::SetInstruction(rebase::Action::Edit),
            )
            &&& plain && key.code == KeyCode::Char('s') ==> r == Some(
                Action::SetInstruction(rebase::Action::Squash),
            )
            &&& plain && key.code == KeyCode::Char('f') ==> r == Some(
                Action::SetInstruction(rebase::Action::Fixup),
            )
            &&& plain && key.code == KeyCode::Char('d') ==> r == Some(
                Action::SetInstruction(rebase::Action::Drop),
            )
            &&& plain && key.code == KeyCode::Tab ==> r == Some(Action::CycleInstruction)
            &&& plain && key.code == KeyCode::Enter ==> r == Some(Action::StartInline)
            &&& plain && key.code == KeyCode::Up ==> r == Some(Action::SelectBy(ScrollBy::Lines(-1isize)))
            &&& plain && key.code == KeyCode::Down ==> r == Some(Action::SelectBy(ScrollBy::Lines(1isize)))
            &&& !key.modifiers.ctrl && key.modifiers.alt && key.code == KeyCode::Up ==> r == Some(
                Action::MoveInstruction { up: true },
            )
            &&& !key.modifiers.ctrl && key.modifiers.alt && key.code == KeyCode::Down ==> r == Some(
                Action::MoveInstruction { up: false },
            )
            &&& key.code == KeyCode::Esc ==> r == Some(Action::Cancel)
        }),
{
}
} // verus!
