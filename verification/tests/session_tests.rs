use gitmedit::session::action_fits;
use gitmedit::context::GitContext;
use gitmedit::layout::{compute, Pane, Rect};
use gitmedit::rebase::{self, TodoLine};
use gitmedit::session::{
    move_display_row, saturating_add_signed, Action, App, Body, Command, Outcome, RebaseBody,
    ScrollBy,
};

/// A commit message of the kind `git commit --amend` writes, with a status trailer.
const AMMEND2: &str = "fix: release volume\n\n# Please enter the commit message for your changes. Lines starting\n# with '#' will be ignored, and an empty message aborts the commit.\n#\n# Date:      Tue May 12 01:43:54 2026 +0200\n#\n# On branch TASK-1111-fix-stage-view\n# Your branch is ahead of 'origin/TASK-1111-fix-stage-view' by 1 commit.\n#   (use \"git push\" to publish your local commits)\n#\n# Changes to be committed:\n#\tmodified:   a.rs\n#\tmodified:   b.rs\n#\tnew file:   c.rs\n#\tdeleted:    d.rs\n#\tmodified:   e.rs\n#\tmodified:   f.rs\n#\n";

/// An interactive rebase todo of fourteen commits.
const TODO: &str = "pick 54763e6 # docs(state): record phase 8 context session\npick 45f8bcd # docs(08): create phase plan\npick 1a00003 # c3\npick 1a00004 # c4\npick 1a00005 # c5\npick 1a00006 # c6\npick 1a00007 # c7\npick 1a00008 # c8\npick 1a00009 # c9\npick 1a00010 # c10\npick 1a00011 # c11\npick 1a00012 # c12\npick 1a00013 # c13\npick 1a00014 # c14\n\n# Rebase 36d7eda..aa619f8 onto 36d7eda (14 commands)\n#\n# Commands:\n# p, pick <commit> = use commit\n# d, drop <commit> = remove commit\n";

fn message_app() -> App {
    App::new(AMMEND2, GitContext::Commit, '#')
}

fn rebase_app() -> App {
    App::new(TODO, GitContext::Rebase, '#')
}

fn rebase(app: &mut App) -> &mut RebaseBody {
    match &mut app.body {
        Body::Rebase(r) => r,
        _ => panic!("not a rebase body"),
    }
}

fn first_line(app: &App) -> String {
    app.serialized_content(&[]).lines().next().unwrap().to_string()
}

fn apply(app: &mut App, action: Action) -> Outcome {
    app.apply(action, &[], &[]).outcome
}

/// Opens the inline editor on the selected commit, replaces its text and confirms it.
fn reword_first(app: &mut App, subject: &str) {
    let step = app.apply(Action::StartInline, &[], &[]);
    assert!(matches!(step.commands.last(), Some(Command::OpenInline(_))));
    app.apply(Action::CommitInline, &[subject.to_string()], &[]);
}

/// Opens the raw editor and returns the lines it is given.
fn open_raw(app: &mut App) -> Vec<String> {
    let step = app.apply(Action::ToggleRaw, &[], &[]);
    match step.commands.last() {
        Some(Command::OpenRaw(lines)) => lines.clone(),
        other => panic!("raw editor not opened: {other:?}"),
    }
}

#[test]
fn message_file_opens_with_message_only() {
    let app = message_app();
    let lines = app.main_editor_lines(AMMEND2).unwrap();
    assert_eq!(lines, vec!["fix: release volume"]);
    assert!(app.has_right());
    assert_eq!(app.serialized_content(&lines), AMMEND2);
}

#[test]
fn unknown_file_is_plain_and_keeps_comments() {
    let app = App::new("notes\n# kept\n", GitContext::Unknown, '#');
    let lines = app.main_editor_lines("notes\n# kept\n").unwrap();
    assert_eq!(lines, vec!["notes", "# kept"]);
    assert!(!app.has_right());
    assert_eq!(app.serialized_content(&lines), "notes\n# kept\n");
}

#[test]
fn message_without_comments_has_no_right_pane() {
    assert!(!App::new("just text\n", GitContext::Commit, '#').has_right());
}

#[test]
fn session_edited_message_keeps_trailer() {
    let app = message_app();
    let edited = vec!["fix: release volume now".to_string()];
    assert!(app.serialized_content(&edited).starts_with("fix: release volume now\n\n# Please enter"));
}

#[test]
fn focus_moves_only_when_right_pane_exists() {
    let mut plain = App::new("x\n", GitContext::Unknown, '#');
    apply(&mut plain, Action::FocusRight);
    assert_eq!(plain.focus, Pane::Left);
    apply(&mut plain, Action::ToggleFocus);
    assert_eq!(plain.focus, Pane::Left);

    let mut app = message_app();
    apply(&mut app, Action::FocusRight);
    assert_eq!(app.focus, Pane::Right);
    apply(&mut app, Action::ToggleFocus);
    assert_eq!(app.focus, Pane::Left);
    apply(&mut app, Action::ToggleFocus);
    assert_eq!(app.focus, Pane::Right);
    apply(&mut app, Action::FocusLeft);
    assert_eq!(app.focus, Pane::Left);
}

#[test]
fn click_focuses_pane_under_pointer() {
    let mut app = message_app();
    app.rects = compute(Rect::new(0, 0, 120, 30), true, Pane::Left);
    apply(&mut app, Action::ClickAt { column: 100, row: 5 });
    assert_eq!(app.focus, Pane::Right);
    apply(&mut app, Action::ClickAt { column: 5, row: 5 });
    assert_eq!(app.focus, Pane::Left);
}

#[test]
fn right_pane_scrolling() {
    let mut app = message_app();
    app.right_page = 10;
    apply(&mut app, Action::ScrollRight(ScrollBy::End));
    assert_eq!(app.right_scroll, usize::MAX);
    app.right_scroll = 5;
    apply(&mut app, Action::ScrollRight(ScrollBy::Lines(-1)));
    assert_eq!(app.right_scroll, 4);
    apply(&mut app, Action::ScrollRight(ScrollBy::Pages(1)));
    assert_eq!(app.right_scroll, 14);
    apply(&mut app, Action::ScrollRight(ScrollBy::Top));
    assert_eq!(app.right_scroll, 0);
    apply(&mut app, Action::ScrollRight(ScrollBy::Lines(-1)));
    assert_eq!(app.right_scroll, 0);
}

#[test]
fn wheel_over_right_pane_scrolls_without_focusing_it() {
    let mut app = message_app();
    app.rects = compute(Rect::new(0, 0, 120, 30), true, Pane::Left);
    apply(&mut app, Action::WheelAt { column: 100, row: 5, delta: 1 });
    assert_eq!((app.right_scroll, app.focus), (1, Pane::Left));
}

#[test]
fn help_toggles_and_resets_scroll() {
    let mut app = message_app();
    apply(&mut app, Action::ToggleHelp);
    apply(&mut app, Action::ScrollHelp(3));
    assert_eq!((app.show_help, app.help_scroll), (true, 3));
    apply(&mut app, Action::ToggleHelp);
    assert_eq!((app.show_help, app.help_scroll), (false, 0));
}

#[test]
fn cursor_moves_by_display_row() {
    let mut app = App::new("hello world foo\nx\n", GitContext::Unknown, '#');
    app.editor_width = 10;
    let lines = app.main_editor_lines("hello world foo\nx\n").unwrap();
    let step = app.apply(Action::CursorDown, &[], &[]);
    assert_eq!(step.commands, vec![Command::CursorRows { down: true, times: 1 }]);
    let (row, col) = move_display_row(&lines, 0, 0, app.editor_width, true).unwrap();
    assert_eq!((row, col), (0, 6));
    let (row, col) = move_display_row(&lines, row, col, app.editor_width, true).unwrap();
    assert_eq!((row, col), (1, 0));
    let (row, col) = move_display_row(&lines, row, col, app.editor_width, false).unwrap();
    assert_eq!((row, col), (0, 6));
}

#[test]
fn selection_moves_and_stops_at_ends() {
    let mut app = rebase_app();
    apply(&mut app, Action::SelectBy(ScrollBy::Lines(-1)));
    assert_eq!(rebase(&mut app).selected, 0);
    apply(&mut app, Action::SelectBy(ScrollBy::Lines(1)));
    assert_eq!(rebase(&mut app).selected, 1);
    apply(&mut app, Action::SelectBy(ScrollBy::End));
    assert_eq!(rebase(&mut app).selected, 13);
    apply(&mut app, Action::SelectBy(ScrollBy::Lines(1)));
    assert_eq!(rebase(&mut app).selected, 13);
    apply(&mut app, Action::SelectBy(ScrollBy::Pages(-1)));
    assert_eq!(rebase(&mut app).selected, 3);
    apply(&mut app, Action::SelectBy(ScrollBy::Top));
    assert_eq!(rebase(&mut app).selected, 0);
}

#[test]
fn actions_change_the_selected_instruction() {
    let mut app = rebase_app();
    apply(&mut app, Action::SetInstruction(rebase::Action::Fixup));
    assert_eq!(first_line(&app), "fixup 54763e6 # docs(state): record phase 8 context session");
    apply(&mut app, Action::SetInstruction(rebase::Action::Pick));
    apply(&mut app, Action::CycleInstruction);
    assert_eq!(first_line(&app), "squash 54763e6 # docs(state): record phase 8 context session");
}

#[test]
fn moving_keeps_selection_on_the_moved_row() {
    let mut app = rebase_app();
    apply(&mut app, Action::MoveInstruction { up: true });
    assert_eq!(app.serialized_content(&[]), TODO);
    apply(&mut app, Action::MoveInstruction { up: false });
    assert_eq!(rebase(&mut app).selected, 1);
    let out = app.serialized_content(&[]);
    let lines: Vec<&str> = out.lines().collect();
    assert_eq!(lines[0], "pick 45f8bcd # docs(08): create phase plan");
    assert_eq!(lines[1], "pick 54763e6 # docs(state): record phase 8 context session");
}

#[test]
fn inline_reword_marks_row_and_keeps_subject_text() {
    let mut app = rebase_app();
    reword_first(&mut app, "new subject");
    assert_eq!(rebase(&mut app).rewords.get("54763e6").map(String::as_str), Some("new subject"));
    assert_eq!(first_line(&app), "reword 54763e6 # docs(state): record phase 8 context session");
    apply(&mut app, Action::SetInstruction(rebase::Action::Pick));
    assert!(rebase(&mut app).rewords.is_empty());
}

#[test]
fn cancelled_inline_edit_changes_nothing() {
    let mut app = rebase_app();
    let step = app.apply(Action::StartInline, &[], &[]);
    assert_eq!(
        step.commands,
        vec![Command::OpenInline("docs(state): record phase 8 context session".to_string())]
    );
    let step = app.apply(Action::CancelInline, &[], &[]);
    assert_eq!(step.commands, vec![Command::CloseInline]);
    let r = rebase(&mut app);
    assert!(r.rewords.is_empty() && !r.inline);
    assert_eq!(app.serialized_content(&[]), TODO);
}

#[test]
fn raw_toggle_round_trips_and_reparses_edits() {
    let mut app = rebase_app();
    let lines = open_raw(&mut app);
    app.apply(Action::ToggleRaw, &[], &lines);
    assert_eq!(app.serialized_content(&[]), TODO);

    let mut lines = open_raw(&mut app);
    lines.insert(14, "exec cargo test".to_string());
    app.apply(Action::ToggleRaw, &[], &lines);
    let r = rebase(&mut app);
    let instructions = r.todo.instruction_indices();
    assert_eq!(instructions.len(), 15);
    assert!(matches!(r.todo.lines[*instructions.last().unwrap()], TodoLine::Other(_)));
}

#[test]
fn raw_toggle_keeps_pending_rewords() {
    let mut app = rebase_app();
    reword_first(&mut app, "new subject");
    let lines = open_raw(&mut app);
    app.apply(Action::ToggleRaw, &[], &lines);
    assert_eq!(rebase(&mut app).rewords.len(), 1);
}

#[test]
fn save_commits_an_open_inline_edit() {
    let mut app = rebase_app();
    app.apply(Action::StartInline, &[], &[]);
    let step = app.apply(Action::Save, &["saved subject".to_string()], &[]);
    assert_eq!(step.outcome, Outcome::Save);
    assert_eq!(rebase(&mut app).rewords.get("54763e6").map(String::as_str), Some("saved subject"));
}

#[test]
fn message_layout_has_no_background_work() {
    assert!(!message_app().poll_background(Vec::new()));
}

#[test]
fn raw_edit_dropping_a_reword_drops_its_subject() {
    let mut app = rebase_app();
    reword_first(&mut app, "new subject");
    let mut lines = open_raw(&mut app);
    lines[0] = "pick 54763e6 # docs(state): record phase 8 context session".to_string();
    app.apply(Action::ToggleRaw, &[], &lines);
    assert!(rebase(&mut app).rewords.is_empty());
}

#[test]
fn inline_text_equal_to_the_subject_is_no_reword() {
    let mut app = rebase_app();
    reword_first(&mut app, "  docs(state): record phase 8 context session ");
    assert!(rebase(&mut app).rewords.is_empty());
    assert_eq!(app.serialized_content(&[]), TODO);
}

#[test]
fn selection_changes_fetch_details_once() {
    let mut app = rebase_app();
    assert_eq!(app.request_details(), vec![Command::FetchDetails("54763e6".to_string())]);
    assert!(app.request_details().is_empty());
    let step = app.apply(Action::SelectBy(ScrollBy::Lines(1)), &[], &[]);
    assert_eq!(step.commands, vec![Command::FetchDetails("45f8bcd".to_string())]);
    let step = app.apply(Action::SelectBy(ScrollBy::Top), &[], &[]);
    assert!(step.commands.is_empty());
}

#[test]
fn wheel_over_the_table_moves_the_selection_and_over_an_editor_the_cursor() {
    let mut app = rebase_app();
    app.rects = compute(Rect::new(0, 0, 120, 30), true, Pane::Left);
    app.right_scroll = 7;
    apply(&mut app, Action::WheelAt { column: 5, row: 5, delta: 3 });
    assert_eq!((rebase(&mut app).selected, app.right_scroll), (3, 0));
    let mut plain = App::new("a\nb\n", GitContext::Unknown, '#');
    plain.rects = compute(Rect::new(0, 0, 120, 30), false, Pane::Left);
    let step = plain.apply(Action::WheelAt { column: 5, row: 5, delta: -2 }, &[], &[]);
    assert_eq!(step.commands, vec![Command::CursorRows { down: false, times: 2 }]);
}

#[test]
fn saturating_scroll_arithmetic() {
    assert_eq!(saturating_add_signed(5, -7), 0);
    assert_eq!(saturating_add_signed(usize::MAX - 1, 5), usize::MAX);
    assert_eq!(saturating_add_signed(3, isize::MIN), 0);
    assert_eq!(saturating_add_signed(3, 4), 7);
}

#[test]
fn cancel_and_save_outcomes() {
    let mut app = message_app();
    assert_eq!(apply(&mut app, Action::Cancel), Outcome::Cancel);
    assert_eq!(apply(&mut app, Action::Save), Outcome::Save);
    assert_eq!(apply(&mut app, Action::Undo), Outcome::Continue);
}

#[test]
fn page_moves_fit_within_range() {
    let app = rebase_app();
    assert!(action_fits(Action::ScrollRight(ScrollBy::Pages(1)), &app));
    assert!(action_fits(Action::SelectBy(ScrollBy::Pages(-10000)), &app));
    assert!(action_fits(Action::SelectBy(ScrollBy::Pages(isize::MAX / 10)), &app));
    assert!(!action_fits(Action::SelectBy(ScrollBy::Pages(isize::MAX / 10 + 1)), &app));
    assert!(action_fits(Action::ScrollRight(ScrollBy::Pages(isize::MIN / 10)), &app));
    assert!(!action_fits(Action::ScrollRight(ScrollBy::Pages(isize::MIN / 10 - 1)), &app));
    assert!(action_fits(Action::ScrollRight(ScrollBy::Lines(isize::MAX)), &app));
    assert!(action_fits(Action::Save, &app));
    // A message has no table, so a table move of any size does nothing.
    assert!(action_fits(Action::SelectBy(ScrollBy::Pages(isize::MAX)), &message_app()));
    // A rebase without instructions has nothing to move over.
    let empty = App::new("# only a comment\n", GitContext::Rebase, '#');
    assert!(action_fits(Action::SelectBy(ScrollBy::Pages(isize::MAX)), &empty));
}

#[test]
fn huge_page_moves_clamp_the_selection() {
    let mut app = rebase_app();
    app.apply(Action::SelectBy(ScrollBy::Pages(isize::MAX / 10)), &[], &[]);
    assert_eq!(rebase(&mut app).selected, 13);
    app.apply(Action::SelectBy(ScrollBy::Pages(isize::MIN / 10)), &[], &[]);
    assert_eq!(rebase(&mut app).selected, 0);
}

#[test]
fn editing_actions_reach_the_editor() {
    let mut app = App::new("one two\n", GitContext::Unknown, '#');
    let step = app.apply(Action::DeleteLine, &[], &[]);
    assert_eq!(step.commands, vec![Command::DeleteLine]);
    let step = app.apply(Action::Undo, &[], &[]);
    assert_eq!(step.commands, vec![Command::Undo]);
    assert_eq!(app.serialized_content(&["one two".to_string()]), "one two\n");
    assert_eq!(app.serialized_content(&["".to_string()]), "\n");
}

#[test]
fn stored_reword_prefills_commit_message() {
    let done = "reword 545ca5d95e7b6bbb297681be181a60d396ee8ee8 # c3\n";
    let hash = gitmedit::reword::reword_target(done).unwrap();
    assert!(gitmedit::reword::same_commit(&hash, "545ca5d"));
    let raw = "c3\n\nbody 3\n\n# Please enter the commit message\n#\n";
    let mut app = App::new(raw, GitContext::Commit, '#');
    app.prefill_message("new subject\n\nbody 3\n");
    let lines = app.main_editor_lines(raw).unwrap();
    assert_eq!(lines, vec!["new subject", "", "body 3"]);
    assert_eq!(
        app.serialized_content(&lines),
        "new subject\n\nbody 3\n\n# Please enter the commit message\n#\n"
    );
    assert!(matches!(&app.body, Body::Message(m) if m.from_stored_reword));
}

#[test]
fn stored_rewords_load_on_open_and_store_on_save() {
    let todo = TODO.replacen("pick 54763e6", "reword 54763e6", 1);
    let mut app = App::new(&todo, GitContext::Rebase, '#');
    let hashes = app.reword_hashes();
    assert_eq!(hashes, vec!["54763e6"]);
    let stored = ["54763e6", "deadbeef"];
    let mut loaded = gitmedit::rewords::Rewords::new();
    for name in stored {
        match gitmedit::reword::matching_hash(&hashes, name) {
            Some(i) => loaded.insert(
                hashes[i].clone(),
                gitmedit::reword::stored_subject("stored subject\n\nbody\n"),
            ),
            None => assert_eq!(name, "deadbeef"),
        }
    }
    app.set_rewords(loaded);
    assert_eq!(rebase(&mut app).rewords.get("54763e6").map(String::as_str), Some("stored subject"));

    reword_first(&mut app, "new subject");
    let entries = rebase(&mut app).rewords.entries().clone();
    assert_eq!(entries, vec![("54763e6".to_string(), "new subject".to_string())]);
    assert_eq!(gitmedit::reword::replace_subject(None, &entries[0].1), "new subject\n");
}

#[test]
fn cancel_changes_nothing() {
    let mut app = rebase_app();
    app.right_scroll = 4;
    apply(&mut app, Action::SelectBy(ScrollBy::Lines(2)));
    let before = (app.focus, app.show_help, app.help_scroll, app.right_scroll, app.file_name.clone());
    let selected = rebase(&mut app).selected;
    let text = app.serialized_content(&[]);
    let step = app.apply(Action::Cancel, &[], &[]);
    assert_eq!(step.outcome, Outcome::Cancel);
    assert!(step.commands.is_empty());
    assert_eq!((app.focus, app.show_help, app.help_scroll, app.right_scroll, app.file_name.clone()), before);
    assert_eq!(rebase(&mut app).selected, selected);
    assert_eq!(app.serialized_content(&[]), text);
}

#[test]
fn only_right_page_moves_need_a_page_that_fits() {
    let mut app = message_app();
    app.right_page = usize::MAX;
    assert!(!action_fits(Action::ScrollRight(ScrollBy::Pages(1)), &app));
    assert!(action_fits(Action::ScrollRight(ScrollBy::Lines(3)), &app));
    assert!(action_fits(Action::Cancel, &app));
    assert_eq!(apply(&mut app, Action::Cancel), Outcome::Cancel);
    assert_eq!(apply(&mut app, Action::Save), Outcome::Save);
    app.right_scroll = 2;
    apply(&mut app, Action::ScrollRight(ScrollBy::Lines(3)));
    assert_eq!(app.right_scroll, 5);
}
