use gitmedit::context::GitContext;
use gitmedit::layout::{centered, compute, Pane, Rect};
use gitmedit::rebase::Action as TodoAction;
use gitmedit::rebase_view::{
    action_style, details_lines, inline_row, row_style, row_subject_lines, table_layout,
    table_rows, TableRow,
};
use gitmedit::session::{Action, App, Body, RebaseBody};
use gitmedit::view::{
    app_key_bar, clamp_scroll, editor_rows, editor_top, help_lines, is_conflict_marker,
    key_bar_line, left_title, right_pane, row_spans, scroll_label, Color, Span, Style,
};

/// A commit message of the kind `git commit --amend` writes, with a status trailer.
const AMMEND2: &str = "fix: release volume\n\n# Please enter the commit message for your changes. Lines starting\n# with '#' will be ignored, and an empty message aborts the commit.\n#\n# Date:      Tue May 12 01:43:54 2026 +0200\n#\n# On branch TASK-1111-fix-stage-view\n# Your branch is ahead of 'origin/TASK-1111-fix-stage-view' by 1 commit.\n#   (use \"git push\" to publish your local commits)\n#\n# Changes to be committed:\n#\tmodified:   a.rs\n#\tmodified:   b.rs\n#\tnew file:   c.rs\n#\tdeleted:    d.rs\n#\tmodified:   e.rs\n#\tmodified:   f.rs\n#\n";

/// An interactive rebase todo of fourteen commits.
const TODO: &str = "pick 54763e6 # docs(state): record phase 8 context session\npick 45f8bcd # docs(08): create phase plan\npick 1a00003 # c3\npick 1a00004 # c4\npick 1a00005 # c5\npick 1a00006 # c6\npick 1a00007 # c7\npick 1a00008 # c8\npick 1a00009 # c9\npick 1a00010 # c10\npick 1a00011 # c11\npick 1a00012 # c12\npick 1a00013 # c13\npick 1a00014 # c14\n\n# Rebase 36d7eda..aa619f8 onto 36d7eda (14 commands)\n#\n# Commands:\n# p, pick <commit> = use commit\n# d, drop <commit> = remove commit\n";

fn text(lines: &[Vec<Span>]) -> String {
    lines
        .iter()
        .map(|l| l.iter().map(|s| s.text.as_str()).collect::<String>())
        .collect::<Vec<_>>()
        .join("\n")
}

fn commit_app() -> App {
    let mut app = App::new(AMMEND2, GitContext::Commit, '#');
    app.file_name = "COMMIT_EDITMSG".into();
    app
}

fn rebase_body(app: &App) -> &RebaseBody {
    match &app.body {
        Body::Rebase(r) => r,
        _ => panic!("not a rebase"),
    }
}

#[test]
fn key_bar_drops_entries_that_do_not_fit() {
    let entries = [("^S", "Save"), ("Esc", "Cancel"), ("^H", "Help"), ("Tab", "Cycle")];
    let line = text(&[key_bar_line(&entries, 30)]);
    assert!(line.contains("Help") && !line.contains("Cycle"));
}

#[test]
fn help_lists_keys_for_the_layout() {
    let rebase_help = help_lines(true).join("\n");
    assert!(rebase_help.contains("update-ref") && rebase_help.contains("Ctrl+E"));
    let message_help = help_lines(false).join("\n");
    assert!(message_help.contains("Ctrl+C") && !message_help.contains("update-ref"));
}

#[test]
fn message_layout_shows_message_and_status() {
    let app = commit_app();
    let lines = app.main_editor_lines(AMMEND2).unwrap();
    let (rows, _) = editor_rows(&lines, 70, (0, 0), None);
    let (title, status) = right_pane(&app, 46).unwrap();
    let screen = format!("{}\n{}\n{}\n{}", left_title(&app), text(&rows), title, text(&status));
    assert!(screen.contains("fix: release volume"));
    assert!(screen.contains("Staged (6)"));
    assert!(screen.contains("COMMIT_EDITMSG"));
    assert!(screen.contains("TASK-1111-fix-stage-view"));
    assert!(!screen.contains("Please enter"));
}

#[test]
fn narrow_terminal_shows_one_pane_and_toggle_swaps() {
    let mut app = commit_app();
    let area = Rect::new(0, 0, 80, 30);
    let rects = compute(area, app.has_right(), app.focus);
    assert!(rects.left.is_some() && rects.right.is_none());
    app.apply(Action::ToggleFocus, &[], &[]);
    let rects = compute(area, app.has_right(), app.focus);
    assert!(rects.left.is_none() && rects.right.is_some());
}

#[test]
fn soft_wrap_shows_the_whole_long_line() {
    let long: String = (0..40).map(|i| format!("word{i}")).collect::<Vec<_>>().join(" ");
    let rects = compute(Rect::new(0, 0, 60, 20), false, Pane::Left);
    let width = rects.left.unwrap().width as usize - 2;
    assert_eq!(width, 58);
    let (rows, _) = editor_rows(&[long], width, (0, 0), None);
    let screen = text(&rows);
    assert!(screen.contains("word0") && screen.contains("word39"));
    assert!(rows.iter().all(|r| r.iter().map(|s| s.text.chars().count()).sum::<usize>() <= 58));
}

#[test]
fn conflict_markers_are_highlighted() {
    let lines = vec!["<<<<<<< HEAD".to_string(), "ours".to_string()];
    let (rows, _) = editor_rows(&lines, 38, (0, 0), None);
    assert_eq!(rows[0][0].style.bg, Color::Red);
    assert_ne!(rows[1][0].style.bg, Color::Red);
}

#[test]
fn rebase_layout_shows_table_and_summary() {
    let app = App::new(TODO, GitContext::Rebase, '#');
    let r = rebase_body(&app);
    let rows = table_rows(r, 60);
    let (title, details) = right_pane(&app, 50).unwrap();
    let table: Vec<String> = rows.iter().map(|row| row.hash.clone()).collect();
    assert!(left_title(&app).contains("Rebase 36d7eda..aa619f8"));
    assert!(table.contains(&"54763e6".to_string()));
    assert_eq!(title, " Details ");
    assert!(text(&details).contains("14 → 14 commits"));
    assert!(!rows.iter().any(|row| row.subject.join(" ").contains("Commands:")));
}

#[test]
fn conflict_markers_need_six_or_seven_chars() {
    assert!(is_conflict_marker("<<<<<<< HEAD"));
    assert!(is_conflict_marker("======="));
    assert!(is_conflict_marker(">>>>>>> branch"));
    assert!(is_conflict_marker("<<<<<<"));
    assert!(!is_conflict_marker("<<<<<"));
    assert!(!is_conflict_marker("<<<<<<<<"));
    assert!(!is_conflict_marker("text <<<<<<<"));
}

#[test]
fn selection_is_reversed_within_a_row() {
    let spans = row_spans("world", 6, 0, Some(((0, 2), (0, 9))), Style::plain());
    let texts: Vec<&str> = spans.iter().map(|s| s.text.as_str()).collect();
    assert_eq!(texts, vec!["", "wor", "ld"]);
    assert!(spans[1].style.reversed && !spans[2].style.reversed);
    let whole = row_spans("middle", 0, 1, Some(((0, 3), (2, 1))), Style::plain());
    assert_eq!(whole.len(), 3);
    assert_eq!(whole[1].text, "middle");
    let none = row_spans("after", 0, 3, Some(((0, 3), (2, 1))), Style::plain());
    assert_eq!(none.len(), 1);
}

#[test]
fn cursor_cell_follows_wrapped_rows() {
    let lines = vec!["aaa bbb ccc".to_string(), "x".to_string()];
    let (rows, at) = editor_rows(&lines, 4, (0, 9), None);
    assert_eq!(text(&rows), "aaa\nbbb\nccc\nx");
    assert_eq!(at, (2, 1));
    let (_, at) = editor_rows(&lines, 4, (1, 0), None);
    assert_eq!(at, (3, 0));
}

#[test]
fn editor_scrolls_just_enough() {
    assert_eq!(editor_top(5, 2, 10), 2);
    assert_eq!(editor_top(0, 12, 10), 3);
    assert_eq!(editor_top(3, 7, 10), 3);
    assert_eq!(editor_top(4, 9, 0), 4);
}

#[test]
fn table_keeps_the_selected_row_in_view() {
    let row = |line: usize, n: usize| TableRow {
        line,
        action: "pick".into(),
        style: Style::plain(),
        hash: "abc".into(),
        subject: vec!["x".to_string(); n],
        dim: false,
    };
    let rows = vec![row(0, 1), row(1, 3), row(2, 2), row(5, 1)];
    assert_eq!(table_layout(&rows, Some(5), 0, 4), (2, Some(3)));
    assert_eq!(table_layout(&rows, Some(1), 3, 4), (1, Some(1)));
    assert_eq!(table_layout(&rows, Some(4), 9, 4), (3, None));
    assert_eq!(table_layout(&rows, None, 1, 4), (1, None));
    assert_eq!(inline_row(&rows, 0, 2, 10), Some(4));
    assert_eq!(inline_row(&rows, 0, 2, 4), None);
}

#[test]
fn rows_are_styled_by_state() {
    assert_eq!(row_style(false, false), Style::plain());
    assert_eq!(row_style(true, false), Style::fg(Color::DarkGray));
    let s = row_style(false, true);
    assert!(s.bold && s.bg == Color::DarkGray);
    assert_eq!(action_style(TodoAction::Drop), Style::fg(Color::Red));
    assert_eq!(action_style(TodoAction::Pick), Style::fg(Color::Green));
}

#[test]
fn inline_edit_replaces_the_selected_subject() {
    let app = App::new(TODO, GitContext::Rebase, '#');
    let rows = table_rows(rebase_body(&app), 60);
    let inline = Some(vec!["new".to_string(), "subject".to_string()]);
    assert_eq!(row_subject_lines(&rows[0], true, &inline), vec!["new subject"]);
    assert_eq!(
        row_subject_lines(&rows[0], false, &inline),
        vec!["docs(state): record phase 8 context session"]
    );
}

#[test]
fn other_commands_and_unknown_lines_get_rows() {
    let app = App::new("exec cargo test --all\nbreak\ngarbage line\n# c\n", GitContext::Rebase, '#');
    let rows = table_rows(rebase_body(&app), 40);
    assert_eq!(rows.len(), 3);
    assert_eq!((rows[0].action.as_str(), rows[0].subject.clone()), ("exec", vec!["cargo test --all".to_string()]));
    assert_eq!(rows[0].style, Style::fg(Color::Magenta));
    assert_eq!((rows[1].action.as_str(), rows[1].subject.len()), ("break", 1));
    assert!(rows[2].dim && rows[2].action.is_empty());
}

#[test]
fn details_show_loading_then_commit_details() {
    let mut app = App::new(TODO, GitContext::Rebase, '#');
    let d = text(&details_lines(rebase_body(&app), 40));
    assert!(d.contains("54763e6") && d.contains("loading…"));
    let details = gitmedit::details::parse_show("message line\n\0\nM\tsrc/a.rs\n");
    app.poll_background(vec![("54763e6".to_string(), Some(details))]);
    let lines = details_lines(rebase_body(&app), 40);
    let d = text(&lines);
    assert!(d.contains("message line") && d.contains("M src/a.rs"), "{d}");
    app.poll_background(vec![("54763e6".to_string(), None)]);
    assert!(text(&details_lines(rebase_body(&app), 40)).contains("details unavailable"));
}

#[test]
fn scrolling_is_clamped_and_labelled() {
    assert_eq!(clamp_scroll(50, 30, 10), 20);
    assert_eq!(clamp_scroll(5, 30, 10), 5);
    assert_eq!(clamp_scroll(5, 3, 10), 0);
    assert_eq!(scroll_label(20, 10, 30).as_deref(), Some(" 21-30/30 "));
    assert_eq!(scroll_label(0, 10, 5), None);
}

#[test]
fn help_box_is_centered() {
    assert_eq!(centered(Rect::new(0, 0, 100, 50), 70, 80), Rect::new(15, 5, 70, 40));
    assert_eq!(centered(Rect::new(2, 1, 11, 9), 50, 50), Rect::new(5, 3, 5, 4));
}

#[test]
fn key_bar_follows_the_app_state() {
    let app = commit_app();
    let keys = app_key_bar(&app);
    assert!(keys.contains(&("^T", "Switch pane")));
    let rebase = App::new(TODO, GitContext::Rebase, '#');
    assert!(app_key_bar(&rebase).contains(&("Tab", "Cycle")));
}

#[test]
fn right_scroll_clamps_to_the_last_page() {
    let mut raw = String::from("Merge branch 'sync-ui'\n\n# Conflicts:\n#\tsrc/a.rs\n#\n# Changes to be committed:\n");
    for i in 0..60 {
        raw.push_str(&format!("#\tdeleted:    old/file{i}.rs\n"));
    }
    raw.push_str("#\tmodified:   packages/sync-ui (new commits)\n#\n");
    let mut app = App::new(&raw, GitContext::Merge, '#');
    app.apply(Action::ScrollRight(gitmedit::session::ScrollBy::End), &[], &[]);
    assert_eq!(app.right_scroll, usize::MAX);
    let (_, lines) = right_pane(&app, 46).unwrap();
    let height = 27;
    let top = clamp_scroll(app.right_scroll, lines.len(), height);
    assert!(top > 0 && top < usize::MAX);
    let visible: Vec<Vec<Span>> = lines.into_iter().skip(top).take(height).collect();
    assert!(text(&visible).contains("sync-ui"));
}
