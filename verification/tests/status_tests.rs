use gitmedit::status::{badge_style, parse, render_lines, Entry, SectionKind, Status};
use gitmedit::view::{Color, Span, Style};

fn kinds(status: &Status) -> Vec<SectionKind> {
    status.sections.iter().map(|s| s.kind).collect()
}

fn owned(v: &[&str]) -> Vec<String> {
    v.iter().map(|s| s.to_string()).collect()
}

#[test]
fn file_statuses_map_to_badges() {
    let trailer = owned(&[
        "# Changes to be committed:",
        "#\tmodified:   a.rs",
        "#\tnew file:   b.rs",
        "#\tdeleted:    c.rs",
        "#\trenamed:    old.rs -> new.rs",
        "#\tboth modified:   d.rs",
    ]);
    let entries = &parse(&trailer, '#').sections[0].entries;
    let badges: Vec<char> = entries
        .iter()
        .map(|e| match e {
            Entry::File { badge, .. } => *badge,
            _ => ' ',
        })
        .collect();
    assert_eq!(badges, vec!['M', 'A', 'D', 'R', 'U']);
    assert_eq!(entries[3], Entry::File { badge: 'R', path: "old.rs -> new.rs".into(), suffix: None });
}

#[test]
fn heading_without_entries_is_kept_with_zero_count() {
    let s = parse(&owned(&["# Changes to be committed:", "#"]), '#');
    assert_eq!(s.section(SectionKind::Staged).unwrap().count(), 0);
}

#[test]
fn unrecognized_comment_lines_go_to_other() {
    let s = parse(&owned(&["# something unexpected"]), '#');
    assert_eq!(s.section(SectionKind::Other).unwrap().entries, vec![Entry::Text("something unexpected".into())]);
}

#[test]
fn diff_below_scissors() {
    let s = parse(
        &owned(&[
            "# Please enter the commit message for your changes. Lines starting",
            "# ------------------------ >8 ------------------------",
            "# Do not modify or remove the line above.",
            "diff --git a/x b/x",
            "+added",
        ]),
        '#',
    );
    assert_eq!(kinds(&s), vec![SectionKind::Diff]);
    assert_eq!(
        s.section(SectionKind::Diff).unwrap().entries,
        vec![Entry::DiffLine("diff --git a/x b/x".into()), Entry::DiffLine("+added".into())]
    );
}

#[test]
fn status_custom_comment_char() {
    let s = parse(&owned(&["; Changes to be committed:", ";\tmodified:   a.rs"]), ';');
    assert_eq!(s.section(SectionKind::Staged).unwrap().count(), 1);
}

#[test]
fn empty_trailer_is_empty_status() {
    assert!(parse(&[], '#').is_empty());
}

#[test]
fn branch_summary_and_upstream() {
    let s = parse(
        &owned(&[
            "# On branch main",
            "# Your branch and 'origin/main' have diverged,",
            "# and have 3 and 12 different commits each, respectively.",
            "# Date:   Tue May 12 01:43:54 2026 +0200",
        ]),
        '#',
    );
    assert_eq!(s.branch.as_deref(), Some("main"));
    let branch = s.section(SectionKind::Branch).unwrap();
    assert_eq!(branch.entries[0], Entry::Text("main \u{2192} origin/main  ahead 3, behind 12".into()));
    assert_eq!(branch.entries[1], Entry::Text("Date: Tue May 12 01:43:54 2026 +0200".into()));
}

#[test]
fn ahead_behind_and_up_to_date() {
    let ahead = parse(&owned(&["# On branch x", "# Your branch is ahead of 'o/x' by 4 commits."]), '#');
    assert_eq!(ahead.sections[0].entries[0], Entry::Text("x \u{2192} o/x  ahead 4".into()));
    let behind = parse(&owned(&["# On branch x", "# Your branch is behind 'o/x' by 2 commits, and can be fast-forwarded."]), '#');
    assert_eq!(behind.sections[0].entries[0], Entry::Text("x \u{2192} o/x  behind 2".into()));
    let same = parse(&owned(&["# HEAD detached at 1a2b3c", "# Your branch is up to date with 'o/x'."]), '#');
    assert_eq!(same.branch.as_deref(), Some("detached 1a2b3c"));
    assert_eq!(same.sections[0].entries[0], Entry::Text("detached 1a2b3c \u{2192} o/x  up to date".into()));
}

#[test]
fn sections_come_in_a_fixed_order() {
    let s = parse(
        &owned(&[
            "# Untracked files:",
            "#\tnew.txt",
            "# Changes not staged for commit:",
            "#\tmodified:   a.rs",
            "# Unmerged paths:",
            "#\tboth added:   c.rs",
            "# interactive rebase in progress; onto abc",
            "# Last command done (1 command done):",
            "#    pick abc # x",
            "# On branch topic",
        ]),
        '#',
    );
    assert_eq!(
        kinds(&s),
        vec![SectionKind::Branch, SectionKind::Rebase, SectionKind::Conflicts, SectionKind::Unstaged, SectionKind::Untracked]
    );
    let rebase = &s.section(SectionKind::Rebase).unwrap().entries;
    assert_eq!(rebase[1], Entry::Text("Last command done (1 command done):".into()));
    assert_eq!(rebase[2], Entry::Commit("pick abc # x".into()));
    assert_eq!(s.section(SectionKind::Untracked).unwrap().entries, vec![Entry::File { badge: '?', path: "new.txt".into(), suffix: None }]);
}

#[test]
fn submodule_lines_and_file_suffixes() {
    let s = parse(
        &owned(&[
            "# Submodules changed but not updated:",
            "#",
            "# * lib 1a2b3c...4d5e6f (2):",
            "#   > new commit",
            "# Warn: lib doesn't contain commit 123",
            "# Changes to be committed:",
            "#\tmodified:   packages/@dev-kit (new commits)",
            "#\tweird:   x.rs",
        ]),
        '#',
    );
    let sub = s.section(SectionKind::SubmodulesNotUpdated).unwrap();
    assert_eq!(
        sub.entries,
        vec![
            Entry::Submodule("lib 1a2b3c...4d5e6f (2):".into()),
            Entry::Commit("> new commit".into()),
            Entry::Warning("Warn: lib doesn't contain commit 123".into()),
        ]
    );
    assert_eq!(sub.count(), 1);
    let staged = s.section(SectionKind::Staged).unwrap();
    assert_eq!(staged.entries[0], Entry::File { badge: 'M', path: "packages/@dev-kit".into(), suffix: Some("(new commits)".into()) });
    assert_eq!(staged.entries[1], Entry::File { badge: 'U', path: "weird:   x.rs".into(), suffix: None });
}

#[test]
fn squash_and_merge_notes() {
    let s = parse(
        &owned(&[
            "# This is a combination of 2 commits.",
            "# The first commit message is:",
            "# It looks like you may be committing a merge.",
            "#   (use \"git push\" to publish)",
        ]),
        '#',
    );
    assert_eq!(kinds(&s), vec![SectionKind::Merge, SectionKind::Squash]);
    assert_eq!(s.section(SectionKind::Squash).unwrap().entries.len(), 2);
}

#[test]
fn titles_and_counted_sections() {
    assert_eq!(SectionKind::SubmodulesNotUpdated.title(), "Submodules not updated");
    assert!(SectionKind::Staged.counted());
    assert!(!SectionKind::Branch.counted());
    let empty: Status = parse(&[], '#');
    assert!(empty.section(SectionKind::Diff).is_none());
}

fn parse_message(raw: &str) -> Status {
    parse(&gitmedit::message::split(raw, '#').trailer, '#')
}

fn line_text(line: &[Span]) -> String {
    line.iter().map(|s| s.text.as_str()).collect()
}

/// A commit message of the kind `git commit --amend` writes, ahead of its upstream.
const AMMEND2: &str = "fix: release volume\n\n# Please enter the commit message for your changes. Lines starting\n# with '#' will be ignored, and an empty message aborts the commit.\n#\n# Date:      Tue May 12 01:43:54 2026 +0200\n#\n# On branch TASK-1111-fix-stage-view\n# Your branch is ahead of 'origin/TASK-1111-fix-stage-view' by 1 commit.\n#   (use \"git push\" to publish your local commits)\n#\n# Changes to be committed:\n#\tmodified:   a.rs\n#\tmodified:   b.rs\n#\tnew file:   c.rs\n#\tdeleted:    d.rs\n#\tmodified:   e.rs\n#\tmodified:   f.rs\n#\n";

/// A pull with rebase stopped on conflicts.
const PULL_REBASE: &str = "Merge conflicts\n\n# Conflicts:\n#\tsrc/a.rs\n#\tsrc/b.rs\n#\tsrc/c.rs\n#\tsrc/d.rs\n#\tsrc/e.rs\n#\tsrc/f.rs\n#\n";

#[test]
fn amend_ahead_of_upstream() {
    let s = parse_message(AMMEND2);
    let branch = s.section(SectionKind::Branch).unwrap();
    assert_eq!(
        branch.entries[0],
        Entry::Text("TASK-1111-fix-stage-view → origin/TASK-1111-fix-stage-view  ahead 1".into())
    );
    assert_eq!(s.section(SectionKind::Staged).unwrap().count(), 6);
}

#[test]
fn conflicts_only() {
    let s = parse_message(PULL_REBASE);
    assert_eq!(kinds(&s), vec![SectionKind::Conflicts]);
    let conflicts = s.section(SectionKind::Conflicts).unwrap();
    assert_eq!(conflicts.count(), 6);
    assert!(conflicts.entries.iter().all(|e| matches!(e, Entry::File { badge: 'U', .. })));
}

fn sample() -> Status {
    parse(
        &owned(&[
            "# On branch main",
            "# Changes to be committed:",
            "#\tmodified:   packages/@dev-kit (new commits)",
            "#\tdeleted:    old.rs",
            "# Untracked files:",
            "#\tnotes.txt",
        ]),
        '#',
    )
}

#[test]
fn headers_show_counts_and_sections_are_separated() {
    let lines: Vec<String> = render_lines(&sample(), 80).iter().map(|l| line_text(l)).collect();
    assert_eq!(lines[0], "Branch");
    assert_eq!(lines[1], " main");
    assert_eq!(lines[2], "");
    assert_eq!(lines[3], "Staged (2)");
    assert_eq!(lines[4], " M packages/@dev-kit (new commits)");
    assert_eq!(lines[5], " D old.rs");
    assert_eq!(lines[7], "Untracked (1)");
    assert_eq!(lines[8], " ? notes.txt");
}

#[test]
fn deleted_badge_is_red_and_suffix_is_dim() {
    let lines = render_lines(&sample(), 80);
    assert_eq!(lines[5][1].text, "D");
    assert_eq!(lines[5][1].style.fg, Color::Red);
    assert_eq!(lines[4].last().unwrap().style.fg, Color::DarkGray);
}

#[test]
fn long_paths_wrap_with_indent() {
    let status = parse(&owned(&["# Changes to be committed:", "#\tmodified:   aaaa/bbbb/cccc/dddd"]), '#');
    // width 12 leaves 9 path columns; no spaces, so the path hard-breaks every 9 chars
    let lines: Vec<String> = render_lines(&status, 12).iter().map(|l| line_text(l)).collect();
    assert_eq!(lines, vec!["Staged (1)", " M aaaa/bbbb", "   /cccc/ddd", "   d"]);
}

#[test]
fn diff_lines_are_colored() {
    let status = parse(
        &owned(&["# ------------------------ >8 ------------------------", "+added", "-removed", "@@ -1 +1 @@"]),
        '#',
    );
    let lines = render_lines(&status, 80);
    assert_eq!(lines[1][0].style.fg, Color::Green);
    assert_eq!(lines[2][0].style.fg, Color::Red);
    assert_eq!(lines[3][0].style.fg, Color::Cyan);
}

#[test]
fn badges_have_their_colors() {
    assert_eq!(badge_style('A'), Style::fg(Color::Green));
    assert_eq!(badge_style('M'), Style::fg(Color::Yellow));
    assert_eq!(badge_style('U'), Style::fg(Color::Red).bold());
    assert_eq!(badge_style('R'), Style::fg(Color::Blue));
    assert_eq!(badge_style('C'), Style::fg(Color::Blue));
    assert_eq!(badge_style('T'), Style::fg(Color::Blue));
    assert_eq!(badge_style('?'), Style::fg(Color::DarkGray));
}

#[test]
fn diff_headers_are_bold_and_context_plain() {
    let status = parse(
        &owned(&["# ------------------------ >8 ------------------------", "+++ b/x", "--- a/x", " context"]),
        '#',
    );
    let lines = render_lines(&status, 80);
    assert_eq!(lines[0][0].text, "Diff");
    assert_eq!(lines[1][0].style, Style::plain().bold());
    assert_eq!(lines[2][0].style, Style::plain().bold());
    assert_eq!(lines[3][0].style, Style::plain());
}

#[test]
fn submodule_lines_render_with_their_indents() {
    let status = parse(
        &owned(&[
            "# Submodules changed but not updated:",
            "# * vendor/lib 1234567...89abcde (2):",
            "#   > Fix",
        ]),
        '#',
    );
    let lines: Vec<String> = render_lines(&status, 80).iter().map(|l| line_text(l)).collect();
    assert!(lines.iter().any(|l| l == "   > Fix"), "{lines:?}");
    assert!(lines.iter().any(|l| l.starts_with(" * ")), "{lines:?}");
}

/// An amend on a branch that has diverged from its upstream, with `staged` files staged.
fn amend_diverged(staged: usize) -> String {
    let mut raw = String::from(
        "fix: tidy\n\n# Please enter the commit message for your changes. Lines starting\n# with '#' will be ignored, and an empty message aborts the commit.\n#\n# Date:      Tue May 12 01:43:54 2026 +0200\n#\n# On branch EX-3211-arc-epic\n# Your branch and 'origin/EX-3211-arc-epic' have diverged,\n# and have 1 and 2 different commits each, respectively.\n#   (use \"git pull\" if you want to integrate the remote branch with yours)\n#\n# Changes to be committed:\n",
    );
    for i in 0..staged {
        raw.push_str(&format!("#\tmodified:   src/file{i}.ts\n"));
    }
    raw.push_str("#\n");
    raw
}

/// A merge after resolving conflicts, with many deletions and submodule changes.
fn merge_with_submodules() -> String {
    let mut raw = String::from(
        "Merge branch 'sync-ui'\n\n# Conflicts:\n#\tsrc/a.ts\n#\tsrc/b.ts\n#\tsrc/c.ts\n#\tsrc/d.ts\n#\n# It looks like you may be committing a merge.\n# If this is not correct, please run\n#\tgit update-ref -d MERGE_HEAD\n# and try again.\n\n\n# Please enter the commit message for your changes. Lines starting\n# with '#' will be ignored, and an empty message aborts the commit.\n#\n# On branch main\n# All conflicts fixed but you are still merging.\n#\n# Changes to be committed:\n",
    );
    for i in 0..160 {
        raw.push_str(&format!("#\tdeleted:    old/file{i}.ts\n"));
    }
    raw.push_str(
        "#\n# Changes not staged for commit:\n#\tmodified:   packages/@dev-kit (new commits)\n#\n# Submodule changes to be committed:\n#\n# * packages/@ui 1234567...89abcde (1):\n#   > Fix the button\n#\n# Submodules changed but not updated:\n#\n# * packages/@dev-kit 1234567...89abcde (2):\n#   > Add a kit\n#\n",
    );
    raw
}

/// A commit message while an interactive rebase is stopped on conflicts.
const REBASE_STOPPED: &str = "Update chat message stop words\n\n# Please enter the commit message for your changes. Lines starting\n# with '#' will be ignored, and an empty message aborts the commit.\n#\n# Date:      Tue May 12 01:43:54 2026 +0200\n#\n# interactive rebase in progress; onto c3d42a1f4\n# Last command done (1 command done):\n#    pick c0ad61ef0 # Update chat message stop words\n# No commands remaining.\n#\n# Unmerged paths:\n#\tboth modified:   src/chat.rs\n#\n# Changes to be committed:\n#\tmodified:   src/words.rs\n#\n# Changes not staged for commit:\n#\tmodified:   a.rs\n#\tmodified:   b.rs\n#\tmodified:   c.rs\n#\tmodified:   d.rs\n#\tmodified:   e.rs\n#\tmodified:   f.rs\n#\n# Submodule changes to be committed:\n#\n# * vendor/one 1111111...2222222 (1):\n#   > Bump\n#\n# Submodules changed but not updated:\n#\n# * vendor/a 1111111...2222222 (1):\n# Warn: vendor/a doesn't contain commit 2222222\n# * vendor/b 1111111...2222222 (1):\n# Warn: vendor/b doesn't contain commit 2222222\n# * vendor/c 1111111...2222222 (1):\n# Warn: vendor/c doesn't contain commit 2222222\n# * vendor/d 1111111...2222222 (1):\n# Warn: vendor/d doesn't contain commit 2222222\n# * vendor/e 1111111...2222222 (1):\n#   > Bump\n#\n# Untracked files:\n#\tvendor/money-tree/\n#\n";

#[test]
fn amend_with_diverged_branch_and_staged_files() {
    let s = parse_message(&amend_diverged(34));
    assert_eq!(kinds(&s), vec![SectionKind::Branch, SectionKind::Staged]);
    assert_eq!(s.branch.as_deref(), Some("EX-3211-arc-epic"));
    let branch = s.section(SectionKind::Branch).unwrap();
    assert_eq!(
        branch.entries[0],
        Entry::Text("EX-3211-arc-epic → origin/EX-3211-arc-epic  ahead 1, behind 2".into())
    );
    assert_eq!(branch.entries[1], Entry::Text("Date: Tue May 12 01:43:54 2026 +0200".into()));
    assert_eq!(s.section(SectionKind::Staged).unwrap().count(), 34);
    assert!(!format!("{:?}", s.sections).contains("Please enter"));
}

#[test]
fn merge_with_conflicts_many_deletions_and_submodules() {
    let s = parse_message(&merge_with_submodules());
    assert_eq!(
        kinds(&s),
        vec![
            SectionKind::Branch,
            SectionKind::Merge,
            SectionKind::Conflicts,
            SectionKind::Staged,
            SectionKind::Unstaged,
            SectionKind::SubmodulesStaged,
            SectionKind::SubmodulesNotUpdated,
        ]
    );
    assert_eq!(s.section(SectionKind::Conflicts).unwrap().count(), 4);
    assert_eq!(s.section(SectionKind::Staged).unwrap().count(), 160);
    assert_eq!(s.section(SectionKind::Unstaged).unwrap().count(), 1);
    assert_eq!(s.section(SectionKind::SubmodulesStaged).unwrap().count(), 1);
    assert_eq!(s.section(SectionKind::SubmodulesNotUpdated).unwrap().count(), 1);
    assert_eq!(
        s.section(SectionKind::Unstaged).unwrap().entries[0],
        Entry::File { badge: 'M', path: "packages/@dev-kit".into(), suffix: Some("(new commits)".into()) }
    );
}

#[test]
fn rebase_in_progress() {
    let s = parse_message(REBASE_STOPPED);
    assert_eq!(
        kinds(&s),
        vec![
            SectionKind::Branch,
            SectionKind::Rebase,
            SectionKind::Conflicts,
            SectionKind::Staged,
            SectionKind::Unstaged,
            SectionKind::SubmodulesStaged,
            SectionKind::SubmodulesNotUpdated,
            SectionKind::Untracked,
        ]
    );
    let rebase = &s.section(SectionKind::Rebase).unwrap().entries;
    assert_eq!(rebase[0], Entry::Text("interactive rebase in progress; onto c3d42a1f4".into()));
    assert_eq!(rebase[2], Entry::Commit("pick c0ad61ef0 # Update chat message stop words".into()));
    assert_eq!(s.section(SectionKind::Unstaged).unwrap().count(), 6);
    let not_updated = s.section(SectionKind::SubmodulesNotUpdated).unwrap();
    assert_eq!(not_updated.count(), 5);
    assert_eq!(not_updated.entries.iter().filter(|e| matches!(e, Entry::Warning(_))).count(), 4);
    assert_eq!(
        s.section(SectionKind::Untracked).unwrap().entries,
        vec![Entry::File { badge: '?', path: "vendor/money-tree/".into(), suffix: None }]
    );
}
