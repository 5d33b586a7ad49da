use gitmedit::message::{is_scissors, split};

fn owned(v: &[&str]) -> Vec<String> {
    v.iter().map(|s| s.to_string()).collect()
}

#[test]
fn fresh_commit_has_empty_message_and_round_trips() {
    let raw = "\n# Please enter the commit message\n#\n";
    let f = split(raw, '#');
    assert!(f.message.is_empty());
    assert_eq!(f.assemble(&f.message), raw);
}

#[test]
fn trailing_blank_lines_in_edited_message_collapse_to_one_separator() {
    let f = split("subject\n\n# c\n", '#');
    assert_eq!(f.assemble(&owned(&["subject", "", "", ""])), "subject\n\n# c\n");
}

#[test]
fn interleaved_squash_messages_move_into_message() {
    let raw = "# This is a combination of 2 commits.\n# This is the 1st commit message:\n\nfeat: one\n\nbody one\n\n# This is the commit message #2:\n\nfix: two\n";
    let f = split(raw, '#');
    assert_eq!(f.message, owned(&["feat: one", "", "body one", "", "fix: two"]));
    assert!(f.trailer.iter().all(|l| l.starts_with('#') || l.is_empty()));
    let out = f.assemble(&f.message);
    let kept: Vec<&str> = out.lines().filter(|l| !l.starts_with('#')).collect();
    assert_eq!(kept.join("\n").trim(), "feat: one\n\nbody one\n\nfix: two");
}

#[test]
fn scissors_and_diff_stay_in_trailer() {
    let raw = "subject\n\n# Please enter\n# ------------------------ >8 ------------------------\n# Do not modify or remove the line above.\ndiff --git a/x b/x\n+added\n";
    let f = split(raw, '#');
    assert_eq!(f.message, owned(&["subject"]));
    assert!(f.trailer.contains(&"diff --git a/x b/x".to_string()));
    assert_eq!(f.assemble(&f.message), raw);
}

#[test]
fn file_without_comments_has_no_trailer() {
    let f = split("just a message\n", '#');
    assert!(f.trailer.is_empty());
    assert_eq!(f.assemble(&f.message), "just a message\n");
}

#[test]
fn missing_final_newline_is_preserved() {
    let f = split("subject\n\n# c", '#');
    assert_eq!(f.assemble(&f.message), "subject\n\n# c");
}

#[test]
fn message_custom_comment_char() {
    let f = split("subject\n\n; comment\n", ';');
    assert_eq!(f.message, owned(&["subject"]));
    assert_eq!(f.trailer, owned(&["; comment"]));
}

#[test]
fn scissors_detection() {
    assert!(is_scissors("# ------------------------ >8 ------------------------", '#'));
    assert!(!is_scissors("# ------------------------", '#'));
}

#[test]
fn edited_message_keeps_the_trailer_after_one_blank_line() {
    let raw = "old subject\n\n# Please enter the commit message\n#\tmodified:   a.rs\n#\n";
    let f = split(raw, '#');
    let out = f.assemble(&owned(&["feat: new subject", "", "body"]));
    assert_eq!(
        out,
        "feat: new subject\n\nbody\n\n# Please enter the commit message\n#\tmodified:   a.rs\n#\n"
    );
}

#[test]
fn untouched_messages_round_trip_byte_for_byte() {
    for raw in ["subject\n\nbody\n\n# c\n", "subject\n", "subject\n\n# a\n\n# b\n"] {
        let f = split(raw, '#');
        assert_eq!(f.assemble(&f.message), raw, "{raw:?}");
    }
}

#[test]
fn scissors_needs_the_comment_char_first() {
    assert!(is_scissors(";   ------------------------ >8 ------------------------  ", ';'));
    assert!(!is_scissors(" # ------------------------ >8 ------------------------", '#'));
}

#[test]
fn no_message_line_is_a_comment() {
    let raw = "# This is a combination of 2 commits.\n# This is the 1st commit message:\n\nfirst\n\n# This is the commit message #2:\n\nsecond\n\n# Please enter the commit message\n";
    let f = split(raw, '#');
    assert_eq!(f.message, owned(&["first", "", "second"]));
    assert!(f.message.iter().all(|l| !l.starts_with('#')));
    assert!(f.trailer.iter().all(|l| l.starts_with('#') || l.trim().is_empty()));
}

/// A commit message as `git commit --amend` writes it.
const AMEND1: &str = "fix: hello here is a demo of gitmedit edit features for all git situations\n\n# Please enter the commit message for your changes. Lines starting\n# with '#' will be ignored, and an empty message aborts the commit.\n#\n# Date:      Tue May 12 01:43:54 2026 +0200\n#\n# On branch EX-3211-arc-epic\n# Your branch and 'origin/EX-3211-arc-epic' have diverged,\n# and have 1 and 2 different commits each, respectively.\n#\n# Changes to be committed:\n#\tmodified:   packages/@project/components/contract-form/index.tsx\n#\tmodified:   packages/@project/components/contract-form/elements/EscrowDetails.tsx\n#\n";

/// A commit message ahead of its upstream.
const AMEND2: &str = "fix: release volume\n\n# Please enter the commit message for your changes. Lines starting\n# with '#' will be ignored, and an empty message aborts the commit.\n#\n# On branch TASK-1111-fix-stage-view\n# Your branch is ahead of 'origin/TASK-1111-fix-stage-view' by 1 commit.\n#\n# Changes to be committed:\n#\tmodified:   a.rs\n#\n";

/// A merge message with conflicts, its comment groups separated by a blank line.
const MERGE: &str = "Merge remote-tracking branch 'origin/BRANCH-NAME2' into 'BRANCH_NAME'\n\n# Conflicts:\n#\tsrc/a.rs\n#\n# It looks like you may be committing a merge.\n# If this is not correct, please run\n#\tgit update-ref -d MERGE_HEAD\n# and try again.\n\n\n# Please enter a commit message to explain why this merge is necessary,\n# especially if it merges an updated upstream into a topic branch.\n#\n# Lines starting with '#' will be ignored, and an empty message aborts\n# the commit.\n";

/// A merge message with submodule changes.
const MERGE2: &str = "Merge branch 'sync-ui'\n\n# Conflicts:\n#\tpackages/ui/a.ts\n#\n# On branch main\n# All conflicts fixed but you are still merging.\n#\n# Changes to be committed:\n#\tdeleted:    old.ts\n#\tmodified:   packages/@dev-kit (new commits)\n#\n";

/// A commit message during an interactive rebase.
const REBASE_MSG: &str = "Update chat message stop words\n\n# Please enter the commit message for your changes. Lines starting\n# with '#' will be ignored, and an empty message aborts the commit.\n#\n# interactive rebase in progress; onto c3d42a1f4\n# Last command done (1 command done):\n#    pick c0ad61ef0 # Update chat message stop words\n# No commands remaining.\n#\n";

/// A merge message of a pull that stopped on conflicts.
const PULL_REBASE: &str = "Merge branch 'main' of origin\n\n# Conflicts:\n#\tsrc/a.rs\n#\tsrc/b.rs\n#\n";

#[test]
fn commit_message_is_split_from_comments() {
    let f = split(AMEND1, '#');
    assert_eq!(
        f.message,
        owned(&["fix: hello here is a demo of gitmedit edit features for all git situations"])
    );
    assert!(f.trailer.iter().all(|l| l.starts_with('#') || l.is_empty()));
}

#[test]
fn merge_message_keeps_blank_lines_between_comment_groups_in_trailer() {
    let f = split(MERGE, '#');
    assert_eq!(f.message, owned(&["Merge remote-tracking branch 'origin/BRANCH-NAME2' into 'BRANCH_NAME'"]));
    assert!(f.trailer.iter().any(|l| l.is_empty()));
}

#[test]
fn untouched_fixtures_round_trip_byte_for_byte() {
    for raw in [AMEND2, AMEND1, MERGE, MERGE2, REBASE_MSG, PULL_REBASE] {
        let f = split(raw, '#');
        assert_eq!(f.assemble(&f.message), raw);
    }
}

#[test]
fn message_edited_message_keeps_trailer() {
    let f = split(AMEND1, '#');
    let out = f.assemble(&owned(&["feat: new subject", "", "body"]));
    assert!(out.starts_with("feat: new subject\n\nbody\n\n# Please enter the commit message"));
    assert!(out.ends_with(
        "#\tmodified:   packages/@project/components/contract-form/elements/EscrowDetails.tsx\n#\n"
    ));
}

#[test]
fn one_split_and_assembly_settles_the_file() {
    let f = split("# c\n\nmsg", '#');
    assert_eq!(f.message, owned(&["msg"]));
    assert_eq!(f.trailer, owned(&["# c", ""]));
    let once = f.assemble(&f.message);
    assert_eq!(once, "msg\n\n# c\n");
    let g = split(&once, '#');
    assert_eq!(g.trailer, owned(&["# c"]));
    assert_eq!(g.assemble(&g.message), once);
}

#[test]
fn git_layout_with_blank_last_trailer_line_round_trips() {
    let raw = "subject\n\nbody\n\n# c\n#\n\n# >8 no scissors\n";
    let f = split(raw, '#');
    assert_eq!(f.message, owned(&["subject", "", "body"]));
    assert_eq!(f.assemble(&f.message), raw);
    let bare = "subject\n\n# c\n";
    let g = split(bare.trim_end_matches('\n'), '#');
    assert_eq!(g.assemble(&g.message), "subject\n\n# c");
}

#[test]
fn split_of_assembled_text_gives_the_same_file() {
    for raw in [AMEND2, AMEND1, MERGE, "subject\n\nbody\n", "\n# c\n", "", "\n"] {
        let f = split(raw, '#');
        let again = split(&f.assemble(&f.message), '#');
        assert_eq!(again, f, "{raw:?}");
    }
    let f = split("msg\n\n# c\n", '#');
    let g = split(&f.assemble(&f.message), '#');
    assert_eq!(g.message, f.message);
}
