use gitmedit::context::{
    context_from_name, detect_context, git_dir, git_dir_of, parse_comment_char, shell_quote, store_dir,
    GitContext,
};

#[test]
fn detects_each_git_file() {
    assert_eq!(detect_context("COMMIT_EDITMSG"), GitContext::Commit);
    assert_eq!(detect_context("MERGE_MSG"), GitContext::Merge);
    assert_eq!(detect_context("git-rebase-todo"), GitContext::Rebase);
    assert_eq!(detect_context("SQUASH_MSG"), GitContext::Squash);
    assert_eq!(detect_context("TAG_EDITMSG"), GitContext::Tag);
    assert_eq!(detect_context("unknown.txt"), GitContext::Unknown);
}

#[test]
fn only_the_filename_matters() {
    assert_eq!(detect_context("/tmp/.git/COMMIT_EDITMSG"), GitContext::Commit);
    assert_eq!(detect_context("/some/path/unknown.txt"), GitContext::Unknown);
}

#[test]
fn message_contexts_share_the_message_layout() {
    for ctx in [GitContext::Commit, GitContext::Merge, GitContext::Squash, GitContext::Tag] {
        assert!(ctx.is_message(), "{ctx:?}");
    }
    assert!(!GitContext::Rebase.is_message());
    assert!(!GitContext::Unknown.is_message());
}

#[test]
fn git_dir_for_message_file_in_worktree() {
    let p = "/repo/.git/worktrees/feature/COMMIT_EDITMSG";
    assert_eq!(git_dir(p, GitContext::Commit), Some("/repo/.git/worktrees/feature".to_string()));
}

#[test]
fn git_dir_for_rebase_todo_is_parent_of_rebase_merge() {
    let p = "/repo/.git/rebase-merge/git-rebase-todo";
    assert_eq!(git_dir(p, GitContext::Rebase), Some("/repo/.git".to_string()));
}

#[test]
fn git_dir_for_unknown_file_is_none() {
    assert_eq!(git_dir("/tmp/notes.txt", GitContext::Unknown), None);
}

#[test]
fn comment_char_parsing() {
    assert_eq!(parse_comment_char(";\n"), ';');
    assert_eq!(parse_comment_char(""), '#');
    assert_eq!(parse_comment_char("auto\n"), '#');
}

#[test]
fn comment_char_takes_the_first_char_of_the_trimmed_value() {
    assert_eq!(parse_comment_char("  %% \n"), '%');
    assert_eq!(parse_comment_char(" \t\n"), '#');
    assert_eq!(parse_comment_char("autox"), 'a');
}

#[test]
fn directory_without_a_name_is_unknown() {
    assert_eq!(detect_context("/"), GitContext::Unknown);
    assert_eq!(detect_context(""), GitContext::Unknown);
}

#[test]
fn a_file_with_no_parent_has_no_git_dir() {
    assert_eq!(git_dir("/", GitContext::Commit), None);
    assert_eq!(git_dir("git-rebase-todo", GitContext::Rebase), None);
}

#[test]
fn store_dir_is_under_the_git_dir() {
    assert_eq!(store_dir("/repo/.git"), "/repo/.git/gitmedit/reword");
}

#[test]
fn shell_quote_wraps_and_escapes() {
    assert_eq!(shell_quote("/usr/bin/gitmedit"), "'/usr/bin/gitmedit'");
    assert_eq!(shell_quote("/opt/my tools/gitmedit"), "'/opt/my tools/gitmedit'");
    assert_eq!(shell_quote("/a'b"), r"'/a'\''b'");
}

#[test]
fn file_names_name_their_context() {
    assert_eq!(context_from_name(Some("COMMIT_EDITMSG")), GitContext::Commit);
    assert_eq!(context_from_name(Some("TAG_EDITMSG")), GitContext::Tag);
    assert_eq!(context_from_name(Some("MERGE_MSG")), GitContext::Merge);
    assert_eq!(context_from_name(Some("git-rebase-todo")), GitContext::Rebase);
    assert_eq!(context_from_name(Some("SQUASH_MSG")), GitContext::Squash);
    assert_eq!(context_from_name(Some("commit_editmsg")), GitContext::Unknown);
    assert_eq!(context_from_name(None), GitContext::Unknown);
}

#[test]
fn git_dir_is_chosen_by_kind() {
    assert_eq!(git_dir_of(GitContext::Commit, Some("/r/.git"), Some("/r")).as_deref(), Some("/r/.git"));
    assert_eq!(
        git_dir_of(GitContext::Rebase, Some("/r/.git/rebase-merge"), Some("/r/.git")).as_deref(),
        Some("/r/.git")
    );
    assert_eq!(git_dir_of(GitContext::Rebase, Some("/r/.git/rebase-merge"), None), None);
    assert_eq!(git_dir_of(GitContext::Unknown, Some("/tmp"), Some("/")), None);
    assert_eq!(git_dir_of(GitContext::Tag, None, None), None);
}
