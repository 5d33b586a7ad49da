use gitmedit::document::{
    classify_line, classify_rebase_line, detect_squash_header, parse_action, parse_rebase_todo,
    serialize_rebase_todo, ContentLine, Document, EditorMode, RebaseAction, RebaseLine,
};

// -------------------------------------------------------------------------
// RebaseAction and RebaseLine tests
// -------------------------------------------------------------------------

#[test]
fn test_parse_action_long_forms() {
    assert_eq!(parse_action("pick"), Some(RebaseAction::Pick));
    assert_eq!(parse_action("squash"), Some(RebaseAction::Squash));
    assert_eq!(parse_action("fixup"), Some(RebaseAction::Fixup));
    assert_eq!(parse_action("drop"), Some(RebaseAction::Drop));
    assert_eq!(parse_action("exec"), Some(RebaseAction::Exec));
}

#[test]
fn test_parse_action_short_forms() {
    assert_eq!(parse_action("p"), Some(RebaseAction::Pick));
    assert_eq!(parse_action("s"), Some(RebaseAction::Squash));
    assert_eq!(parse_action("f"), Some(RebaseAction::Fixup));
    assert_eq!(parse_action("d"), Some(RebaseAction::Drop));
    assert_eq!(parse_action("x"), Some(RebaseAction::Exec));
}

#[test]
fn test_parse_action_invalid() {
    assert_eq!(parse_action("invalid"), None);
    assert_eq!(parse_action(""), None);
}

#[test]
fn test_classify_rebase_content_line() {
    let result = classify_rebase_line("pick abc1234 Fix bug", '#');
    assert_eq!(
        result,
        RebaseLine::Action {
            action: RebaseAction::Pick,
            hash: "abc1234".to_string(),
            subject: "Fix bug".to_string(),
        }
    );
}

#[test]
fn test_classify_rebase_comment() {
    let result = classify_rebase_line("# Rebase abc..def onto ghi", '#');
    assert_eq!(
        result,
        RebaseLine::Comment("# Rebase abc..def onto ghi".to_string())
    );
}

#[test]
fn test_classify_rebase_abbreviated() {
    let result = classify_rebase_line("p abc1234 Fix bug", '#');
    assert_eq!(
        result,
        RebaseLine::Action {
            action: RebaseAction::Pick,
            hash: "abc1234".to_string(),
            subject: "Fix bug".to_string(),
        }
    );
}

#[test]
fn test_classify_rebase_malformed() {
    let result = classify_rebase_line("garbage line", '#');
    assert_eq!(result, RebaseLine::Comment("garbage line".to_string()));
}

#[test]
fn test_classify_rebase_subject_with_spaces() {
    let result = classify_rebase_line("pick abc1234 Fix the authentication bug", '#');
    assert_eq!(
        result,
        RebaseLine::Action {
            action: RebaseAction::Pick,
            hash: "abc1234".to_string(),
            subject: "Fix the authentication bug".to_string(),
        }
    );
}

#[test]
fn test_action_cycle_pick() {
    assert_eq!(RebaseAction::Pick.cycle(), RebaseAction::Squash);
}

#[test]
fn test_action_cycle_squash() {
    assert_eq!(RebaseAction::Squash.cycle(), RebaseAction::Fixup);
}

#[test]
fn test_action_cycle_fixup() {
    assert_eq!(RebaseAction::Fixup.cycle(), RebaseAction::Drop);
}

#[test]
fn test_action_cycle_drop() {
    assert_eq!(RebaseAction::Drop.cycle(), RebaseAction::Pick);
}

#[test]
fn test_action_cycle_exec() {
    assert_eq!(RebaseAction::Exec.cycle(), RebaseAction::Exec);
}

#[test]
fn test_action_as_str() {
    assert_eq!(RebaseAction::Pick.as_str(), "pick");
    assert_eq!(RebaseAction::Squash.as_str(), "squash");
    assert_eq!(RebaseAction::Fixup.as_str(), "fixup");
    assert_eq!(RebaseAction::Drop.as_str(), "drop");
    assert_eq!(RebaseAction::Exec.as_str(), "exec");
}

#[test]
fn test_parse_rebase_todo() {
    let input = "pick abc1234 Fix bug\nsquash def5678 Add test\n# comment\n";
    let lines = parse_rebase_todo(input, '#');
    assert_eq!(lines.len(), 3);
    assert_eq!(
        lines[0],
        RebaseLine::Action {
            action: RebaseAction::Pick,
            hash: "abc1234".to_string(),
            subject: "Fix bug".to_string(),
        }
    );
    assert_eq!(
        lines[1],
        RebaseLine::Action {
            action: RebaseAction::Squash,
            hash: "def5678".to_string(),
            subject: "Add test".to_string(),
        }
    );
    assert_eq!(lines[2], RebaseLine::Comment("# comment".to_string()));
}

#[test]
fn test_serialize_rebase_todo() {
    let lines = vec![
        RebaseLine::Action {
            action: RebaseAction::Pick,
            hash: "abc1234".to_string(),
            subject: "Fix bug".to_string(),
        },
        RebaseLine::Action {
            action: RebaseAction::Squash,
            hash: "def5678".to_string(),
            subject: "Add test".to_string(),
        },
        RebaseLine::Comment("# comment".to_string()),
    ];
    let result = serialize_rebase_todo(&lines);
    assert_eq!(result, "pick abc1234 Fix bug\nsquash def5678 Add test\n# comment\n");
}

#[test]
fn test_roundtrip_rebase_todo() {
    let input = "pick abc1234 Fix bug\nsquash def5678 Add test\n# comment\n";
    let lines = parse_rebase_todo(input, '#');
    let output = serialize_rebase_todo(&lines);
    assert_eq!(input, output);
}

#[test]
fn test_roundtrip_with_abbreviated_actions() {
    let input = "p abc1234 Fix bug\n";
    let lines = parse_rebase_todo(input, '#');
    let output = serialize_rebase_todo(&lines);
    assert_eq!(output, "pick abc1234 Fix bug\n");
}

#[test]
fn test_empty_rebase_todo() {
    let lines = parse_rebase_todo("", '#');
    assert!(lines.is_empty());
}

#[test]
fn test_exec_line_parsing() {
    let result = classify_rebase_line("exec make test", '#');
    assert_eq!(
        result,
        RebaseLine::Action {
            action: RebaseAction::Exec,
            hash: "".to_string(),
            subject: "make test".to_string(),
        }
    );
}

// -------------------------------------------------------------------------
// classify_line
// -------------------------------------------------------------------------

#[test]
fn test_classify_comment_line() {
    assert_eq!(
        classify_line("# Please enter the commit message", '#'),
        ContentLine::Comment("# Please enter the commit message".to_string())
    );
}

#[test]
fn test_classify_content_line() {
    assert_eq!(
        classify_line("Fix the authentication bug", '#'),
        ContentLine::Content("Fix the authentication bug".to_string())
    );
}

#[test]
fn test_classify_conflict_marker_left() {
    assert_eq!(
        classify_line("<<<<<<", '#'),
        ContentLine::ConflictMarker("<<<<<<".to_string())
    );
}

#[test]
fn test_classify_conflict_marker_separator() {
    assert_eq!(
        classify_line("======", '#'),
        ContentLine::ConflictMarker("======".to_string())
    );
}

#[test]
fn test_classify_conflict_marker_right() {
    assert_eq!(
        classify_line(">>>>>>", '#'),
        ContentLine::ConflictMarker(">>>>>>".to_string())
    );
}

#[test]
fn test_classify_seven_char_markers() {
    assert_eq!(
        classify_line("<<<<<<< HEAD", '#'),
        ContentLine::ConflictMarker("<<<<<<< HEAD".to_string())
    );
    assert_eq!(
        classify_line("======= separator", '#'),
        ContentLine::ConflictMarker("======= separator".to_string())
    );
    assert_eq!(
        classify_line(">>>>>>> branch-name", '#'),
        ContentLine::ConflictMarker(">>>>>>> branch-name".to_string())
    );
}

// -------------------------------------------------------------------------
// Document::parse
// -------------------------------------------------------------------------

#[test]
fn test_parse_mixed_content() {
    let input = "Fix the bug\n# Please enter the commit message\n# Lines starting with '#' will be ignored\nSigned-off-by: Dev\n";
    let doc = Document::parse(input, '#', EditorMode::Squash);

    // Trailing '\n' is consumed — 4 lines stored, not 5.
    // Lines: Content, Comment, Comment, Content
    assert_eq!(doc.lines().len(), 4);
    assert_eq!(doc.lines()[0], ContentLine::Content("Fix the bug".to_string()));
    assert_eq!(
        doc.lines()[1],
        ContentLine::Comment("# Please enter the commit message".to_string())
    );
    assert_eq!(
        doc.lines()[2],
        ContentLine::Comment("# Lines starting with '#' will be ignored".to_string())
    );
    assert_eq!(
        doc.lines()[3],
        ContentLine::Content("Signed-off-by: Dev".to_string())
    );

    // editable_lines() returns 2: "Fix the bug", "Signed-off-by: Dev"
    assert_eq!(doc.editable_lines().len(), 2);
}

// -------------------------------------------------------------------------
// editable_lines
// -------------------------------------------------------------------------

#[test]
fn test_editable_lines_excludes_comments() {
    // 3 content lines, 2 comment lines; trailing '\n' is consumed
    let input = "line1\n# comment1\nline2\n# comment2\nline3\n";
    let doc = Document::parse(input, '#', EditorMode::Squash);
    let editable = doc.editable_lines();
    assert_eq!(editable.len(), 3); // "line1", "line2", "line3"
    assert_eq!(editable[0], "line1");
    assert_eq!(editable[1], "line2");
    assert_eq!(editable[2], "line3");
}

#[test]
fn test_editable_lines_excludes_conflict_markers() {
    let input = "<<<<<<< HEAD\nour change\n=======\ntheir change\n>>>>>>> branch\n";
    let doc = Document::parse(input, '#', EditorMode::Squash);
    let editable = doc.editable_lines();
    // "our change", "their change" (trailing '\n' consumed)
    assert_eq!(editable.len(), 2);
    assert_eq!(editable[0], "our change");
    assert_eq!(editable[1], "their change");
}

// -------------------------------------------------------------------------
// editable_index / full_row_for_editable
// -------------------------------------------------------------------------

#[test]
fn test_editable_index_maps_correctly() {
    // Lines: Comment(idx=0), Content(idx=1), Comment(idx=2), Content(idx=3)
    let input = "# comment\nfirst content\n# another comment\nsecond content\n";
    let doc = Document::parse(input, '#', EditorMode::Squash);
    // editable row 0 -> lines index 1
    assert_eq!(doc.full_row_for_editable(0), 1);
    // editable row 1 -> lines index 3
    assert_eq!(doc.full_row_for_editable(1), 3);
}

// -------------------------------------------------------------------------
// Roundtrip serialization
// -------------------------------------------------------------------------

#[test]
fn test_roundtrip_preserves_comments() {
    let input = "subject line\n\n# comment line\nbody text\n";
    let doc = Document::parse(input, '#', EditorMode::Squash);
    let editable = doc.editable_lines();
    let output = doc.serialize(&editable);
    assert_eq!(input, output);
}

#[test]
fn test_roundtrip_preserves_conflict_markers() {
    let input = "<<<<<<< HEAD\nour change\n=======\ntheir change\n>>>>>>> branch\n";
    let doc = Document::parse(input, '#', EditorMode::Squash);
    let editable = doc.editable_lines();
    let output = doc.serialize(&editable);
    assert_eq!(input, output);
}

#[test]
fn test_serialize_with_edited_content() {
    let input = "old subject\n# comment\n";
    let doc = Document::parse(input, '#', EditorMode::Squash);
    let mut edited = doc.editable_lines();
    edited[0] = "new subject".to_string();
    let output = doc.serialize(&edited);
    assert_eq!(output, "new subject\n# comment\n");
}

// -------------------------------------------------------------------------
// Edge cases
// -------------------------------------------------------------------------

#[test]
fn test_empty_file() {
    let doc = Document::parse("", '#', EditorMode::Squash);
    // split("") on '\n' -> [""] -> one empty Content line
    assert_eq!(doc.lines().len(), 1);
    assert_eq!(doc.lines()[0], ContentLine::Content("".to_string()));
    assert_eq!(doc.editable_lines().len(), 1);
}

#[test]
fn test_comment_only_file() {
    let input = "# comment 1\n# comment 2\n";
    let doc = Document::parse(input, '#', EditorMode::Squash);
    // Lines: Comment, Comment (trailing '\n' consumed) — no editable lines
    assert_eq!(doc.editable_lines().len(), 0);
}

// -------------------------------------------------------------------------
// first_line
// -------------------------------------------------------------------------

#[test]
fn test_first_line_returns_subject() {
    let doc = Document::parse("Subject\n\nBody\n", '#', EditorMode::Squash);
    assert_eq!(doc.first_line(), "Subject");
}

#[test]
fn test_first_line_empty_when_no_editable() {
    let doc = Document::parse("# only comment\n", '#', EditorMode::Squash);
    assert_eq!(doc.first_line(), "");
}

// -------------------------------------------------------------------------
// has_blank_line_after_subject
// -------------------------------------------------------------------------

#[test]
fn test_has_blank_line_true_when_blank_present() {
    let doc = Document::parse("Subject\n\nBody\n", '#', EditorMode::Squash);
    assert!(doc.has_blank_line_after_subject());
}

#[test]
fn test_has_blank_line_false_when_missing() {
    let doc = Document::parse("Subject\nBody\n", '#', EditorMode::Squash);
    assert!(!doc.has_blank_line_after_subject());
}

#[test]
fn test_has_blank_line_true_single_line() {
    let doc = Document::parse("Subject\n", '#', EditorMode::Squash);
    assert!(doc.has_blank_line_after_subject());
}

// -------------------------------------------------------------------------
// detect_squash_header
// -------------------------------------------------------------------------

#[test]
fn test_detect_squash_header_standard() {
    let input = "# This is a combination of 2 commits.\n# This is the 1st commit message:\n# First commit\n#\n# This is the commit message #2:\n# Second commit\n\nCombined message\n";
    // The blank line before "Combined message" is the first non-comment line after the squash header
    let result = detect_squash_header(input, '#');
    assert!(result.is_some());
    let header_end = result.unwrap();
    // header_end points to the blank line (first non-comment line after header)
    let lines: Vec<&str> = input.split('\n').collect();
    // The line at header_end should be the empty line before "Combined message"
    assert!(lines[header_end].is_empty() || !lines[header_end].starts_with('#'));
}

#[test]
fn test_detect_squash_header_none() {
    let input = "Just a normal commit\n";
    let result = detect_squash_header(input, '#');
    assert!(result.is_none());
}

#[test]
fn test_detect_squash_header_single_commit() {
    let input = "# This is a combination of 1 commits.\n# This is the 1st commit message:\n# Original\nEditable\n";
    let result = detect_squash_header(input, '#');
    assert!(result.is_some());
    let header_end = result.unwrap();
    // header_end should point to "Editable"
    let lines: Vec<&str> = input.split('\n').collect();
    assert_eq!(lines[header_end], "Editable");
}

#[test]
fn test_detect_squash_header_all_comments() {
    let input = "# This is a combination of 2 commits.\n# All comments\n";
    let result = detect_squash_header(input, '#');
    assert!(result.is_some());
    let header_end = result.unwrap();
    // Entire file is header: header_end == number of lines
    let lines: Vec<&str> = input.split('\n').collect();
    // Trailing newline causes an extra empty token; strip it
    let effective_len = if input.ends_with('\n') && lines.len() > 1 { lines.len() - 1 } else { lines.len() };
    assert_eq!(header_end, effective_len);
}

#[test]
fn test_detect_squash_header_custom_comment_char() {
    let input = "; This is a combination of 2 commits.\n; First commit\n\nEditable\n";
    let result = detect_squash_header(input, ';');
    assert!(result.is_some());
    let header_end = result.unwrap();
    let lines: Vec<&str> = input.split('\n').collect();
    assert!(lines[header_end].is_empty());
}

// -------------------------------------------------------------------------
// EditorMode tests
// -------------------------------------------------------------------------

#[test]
fn test_editor_mode_plain_makes_comments_editable() {
    let input = "subject\n# comment\nbody\n";
    let doc = Document::parse(input, '#', EditorMode::Plain);
    assert_eq!(doc.editable_lines(), vec!["subject", "# comment", "body"]);
}

#[test]
fn test_editor_mode_plain_makes_conflict_markers_editable() {
    let input = "a\n<<<<<<< HEAD\nb\n=======\nc\n>>>>>>> br\nd\n";
    let doc = Document::parse(input, '#', EditorMode::Plain);
    let editable = doc.editable_lines();
    assert_eq!(editable.len(), 7);
    assert!(editable.contains(&"<<<<<<< HEAD".to_string()));
    assert!(editable.contains(&"=======".to_string()));
    assert!(editable.contains(&">>>>>>> br".to_string()));
}

#[test]
fn test_editor_mode_merge_protects_comments_but_promotes_conflict_markers() {
    let input = "subject\n# comment\n<<<<<<< HEAD\nours\n=======\ntheirs\n>>>>>>> br\n";
    let doc = Document::parse(input, '#', EditorMode::Merge);
    assert_eq!(
        doc.editable_lines(),
        vec!["subject", "<<<<<<< HEAD", "ours", "=======", "theirs", ">>>>>>> br"]
    );
}

#[test]
fn test_editor_mode_squash_unchanged() {
    let input = "subject\n# comment\n<<<<<<<\nbody\n";
    let doc = Document::parse(input, '#', EditorMode::Squash);
    assert_eq!(doc.editable_lines(), vec!["subject", "body"]);
}

#[test]
fn every_mode_round_trips_untouched_lines() {
    let input = "a\n# c\nb\n<<<<<<< HEAD\nours\n=======\ntheirs\n>>>>>>> br\n";
    for mode in [EditorMode::Plain, EditorMode::Merge, EditorMode::Squash] {
        let doc = Document::parse(input, '#', mode);
        assert_eq!(doc.serialize(&doc.editable_lines()), input);
    }
    let plain = Document::parse("a\n# c\nb\n", '#', EditorMode::Plain);
    assert_eq!(plain.serialize(&plain.editable_lines()), "a\n# c\nb\n");
}

#[test]
fn plain_mode_writes_edited_comment_lines() {
    let doc = Document::parse("a\n# c\nb\n", '#', EditorMode::Plain);
    let edited = vec!["a".to_string(), "# changed".to_string(), "b2".to_string()];
    assert_eq!(doc.serialize(&edited), "a\n# changed\nb2\n");
    let merge = Document::parse("x\n# c\n=======\ny\n", '#', EditorMode::Merge);
    let edited = vec!["x".to_string(), "resolved".to_string(), "y".to_string()];
    assert_eq!(merge.serialize(&edited), "x\n# c\nresolved\ny\n");
}

#[test]
fn written_rebase_lines_read_back() {
    let lines = vec![
        RebaseLine::Action {
            action: RebaseAction::Pick,
            hash: "abc1234".to_string(),
            subject: "Fix bug".to_string(),
        },
        RebaseLine::Comment("# a comment".to_string()),
        RebaseLine::Action {
            action: RebaseAction::Exec,
            hash: String::new(),
            subject: "cargo test".to_string(),
        },
        RebaseLine::Action {
            action: RebaseAction::Squash,
            hash: "def5678".to_string(),
            subject: String::new(),
        },
    ];
    assert_eq!(parse_rebase_todo(&serialize_rebase_todo(&lines), '#'), lines);
}
