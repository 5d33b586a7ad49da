use gitmedit::rebase::{parse, Action, CommitLine, Todo, TodoLine};

fn commit(todo: &Todo, i: usize) -> &CommitLine {
    match &todo.lines[i] {
        TodoLine::Commit(c) => c,
        other => panic!("line {i} is not a commit: {other:?}"),
    }
}

#[test]
fn classifies_comments_blanks_other_and_unknown() {
    let todo = parse(
        "pick abc Fix\n\n# comment\nexec cargo test\nbreak\ngarbage line\n",
        '#',
    );
    assert!(matches!(todo.lines[1], TodoLine::Blank(_)));
    assert!(matches!(todo.lines[2], TodoLine::Comment(_)));
    assert_eq!(todo.lines[3], TodoLine::Other("exec cargo test".into()));
    assert_eq!(todo.lines[4], TodoLine::Other("break".into()));
    assert_eq!(todo.lines[5], TodoLine::Unknown("garbage line".into()));
    assert!(todo.lines[3].is_instruction() && !todo.lines[5].is_instruction());
}

#[test]
fn abbreviated_actions_parse_and_round_trip() {
    let todo = parse("p abc1234 Fix bug\nf def5678 Tidy\n", '#');
    assert_eq!(commit(&todo, 0).action, Action::Pick);
    assert_eq!(commit(&todo, 1).action, Action::Fixup);
    assert_eq!(todo.serialize(), "p abc1234 Fix bug\nf def5678 Tidy\n");
}

#[test]
fn fixup_flag_is_parsed() {
    let todo = parse("fixup -C 7314ba6 subject\n", '#');
    let c = commit(&todo, 0);
    assert_eq!(c.flag.as_deref(), Some("-C"));
    assert_eq!(c.hash, "7314ba6");
    assert_eq!(todo.serialize(), "fixup -C 7314ba6 subject\n");
}

#[test]
fn leaving_fixup_drops_the_flag() {
    let mut todo = parse("fixup -c 7314ba6 subject\n", '#');
    todo.commit_mut(0).unwrap().set_action(Action::Pick);
    assert_eq!(todo.serialize(), "pick 7314ba6 subject\n");
}

#[test]
fn empty_and_newline_only_files_round_trip() {
    assert_eq!(parse("", '#').serialize(), "");
    assert_eq!(parse("\n", '#').serialize(), "\n");
    assert_eq!(parse("pick abc x", '#').serialize(), "pick abc x");
}

#[test]
fn keys_and_cycle() {
    assert_eq!(Action::from_key('r'), Some(Action::Reword));
    assert_eq!(Action::from_key('x'), None);
    assert_eq!(Action::Pick.cycled(), Action::Squash);
    assert_eq!(Action::Squash.cycled(), Action::Fixup);
    assert_eq!(Action::Fixup.cycled(), Action::Drop);
    assert_eq!(Action::Drop.cycled(), Action::Pick);
    assert_eq!(Action::Reword.cycled(), Action::Squash);
    assert_eq!(Action::Edit.cycled(), Action::Squash);
}

#[test]
fn instruction_indices_skip_comments_blanks_and_unknown() {
    let todo = parse("pick a x\n# c\n\nexec make\ngarbage\npick b y\n", '#');
    assert_eq!(todo.instruction_indices(), vec![0, 3, 5]);
}

#[test]
fn moving_swaps_instructions_and_leaves_comments_in_place() {
    let mut todo = parse("pick A a\n# comment\npick B b\n", '#');
    assert_eq!(todo.move_instruction(2, true), Some(0));
    assert_eq!(todo.serialize(), "pick B b\n# comment\npick A a\n");
}

#[test]
fn moving_past_the_ends_does_nothing() {
    let mut todo = parse("pick A a\npick B b\n", '#');
    assert_eq!(todo.move_instruction(0, true), None);
    assert_eq!(todo.move_instruction(1, false), None);
    assert_eq!(todo.serialize(), "pick A a\npick B b\n");
}

#[test]
fn commit_accessors_only_return_commit_lines() {
    let mut todo = parse("pick a x\nexec make\n", '#');
    assert!(todo.commit(0).is_some());
    assert!(todo.commit(1).is_none());
    assert!(todo.commit_mut(9).is_none());
}

const SMALL: &str = "pick 1111111 # one\npick 2222222 # two\n# comment\npick 3333333 # three\nexec make\n\n# Rebase 36d7eda..aa619f8 onto 36d7eda (4 commands)\n#\n# Commands:\n# p, pick <commit> = use commit\n";

#[test]
fn untouched_todo_round_trips_byte_for_byte() {
    for raw in [SMALL, "pick a x\r\n  # c\n\tdrop b y", "\n\n", "garbage\nfixup -C abc rest\n"] {
        assert_eq!(parse(raw, '#').serialize(), raw);
    }
}

#[test]
fn commit_instruction_fields_and_subject() {
    let todo = parse(SMALL, '#');
    let c = commit(&todo, 0);
    assert_eq!(c.action, Action::Pick);
    assert_eq!(c.hash, "1111111");
    assert_eq!(c.rest, "# one");
    assert_eq!(c.subject(), "one");
}

#[test]
fn changing_one_action_rewrites_only_its_line() {
    let mut todo = parse(SMALL, '#');
    todo.commit_mut(1).unwrap().set_action(Action::Fixup);
    let out = todo.serialize();
    let diff: Vec<(&str, &str)> = SMALL.lines().zip(out.lines()).filter(|(a, b)| a != b).collect();
    assert_eq!(diff, vec![("pick 2222222 # two", "fixup 2222222 # two")]);
}

#[test]
fn range_is_read_from_the_rebase_comment() {
    assert_eq!(parse(SMALL, '#').range('#').as_deref(), Some("36d7eda..aa619f8"));
    assert_eq!(parse("pick abc x\n", '#').range('#'), None);
}

#[test]
fn moves_never_lose_or_duplicate_lines() {
    let mut todo = parse(SMALL, '#');
    let mut before: Vec<String> = todo.serialize().lines().map(str::to_string).collect();
    let mut line = 0;
    for step in 0..40 {
        line = match todo.move_instruction(line, step % 3 == 0) {
            Some(new_line) => new_line,
            None => todo.instruction_indices()[step % 4],
        };
    }
    let mut after: Vec<String> = todo.serialize().lines().map(str::to_string).collect();
    for (i, l) in after.iter().enumerate() {
        if l.starts_with('#') || l.is_empty() {
            assert_eq!(l, &before[i]);
        }
    }
    before.sort();
    after.sort();
    assert_eq!(before, after);
}

#[test]
fn summary_counts_the_resulting_commits() {
    let mut todo = parse(SMALL, '#');
    todo.commit_mut(1).unwrap().set_action(Action::Squash);
    todo.commit_mut(3).unwrap().set_action(Action::Reword);
    let s = todo.summary();
    assert_eq!((s.total, s.result, s.squash_fixup, s.drop, s.reword), (3, 2, 1, 0, 1));
    assert!(!s.first_is_squash);
    todo.commit_mut(0).unwrap().set_action(Action::Fixup);
    todo.commit_mut(3).unwrap().set_action(Action::Drop);
    let s = todo.summary();
    assert_eq!((s.total, s.result, s.squash_fixup, s.drop, s.reword), (3, 0, 2, 1, 0));
    assert!(s.first_is_squash);
}

#[test]
fn flags_only_belong_to_fixups() {
    let todo = parse("squash -C 7314ba6 subject\nfixup -Cabc x\n", '#');
    let c = commit(&todo, 0);
    assert_eq!(c.flag, None);
    assert_eq!(c.hash, "-C");
    let c = commit(&todo, 1);
    assert_eq!(c.flag, None);
    assert_eq!(c.hash, "-Cabc");
}

#[test]
fn action_without_hash_is_unknown() {
    let todo = parse("pick\nfixup -c \n", '#');
    assert_eq!(todo.lines[0], TodoLine::Unknown("pick".into()));
    assert_eq!(todo.lines[1], TodoLine::Unknown("fixup -c ".into()));
}

#[test]
fn long_names_read_back_as_their_action() {
    for a in [Action::Pick, Action::Reword, Action::Edit, Action::Squash, Action::Fixup, Action::Drop] {
        assert_eq!(Action::parse(a.as_str()), Some(a));
        assert_eq!(Action::from_key(a.as_str().chars().next().unwrap()), Some(a));
    }
}

#[test]
fn moving_down_then_up_restores_the_todo() {
    let mut todo = parse(SMALL, '#');
    let moved = todo.move_instruction(1, false);
    assert_eq!(moved, Some(3));
    assert_eq!(todo.move_instruction(3, true), Some(1));
    assert_eq!(todo.serialize(), SMALL);
}

#[test]
fn moving_a_comment_does_nothing() {
    let mut todo = parse(SMALL, '#');
    assert_eq!(todo.move_instruction(2, true), None);
    assert_eq!(todo.serialize(), SMALL);
}

/// An interactive rebase todo of fourteen commits, as git writes it.
const TODO: &str = "pick 54763e6 # docs(state): record phase 8 context session\npick 45f8bcd # docs(08): create phase plan\npick 1a00003 # c3\npick 1a00004 # c4\npick 1a00005 # c5\npick 1a00006 # c6\npick 1a00007 # c7\npick 1a00008 # c8\npick 1a00009 # c9\npick 1a00010 # c10\npick 1a00011 # c11\npick 1a00012 # c12\npick 1a00013 # c13\npick 1a00014 # c14\n\n# Rebase 36d7eda..aa619f8 onto 36d7eda (14 commands)\n#\n# Commands:\n# p, pick <commit> = use commit\n# d, drop <commit> = remove commit\n";

fn hashes(todo: &Todo) -> Vec<String> {
    todo.lines
        .iter()
        .filter_map(|l| match l {
            TodoLine::Commit(c) => Some(c.hash.clone()),
            _ => None,
        })
        .collect()
}

#[test]
fn fixture_round_trips_byte_for_byte() {
    assert_eq!(parse(TODO, '#').serialize(), TODO);
}

#[test]
fn parses_commit_instruction() {
    let todo = parse(TODO, '#');
    let c = commit(&todo, 0);
    assert_eq!(c.action, Action::Pick);
    assert_eq!(c.hash, "54763e6");
    assert_eq!(c.rest, "# docs(state): record phase 8 context session");
    assert_eq!(c.subject(), "docs(state): record phase 8 context session");
}

#[test]
fn changed_action_rewrites_only_that_line() {
    let mut todo = parse(TODO, '#');
    todo.commit_mut(1).unwrap().set_action(Action::Fixup);
    let out = todo.serialize();
    let diff: Vec<(&str, &str)> = TODO.lines().zip(out.lines()).filter(|(a, b)| a != b).collect();
    assert_eq!(
        diff,
        vec![("pick 45f8bcd # docs(08): create phase plan", "fixup 45f8bcd # docs(08): create phase plan")]
    );
}

#[test]
fn range_comes_from_rebase_comment() {
    assert_eq!(parse(TODO, '#').range('#').as_deref(), Some("36d7eda..aa619f8"));
    assert_eq!(parse("pick abc x\n", '#').range('#'), None);
}

#[test]
fn many_moves_never_lose_or_duplicate_instructions() {
    let mut todo = parse(TODO, '#');
    let mut before = hashes(&todo);
    let mut line = 0;
    for step in 0..40 {
        line = match todo.move_instruction(line, step % 3 == 0) {
            Some(new_line) => new_line,
            None => todo.instruction_indices()[step % 14],
        };
    }
    let mut after = hashes(&todo);
    before.sort();
    after.sort();
    assert_eq!(before, after);
}

#[test]
fn summary_counts_resulting_commits() {
    let mut todo = parse(TODO, '#');
    todo.commit_mut(1).unwrap().set_action(Action::Squash);
    todo.commit_mut(2).unwrap().set_action(Action::Squash);
    todo.commit_mut(3).unwrap().set_action(Action::Drop);
    todo.commit_mut(4).unwrap().set_action(Action::Reword);
    let s = todo.summary();
    assert_eq!((s.total, s.result, s.squash_fixup, s.drop, s.reword), (14, 11, 2, 1, 1));
    assert!(!s.first_is_squash);
}

#[test]
fn summary_flags_leading_squash() {
    let mut todo = parse(TODO, '#');
    todo.commit_mut(0).unwrap().set_action(Action::Fixup);
    assert!(todo.summary().first_is_squash);
}
