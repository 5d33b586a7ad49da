use gitmedit::rewords::Rewords;
use gitmedit::reword::{
    is_storable_hash, matching_hash, replace_subject, reword_target, same_commit, stored_subject,
};

#[test]
fn replace_subject_keeps_body() {
    assert_eq!(replace_subject(Some("c3\n\nbody 3\n"), "new"), "new\n\nbody 3\n");
    assert_eq!(replace_subject(Some("c3\n"), "new"), "new\n");
    assert_eq!(replace_subject(None, "new"), "new\n");
}

#[test]
fn replace_subject_trims_blank_lines_around_the_body() {
    assert_eq!(replace_subject(Some("old\n\n\nbody\n\n\n"), "s"), "s\n\nbody\n");
    assert_eq!(replace_subject(Some("old"), "s"), "s\n");
    assert_eq!(replace_subject(Some("old\n\n\n"), "s"), "s\n");
}

#[test]
fn abbreviated_and_full_hashes_name_the_same_commit() {
    assert!(same_commit("545ca5d", "545ca5d95e7b6bbb297681be181a60d396ee8ee8"));
    assert!(same_commit("545ca5d95e7b6bbb297681be181a60d396ee8ee8", "545ca5d"));
    assert!(!same_commit("545ca5e", "545ca5d95e7"));
    assert!(!same_commit("", "545ca5d"));
}

#[test]
fn only_hex_hashes_are_stored() {
    assert!(is_storable_hash("545ca5dABC"));
    assert!(!is_storable_hash("../evil"));
    assert!(!is_storable_hash(""));
}

#[test]
fn reword_target_reads_the_last_done_instruction() {
    let done = "pick ecf1f56e4fa1606da66c4f72bea779f2fb51851f # c2\nreword 545ca5d95e7b6bbb297681be181a60d396ee8ee8 # c3\n\n";
    assert_eq!(reword_target(done), Some("545ca5d95e7b6bbb297681be181a60d396ee8ee8".to_string()));
    assert_eq!(reword_target("r abc\n"), Some("abc".to_string()));
    assert_eq!(reword_target("pick 545ca5d # c3\n"), None);
    assert_eq!(reword_target("reword\n"), None);
    assert_eq!(reword_target(""), None);
}

#[test]
fn stored_subject_is_the_first_line() {
    assert_eq!(stored_subject("stored subject\n\nbody\n"), "stored subject");
    assert_eq!(stored_subject(""), "");
}

#[test]
fn stored_files_match_the_first_hash_of_the_same_commit() {
    let hashes = vec!["54763e6".to_string(), "abc".to_string()];
    assert_eq!(matching_hash(&hashes, "54763e6"), Some(0));
    assert_eq!(matching_hash(&hashes, "abcdef"), Some(1));
    assert_eq!(matching_hash(&hashes, "deadbeef"), None);
}

#[test]
fn stored_reword_reads_back_its_subject() {
    let stored = replace_subject(Some("old subject\n\nthe body\n"), "new subject");
    assert_eq!(stored, "new subject\n\nthe body\n");
    assert_eq!(stored_subject(&stored), "new subject");
    assert_eq!(stored_subject(&replace_subject(None, "only")), "only");
    assert_eq!(stored_subject(&replace_subject(Some("x"), "")), "");
}

#[test]
fn pending_rewords_read_back_what_was_written() {
    let mut r = Rewords::new();
    r.insert("abc".to_string(), "one".to_string());
    r.insert("def".to_string(), "two".to_string());
    r.insert("abc".to_string(), "three".to_string());
    assert_eq!(r.get("abc").map(|s| s.as_str()), Some("three"));
    assert_eq!(r.get("def").map(|s| s.as_str()), Some("two"));
    assert_eq!(r.len(), 2);
    r.remove("abc");
    assert_eq!(r.get("abc"), None);
    assert_eq!(r.get("def").map(|s| s.as_str()), Some("two"));
    assert!(!r.contains_key("abc") && r.contains_key("def"));
}

#[test]
fn pending_rewords_with_hex_hashes_are_stored() {
    let mut r = Rewords::new();
    r.insert("abc123".to_string(), "one".to_string());
    r.insert("../evil".to_string(), "two".to_string());
    r.insert("".to_string(), "three".to_string());
    r.insert("DEF".to_string(), "four".to_string());
    let kept = gitmedit::reword::storable_rewords(&r);
    assert_eq!(
        kept,
        vec![("abc123".to_string(), "one".to_string()), ("DEF".to_string(), "four".to_string())]
    );
}
