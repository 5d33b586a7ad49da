use gitmedit::details::{parse_show, DetailsLoader};

#[test]
fn parses_message_and_name_status() {
    let d = parse_show("subject\n\nbody\n\0\nA\ta.txt\nM\tsrc/b.rs\nR100\told.rs\tnew.rs\n");
    assert_eq!(d.message, vec!["subject", "", "body"]);
    assert_eq!(
        d.files,
        vec![
            ('A', "a.txt".into()),
            ('M', "src/b.rs".into()),
            ('R', "old.rs -> new.rs".into())
        ]
    );
}

#[test]
fn commit_without_files() {
    let d = parse_show("subject\n\0\n");
    assert_eq!(d.message, vec!["subject"]);
    assert!(d.files.is_empty());
}

#[test]
fn status_without_paths_is_skipped_and_copies_join_paths() {
    let d = parse_show("s\0\nM\nC75\ta\tb\n\tx\n");
    assert_eq!(d.files, vec![('C', "a -> b".to_string())]);
}

#[test]
fn output_without_nul_is_all_message() {
    let d = parse_show("only\nmessage\n\n");
    assert_eq!(d.message, vec!["only", "message"]);
    assert!(d.files.is_empty());
}

#[test]
fn loader_asks_once_per_hash_and_caches_arrivals() {
    let mut loader = DetailsLoader::new();
    assert!(loader.request("abc"));
    assert!(!loader.request("abc"));
    assert!(loader.request("def"));
    assert!(loader.get("abc").is_none());
    assert!(!loader.poll(Vec::new()));
    let d = parse_show("subject\n\0\n");
    assert!(loader.poll(vec![("abc".to_string(), Some(d.clone())), ("def".to_string(), None)]));
    assert_eq!(loader.get("abc"), Some(&Some(d)));
    assert_eq!(loader.get("def"), Some(&None));
    assert_eq!(loader.get("zzz"), None);
}

#[test]
fn latest_arrival_wins() {
    let mut loader = DetailsLoader::new();
    assert!(loader.request("abc"));
    loader.poll(vec![("abc".to_string(), None)]);
    assert_eq!(loader.get("abc"), Some(&None));
    let d = parse_show("subject\n\0\n");
    loader.poll(vec![("abc".to_string(), Some(d.clone()))]);
    assert_eq!(loader.get("abc"), Some(&Some(d)));
    assert_eq!(loader.get("def"), None);
}
