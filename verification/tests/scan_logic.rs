use vault_scan::{scan_from, MarkdownFile, ScanError, WalkEntry};

fn entry(path: &str, is_file: bool) -> WalkEntry {
    WalkEntry { path: path.to_string(), is_file }
}

#[test]
fn missing_root_is_not_found() {
    let r = scan_from("/no/such/vault", false, false, Vec::new());
    match r {
        Err(ScanError::NotFound(p)) => assert_eq!(p, "/no/such/vault"),
        _ => panic!("expected NotFound"),
    }
}

#[test]
fn missing_root_message_names_path() {
    let r = scan_from("/no/such/vault", false, false, Vec::new());
    let msg = r.unwrap_err().message();
    assert_eq!(msg, "Vault path does not exist: /no/such/vault");
}

#[test]
fn file_root_is_not_a_directory() {
    let r = scan_from("/vault/readme.md", true, false, Vec::new());
    match r {
        Err(ScanError::NotADirectory(p)) => assert_eq!(p, "/vault/readme.md"),
        _ => panic!("expected NotADirectory"),
    }
}

#[test]
fn file_root_message_names_path() {
    let r = scan_from("/vault/readme.md", true, false, Vec::new());
    let msg = r.unwrap_err().message();
    assert_eq!(msg, "Vault path is not a directory: /vault/readme.md");
    assert!(msg.contains("/vault/readme.md"));
}

#[test]
fn scenario_vault_tree() {
    let entries = vec![
        entry("/vault", false),
        entry("/vault/notes", false),
        entry("/vault/notes/a.md", true),
        entry("/vault/.obsidian/config.md", true),
        entry("/vault/readme.txt", true),
    ];
    let r = scan_from("/vault", true, true, entries).unwrap();
    assert_eq!(r.len(), 1);
    assert_eq!(r[0].path, "/vault/notes/a.md");
    assert_eq!(r[0].title, "a");
    assert_eq!(r[0].relative_path, "notes/a.md");
}

#[test]
fn hidden_segments_are_excluded_anywhere() {
    let entries = vec![
        entry("/vault/.git/objects/x.md", true),
        entry("/vault/a/.cache/y.md", true),
        entry("/vault/a/.z.md", true),
        entry("/vault/a/ok.md", true),
    ];
    let r = scan_from("/vault", true, true, entries).unwrap();
    assert_eq!(r.len(), 1);
    assert_eq!(r[0].path, "/vault/a/ok.md");
    assert_eq!(r[0].relative_path, "a/ok.md");
}

#[test]
fn directories_and_non_md_files_are_skipped() {
    let entries = vec![
        entry("/vault/notes.md", false),
        entry("/vault/notes.txt", true),
        entry("/vault/md", true),
        entry("/vault/amd", true),
        entry("/vault/x.mdx", true),
        entry("/vault/x.MD", true),
    ];
    let r = scan_from("/vault", true, true, entries).unwrap();
    assert_eq!(r.len(), 0);
}

#[test]
fn title_strips_md_suffix_exactly_once() {
    let entries = vec![
        entry("/vault/a.md", true),
        entry("/vault/a.tar.md", true),
        entry("/vault/b.md.md", true),
    ];
    let r = scan_from("/vault", true, true, entries).unwrap();
    let titles: Vec<&str> = r.iter().map(|m| m.title.as_str()).collect();
    assert_eq!(titles, vec!["a", "a.tar", "b.md"]);
}

#[test]
fn relative_path_round_trip() {
    let entries = vec![
        entry("/vault/notes/deep/dir/c.md", true),
        entry("/vault/top.md", true),
    ];
    let r = scan_from("/vault", true, true, entries).unwrap();
    assert_eq!(r.len(), 2);
    for m in &r {
        let rejoined = format!("{}/{}", "/vault", m.relative_path);
        assert_eq!(rejoined, m.path);
    }
}

#[test]
fn root_with_trailing_separator() {
    let entries = vec![entry("/vault/notes/a.md", true)];
    let r = scan_from("/vault/", true, true, entries).unwrap();
    assert_eq!(r.len(), 1);
    assert_eq!(r[0].relative_path, "notes/a.md");
    let rejoined = format!("{}{}", "/vault/", r[0].relative_path);
    assert_eq!(rejoined, r[0].path);
}

#[test]
fn relative_root_path() {
    let entries = vec![entry("notes/sub/a.md", true)];
    let r = scan_from("notes", true, true, entries).unwrap();
    assert_eq!(r.len(), 1);
    assert_eq!(r[0].path, "notes/sub/a.md");
    assert_eq!(r[0].relative_path, "sub/a.md");
    assert_eq!(r[0].title, "a");
}

fn sorted_triples(files: &[MarkdownFile]) -> Vec<(String, String, String)> {
    let mut v: Vec<(String, String, String)> = files
        .iter()
        .map(|m| (m.path.clone(), m.title.clone(), m.relative_path.clone()))
        .collect();
    v.sort();
    v
}

#[test]
fn same_entries_in_any_order_give_same_set() {
    let forward = vec![
        entry("/vault/a.md", true),
        entry("/vault/notes", false),
        entry("/vault/notes/b.md", true),
        entry("/vault/notes/c.txt", true),
    ];
    let backward = vec![
        entry("/vault/notes/c.txt", true),
        entry("/vault/notes/b.md", true),
        entry("/vault/notes", false),
        entry("/vault/a.md", true),
    ];
    let r1 = scan_from("/vault", true, true, forward).unwrap();
    let r2 = scan_from("/vault", true, true, backward).unwrap();
    assert_eq!(sorted_triples(&r1), sorted_triples(&r2));
    assert_eq!(r1.len(), 2);
}

#[test]
fn scanning_twice_gives_same_set() {
    let make = || {
        vec![
            entry("/vault/a.md", true),
            entry("/vault/notes/b.md", true),
        ]
    };
    let r1 = scan_from("/vault", true, true, make()).unwrap();
    let r2 = scan_from("/vault", true, true, make()).unwrap();
    assert_eq!(sorted_triples(&r1), sorted_triples(&r2));
}
