use ironbank::listing::{is_ledger_file_name, sort_newest_first, summarize};
use ironbank::{
    display_name, file_manager_command, io_failure, ledger_name, list_ledgers, locate_tutorial, resolve_action,
    seed_source, DirAction, DirEntryInfo, HostOs, LedgerError, LedgerInfo, ResourceCandidate,
};

fn entry(filename: &str, is_file: bool, modified: Option<u64>, content: Option<&str>) -> DirEntryInfo {
    DirEntryInfo {
        filename: filename.to_string(),
        path: format!("/docs/Ironbank/ledgers/{}", filename),
        is_file,
        modified,
        size: content.map(|c| c.len() as u64).unwrap_or(0),
        content: content.map(|c| c.to_string()),
    }
}

fn info(filename: &str, modified: u64) -> LedgerInfo {
    LedgerInfo {
        name: filename.to_string(),
        filename: filename.to_string(),
        path: filename.to_string(),
        modified,
        size: 0,
    }
}

#[test]
fn json_extension_is_recognised() {
    assert!(is_ledger_file_name("a.json"));
    assert!(is_ledger_file_name("tutorial.ledger.json"));
    assert!(is_ledger_file_name("..json"));
    assert!(!is_ledger_file_name(".json"));
    assert!(!is_ledger_file_name("json"));
    assert!(!is_ledger_file_name("a.jsonx"));
    assert!(!is_ledger_file_name("a.JSON"));
    assert!(!is_ledger_file_name("a.txt"));
    assert!(!is_ledger_file_name(""));
}

#[test]
fn name_field_is_used() {
    assert_eq!(ledger_name("g.json", Some(r#"{"name": "Groceries"}"#)), "Groceries");
}

#[test]
fn invalid_json_falls_back_to_filename() {
    assert_eq!(ledger_name("bad.json", Some("{not json")), "bad.json");
}

#[test]
fn missing_name_falls_back_to_filename() {
    assert_eq!(ledger_name("a.json", Some(r#"{"title": "x"}"#)), "a.json");
    assert_eq!(ledger_name("a.json", Some("{}")), "a.json");
}

#[test]
fn non_string_name_falls_back_to_filename() {
    assert_eq!(ledger_name("n.json", Some(r#"{"name": 42}"#)), "n.json");
    assert_eq!(ledger_name("l.json", Some(r#"["name"]"#)), "l.json");
}

#[test]
fn nested_name_is_not_used() {
    assert_eq!(ledger_name("d.json", Some(r#"{"meta": {"name": "Inner"}}"#)), "d.json");
}

#[test]
fn unreadable_file_falls_back_to_filename() {
    assert_eq!(ledger_name("u.json", None), "u.json");
}

#[test]
fn display_name_prefers_field() {
    assert_eq!(display_name("f.json", Some("Rent".to_string())), "Rent");
    assert_eq!(display_name("f.json", None), "f.json");
}

#[test]
fn summary_defaults_unknown_time_to_zero() {
    let s = summarize(&entry("x.json", true, None, Some(r#"{"name":"X"}"#)));
    assert_eq!(s.name, "X");
    assert_eq!(s.filename, "x.json");
    assert_eq!(s.path, "/docs/Ironbank/ledgers/x.json");
    assert_eq!(s.modified, 0);
    assert_eq!(s.size, 12);
}

#[test]
fn listing_keeps_one_summary_per_json_file_newest_first() {
    let entries = vec![
        entry("old.json", true, Some(100), Some(r#"{"name": "Old"}"#)),
        entry("notes.txt", true, Some(500), Some("hello")),
        entry("sub.json", false, Some(400), None),
        entry("new.json", true, Some(300), Some("broken")),
        entry("mid.json", true, Some(200), Some(r#"{"name": "Mid"}"#)),
    ];
    let listed = list_ledgers(&entries);
    let names: Vec<&str> = listed.iter().map(|l| l.name.as_str()).collect();
    assert_eq!(names, vec!["new.json", "Mid", "Old"]);
    let times: Vec<u64> = listed.iter().map(|l| l.modified).collect();
    assert_eq!(times, vec![300, 200, 100]);
}

#[test]
fn listing_of_empty_directory_is_empty() {
    assert!(list_ledgers(&Vec::new()).is_empty());
}

#[test]
fn listing_keeps_order_of_equal_times() {
    let entries = vec![
        entry("a.json", true, Some(5), None),
        entry("b.json", true, Some(7), None),
        entry("c.json", true, Some(5), None),
        entry("d.json", true, None, None),
        entry("e.json", true, Some(5), None),
    ];
    let listed = list_ledgers(&entries);
    let files: Vec<&str> = listed.iter().map(|l| l.filename.as_str()).collect();
    assert_eq!(files, vec!["b.json", "a.json", "c.json", "e.json", "d.json"]);
}

#[test]
fn sort_is_stable_and_descending() {
    let v = vec![info("p", 1), info("q", 3), info("r", 1), info("s", 3), info("t", 2)];
    let sorted = sort_newest_first(v);
    let files: Vec<&str> = sorted.iter().map(|l| l.filename.as_str()).collect();
    assert_eq!(files, vec!["q", "s", "t", "p", "r"]);
}

#[test]
fn tutorial_found_in_packaged_resources_first() {
    let c = vec![
        ResourceCandidate { path: "/app/resources/tutorial.ledger.json".to_string(), exists: true },
        ResourceCandidate { path: "./resources/tutorial.ledger.json".to_string(), exists: true },
    ];
    assert_eq!(locate_tutorial(&c), Ok("/app/resources/tutorial.ledger.json".to_string()));
}

#[test]
fn tutorial_falls_back_to_working_directory() {
    let c = vec![
        ResourceCandidate { path: "/app/resources/tutorial.ledger.json".to_string(), exists: false },
        ResourceCandidate { path: "./resources/tutorial.ledger.json".to_string(), exists: true },
    ];
    assert_eq!(locate_tutorial(&c), Ok("./resources/tutorial.ledger.json".to_string()));
}

#[test]
fn tutorial_missing_everywhere() {
    let c = vec![
        ResourceCandidate { path: "/app/resources/tutorial.ledger.json".to_string(), exists: false },
        ResourceCandidate { path: "./resources/tutorial.ledger.json".to_string(), exists: false },
    ];
    assert_eq!(locate_tutorial(&c), Err(LedgerError::ResourceMissing));
    assert_eq!(locate_tutorial(&Vec::new()), Err(LedgerError::ResourceMissing));
}

#[test]
fn seeding_never_overwrites() {
    let c = vec![ResourceCandidate { path: "/r/tutorial.ledger.json".to_string(), exists: true }];
    assert_eq!(seed_source(true, &c), None);
    assert_eq!(seed_source(false, &c), Some("/r/tutorial.ledger.json".to_string()));
    let none = vec![ResourceCandidate { path: "/r/tutorial.ledger.json".to_string(), exists: false }];
    assert_eq!(seed_source(false, &none), None);
}

#[test]
fn resolving_twice_succeeds() {
    assert_eq!(resolve_action(false, false), Err(LedgerError::DirectoryUnavailable));
    assert_eq!(resolve_action(true, false), Ok(DirAction::Create));
    assert_eq!(resolve_action(true, true), Ok(DirAction::UseExisting));
}

#[test]
fn missing_path_is_not_found() {
    assert_eq!(io_failure(true, "gone".to_string()), LedgerError::NotFound("gone".to_string()));
    assert_eq!(io_failure(false, "denied".to_string()), LedgerError::Io("denied".to_string()));
}

#[test]
fn deleted_file_is_not_listed() {
    let before = vec![
        entry("keep.json", true, Some(2), None),
        entry("gone.json", true, Some(1), None),
    ];
    assert_eq!(list_ledgers(&before).len(), 2);
    let after = vec![entry("keep.json", true, Some(2), None)];
    let listed = list_ledgers(&after);
    assert_eq!(listed.len(), 1);
    assert!(listed.iter().all(|l| l.path != "/docs/Ironbank/ledgers/gone.json"));
}

#[test]
fn file_manager_per_platform() {
    assert_eq!(file_manager_command(HostOs::Windows), Some("explorer"));
    assert_eq!(file_manager_command(HostOs::MacOs), Some("open"));
    assert_eq!(file_manager_command(HostOs::Linux), Some("xdg-open"));
    assert_eq!(file_manager_command(HostOs::Other), None);
}
