use filedock::error::AppError;
use filedock::local::{
    check_file_name, check_transfer, matches_pattern, FoundItem, require_directory, require_exists, require_file, search_descends,
    LocalFileSystem,
};
use filedock::vfs::{FileEntry, Timestamp};

fn data_fs() -> LocalFileSystem {
    LocalFileSystem::new("/data".to_string())
}

fn entry(name: &str, is_dir: bool) -> FileEntry {
    FileEntry {
        name: name.to_string(),
        path: name.to_string(),
        is_dir,
        size: 0,
        modified: Timestamp { secs: 0, nanos: 0 },
        created: None,
    }
}

#[test]
fn resolve_plain_path_lands_under_root() {
    let fs = data_fs();
    assert_eq!(fs.resolve_path("/a/b.txt").unwrap(), "/data/a/b.txt");
    assert_eq!(fs.resolve_path("a/b.txt").unwrap(), "/data/a/b.txt");
    assert_eq!(fs.resolve_path("///a").unwrap(), "/data/a");
}

#[test]
fn resolve_root_request_gives_root_with_separator() {
    let fs = data_fs();
    assert_eq!(fs.resolve_path("/").unwrap(), "/data/");
    assert_eq!(fs.resolve_path("").unwrap(), "/data/");
}

#[test]
fn resolve_refuses_dot_dot_as_invalid_path() {
    let fs = data_fs();
    match fs.resolve_path("../etc/passwd") {
        Err(AppError::InvalidPath(p)) => assert_eq!(p, "../etc/passwd"),
        other => panic!("unexpected: {:?}", other),
    }
    match fs.resolve_path("/a/../../b") {
        Err(AppError::InvalidPath(p)) => assert_eq!(p, "/a/../../b"),
        other => panic!("unexpected: {:?}", other),
    }
    // any `..` in the text is refused, even inside a name
    assert!(matches!(fs.resolve_path("a..b"), Err(AppError::InvalidPath(_))));
}

#[test]
fn resolve_keeps_backslash_paths_under_the_root() {
    let fs = data_fs();
    // `\etc\passwd` becomes `/etc/passwd`, whose leading separator is dropped
    assert_eq!(fs.resolve_path("\\etc\\passwd").unwrap(), "/data/etc/passwd");
    assert_eq!(fs.normalize_path("\\a").unwrap(), "a");
    assert_eq!(fs.normalize_path("/\\/x\\y").unwrap(), "x/y");
    assert!(matches!(fs.normalize_path("\\..\\x"), Err(AppError::InvalidPath(_))));
}

#[test]
fn resolve_converts_backslashes() {
    let fs = data_fs();
    assert_eq!(fs.resolve_path("a\\b\\c.txt").unwrap(), "/data/a/b/c.txt");
}

#[test]
fn resolve_keeps_current_dir_components() {
    let fs = data_fs();
    assert_eq!(fs.resolve_path("./a").unwrap(), "/data/./a");
}

#[test]
fn resolve_with_relative_root() {
    let fs = LocalFileSystem::new("data".to_string());
    assert_eq!(fs.resolve_path("/x/y").unwrap(), "data/x/y");
    let empty = LocalFileSystem::new(String::new());
    assert_eq!(empty.resolve_path("/x").unwrap(), "x");
}

#[test]
fn normalize_path_trims_and_converts() {
    let fs = data_fs();
    assert_eq!(fs.normalize_path("//a\\b").unwrap(), "a/b");
    assert_eq!(fs.normalize_path("plain").unwrap(), "plain");
    assert!(matches!(fs.normalize_path("/.."), Err(AppError::InvalidPath(_))));
}

#[test]
fn to_relative_strips_the_root() {
    let fs = data_fs();
    assert_eq!(fs.to_relative("/data/a/b").unwrap(), "a/b");
    assert_eq!(fs.to_relative("/data").unwrap(), "");
    assert_eq!(fs.to_relative("/data/").unwrap(), "");
    assert_eq!(fs.to_relative("/data//a").unwrap(), "a");
}

#[test]
fn to_relative_refuses_paths_outside_the_root() {
    let fs = data_fs();
    match fs.to_relative("/other/x") {
        Err(AppError::InvalidPath(m)) => assert_eq!(m, "Path /other/x is not under root"),
        other => panic!("unexpected: {:?}", other),
    }
    // a component that only starts like the root's is not under it
    assert!(matches!(fs.to_relative("/datab/x"), Err(AppError::InvalidPath(_))));
}

#[test]
fn resolved_path_turns_back_into_the_request() {
    let fs = data_fs();
    let resolved = fs.resolve_path("/docs/report.pdf").unwrap();
    assert_eq!(fs.to_relative(&resolved).unwrap(), "docs/report.pdf");
    let root = fs.resolve_path("/").unwrap();
    assert_eq!(fs.to_relative(&root).unwrap(), "");
}

#[test]
fn pattern_star_and_empty_match_everything() {
    assert!(matches_pattern("anything.txt", "*"));
    assert!(matches_pattern("anything.txt", ""));
    assert!(matches_pattern("", "*"));
}

#[test]
fn pattern_suffix_prefix_and_infix() {
    assert!(matches_pattern("hello.txt", "*.txt"));
    assert!(!matches_pattern("hello.rs", "*.txt"));
    assert!(matches_pattern("hello.txt", "hel*"));
    assert!(!matches_pattern("yellow.txt", "hel*"));
    assert!(matches_pattern("hello.txt", "*llo*"));
    assert!(!matches_pattern("hello.txt", "*z*"));
    assert!(matches_pattern("x", "**"));
}

#[test]
fn pattern_without_stars_is_exact() {
    assert!(matches_pattern("a.txt", "a.txt"));
    assert!(!matches_pattern("a.txt", "a.tx"));
    assert!(!matches_pattern("a.txt", "A.TXT"));
    assert!(!matches_pattern("aXb", "a*b"));
    assert!(matches_pattern("a*b", "a*b"));
}

#[test]
fn mime_type_follows_the_extension() {
    let fs = data_fs();
    assert_eq!(fs.mime_type("notes.txt"), "text/plain");
    assert_eq!(fs.mime_type("/site/index.html"), "text/html");
    assert_eq!(fs.mime_type("img.png"), "image/png");
    assert_eq!(fs.mime_type("data.unknownext"), "application/octet-stream");
    assert_eq!(fs.mime_type("Makefile"), "application/octet-stream");
}

#[test]
fn sort_listing_puts_directories_first_by_name() {
    let entries = vec![
        entry("b.txt", false),
        entry("zdir", true),
        entry("a.txt", false),
        entry("adir", true),
    ];
    let sorted = LocalFileSystem::sort_listing(entries);
    let names: Vec<&str> = sorted.iter().map(|e| e.name.as_str()).collect();
    assert_eq!(names, vec!["adir", "zdir", "a.txt", "b.txt"]);
}

#[test]
fn sort_listing_orders_names_by_code_point() {
    let entries = vec![entry("b", false), entry("B", false), entry("a", false)];
    let sorted = LocalFileSystem::sort_listing(entries);
    let names: Vec<&str> = sorted.iter().map(|e| e.name.as_str()).collect();
    assert_eq!(names, vec!["B", "a", "b"]);
}

#[test]
fn listing_entry_is_relative_to_root() {
    let fs = data_fs();
    let e = fs
        .listing_entry("/data/docs/a.txt", "a.txt".to_string(), false, 7, Timestamp { secs: 5, nanos: 0 }, None)
        .unwrap();
    assert_eq!(e.path, "docs/a.txt");
    assert_eq!(e.name, "a.txt");
    assert_eq!(e.size, 7);
    assert!(matches!(
        fs.listing_entry("/elsewhere/a.txt", "a.txt".to_string(), false, 7, Timestamp { secs: 5, nanos: 0 }, None),
        Err(AppError::InvalidPath(_))
    ));
}

#[test]
fn search_hit_only_for_matching_names() {
    let fs = data_fs();
    let t = Timestamp { secs: 1, nanos: 0 };
    let hit = fs.search_hit("/data/x/notes.txt", "notes.txt".to_string(), "*.txt", false, 3, t).unwrap();
    let hit = hit.expect("a match");
    assert_eq!(hit.path, "x/notes.txt");
    assert_eq!(hit.name, "notes.txt");
    assert!(fs.search_hit("/data/x/notes.txt", "notes.txt".to_string(), "*.rs", false, 3, t).unwrap().is_none());
    assert!(matches!(
        fs.search_hit("/other/notes.txt", "notes.txt".to_string(), "*", false, 3, t),
        Err(AppError::InvalidPath(_))
    ));
}

#[test]
fn metadata_record_names_the_last_component() {
    let t = Timestamp { secs: 10, nanos: 0 };
    let m = LocalFileSystem::metadata_record("/a/b.txt", false, 4, t, None, Some(t), true);
    assert_eq!(m.name, "b.txt");
    assert_eq!(m.path, "/a/b.txt");
    let p = m.permissions.unwrap();
    assert!(p.readable && !p.writable && !p.executable);
    let root = LocalFileSystem::metadata_record("/", true, 0, t, None, None, false);
    assert_eq!(root.name, "");
    assert!(root.permissions.unwrap().writable);
}

#[test]
fn existence_checks_name_the_refused_path() {
    assert!(require_directory("/d", true).is_ok());
    assert!(matches!(require_directory("/f", false), Err(AppError::NotDirectory(p)) if p == "/f"));
    assert!(require_exists("/x", true).is_ok());
    assert!(matches!(require_exists("/x", false), Err(AppError::NotFound(p)) if p == "/x"));
    assert!(require_file("/x", true, true).is_ok());
    assert!(matches!(require_file("/x", false, false), Err(AppError::NotFound(_))));
    assert!(matches!(require_file("/x", true, false), Err(AppError::NotFile(p)) if p == "/x"));
    assert!(check_transfer("/a", "/b", true, false).is_ok());
    assert!(matches!(check_transfer("/a", "/b", false, true), Err(AppError::NotFound(p)) if p == "/a"));
    assert!(matches!(check_transfer("/a", "/b", true, true), Err(AppError::AlreadyExists(p)) if p == "/b"));
}

#[test]
fn listed_entries_are_named_from_the_requested_directory() {
    let fs = data_fs();
    let t = Timestamp { secs: 0, nanos: 0 };
    let dir = fs.resolve_path("/docs/2024").unwrap();
    let found = filedock::webdav::child_path(&dir, "a.txt");
    let e = fs.listing_entry(&found, "a.txt".to_string(), false, 1, t, None).unwrap();
    assert_eq!(e.path, "docs/2024/a.txt");
    let root = fs.resolve_path("/").unwrap();
    let found = filedock::webdav::child_path(&root, "b");
    let e = fs.listing_entry(&found, "b".to_string(), true, 0, t, None).unwrap();
    assert_eq!(e.path, "b");
}

#[test]
fn search_walks_into_directories_only_when_recursive() {
    assert!(search_descends(true, true));
    assert!(!search_descends(true, false));
    assert!(!search_descends(false, true));
    assert!(!search_descends(false, false));
}

fn found(path: &str, name: &str, is_dir: bool) -> FoundItem {
    FoundItem {
        path: path.to_string(),
        name: name.to_string(),
        is_dir,
        size: 1,
        modified: Timestamp { secs: 0, nanos: 0 },
        created: None,
    }
}

fn level() -> Vec<FoundItem> {
    vec![
        found("/data/d/b.txt", "b.txt", false),
        found("/data/d/sub", "sub", true),
        found("/data/d/a.rs", "a.rs", false),
    ]
}

#[test]
fn listing_of_a_level_is_relative_and_sorted() {
    let fs = data_fs();
    let es = fs.listing_of(level()).unwrap();
    let got: Vec<(&str, &str)> = es.iter().map(|e| (e.name.as_str(), e.path.as_str())).collect();
    assert_eq!(got, vec![("sub", "d/sub"), ("a.rs", "d/a.rs"), ("b.txt", "d/b.txt")]);
    let mut outside = level();
    outside.push(found("/elsewhere/x", "x", false));
    match fs.listing_of(outside) {
        Err(AppError::InvalidPath(m)) => assert_eq!(m, "Path /elsewhere/x is not under root"),
        other => panic!("unexpected: {:?}", other),
    }
}

#[test]
fn search_of_a_level_keeps_the_found_order() {
    let fs = data_fs();
    let hits = fs.search_of(&level(), "*.txt").unwrap();
    assert_eq!(hits.len(), 1);
    assert_eq!(hits[0].path, "d/b.txt");
    let all = fs.search_of(&level(), "*").unwrap();
    let names: Vec<&str> = all.iter().map(|h| h.name.as_str()).collect();
    assert_eq!(names, vec!["b.txt", "sub", "a.rs"]);
    // the same records as the listing, in another order
    let listed = fs.listing_of(level()).unwrap();
    let mut a: Vec<(String, String)> = all.iter().map(|h| (h.name.clone(), h.path.clone())).collect();
    let mut b: Vec<(String, String)> = listed.iter().map(|e| (e.name.clone(), e.path.clone())).collect();
    a.sort();
    b.sort();
    assert_eq!(a, b);
    // an item outside the data directory only matters when it matches
    let mut outside = level();
    outside.push(found("/elsewhere/x.bin", "x.bin", false));
    assert_eq!(fs.search_of(&outside, "*.txt").unwrap().len(), 1);
    assert!(matches!(fs.search_of(&outside, "*.bin"), Err(AppError::InvalidPath(_))));
}

#[test]
fn file_names_with_separators_or_dot_dot_are_refused() {
    assert!(check_file_name("report.pdf").is_ok());
    assert!(check_file_name(".hidden").is_ok());
    assert!(matches!(check_file_name("a/b"), Err(AppError::InvalidPath(p)) if p == "a/b"));
    assert!(matches!(check_file_name("a\\b"), Err(AppError::InvalidPath(_))));
    assert!(matches!(check_file_name(".."), Err(AppError::InvalidPath(_))));
    assert!(matches!(check_file_name("x..y"), Err(AppError::InvalidPath(_))));
}
