use filedock::assets::{asset_key, path_has_extension, static_answer, StaticAnswer};
use filedock::config::Config;
use filedock::error::AppError;
use filedock::text::decimal_string;
use filedock::vfs::{format_optional_time, format_time, permissions_from, DirStats, Timestamp};

fn config(data_dir: Option<&str>) -> Config {
    Config {
        data_dir: data_dir.map(|d| d.to_string()),
        host: "0.0.0.0".to_string(),
        port: 18888,
        webdav_port: 17777,
    }
}

#[test]
fn bind_addresses_join_host_and_port() {
    let c = config(None);
    assert_eq!(c.web_bind_address(), "0.0.0.0:18888");
    assert_eq!(c.webdav_bind_address(), "0.0.0.0:17777");
    let local = Config { data_dir: None, host: "127.0.0.1".to_string(), port: 0, webdav_port: 65535 };
    assert_eq!(local.web_bind_address(), "127.0.0.1:0");
    assert_eq!(local.webdav_bind_address(), "127.0.0.1:65535");
}

#[test]
fn data_dir_defaults_under_the_working_directory() {
    assert_eq!(config(None).data_dir_in("/home/u"), "/home/u/file_dock_data");
    assert_eq!(config(None).data_dir_in("."), "./file_dock_data");
    assert_eq!(config(None).data_dir_in("/"), "/file_dock_data");
    assert_eq!(config(Some("/srv/files")).data_dir_in("/home/u"), "/srv/files");
}

#[test]
fn error_display_texts() {
    assert_eq!(AppError::Io("disk full".to_string()).to_display_string(), "IO error: disk full");
    assert_eq!(AppError::NotFound("a.txt".to_string()).to_display_string(), "Path not found: a.txt");
    assert_eq!(AppError::AlreadyExists("b".to_string()).to_display_string(), "Path already exists: b");
    assert_eq!(AppError::NotDirectory("f".to_string()).to_display_string(), "Path is not a directory: f");
    assert_eq!(AppError::NotFile("d".to_string()).to_display_string(), "Path is not a file: d");
    assert_eq!(AppError::InvalidPath("../x".to_string()).to_display_string(), "Invalid path: ../x");
    assert_eq!(AppError::PathTraversal.to_display_string(), "Path traversal attempt detected");
    assert_eq!(AppError::BadRequest("nope".to_string()).to_display_string(), "Invalid request: nope");
}

#[test]
fn error_responses() {
    assert_eq!(AppError::Io("disk full".to_string()).into_response(), (500, "disk full".to_string()));
    assert_eq!(AppError::NotFound("/x".to_string()).into_response(), (404, "Not found: /x".to_string()));
    assert_eq!(AppError::AlreadyExists("/x".to_string()).into_response(), (409, "Already exists: /x".to_string()));
    assert_eq!(AppError::NotDirectory("/x".to_string()).into_response(), (400, "Not a directory: /x".to_string()));
    assert_eq!(AppError::NotFile("/x".to_string()).into_response(), (400, "Not a file: /x".to_string()));
    assert_eq!(AppError::InvalidPath("p".to_string()).into_response(), (400, "Invalid path: p".to_string()));
    assert_eq!(AppError::PathTraversal.into_response(), (403, "Path traversal attempt detected".to_string()));
    assert_eq!(AppError::BadRequest("bad".to_string()).into_response(), (400, "bad".to_string()));
}

#[test]
fn asset_key_drops_leading_separators() {
    assert_eq!(asset_key("/assets/app.js"), "assets/app.js");
    assert_eq!(asset_key("//index.html"), "index.html");
    assert_eq!(asset_key("/"), "");
    assert_eq!(asset_key("plain"), "plain");
}

#[test]
fn extension_is_a_dot_after_the_first_character_of_the_name() {
    assert!(path_has_extension("a/b.txt"));
    assert!(path_has_extension("a."));
    assert!(!path_has_extension("files/docs"));
    assert!(!path_has_extension(".bashrc"));
    assert!(!path_has_extension(""));
    assert!(!path_has_extension("v1.2/docs"));
}

#[test]
fn static_answers() {
    match static_answer("style.css", true, true) {
        StaticAnswer::Asset { mime } => assert_eq!(mime, "text/css"),
        other => panic!("unexpected: {:?}", other),
    }
    match static_answer("assets/app.js", true, false) {
        StaticAnswer::Asset { mime } => assert_eq!(mime, "text/javascript"),
        other => panic!("unexpected: {:?}", other),
    }
    assert!(matches!(static_answer("files/docs", false, true), StaticAnswer::Index));
    assert!(matches!(static_answer("missing.png", false, true), StaticAnswer::NotFound));
    assert!(matches!(static_answer("files/docs", false, false), StaticAnswer::NotFound));
}

#[test]
fn decimal_strings() {
    assert_eq!(decimal_string(0), "0");
    assert_eq!(decimal_string(7), "7");
    assert_eq!(decimal_string(12345), "12345");
    assert_eq!(decimal_string(u64::MAX), "18446744073709551615");
}

#[test]
fn time_formatting() {
    assert_eq!(format_time(Timestamp { secs: 1_700_000_000, nanos: 0 }), "2023-11-14T22:13:20Z");
    assert_eq!(format_time(Timestamp { secs: 0, nanos: 999_999_999 }), "1970-01-01T00:00:00Z");
    // instants before the epoch are shown as the epoch
    assert_eq!(format_time(Timestamp { secs: -10, nanos: 0 }), "1970-01-01T00:00:00Z");
    // and so are instants beyond what the calendar holds
    assert_eq!(format_time(Timestamp { secs: i64::MAX, nanos: 0 }), "1970-01-01T00:00:00Z");
    assert_eq!(format_optional_time(None), None);
    assert_eq!(format_optional_time(Some(Timestamp { secs: 86_400, nanos: 0 })), Some("1970-01-02T00:00:00Z".to_string()));
}

#[test]
fn permissions_and_stats() {
    let p = permissions_from(false);
    assert!(p.readable && p.writable && !p.executable);
    assert!(!permissions_from(true).writable);
    let mut s = DirStats::empty();
    s.count_dir();
    s.count_file(10);
    s.count_file(5);
    assert_eq!(s, DirStats { total_files: 2, total_dirs: 1, total_size: 15 });
    assert_eq!(Timestamp::epoch(), Timestamp { secs: 0, nanos: 0 });
}

#[test]
fn counting_entries_for_directory_stats() {
    let mut s = DirStats::empty();
    assert!(s.fits(true, 0));
    assert!(s.count_entry(true, 99));
    assert!(!s.count_entry(false, 7));
    assert_eq!(s, DirStats { total_files: 1, total_dirs: 1, total_size: 7 });
    let full = DirStats { total_files: 0, total_dirs: u64::MAX, total_size: u64::MAX - 1 };
    assert!(!full.fits(true, 0));
    assert!(full.fits(false, 1));
    assert!(!full.fits(false, 2));
}
