use filedock::error::AppError;
use filedock::vfs::{FileEntry, Timestamp};
use filedock::webdav::{
    lists_descendants, lock_answer, lock_creates, propfind_multistatus, LockAnswer,
    all_properties, build_response, build_response_from_entry, can_describe, child_path,
    dav_method, delete_status, directory_listing_html, etag, extract_path_from_url,
    file_name_of, get_fallback, head_headers, includes_children, lock_response,
    lock_token_header, lookup_failure_status, metadata_to_prop, mkcol_status, new_lock_token,
    options_headers, prop_from_texts, propfind_depth, proppatch_response, put_status, redirects_to_webdav_root,
    transfer_status,
    DavLockScope, DavLockType, DavMethod, Depth, GetFallback,
};

fn epoch() -> Timestamp {
    Timestamp { secs: 0, nanos: 0 }
}

#[test]
fn depth_from_str_reads_zero_one_and_infinity() {
    assert_eq!(Depth::from_str("0"), Depth::Zero);
    assert_eq!(Depth::from_str("1"), Depth::One);
    assert_eq!(Depth::from_str("infinity"), Depth::Infinity);
    assert_eq!(Depth::from_str("Infinity"), Depth::Infinity);
    assert_eq!(Depth::from_str("2"), Depth::Infinity);
    assert_eq!(Depth::from_str(""), Depth::Infinity);
    assert_eq!(Depth::from_str(" 0"), Depth::Infinity);
}

#[test]
fn propfind_depth_defaults_to_infinity() {
    assert_eq!(propfind_depth(None), Depth::Infinity);
    assert_eq!(propfind_depth(Some("0")), Depth::Zero);
    assert!(!includes_children(Depth::Zero));
    assert!(includes_children(Depth::One));
    assert!(includes_children(Depth::Infinity));
    let p = all_properties();
    assert!(p.allprop && !p.propname && p.prop.is_none());
}

#[test]
fn extract_path_removes_scheme_and_host() {
    assert_eq!(extract_path_from_url("http://localhost:17777/dir/file.txt"), "/dir/file.txt");
    assert_eq!(extract_path_from_url("http://host/a/b?q=1"), "/a/b");
    assert_eq!(extract_path_from_url("https://user@host:1/"), "/");
    assert_eq!(extract_path_from_url("http://host"), "/");
    assert_eq!(extract_path_from_url("x://"), "/");
    assert_eq!(extract_path_from_url("/p/http://h/x"), "/x");
}

#[test]
fn extract_path_of_plain_paths() {
    assert_eq!(extract_path_from_url("/x/y"), "/x/y");
    assert_eq!(extract_path_from_url("x/y"), "/x/y");
    assert_eq!(extract_path_from_url("/x?y=/z"), "/x");
    assert_eq!(extract_path_from_url("?only"), "/");
    assert_eq!(extract_path_from_url(""), "/");
    assert_eq!(extract_path_from_url("http:/x"), "/http:/x");
}

#[test]
fn etag_is_quoted_second_and_size() {
    assert_eq!(etag(1700000000, 42), "\"1700000000-42\"");
    assert_eq!(etag(0, 0), "\"0-0\"");
    assert_eq!(etag(-5, 7), "\"-5-7\"");
}

#[test]
fn file_name_is_the_last_named_component() {
    assert_eq!(file_name_of("/a/b.txt"), "b.txt");
    assert_eq!(file_name_of("b.txt"), "b.txt");
    assert_eq!(file_name_of("/a/b/"), "b");
    assert_eq!(file_name_of("a/."), "a");
    assert_eq!(file_name_of("/"), "");
    assert_eq!(file_name_of(""), "");
    assert_eq!(file_name_of("a/.."), "");
    assert_eq!(file_name_of(".."), "");
}

#[test]
fn child_path_joins_with_a_separator() {
    assert_eq!(child_path("/dir", "f"), "/dir/f");
    assert_eq!(child_path("/dir/", "f"), "/dir/f");
    assert_eq!(child_path("/", "f"), "/f");
    assert_eq!(child_path("", "f"), "f");
}

#[test]
fn metadata_to_prop_for_a_file() {
    let p = metadata_to_prop("a.txt", "/a.txt", false, 5, epoch(), None, "text/plain");
    assert_eq!(p.display_name.as_deref(), Some("a.txt"));
    assert_eq!(p.get_content_length, Some(5));
    assert_eq!(p.get_content_type.as_deref(), Some("text/plain"));
    assert_eq!(p.get_etag.as_deref(), Some("\"0-5\""));
    assert_eq!(p.get_last_modified.as_deref(), Some("Thu, 1 Jan 1970 00:00:00 +0000"));
    assert!(p.creation_date.is_none());
    assert_eq!(p.resource_type.map(|r| r.collection), Some(false));
    let sl = p.supported_lock.unwrap();
    assert_eq!(sl.entries.len(), 1);
    assert_eq!(sl.entries[0].scope, DavLockScope::Exclusive);
    assert_eq!(sl.entries[0].lock_type, DavLockType::Write);
    assert_eq!(sl.entries[0].depth, "infinity");
    assert_eq!(sl.entries[0].lock_token, "");
    assert!(p.lock_discovery.is_none());
}

#[test]
fn metadata_to_prop_for_a_directory() {
    let created = Timestamp { secs: 1_000_000_000, nanos: 500_000_000 };
    let modified = Timestamp { secs: 1_700_000_000, nanos: 0 };
    let p = metadata_to_prop("docs", "/docs", true, 4096, modified, Some(created), "application/octet-stream");
    assert!(p.get_content_length.is_none());
    assert!(p.get_content_type.is_none());
    assert_eq!(p.resource_type.map(|r| r.collection), Some(true));
    assert_eq!(p.creation_date.as_deref(), Some("2001-09-09T01:46:40.500+00:00"));
    assert_eq!(p.get_last_modified.as_deref(), Some("Tue, 14 Nov 2023 22:13:20 +0000"));
    assert_eq!(p.get_etag.as_deref(), Some("\"1700000000-4096\""));
}

#[test]
fn can_describe_rejects_unwritable_instants() {
    assert!(can_describe(epoch(), None));
    assert!(can_describe(Timestamp { secs: -62167219200, nanos: 0 }, None));
    assert!(!can_describe(Timestamp { secs: -62167219201, nanos: 0 }, None));
    assert!(!can_describe(Timestamp { secs: 253402300800, nanos: 0 }, None));
    assert!(!can_describe(Timestamp { secs: 0, nanos: 1_000_000_000 }, None));
    assert!(can_describe(epoch(), Some(Timestamp { secs: 8210266876799, nanos: 0 })));
    assert!(!can_describe(epoch(), Some(Timestamp { secs: 8210266876800, nanos: 0 })));
}

#[test]
fn build_response_names_the_resource() {
    let r = build_response("/docs/a.txt", false, 3, epoch(), None, "text/plain");
    assert_eq!(r.href, "/docs/a.txt");
    assert!(r.status.is_none());
    assert_eq!(r.propstat.len(), 1);
    assert_eq!(r.propstat[0].status, "HTTP/1.1 200 OK");
    assert_eq!(r.propstat[0].prop.display_name.as_deref(), Some("a.txt"));
    let root = build_response("/", true, 0, epoch(), None, "application/octet-stream");
    assert_eq!(root.propstat[0].prop.display_name.as_deref(), Some(""));
}

#[test]
fn build_response_from_entry_uses_the_entry_name() {
    let e = FileEntry {
        name: "b.bin".to_string(),
        path: "x/b.bin".to_string(),
        is_dir: false,
        size: 11,
        modified: epoch(),
        created: None,
    };
    let r = build_response_from_entry("/x/b.bin", &e, "application/octet-stream");
    assert_eq!(r.href, "/x/b.bin");
    assert_eq!(r.propstat[0].prop.display_name.as_deref(), Some("b.bin"));
    assert_eq!(r.propstat[0].prop.get_content_length, Some(11));
}

#[test]
fn proppatch_answers_one_empty_success() {
    let m = proppatch_response("/a");
    assert_eq!(m.responses.len(), 1);
    assert_eq!(m.responses[0].href, "/a");
    assert_eq!(m.responses[0].propstat[0].status, "HTTP/1.1 200 OK");
    let p = &m.responses[0].propstat[0].prop;
    assert!(p.display_name.is_none() && p.get_etag.is_none() && p.lock_discovery.is_none());
}

#[test]
fn lock_grants_an_exclusive_write_lock() {
    let token = new_lock_token();
    assert_eq!(token.len(), 45);
    assert!(token.starts_with("urn:uuid:"));
    let other = new_lock_token();
    assert_ne!(token, other);
    let uuid: Vec<char> = token["urn:uuid:".len()..].chars().collect();
    assert_eq!(uuid.len(), 36);
    for (i, c) in uuid.iter().enumerate() {
        if i == 8 || i == 13 || i == 18 || i == 23 {
            assert_eq!(*c, '-');
        } else {
            assert!(c.is_ascii_digit() || ('a'..='f').contains(c));
        }
    }
    assert_eq!(uuid[14], '4');
    assert!(['8', '9', 'a', 'b'].contains(&uuid[19]));
    let m = lock_response("/f", &token);
    assert_eq!(m.responses.len(), 1);
    assert_eq!(m.responses[0].href, "/f");
    let ld = m.responses[0].propstat[0].prop.lock_discovery.as_ref().unwrap();
    assert_eq!(ld.active_locks.len(), 1);
    let l = &ld.active_locks[0];
    assert!(l.lock_type.write);
    assert!(l.lock_scope.exclusive && !l.lock_scope.shared);
    assert_eq!(l.depth, "infinity");
    assert_eq!(l.timeout.as_deref(), Some("Second-3600"));
    assert_eq!(l.lock_token.href, token);
    assert_eq!(lock_token_header("urn:uuid:x"), "<urn:uuid:x>");
}

#[test]
fn methods_are_recognised_by_exact_name() {
    assert_eq!(dav_method("OPTIONS"), DavMethod::Options);
    assert_eq!(dav_method("PROPFIND"), DavMethod::Propfind);
    assert_eq!(dav_method("PROPPATCH"), DavMethod::Proppatch);
    assert_eq!(dav_method("UNLOCK"), DavMethod::Unlock);
    assert_eq!(dav_method("MKCOL"), DavMethod::Mkcol);
    assert_eq!(dav_method("get"), DavMethod::Unsupported);
    assert_eq!(dav_method("PATCH"), DavMethod::Unsupported);
}

#[test]
fn outcome_statuses() {
    let ok: Result<(), AppError> = Ok(());
    let missing: Result<(), AppError> = Err(AppError::NotFound("/x".to_string()));
    let exists: Result<(), AppError> = Err(AppError::AlreadyExists("/x".to_string()));
    let io: Result<(), AppError> = Err(AppError::Io("disk".to_string()));
    assert_eq!(put_status(&ok), 201);
    assert_eq!(put_status(&missing), 500);
    assert_eq!(delete_status(&ok), 204);
    assert_eq!(delete_status(&missing), 404);
    assert_eq!(delete_status(&io), 500);
    assert_eq!(mkcol_status(&ok), 201);
    assert_eq!(mkcol_status(&exists), 405);
    assert_eq!(mkcol_status(&missing), 500);
    assert_eq!(transfer_status(&ok), 201);
    assert_eq!(transfer_status(&missing), 404);
    assert_eq!(transfer_status(&exists), 500);
    assert_eq!(lookup_failure_status(&AppError::NotFound("/x".to_string())), 404);
    assert_eq!(lookup_failure_status(&AppError::PathTraversal), 500);
}

#[test]
fn get_falls_back_to_a_listing_for_directories() {
    assert_eq!(get_fallback(&AppError::NotFound("/x".to_string())), GetFallback::NotFound);
    assert_eq!(get_fallback(&AppError::NotFile("/d".to_string())), GetFallback::ListDirectory);
    assert_eq!(get_fallback(&AppError::PathTraversal), GetFallback::ServerError);
}

#[test]
fn options_and_head_headers() {
    let h = options_headers();
    assert_eq!(h.len(), 3);
    assert_eq!(h[0].0, "Allow");
    assert_eq!(h[0].1, "OPTIONS, GET, HEAD, PUT, DELETE, MKCOL, COPY, MOVE, PROPFIND, PROPPATCH, LOCK, UNLOCK");
    assert_eq!(h[1], ("DAV".to_string(), "1, 2".to_string()));
    assert_eq!(h[2], ("MS-Author-Via".to_string(), "DAV".to_string()));
    let f = head_headers("text/plain", false, 12);
    assert_eq!(f.len(), 2);
    assert_eq!(f[0], ("Content-Type".to_string(), "text/plain".to_string()));
    assert_eq!(f[1], ("Content-Length".to_string(), "12".to_string()));
    let d = head_headers("application/octet-stream", true, 12);
    assert_eq!(d.len(), 1);
}

#[test]
fn directory_listing_links_each_entry() {
    let entries = vec![
        FileEntry { name: "a".to_string(), path: "d/a".to_string(), is_dir: false, size: 0, modified: epoch(), created: None },
        FileEntry { name: "b".to_string(), path: "d/b".to_string(), is_dir: true, size: 0, modified: epoch(), created: None },
    ];
    assert_eq!(
        directory_listing_html("/d", &entries),
        "<html><body><h1>Directory: /d</h1><ul><li><a href=\"d/a\">a</a></li><li><a href=\"d/b\">b</a></li></ul></body></html>"
    );
    assert_eq!(directory_listing_html("/e", &vec![]), "<html><body><h1>Directory: /e</h1><ul></ul></body></html>");
}

#[test]
fn only_the_webdav_root_with_a_slash_is_redirected() {
    assert!(redirects_to_webdav_root("/protocol/webdav/"));
    assert!(!redirects_to_webdav_root("/protocol/webdav"));
    assert!(!redirects_to_webdav_root("/protocol/webdav/x"));
    assert!(!redirects_to_webdav_root("/"));
}

#[test]
fn prop_from_texts_places_the_given_texts() {
    let p = prop_from_texts("r.txt", false, 3, 10, Some("created".to_string()), "modified".to_string(), "text/plain");
    assert_eq!(p.creation_date.as_deref(), Some("created"));
    assert_eq!(p.get_last_modified.as_deref(), Some("modified"));
    assert_eq!(p.get_etag.as_deref(), Some("\"10-3\""));
    assert_eq!(p.display_name.as_deref(), Some("r.txt"));
    assert_eq!(p.get_content_type.as_deref(), Some("text/plain"));
    let d = prop_from_texts("d", true, 3, -1, None, "m".to_string(), "text/plain");
    assert!(d.creation_date.is_none());
    assert!(d.get_content_type.is_none() && d.get_content_length.is_none());
    assert_eq!(d.get_etag.as_deref(), Some("\"-1-3\""));
}

#[test]
fn lock_creates_missing_resources_and_fails_when_that_fails() {
    assert!(lock_creates(false));
    assert!(!lock_creates(true));
    let failed: Option<Result<(), AppError>> = Some(Err(AppError::Io("denied".to_string())));
    assert!(matches!(lock_answer("/f", &failed, "urn:uuid:t"), LockAnswer::ServerError));
    for creation in [None, Some(Ok(()))] {
        match lock_answer("/f", &creation, "urn:uuid:t") {
            LockAnswer::Granted { multi_status, lock_token } => {
                assert_eq!(lock_token, "<urn:uuid:t>");
                assert_eq!(multi_status.responses.len(), 1);
                assert_eq!(multi_status.responses[0].href, "/f");
                let ld = multi_status.responses[0].propstat[0].prop.lock_discovery.as_ref().unwrap();
                assert_eq!(ld.active_locks[0].lock_token.href, "urn:uuid:t");
            }
            LockAnswer::ServerError => panic!("lock refused"),
        }
    }
}

#[test]
fn propfind_lists_the_resource_then_the_items_in_order() {
    assert!(lists_descendants(Depth::Infinity));
    assert!(!lists_descendants(Depth::One));
    assert!(!lists_descendants(Depth::Zero));
    let resource = build_response("/d", true, 0, epoch(), None, "application/octet-stream");
    let listed = vec![
        ("/d/a.txt".to_string(), FileEntry { name: "a.txt".to_string(), path: "d/a.txt".to_string(), is_dir: false, size: 2, modified: epoch(), created: None }),
        ("/d/sub".to_string(), FileEntry { name: "sub".to_string(), path: "d/sub".to_string(), is_dir: true, size: 0, modified: epoch(), created: None }),
        ("/d/sub/b.html".to_string(), FileEntry { name: "b.html".to_string(), path: "d/sub/b.html".to_string(), is_dir: false, size: 5, modified: epoch(), created: None }),
    ];
    let m = propfind_multistatus(resource, &listed);
    let hrefs: Vec<&str> = m.responses.iter().map(|r| r.href.as_str()).collect();
    assert_eq!(hrefs, vec!["/d", "/d/a.txt", "/d/sub", "/d/sub/b.html"]);
    assert_eq!(m.responses[1].propstat[0].prop.get_content_type.as_deref(), Some("text/plain"));
    assert_eq!(m.responses[3].propstat[0].prop.get_content_type.as_deref(), Some("text/html"));
    assert!(m.responses[2].propstat[0].prop.get_content_type.is_none());
    let alone = propfind_multistatus(build_response("/d", true, 0, epoch(), None, "x"), &vec![]);
    assert_eq!(alone.responses.len(), 1);
}
