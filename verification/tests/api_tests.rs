use filedock::order::{sort_entries, SortKey};
use filedock::api::{
    batch_result, check_deletable, check_downloadable, checked_page_fits, content_disposition,
    copy_label, created, default_page, default_page_size, health_response, list_page, page_of,
    search_page, ApiResponse, BatchFailure, BatchResult, ListQuery, MetadataResponse,
    PaginatedResponse, SearchQuery, SortField, SortOrder,
};
use filedock::error::AppError;
use filedock::local::LocalFileSystem;
use filedock::vfs::{FileEntry, SearchResult, Timestamp};

fn entry(name: &str, size: u64, secs: i64, created: Option<i64>) -> FileEntry {
    FileEntry {
        name: name.to_string(),
        path: name.to_string(),
        is_dir: false,
        size,
        modified: Timestamp { secs, nanos: 0 },
        created: created.map(|s| Timestamp { secs: s, nanos: 0 }),
    }
}

fn names(v: &[FileEntry]) -> Vec<&str> {
    v.iter().map(|e| e.name.as_str()).collect()
}

fn query(page: usize, page_size: usize, sort_by: Option<SortField>, sort_order: Option<SortOrder>) -> ListQuery {
    ListQuery { path: "/".to_string(), page, page_size, sort_by, sort_order }
}

#[test]
fn defaults_are_first_page_of_a_hundred() {
    assert_eq!(default_page(), 0);
    assert_eq!(default_page_size(), 100);
}

#[test]
fn success_response_carries_the_data() {
    let r = ApiResponse::success(7u32);
    assert!(r.success);
    assert_eq!(r.data, Some(7));
    assert!(r.error.is_none());
    assert!(r.request_id.is_none());
}

#[test]
fn created_answers_201() {
    let (status, r) = created("x");
    assert_eq!(status, 201);
    assert!(r.success);
    assert_eq!(r.data, Some("x"));
}

#[test]
fn paginated_response_has_more_when_items_remain() {
    let r = PaginatedResponse::new(vec![1, 2, 3], 10, 0, 3);
    assert!(r.has_more);
    assert_eq!(r.items, vec![1, 2, 3]);
    assert_eq!(r.total, 10);
    let last = PaginatedResponse::new(vec![10], 10, 3, 3);
    assert!(!last.has_more);
    let exact = PaginatedResponse::new(vec![4, 5], 4, 1, 2);
    assert!(!exact.has_more);
    let empty = PaginatedResponse::<u8>::new(vec![], 0, 0, 100);
    assert!(!empty.has_more);
}

#[test]
fn page_of_slices_the_items() {
    let items: Vec<u32> = (0..10).collect();
    assert_eq!(page_of(items.clone(), 0, 3), vec![0, 1, 2]);
    assert_eq!(page_of(items.clone(), 1, 3), vec![3, 4, 5]);
    assert_eq!(page_of(items.clone(), 3, 3), vec![9]);
    assert_eq!(page_of(items.clone(), 4, 3), Vec::<u32>::new());
    assert_eq!(page_of(items.clone(), 0, 0), Vec::<u32>::new());
    assert_eq!(page_of(items, 0, 100).len(), 10);
}

#[test]
fn has_more_matches_a_non_empty_next_page() {
    let items: Vec<u32> = (0..7).collect();
    for page in 0..5usize {
        let r = PaginatedResponse::new(page_of(items.clone(), page, 3), 7, page, 3);
        let next = page_of(items.clone(), page + 1, 3);
        assert_eq!(r.has_more, !next.is_empty());
    }
}

#[test]
fn list_page_without_sort_keeps_listing_order() {
    let entries = vec![entry("c", 1, 0, None), entry("a", 2, 0, None), entry("b", 3, 0, None)];
    let r = list_page(entries, &query(0, 2, None, None));
    assert_eq!(names(&r.items), vec!["c", "a"]);
    assert_eq!(r.total, 3);
    assert!(r.has_more);
}

#[test]
fn list_page_sorts_by_name_both_ways() {
    let entries = vec![entry("c", 1, 0, None), entry("a", 2, 0, None), entry("b", 3, 0, None)];
    let asc = list_page(entries, &query(0, 10, Some(SortField::Name), None));
    assert_eq!(names(&asc.items), vec!["a", "b", "c"]);
    let entries = vec![entry("c", 1, 0, None), entry("a", 2, 0, None), entry("b", 3, 0, None)];
    let desc = list_page(entries, &query(0, 10, Some(SortField::Name), Some(SortOrder::Desc)));
    assert_eq!(names(&desc.items), vec!["c", "b", "a"]);
    assert!(!desc.has_more);
}

#[test]
fn list_page_sort_is_stable_for_equal_keys() {
    let entries = vec![
        entry("x", 5, 0, None),
        entry("y", 1, 0, None),
        entry("z", 5, 0, None),
        entry("w", 1, 0, None),
    ];
    let asc = list_page(entries, &query(0, 10, Some(SortField::Size), Some(SortOrder::Asc)));
    assert_eq!(names(&asc.items), vec!["y", "w", "x", "z"]);
    let entries = vec![
        entry("x", 5, 0, None),
        entry("y", 1, 0, None),
        entry("z", 5, 0, None),
        entry("w", 1, 0, None),
    ];
    let desc = list_page(entries, &query(0, 10, Some(SortField::Size), Some(SortOrder::Desc)));
    assert_eq!(names(&desc.items), vec!["x", "z", "y", "w"]);
}

#[test]
fn list_page_sorts_by_times() {
    let entries = vec![entry("late", 0, 300, Some(1)), entry("early", 0, 100, None), entry("mid", 0, 200, Some(-5))];
    let by_modified = list_page(entries, &query(0, 10, Some(SortField::Modified), None));
    assert_eq!(names(&by_modified.items), vec!["early", "mid", "late"]);
    let entries = vec![entry("late", 0, 300, Some(1)), entry("early", 0, 100, None), entry("mid", 0, 200, Some(-5))];
    // an unknown creation time sorts as the epoch
    let by_created = list_page(entries, &query(0, 10, Some(SortField::Created), None));
    assert_eq!(names(&by_created.items), vec!["mid", "early", "late"]);
}

#[test]
fn list_page_pages_after_sorting() {
    let entries = vec![entry("d", 0, 0, None), entry("b", 0, 0, None), entry("a", 0, 0, None), entry("c", 0, 0, None)];
    let r = list_page(entries, &query(1, 3, Some(SortField::Name), None));
    assert_eq!(names(&r.items), vec!["d"]);
    assert_eq!(r.page, 1);
    assert_eq!(r.page_size, 3);
    assert!(!r.has_more);
    let beyond = list_page(vec![entry("a", 0, 0, None)], &query(5, 3, None, None));
    assert!(beyond.items.is_empty());
    assert_eq!(beyond.total, 1);
}

#[test]
fn search_page_slices_results() {
    let results: Vec<SearchResult> = (0..5)
        .map(|i| SearchResult {
            path: format!("p{}", i),
            name: format!("n{}", i),
            is_dir: false,
            size: i,
            modified: Timestamp { secs: 0, nanos: 0 },
        })
        .collect();
    let q = SearchQuery { path: "/".to_string(), pattern: "*".to_string(), recursive: true, page: 1, page_size: 2 };
    let r = search_page(results, &q);
    let got: Vec<&str> = r.items.iter().map(|s| s.name.as_str()).collect();
    assert_eq!(got, vec!["n2", "n3"]);
    assert_eq!(r.total, 5);
    assert!(r.has_more);
}

#[test]
fn checked_page_fits_detects_overflow() {
    assert!(checked_page_fits(0, 100));
    assert!(checked_page_fits(0, usize::MAX));
    assert!(!checked_page_fits(1, usize::MAX));
    assert!(!checked_page_fits(usize::MAX, 1));
    assert!(checked_page_fits(usize::MAX - 1, 1));
}

#[test]
fn batch_result_new_counts_failures() {
    let r = BatchResult::new(2, vec![BatchFailure { path: "a".to_string(), error: "e".to_string() }]);
    assert_eq!(r.success_count, 2);
    assert_eq!(r.failure_count, 1);
    assert_eq!(r.failures[0].path, "a");
}

#[test]
fn batch_result_tallies_outcomes() {
    let labels = vec!["/a".to_string(), "/b".to_string(), "/c".to_string()];
    let outcomes: Vec<Result<(), AppError>> = vec![
        Ok(()),
        Err(AppError::NotFound("/b".to_string())),
        Err(AppError::PathTraversal),
    ];
    let r = batch_result(&labels, &outcomes);
    assert_eq!(r.success_count, 1);
    assert_eq!(r.failure_count, 2);
    assert_eq!(r.success_count + r.failure_count, 3);
    assert_eq!(r.failures[0].path, "/b");
    assert_eq!(r.failures[0].error, "Path not found: /b");
    assert_eq!(r.failures[1].path, "/c");
    assert_eq!(r.failures[1].error, "Path traversal attempt detected");
}

#[test]
fn batch_result_of_nothing() {
    let r = batch_result(&vec![], &vec![]);
    assert_eq!(r.success_count, 0);
    assert_eq!(r.failure_count, 0);
}

#[test]
fn delete_refuses_non_empty_directory() {
    assert!(check_deletable(false, "f.txt", 0).is_ok());
    assert!(check_deletable(true, "empty", 0).is_ok());
    match check_deletable(true, "docs", 3) {
        Err(AppError::BadRequest(m)) => {
            assert_eq!(m, "Directory 'docs' is not empty (3 items). Use force=true to delete.")
        }
        other => panic!("unexpected: {:?}", other),
    }
}

#[test]
fn download_refuses_directories() {
    assert!(check_downloadable(false, "/f").is_ok());
    assert!(matches!(check_downloadable(true, "/d"), Err(AppError::NotFile(p)) if p == "/d"));
}

#[test]
fn download_and_batch_labels() {
    assert_eq!(content_disposition("a b.txt"), "attachment; filename=\"a b.txt\"");
    assert_eq!(copy_label("/a", "/b"), "/a -> /b");
}

#[test]
fn health_reports_ok() {
    let h = health_response("0.1.0", "/data", 1_700_000_000, 1_700_003_600);
    assert_eq!(h.status, "ok");
    assert_eq!(h.version, "0.1.0");
    assert_eq!(h.uptime_seconds, 3600);
    assert_eq!(h.data_dir, "/data");
    assert_eq!(health_response("0.1.0", "/data", 50, 50).uptime_seconds, 0);
    assert_eq!(health_response("0.1.0", "/data", 50, 10).uptime_seconds, 0);
}

#[test]
fn metadata_response_copies_the_metadata() {
    let t = Timestamp { secs: 3, nanos: 4 };
    let m = LocalFileSystem::metadata_record("/x/y", true, 9, t, Some(t), None, false);
    let r = MetadataResponse::from_metadata(m);
    assert_eq!(r.name, "y");
    assert_eq!(r.path, "/x/y");
    assert!(r.is_dir);
    assert_eq!(r.size, 9);
    assert_eq!(r.modified, t);
    assert_eq!(r.created, Some(t));
    assert!(r.accessed.is_none());
}

#[test]
fn sorting_matches_a_stable_sort_on_many_entries() {
    let make = || -> Vec<FileEntry> {
        (0..257u64).map(|i| entry(&format!("n{:03}", (i * 37) % 101), (i * 13) % 7, ((i * 11) % 5) as i64, None)).collect()
    };
    for (key, descending) in [(SortKey::BySize, false), (SortKey::BySize, true), (SortKey::ByName, false), (SortKey::ByModified, true)] {
        let sorted = sort_entries(make(), key, descending);
        let mut expected = make();
        expected.sort_by(|a, b| {
            let c = match key {
                SortKey::BySize => a.size.cmp(&b.size),
                SortKey::ByName => a.name.cmp(&b.name),
                _ => a.modified.secs.cmp(&b.modified.secs),
            };
            if descending { c.reverse() } else { c }
        });
        let got: Vec<(String, u64)> = sorted.iter().map(|e| (e.name.clone(), e.size)).collect();
        let want: Vec<(String, u64)> = expected.iter().map(|e| (e.name.clone(), e.size)).collect();
        assert_eq!(got, want);
    }
}
