//! The REST API: query and request shapes, the standard response wrappers,
//! listing order, pagination and batch tallies.
use vstd::prelude::*;
use crate::error::{AppError, display_text};
use crate::order::{
    Comparison, SortKey, compare_by_key, compare_text, entry_order, flip, is_stable_sort_of,
    lemma_compare_text_flip, lemma_entry_order_preorder, sort_entries,
};
use crate::text::{decimal, push_decimal, push_str};
use crate::vfs::{DirStats, FileEntry, FileMetadata, FilePermissions, SearchResult, Timestamp};

verus! {

/// The page shown when none is asked for.
pub fn default_page() -> (p: usize)
    ensures
        p == 0,
{
    0
}

/// The page size used when none is asked for.
pub fn default_page_size() -> (p: usize)
    ensures
        p == 100,
{
    100
}

/// Query parameters for path.
#[derive(Debug)]
pub struct PathQuery {
    pub path: String,
}

/// Sort field options.
#[derive(Clone, Copy, PartialEq, Eq, Structural, Debug)]
pub enum SortField {
    Name,
    Size,
    Modified,
    Created,
}

/// Sort order.
#[derive(Clone, Copy, PartialEq, Eq, Structural, Debug)]
pub enum SortOrder {
    Asc,
    Desc,
}

/// Query parameters for directory listing with pagination.
#[derive(Debug)]
pub struct ListQuery {
    pub path: String,
    pub page: usize,
    pub page_size: usize,
    pub sort_by: Option<SortField>,
    pub sort_order: Option<SortOrder>,
}

/// Query parameters for search.
#[derive(Debug)]
pub struct SearchQuery {
    pub path: String,
    pub pattern: String,
    pub recursive: bool,
    pub page: usize,
    pub page_size: usize,
}

/// Query parameters for file read with range.
#[derive(Debug)]
pub struct ReadQuery {
    pub path: String,
    pub offset: Option<u64>,
    pub length: Option<u64>,
}

/// Batch delete request.
#[derive(Debug)]
pub struct BatchDeleteRequest {
    pub paths: Vec<String>,
}

/// Copy operation.
#[derive(Debug)]
pub struct CopyOperation {
    pub from: String,
    pub to: String,
}

/// Batch copy request.
#[derive(Debug)]
pub struct BatchCopyRequest {
    pub operations: Vec<CopyOperation>,
}

/// File metadata response.
#[derive(Debug)]
pub struct MetadataResponse {
    pub path: String,
    pub name: String,
    pub is_dir: bool,
    pub size: u64,
    pub modified: Timestamp,
    pub created: Option<Timestamp>,
    pub accessed: Option<Timestamp>,
    pub permissions: Option<FilePermissions>,
}

/// Directory statistics response.
#[derive(Debug)]
pub struct DirStatsResponse {
    pub path: String,
    pub stats: DirStats,
}

/// Create directory request.
#[derive(Debug)]
pub struct CreateDirRequest {
    pub path: String,
}

/// Rename request.
#[derive(Debug)]
pub struct RenameRequest {
    pub from: String,
    pub to: String,
}

/// Copy request.
#[derive(Debug)]
pub struct CopyRequest {
    pub from: String,
    pub to: String,
}

/// Standard API response wrapper.
#[derive(Debug)]
pub struct ApiResponse<T> {
    /// Whether the request was successful
    pub success: bool,
    /// Response data (only present on success)
    pub data: Option<T>,
    /// Error message (only present on error)
    pub error: Option<String>,
    /// Request ID for tracking
    pub request_id: Option<String>,
}

impl<T> ApiResponse<T> {
    /// A successful response carrying `data`.
    pub fn success(data: T) -> (r: Self)
        ensures
            r.success,
            r.data == Some(data),
            r.error is None,
            r.request_id is None,
    {
        ApiResponse { success: true, data: Some(data), error: None, request_id: None }
    }
}

/// The answer to a request that created something: status 201 and a
/// successful response carrying `data`.
pub fn created<T>(data: T) -> (r: (u16, ApiResponse<T>))
    ensures
        r.0 == 201,
        r.1.success,
        r.1.data == Some(data),
        r.1.error is None,
        r.1.request_id is None,
{
    (201, ApiResponse::success(data))
}

/// Paginated response wrapper.
#[derive(Debug)]
pub struct PaginatedResponse<T> {
    /// The data items
    pub items: Vec<T>,
    /// Total number of items
    pub total: usize,
    /// Current page number (0-indexed)
    pub page: usize,
    /// Number of items per page
    pub page_size: usize,
    /// Whether there are more pages
    pub has_more: bool,
}

impl<T> PaginatedResponse<T> {
    /// A page of `items` out of `total`; there are more pages when the items
    /// up to the end of this page are fewer than `total`.
    pub fn new(items: Vec<T>, total: usize, page: usize, page_size: usize) -> (r: Self)
        requires
            page < usize::MAX,
            (page + 1) * page_size <= usize::MAX,
        ensures
            r.items@ == items@,
            r.total == total,
            r.page == page,
            r.page_size == page_size,
            r.has_more == ((page + 1) * page_size < total),
    {
        let end: usize = (page + 1) * page_size;
        let has_more = end < total;
        PaginatedResponse { items, total, page, page_size, has_more }
    }
}

/// Details of a failed batch operation.
#[derive(Debug)]
pub struct BatchFailure {
    /// The path that failed
    pub path: String,
    /// The error message
    pub error: String,
}

/// Batch operation result.
#[derive(Debug)]
pub struct BatchResult {
    /// Number of successful operations
    pub success_count: usize,
    /// Number of failed operations
    pub failure_count: usize,
    /// Details of failed operations
    pub failures: Vec<BatchFailure>,
}

impl BatchResult {
    /// A batch result with `success_count` successes and the given failures.
    pub fn new(success_count: usize, failures: Vec<BatchFailure>) -> (r: Self)
        ensures
            r.success_count == success_count,
            r.failure_count == failures@.len(),
            r.failures@ == failures@,
    {
        let failure_count = failures.len();
        BatchResult { success_count, failure_count, failures }
    }
}

/// Health check response.
#[derive(Debug)]
pub struct HealthResponse {
    /// Service status
    pub status: String,
    /// Service version
    pub version: String,
    /// Uptime in seconds
    pub uptime_seconds: u64,
    /// Data directory path
    pub data_dir: String,
}

} // verus!

verus! {

/// The first position of page `page` when pages hold `page_size` items.
pub open spec fn page_start(page: usize, page_size: usize) -> int {
    page * page_size
}

/// The items of page `page` of `s` when pages hold `page_size` items: empty
/// when the page starts at or after the end.
pub open spec fn page_items<A>(s: Seq<A>, page: usize, page_size: usize) -> Seq<A> {
    let start = page_start(page, page_size);
    let end = if start + page_size < s.len() { start + page_size } else { s.len() as int };
    if start < s.len() {
        s.subrange(start, end)
    } else {
        Seq::<A>::empty()
    }
}

/// The page arithmetic stays within `usize`.
pub open spec fn page_fits(page: usize, page_size: usize) -> bool {
    page < usize::MAX && (page + 1) * page_size <= usize::MAX
}

/// A page says there are more pages exactly when the next page is not empty
/// (pages of at least one item).
pub proof fn lemma_has_more_iff_next_page<A>(s: Seq<A>, page: usize, page_size: usize)
    requires
        page < usize::MAX,
        page_size > 0,
    ensures
        ((page + 1) * page_size < s.len()) <==> page_items(s, (page + 1) as usize, page_size).len()
            > 0,
{
    let next = (page + 1) as usize;
    let start = next * page_size;
    assert(start == (page + 1) * page_size);
    if start < s.len() {
        let end = if start + page_size < s.len() { start + page_size } else { s.len() as int };
        assert(end > start);
        assert(page_items(s, next, page_size).len() == end - start);
    }
}

/// The items of one page of `items`.
pub fn page_of<T>(items: Vec<T>, page: usize, page_size: usize) -> (r: Vec<T>)
    requires
        page_fits(page, page_size),
    ensures
        r@ == page_items(items@, page, page_size),
{
    let ghost all = items@;
    assert(page * page_size + page_size == (page + 1) * page_size) by (nonlinear_arith);
    let start: usize = page * page_size;
    let end: usize = if start + page_size < items.len() { start + page_size } else { items.len() };
    if start < items.len() {
        let mut v = items;
        v.truncate(end);
        let tail = v.split_off(start);
        assert(tail@ == all.subrange(start as int, end as int));
        tail
    } else {
        Vec::new()
    }
}

/// The sort key and direction that a listing query asks for.
pub open spec fn requested_order(field: SortField, order: Option<SortOrder>) -> (SortKey, bool) {
    let key = match field {
        SortField::Name => SortKey::ByName,
        SortField::Size => SortKey::BySize,
        SortField::Modified => SortKey::ByModified,
        SortField::Created => SortKey::ByCreated,
    };
    (key, order == Some(SortOrder::Desc))
}

/// `listed` is `entries` in the order the query asks for: unchanged without a
/// sort field, else sorted stably by it (descending only for `Desc`).
pub open spec fn ordered_as_asked(listed: Seq<FileEntry>, entries: Seq<FileEntry>, sort_by: Option<
    SortField,
>, sort_order: Option<SortOrder>) -> bool {
    match sort_by {
        None => listed == entries,
        Some(field) => {
            let (key, descending) = requested_order(field, sort_order);
            is_stable_sort_of(listed, entries, entry_order(key, descending))
        },
    }
}

/// `t` is no later than `u`: an earlier second, or the same second and no
/// more nanoseconds.
pub open spec fn not_later(t: Timestamp, u: Timestamp) -> bool {
    t.secs < u.secs || (t.secs == u.secs && t.nanos <= u.nanos)
}

/// `a` may stand before `b` in a listing that ascends by `field`: no later
/// name (by code point), no larger size, no later modification, or no later
/// creation (an unknown creation counting as the epoch).
pub open spec fn ascends_by(field: SortField, a: FileEntry, b: FileEntry) -> bool {
    match field {
        SortField::Name => compare_text(a.name@, b.name@) != Comparison::Greater,
        SortField::Size => a.size <= b.size,
        SortField::Modified => not_later(a.modified, b.modified),
        SortField::Created => not_later(
            match a.created {
                Some(t) => t,
                None => Timestamp { secs: 0, nanos: 0 },
            },
            match b.created {
                Some(t) => t,
                None => Timestamp { secs: 0, nanos: 0 },
            },
        ),
    }
}

/// A listing sorted by a field holds the same entries, ascending by the
/// field, or descending by it exactly when the query asks for `Desc`,
/// whatever the field.
pub proof fn lemma_listing_follows_query(
    listed: Seq<FileEntry>,
    entries: Seq<FileEntry>,
    field: SortField,
    order: Option<SortOrder>,
)
    requires
        ordered_as_asked(listed, entries, Some(field), order),
    ensures
        listed.to_multiset() == entries.to_multiset(),
        forall|i: int, j: int|
            #![trigger listed[i], listed[j]]
            0 <= i < j < listed.len() ==> if order == Some(SortOrder::Desc) {
                ascends_by(field, listed[j], listed[i])
            } else {
                ascends_by(field, listed[i], listed[j])
            },
{
    let (key, descending) = requested_order(field, order);
    let f = entry_order(key, descending);
    let g = entry_order(key, false);
    lemma_entry_order_preorder(key, false);
    assert forall|i: int, j: int|
        #![trigger listed[i], listed[j]]
        0 <= i < j < listed.len() implies if order == Some(SortOrder::Desc) {
            ascends_by(field, listed[j], listed[i])
        } else {
            ascends_by(field, listed[i], listed[j])
        } by {
        let (a, b) = (listed[i], listed[j]);
        assert(f(a, b) != Comparison::Greater);
        assert(g(b, a) == flip(g(a, b)));
        lemma_compare_text_flip(a.name@, b.name@);
        let (x, y) = if order == Some(SortOrder::Desc) { (b, a) } else { (a, b) };
        assert(compare_by_key(key, x, y) != Comparison::Greater);
    }
}

/// Without a sort field the listing keeps the order it was given.
pub proof fn lemma_unsorted_listing_kept(
    listed: Seq<FileEntry>,
    entries: Seq<FileEntry>,
    order: Option<SortOrder>,
)
    requires
        ordered_as_asked(listed, entries, None, order),
    ensures
        listed =~= entries,
{
}

/// A page holds the items from the page's first position on, as many as a
/// page holds or as are left: item `k` of page `page` is item
/// `page * page_size + k` of the whole.
pub proof fn lemma_page_contents<A>(s: Seq<A>, page: usize, page_size: usize)
    ensures
        page_items(s, page, page_size).len() == if page * page_size >= s.len() {
            0
        } else if page * page_size + page_size <= s.len() {
            page_size as int
        } else {
            s.len() - page * page_size
        },
        forall|k: int|
            0 <= k < page_items(s, page, page_size).len() ==> #[trigger] page_items(
                s,
                page,
                page_size,
            )[k] == s[page * page_size + k],
{
}

/// One page of a directory listing, sorted as the query asks.
pub fn list_page(entries: Vec<FileEntry>, query: &ListQuery) -> (r: PaginatedResponse<FileEntry>)
    requires
        page_fits(query.page, query.page_size),
    ensures
        r.total == entries@.len(),
        r.page == query.page,
        r.page_size == query.page_size,
        r.has_more == ((query.page + 1) * query.page_size < entries@.len()),
        exists|listed: Seq<FileEntry>|
            ordered_as_asked(listed, entries@, query.sort_by, query.sort_order) && r.items@
                == page_items(listed, query.page, query.page_size),
{
    let total = entries.len();
    let ghost given = entries@;
    let listed = match query.sort_by {
        Some(field) => {
            let key = match field {
                SortField::Name => SortKey::ByName,
                SortField::Size => SortKey::BySize,
                SortField::Modified => SortKey::ByModified,
                SortField::Created => SortKey::ByCreated,
            };
            let descending = match query.sort_order {
                Some(SortOrder::Desc) => true,
                _ => false,
            };
            sort_entries(entries, key, descending)
        },
        None => entries,
    };
    let ghost listed_view = listed@;
    assert(ordered_as_asked(listed_view, given, query.sort_by, query.sort_order));
    let items = page_of(listed, query.page, query.page_size);
    PaginatedResponse::new(items, total, query.page, query.page_size)
}

/// One page of search results.
pub fn search_page(results: Vec<SearchResult>, query: &SearchQuery) -> (r: PaginatedResponse<
    SearchResult,
>)
    requires
        page_fits(query.page, query.page_size),
    ensures
        r.total == results@.len(),
        r.page == query.page,
        r.page_size == query.page_size,
        r.has_more == ((query.page + 1) * query.page_size < results@.len()),
        r.items@ == page_items(results@, query.page, query.page_size),
{
    let total = results.len();
    let items = page_of(results, query.page, query.page_size);
    PaginatedResponse::new(items, total, query.page, query.page_size)
}

impl MetadataResponse {
    /// The response for the metadata of a file or directory.
    pub fn from_metadata(m: FileMetadata) -> (r: Self)
        ensures
            r.path == m.path,
            r.name == m.name,
            r.is_dir == m.is_dir,
            r.size == m.size,
            r.modified == m.modified,
            r.created == m.created,
            r.accessed == m.accessed,
            r.permissions == m.permissions,
    {
        MetadataResponse {
            path: m.path,
            name: m.name,
            is_dir: m.is_dir,
            size: m.size,
            modified: m.modified,
            created: m.created,
            accessed: m.accessed,
            permissions: m.permissions,
        }
    }
}

/// The refusal text for deleting a non-empty directory without force.
pub open spec fn not_empty_text(name: Seq<char>, count: usize) -> Seq<char> {
    "Directory '"@ + name + "' is not empty ("@ + decimal(count as nat)
        + " items). Use force=true to delete."@
}

/// Whether a plain delete may go ahead: a directory must be empty.
pub fn check_deletable(is_dir: bool, name: &str, entry_count: usize) -> (r: Result<(), AppError>)
    ensures
        r is Ok <==> !is_dir || entry_count == 0,
        r matches Err(e) ==> (e matches AppError::BadRequest(m) && m@ == not_empty_text(
            name@,
            entry_count,
        )),
{
    if is_dir && entry_count > 0 {
        let mut m = String::new();
        push_str(&mut m, "Directory '");
        push_str(&mut m, name);
        push_str(&mut m, "' is not empty (");
        push_decimal(&mut m, entry_count as u64);
        push_str(&mut m, " items). Use force=true to delete.");
        return Err(AppError::BadRequest(m));
    }
    Ok(())
}

/// Whether a download may go ahead: directories are refused as not files.
pub fn check_downloadable(is_dir: bool, path: &str) -> (r: Result<(), AppError>)
    ensures
        r is Ok <==> !is_dir,
        r matches Err(e) ==> (e matches AppError::NotFile(p) && p@ == path@),
{
    if is_dir {
        return Err(AppError::NotFile(path.to_owned()));
    }
    Ok(())
}

/// The `Content-Disposition` value that offers `name` as an attachment.
pub fn content_disposition(name: &str) -> (s: String)
    ensures
        s@ == "attachment; filename=\""@ + name@ + "\""@,
{
    let mut s = String::new();
    push_str(&mut s, "attachment; filename=\"");
    push_str(&mut s, name);
    push_str(&mut s, "\"");
    s
}

/// The label of a copy in a batch: `from -> to`.
pub fn copy_label(from: &str, to: &str) -> (s: String)
    ensures
        s@ == from@ + " -> "@ + to@,
{
    let mut s = String::new();
    push_str(&mut s, from);
    push_str(&mut s, " -> ");
    push_str(&mut s, to);
    s
}

/// How many of the outcomes succeeded.
pub open spec fn success_total(outcomes: Seq<Result<(), AppError>>) -> nat
    decreases outcomes.len(),
{
    if outcomes.len() == 0 {
        0
    } else {
        success_total(outcomes.drop_last()) + if outcomes.last() is Ok { 1nat } else { 0nat }
    }
}

/// The failures among the outcomes, each with its label and error text, in order.
pub open spec fn failure_list(labels: Seq<String>, outcomes: Seq<Result<(), AppError>>) -> Seq<
    (Seq<char>, Seq<char>),
>
    decreases outcomes.len(),
{
    if outcomes.len() == 0 || labels.len() == 0 {
        Seq::empty()
    } else {
        let prev = failure_list(labels.drop_last(), outcomes.drop_last());
        match outcomes.last() {
            Ok(_) => prev,
            Err(e) => prev.push((labels.last()@, display_text(e))),
        }
    }
}

/// The label and error text of a failure.
pub open spec fn failure_view(f: BatchFailure) -> (Seq<char>, Seq<char>) {
    (f.path@, f.error@)
}

/// Each operation of a batch with its label.
pub open spec fn labelled(labels: Seq<String>, outcomes: Seq<Result<(), AppError>>) -> Seq<
    (Seq<char>, Result<(), AppError>),
> {
    Seq::new(outcomes.len(), |i: int| (labels[i]@, outcomes[i]))
}

/// What a batch tally reports: as many successes as operations that ended
/// `Ok`, and for exactly the operations that ended in an error, in order,
/// their label with the text of their error.
pub proof fn lemma_batch_tally(labels: Seq<String>, outcomes: Seq<Result<(), AppError>>)
    requires
        labels.len() == outcomes.len(),
    ensures
        success_total(outcomes) == outcomes.filter(|o: Result<(), AppError>| o is Ok).len(),
        failure_list(labels, outcomes) == labelled(labels, outcomes).filter(
            |p: (Seq<char>, Result<(), AppError>)| p.1 is Err,
        ).map_values(|p: (Seq<char>, Result<(), AppError>)| (p.0, display_text(p.1->Err_0))),
    decreases outcomes.len(),
{
    let is_ok = |o: Result<(), AppError>| o is Ok;
    let is_err = |p: (Seq<char>, Result<(), AppError>)| p.1 is Err;
    let shown = |p: (Seq<char>, Result<(), AppError>)| (p.0, display_text(p.1->Err_0));
    if outcomes.len() == 0 {
        assert(outcomes.filter(is_ok) =~= Seq::<Result<(), AppError>>::empty()) by {
            reveal(Seq::filter);
        }
        assert(labelled(labels, outcomes) =~= Seq::empty());
        assert(labelled(labels, outcomes).filter(is_err) =~= Seq::empty()) by {
            reveal(Seq::filter);
        }
    } else {
        let lo = labels.drop_last();
        let oo = outcomes.drop_last();
        lemma_batch_tally(lo, oo);
        assert(outcomes =~= oo.push(outcomes.last()));
        oo.lemma_filter_push(outcomes.last(), is_ok);
        let z = labelled(labels, outcomes);
        let z0 = labelled(lo, oo);
        let last = (labels.last()@, outcomes.last());
        assert(z =~= z0.push(last));
        z0.lemma_filter_push(last, is_err);
        let before = z0.filter(is_err);
        if outcomes.last() is Err {
            assert(before.push(last).map_values(shown) =~= before.map_values(shown).push(shown(last)));
        }
    }
}

/// The tally of a batch: the label of each operation and how it ended.
pub fn batch_result(labels: &Vec<String>, outcomes: &Vec<Result<(), AppError>>) -> (r: BatchResult)
    requires
        labels.len() == outcomes.len(),
    ensures
        r.success_count == success_total(outcomes@),
        r.failure_count == r.failures@.len(),
        r.failures@.map_values(|f: BatchFailure| failure_view(f)) == failure_list(
            labels@,
            outcomes@,
        ),
        r.success_count + r.failure_count == outcomes@.len(),
{
    let mut failures: Vec<BatchFailure> = Vec::new();
    let mut success_count: usize = 0;
    let mut i: usize = 0;
    while i < outcomes.len()
        invariant
            labels.len() == outcomes.len(),
            i <= outcomes.len(),
            success_count == success_total(outcomes@.take(i as int)),
            failures@.map_values(|f: BatchFailure| failure_view(f)) == failure_list(
                labels@.take(i as int),
                outcomes@.take(i as int),
            ),
            success_count + failures@.len() == i,
        decreases outcomes.len() - i,
    {
        assert(outcomes@.take(i + 1).drop_last() == outcomes@.take(i as int));
        assert(labels@.take(i + 1).drop_last() == labels@.take(i as int));
        assert(outcomes@.take(i + 1).last() == outcomes@[i as int]);
        assert(labels@.take(i + 1).last() == labels@[i as int]);
        match &outcomes[i] {
            Ok(_) => {
                success_count = success_count + 1;
            },
            Err(e) => {
                let f = BatchFailure { path: labels[i].clone(), error: e.to_display_string() };
                let ghost before = failures@;
                failures.push(f);
                assert(failures@.map_values(|f: BatchFailure| failure_view(f)) == before.map_values(
                    |f: BatchFailure| failure_view(f),
                ).push(failure_view(f)));
            },
        }
        i = i + 1;
    }
    assert(outcomes@.take(outcomes.len() as int) == outcomes@);
    assert(labels@.take(labels.len() as int) == labels@);
    BatchResult::new(success_count, failures)
}

} // verus!

verus! {

/// The health report: status `ok`, the given version and data directory,
/// and the seconds elapsed from `started_secs` to `now_secs` (both seconds
/// since the Unix epoch; none when the clock reads earlier than the start).
pub fn health_response(version: &str, data_dir: &str, started_secs: u64, now_secs: u64) -> (h:
    HealthResponse)
    ensures
        h.status@ == "ok"@,
        h.version@ == version@,
        h.uptime_seconds == if now_secs >= started_secs { now_secs - started_secs } else { 0 },
        h.data_dir@ == data_dir@,
{
    let uptime_seconds: u64 = if now_secs >= started_secs { now_secs - started_secs } else { 0 };
    HealthResponse {
        status: String::from_str("ok"),
        version: version.to_owned(),
        uptime_seconds,
        data_dir: data_dir.to_owned(),
    }
}

/// Whether the page arithmetic for `page` and `page_size` fits in `usize`.
pub fn checked_page_fits(page: usize, page_size: usize) -> (b: bool)
    ensures
        b == page_fits(page, page_size),
{
    if page == usize::MAX {
        return false;
    }
    match (page + 1).checked_mul(page_size) {
        Some(_) => true,
        None => false,
    }
}

} // verus!
