//! WebDAV: property records, the multi-status answers, and the helpers the
//! protocol handler decides with.
use vstd::prelude::*;
use crate::clock::{in_chrono_range, in_rfc2822_range, rfc2822, rfc2822_text, rfc3339, rfc3339_text};
use crate::error::AppError;
use crate::paths::{components, components_of, join_chars, join_path};
use crate::text::{
    chars_of, decimal, push_decimal, push_signed_decimal, push_str, signed_decimal,
    string_from_chars,
};
use crate::vfs::{FileEntry, Timestamp};

verus! {

/// WebDAV property names.
#[derive(Debug)]
pub enum DavProperty {
    /// Resource creation date
    CreationDate,
    /// Display name
    DisplayName,
    /// Content length
    GetContentLength,
    /// Content type
    GetContentType,
    /// ETag
    GetEtag,
    /// Last modified date
    GetLastModified,
    /// Resource type (collection or resource)
    ResourceType,
    /// Supported lock types
    SupportedLock,
    /// Lock discovery
    LockDiscovery,
    /// Custom property
    Custom(String),
}

/// WebDAV lock scope.
#[derive(Clone, Copy, PartialEq, Eq, Structural, Debug)]
pub enum DavLockScope {
    /// Exclusive lock
    Exclusive,
    /// Shared lock
    Shared,
}

/// WebDAV lock type.
#[derive(Clone, Copy, PartialEq, Eq, Structural, Debug)]
pub enum DavLockType {
    /// Write lock
    Write,
}

/// WebDAV lock entry.
#[derive(Debug)]
pub struct DavLockEntry {
    pub scope: DavLockScope,
    pub lock_type: DavLockType,
    pub depth: String,
    pub owner: Option<String>,
    pub timeout: Option<String>,
    pub lock_token: String,
}

/// Properties to find.
#[derive(Debug)]
pub struct PropFindProp {
    pub properties: Vec<DavProperty>,
}

/// WebDAV prop find request.
#[derive(Debug)]
pub struct PropFind {
    pub prop: Option<PropFindProp>,
    pub allprop: bool,
    pub propname: bool,
}

/// Resource type element.
#[derive(Clone, Copy, PartialEq, Eq, Structural, Debug)]
pub struct DavResourceTypeElement {
    pub collection: bool,
}

/// Supported lock.
#[derive(Debug)]
pub struct DavSupportedLock {
    pub entries: Vec<DavLockEntry>,
}

/// Lock type element.
#[derive(Clone, Copy, PartialEq, Eq, Structural, Debug)]
pub struct DavLockTypeElement {
    pub write: bool,
}

/// Lock scope element.
#[derive(Clone, Copy, PartialEq, Eq, Structural, Debug)]
pub struct DavLockScopeElement {
    pub exclusive: bool,
    pub shared: bool,
}

/// Lock token.
#[derive(Debug)]
pub struct DavLockToken {
    pub href: String,
}

/// Active lock.
#[derive(Debug)]
pub struct DavActiveLock {
    pub lock_type: DavLockTypeElement,
    pub lock_scope: DavLockScopeElement,
    pub depth: String,
    pub owner: Option<String>,
    pub timeout: Option<String>,
    pub lock_token: DavLockToken,
}

/// Lock discovery.
#[derive(Debug)]
pub struct DavLockDiscovery {
    pub active_locks: Vec<DavActiveLock>,
}

/// WebDAV properties.
#[derive(Debug)]
pub struct DavProp {
    pub creation_date: Option<String>,
    pub display_name: Option<String>,
    pub get_content_length: Option<u64>,
    pub get_content_type: Option<String>,
    pub get_etag: Option<String>,
    pub get_last_modified: Option<String>,
    pub resource_type: Option<DavResourceTypeElement>,
    pub supported_lock: Option<DavSupportedLock>,
    pub lock_discovery: Option<DavLockDiscovery>,
}

/// WebDAV prop stat.
#[derive(Debug)]
pub struct DavPropStat {
    pub prop: DavProp,
    pub status: String,
}

/// WebDAV response.
#[derive(Debug)]
pub struct DavResponse {
    pub href: String,
    pub propstat: Vec<DavPropStat>,
    pub status: Option<String>,
}

/// WebDAV multi-status response.
#[derive(Debug)]
pub struct DavMultiStatus {
    pub responses: Vec<DavResponse>,
}

/// Depth header value.
#[derive(Clone, Copy, PartialEq, Eq, Structural, Debug)]
pub enum Depth {
    /// Only the resource itself
    Zero,
    /// Resource and its direct children
    One,
    /// Resource and all descendants
    Infinity,
}

/// The depth that a `Depth` header value names: `0` and `1` (lower-cased,
/// which leaves them as they are and no other text becomes them), anything
/// else is infinity.
pub open spec fn depth_named(s: Seq<char>) -> Depth {
    if s == seq!['0'] {
        Depth::Zero
    } else if s == seq!['1'] {
        Depth::One
    } else {
        Depth::Infinity
    }
}

/// Only the header `0` limits a PROPFIND to the resource, and only `1` to
/// its children; every other value, the empty one included, means all
/// descendants.
pub proof fn lemma_depth_values(s: Seq<char>)
    ensures
        depth_named(s) == Depth::Zero <==> (s.len() == 1 && s[0] == '0'),
        depth_named(s) == Depth::One <==> (s.len() == 1 && s[0] == '1'),
        depth_named(s) == Depth::Infinity <==> !(s.len() == 1 && (s[0] == '0' || s[0] == '1')),
{
    if s.len() == 1 {
        assert(s =~= seq![s[0]]);
    }
}

impl Depth {
    /// Parses a `Depth` header value.
    pub fn from_str(s: &str) -> (d: Depth)
        ensures
            d == depth_named(s@),
    {
        let c = chars_of(s);
        if c.len() == 1 && c[0] == '0' {
            assert(s@ == seq!['0']);
            Depth::Zero
        } else if c.len() == 1 && c[0] == '1' {
            assert(s@ == seq!['1']);
            Depth::One
        } else {
            assert(s@ != seq!['0'] && s@ != seq!['1']);
            Depth::Infinity
        }
    }
}

} // verus!

verus! {

/// What follows the first `://` in `u` (nothing when it has none).
pub open spec fn after_scheme(u: Seq<char>) -> Seq<char>
    decreases u.len(),
{
    if u.len() < 3 {
        Seq::<char>::empty()
    } else if u.take(3) == "://"@ {
        u.skip(3)
    } else {
        after_scheme(u.drop_first())
    }
}

/// `s` from its first `/` on (nothing when it has none).
pub open spec fn from_first_slash(s: Seq<char>) -> Seq<char>
    decreases s.len(),
{
    if s.len() == 0 || s[0] == '/' {
        s
    } else {
        from_first_slash(s.drop_first())
    }
}

/// `s` up to its first `?`.
pub open spec fn before_query(s: Seq<char>) -> Seq<char>
    decreases s.len(),
{
    if s.len() == 0 {
        s
    } else if s[0] == '?' {
        Seq::<char>::empty()
    } else {
        seq![s[0]] + before_query(s.drop_first())
    }
}

/// The path part of a destination URL: for a URL with a scheme, the
/// scheme and the host are removed (the path starts at the first `/` after
/// `://`); then it goes up to the query, with a leading `/`.
pub open spec fn url_path(u: Seq<char>) -> Seq<char> {
    let rest = if crate::text::contains_seq(u, "://"@) {
        from_first_slash(after_scheme(u))
    } else {
        u
    };
    let q = before_query(rest);
    if q.len() > 0 && q[0] == '/' {
        q
    } else {
        seq!['/'] + q
    }
}

proof fn lemma_after_scheme_at(scheme: Seq<char>, x: Seq<char>)
    requires
        !scheme.contains(':'),
    ensures
        after_scheme(scheme + "://"@ + x) =~= x,
    decreases scheme.len(),
{
    reveal_strlit("://");
    let u = scheme + "://"@ + x;
    if scheme.len() == 0 {
        assert(u =~= "://"@ + x);
        assert(u.take(3) =~= "://"@);
        assert(u.skip(3) =~= x);
    } else {
        assert(u[0] == scheme[0]);
        assert(u.take(3)[0] != "://"@[0]);
        assert(u.drop_first() =~= scheme.drop_first() + "://"@ + x);
        assert forall|c: char| scheme.drop_first().contains(c) implies scheme.contains(c) by {
            let i = choose|i: int| 0 <= i < scheme.drop_first().len() && scheme.drop_first()[i] == c;
            assert(scheme[i + 1] == c);
        }
        lemma_after_scheme_at(scheme.drop_first(), x);
    }
}

proof fn lemma_from_first_slash_after_host(host: Seq<char>, p: Seq<char>)
    requires
        !host.contains('/'),
        p.len() > 0 && p[0] == '/',
    ensures
        from_first_slash(host + p) =~= p,
    decreases host.len(),
{
    if host.len() == 0 {
        assert(host + p =~= p);
    } else {
        assert((host + p)[0] == host[0]);
        assert((host + p).drop_first() =~= host.drop_first() + p);
        assert forall|c: char| host.drop_first().contains(c) implies host.contains(c) by {
            let i = choose|i: int| 0 <= i < host.drop_first().len() && host.drop_first()[i] == c;
            assert(host[i + 1] == c);
        }
        lemma_from_first_slash_after_host(host.drop_first(), p);
    }
}

proof fn lemma_before_query_of(p: Seq<char>, rest: Seq<char>)
    requires
        !p.contains('?'),
        rest.len() == 0 || rest[0] == '?',
    ensures
        before_query(p + rest) =~= p,
    decreases p.len(),
{
    if p.len() == 0 {
        assert(p + rest =~= rest);
    } else {
        assert((p + rest)[0] == p[0]);
        assert((p + rest).drop_first() =~= p.drop_first() + rest);
        assert forall|c: char| p.drop_first().contains(c) implies p.contains(c) by {
            let i = choose|i: int| 0 <= i < p.drop_first().len() && p.drop_first()[i] == c;
            assert(p[i + 1] == c);
        }
        lemma_before_query_of(p.drop_first(), rest);
        assert(p =~= seq![p[0]] + p.drop_first());
    }
}

/// What the path of a destination URL is: for a scheme (without `:`), `://`,
/// a host (without `/`) and a path that starts with `/` and holds no `?`,
/// the path, with or without a query after it; for a text without `:` or
/// `?`, the text itself when it starts with `/`, else the text after a `/`.
pub proof fn lemma_url_path_parts(
    scheme: Seq<char>,
    host: Seq<char>,
    path: Seq<char>,
    query: Seq<char>,
    plain: Seq<char>,
)
    ensures
        !scheme.contains(':') && !host.contains('/') && path.len() > 0 && path[0] == '/'
            && !path.contains('?') ==> url_path(scheme + "://"@ + host + path) =~= path
            && url_path(scheme + "://"@ + host + path + seq!['?'] + query) =~= path,
        !plain.contains(':') && !plain.contains('?') ==> url_path(plain) =~= if plain.len() > 0
            && plain[0] == '/' {
            plain
        } else {
            seq!['/'] + plain
        },
{
    reveal_strlit("://");
    if !scheme.contains(':') && !host.contains('/') && path.len() > 0 && path[0] == '/'
        && !path.contains('?') {
        let q = seq!['?'] + query;
        lemma_url_path_with_tail(scheme, host, path, Seq::<char>::empty());
        lemma_url_path_with_tail(scheme, host, path, q);
        assert(scheme + "://"@ + host + path + Seq::<char>::empty() =~= scheme + "://"@ + host + path);
        assert(scheme + "://"@ + host + path + seq!['?'] + query =~= scheme + "://"@ + host + path + q);
    }
    if !plain.contains(':') && !plain.contains('?') {
        if crate::text::contains_seq(plain, "://"@) {
            let i = choose|i: int| crate::text::occurs_at(plain, "://"@, i);
            assert(plain.subrange(i, i + 3)[0] == ':');
            assert(plain[i] == ':');
        }
        assert(plain + Seq::<char>::empty() =~= plain);
        lemma_before_query_of(plain, Seq::<char>::empty());
    }
}

/// The URL parts followed by `tail` (empty, or a query) give `path`.
proof fn lemma_url_path_with_tail(scheme: Seq<char>, host: Seq<char>, path: Seq<char>, tail: Seq<char>)
    requires
        !scheme.contains(':'),
        !host.contains('/'),
        path.len() > 0 && path[0] == '/',
        !path.contains('?'),
        tail.len() == 0 || tail[0] == '?',
    ensures
        url_path(scheme + "://"@ + host + path + tail) =~= path,
{
    reveal_strlit("://");
    let u = scheme + "://"@ + host + path + tail;
    let k = scheme.len() as int;
    assert(u.subrange(k, k + 3) =~= "://"@);
    assert(crate::text::occurs_at(u, "://"@, k));
    assert(u =~= scheme + "://"@ + (host + path + tail));
    lemma_after_scheme_at(scheme, host + path + tail);
    assert(host + path + tail =~= host + (path + tail));
    assert((path + tail)[0] == '/');
    lemma_from_first_slash_after_host(host, path + tail);
    lemma_before_query_of(path, tail);
}

/// Extracts the path from a `Destination` URL.
pub fn extract_path_from_url(url: &str) -> (r: String)
    ensures
        r@ == url_path(url@),
        r@.len() > 0 && r@[0] == '/',
{
    let u = chars_of(url);
    let scheme_mark: Vec<char> = vec![':', '/', '/'];
    proof {
        reveal_strlit("://");
        assert(scheme_mark@ == "://"@);
    }
    let has_scheme = crate::text::contains_chars(&u, &scheme_mark);
    let mut start: usize = 0;
    if has_scheme {
        let mut i: usize = 0;
        assert(u@.skip(0) == u@);
        while u.len() - i >= 3 && !crate::text::occurs_at_exec(&u, &scheme_mark, i)
            invariant
                i <= u.len(),
                scheme_mark@ == "://"@,
                crate::text::contains_seq(u@, "://"@),
                forall|j: int| 0 <= j < i ==> !crate::text::occurs_at(u@, "://"@, j),
                after_scheme(u@) == after_scheme(u@.skip(i as int)),
            decreases u.len() - i,
        {
            assert(u@.skip(i as int).take(3) == u@.subrange(i as int, i + 3));
            assert(u@.skip(i as int).drop_first() == u@.skip(i + 1));
            i = i + 1;
        }
        if u.len() - i < 3 {
            proof {
                let j = choose|j: int| crate::text::occurs_at(u@, "://"@, j);
                assert(crate::text::occurs_at(u@, "://"@, j));
            }
            assert(false);
        }
        assert(u@.skip(i as int).take(3) == u@.subrange(i as int, i + 3));
        assert(u@.skip(i as int).skip(3) == u@.skip(i + 3));
        start = i + 3;
        while start < u.len() && u[start] != '/'
            invariant
                start <= u.len(),
                from_first_slash(after_scheme(u@)) == from_first_slash(u@.skip(start as int)),
            decreases u.len() - start,
        {
            assert(u@.skip(start as int).drop_first() == u@.skip(start + 1));
            start = start + 1;
        }
        assert(u@.skip(start as int) == from_first_slash(after_scheme(u@)));
    } else {
        assert(u@.skip(0) == u@);
    }
    let ghost rest = u@.skip(start as int);
    let mut end: usize = start;
    assert(u@.subrange(start as int, start as int) + before_query(u@.skip(start as int))
        == before_query(rest));
    while end < u.len() && u[end] != '?'
        invariant
            start <= end <= u.len(),
            rest == u@.skip(start as int),
            before_query(rest) == u@.subrange(start as int, end as int) + before_query(
                u@.skip(end as int),
            ),
        decreases u.len() - end,
    {
        assert(u@.skip(end as int).drop_first() == u@.skip(end + 1));
        assert(u@.subrange(start as int, end + 1) == u@.subrange(start as int, end as int) + seq![
            u@[end as int],
        ]);
        end = end + 1;
    }
    assert(before_query(u@.skip(end as int)) == Seq::<char>::empty());
    let mut out: Vec<char> = Vec::new();
    if end == start || u[start] != '/' {
        out.push('/');
    }
    let mut k: usize = start;
    let ghost prefix = out@;
    while k < end
        invariant
            start <= k <= end <= u.len(),
            out@ == prefix + u@.subrange(start as int, k as int),
        decreases end - k,
    {
        out.push(u[k]);
        assert(u@.subrange(start as int, k + 1) == u@.subrange(start as int, k as int).push(
            u@[k as int],
        ));
        k = k + 1;
    }
    string_from_chars(&out)
}

} // verus!

verus! {

/// The entity tag of a resource: its modification second and its size,
/// quoted.
pub open spec fn etag_text(modified_secs: i64, size: u64) -> Seq<char> {
    seq!['"'] + signed_decimal(modified_secs as int) + seq!['-'] + decimal(size as nat) + seq!['"']
}

/// The lock entry that every resource offers: exclusive write locks of
/// infinite depth.
pub open spec fn is_offered_lock(e: DavLockEntry) -> bool {
    &&& e.scope == DavLockScope::Exclusive
    &&& e.lock_type == DavLockType::Write
    &&& e.depth@ == "infinity"@
    &&& e.owner is None
    &&& e.timeout is None
    &&& e.lock_token@.len() == 0
}

/// `prop` holds the properties of a resource named `name`, given the texts
/// of its creation date and last modification: the creation date if known,
/// its name, length and content type for files, its entity tag (from the
/// second of its last modification and its size), its last modification,
/// whether it is a collection, the offered lock, and no active locks.
pub open spec fn prop_holds(
    prop: DavProp,
    name: Seq<char>,
    is_dir: bool,
    size: u64,
    modified_secs: i64,
    creation_date: Option<Seq<char>>,
    last_modified: Seq<char>,
    mime_type: Seq<char>,
) -> bool {
    &&& match creation_date {
        Some(c) => prop.creation_date matches Some(d) && d@ == c,
        None => prop.creation_date is None,
    }
    &&& prop.display_name matches Some(n) && n@ == name
    &&& prop.get_content_length == if is_dir { None } else { Some(size) }
    &&& if is_dir {
        prop.get_content_type is None
    } else {
        prop.get_content_type matches Some(m) && m@ == mime_type
    }
    &&& prop.get_etag matches Some(e) && e@ == etag_text(modified_secs, size)
    &&& prop.get_last_modified matches Some(l) && l@ == last_modified
    &&& prop.resource_type == Some(DavResourceTypeElement { collection: is_dir })
    &&& prop.supported_lock matches Some(sl) && sl.entries@.len() == 1 && is_offered_lock(
        sl.entries@[0],
    )
    &&& prop.lock_discovery is None
}

/// The creation date text of an instant, if there is one (RFC 3339).
pub open spec fn creation_text(created: Option<Timestamp>) -> Option<Seq<char>> {
    match created {
        Some(t) => Some(rfc3339_text(t.secs, t.nanos)),
        None => None,
    }
}

/// `prop` holds the properties of a resource named `name` with the given
/// metadata: its creation date written in RFC 3339 and its last
/// modification in RFC 2822.
pub open spec fn prop_describes(
    prop: DavProp,
    name: Seq<char>,
    is_dir: bool,
    size: u64,
    modified: Timestamp,
    created: Option<Timestamp>,
    mime_type: Seq<char>,
) -> bool {
    prop_holds(
        prop,
        name,
        is_dir,
        size,
        modified.secs,
        creation_text(created),
        rfc2822_text(modified.secs, modified.nanos),
        mime_type,
    )
}

/// The instants that a property record can be written for.
pub open spec fn writable_times(modified: Timestamp, created: Option<Timestamp>) -> bool {
    &&& modified.wf()
    &&& in_rfc2822_range(modified.secs)
    &&& created matches Some(t) ==> t.wf() && in_chrono_range(t.secs)
}

/// Whether a property record can be written for these instants.
pub fn can_describe(modified: Timestamp, created: Option<Timestamp>) -> (b: bool)
    ensures
        b == writable_times(modified, created),
{
    if modified.nanos >= 1_000_000_000 || !crate::clock::rfc2822_can_write(modified.secs) {
        return false;
    }
    match created {
        Some(t) => t.nanos < 1_000_000_000 && crate::clock::chrono_can_hold(t.secs),
        None => true,
    }
}

fn offered_lock() -> (e: DavLockEntry)
    ensures
        is_offered_lock(e),
{
    let e = DavLockEntry {
        scope: DavLockScope::Exclusive,
        lock_type: DavLockType::Write,
        depth: String::from_str("infinity"),
        owner: None,
        timeout: None,
        lock_token: String::new(),
    };
    e
}

/// The entity tag of a resource.
pub fn etag(modified_secs: i64, size: u64) -> (s: String)
    ensures
        s@ == etag_text(modified_secs, size),
{
    let mut s = String::new();
    crate::text::push_char(&mut s, '"');
    push_signed_decimal(&mut s, modified_secs);
    crate::text::push_char(&mut s, '-');
    push_decimal(&mut s, size);
    crate::text::push_char(&mut s, '"');
    s
}

/// The property record of a resource from its metadata and the texts of
/// its creation date and last modification.
pub fn prop_from_texts(
    name: &str,
    is_dir: bool,
    size: u64,
    modified_secs: i64,
    creation_date: Option<String>,
    last_modified: String,
    mime_type: &str,
) -> (prop: DavProp)
    ensures
        prop_holds(
            prop,
            name@,
            is_dir,
            size,
            modified_secs,
            match creation_date {
                Some(c) => Some(c@),
                None => None,
            },
            last_modified@,
            mime_type@,
        ),
{
    let mut entries: Vec<DavLockEntry> = Vec::new();
    entries.push(offered_lock());
    DavProp {
        creation_date,
        display_name: Some(name.to_owned()),
        get_content_length: if is_dir { None } else { Some(size) },
        get_content_type: if is_dir { None } else { Some(mime_type.to_owned()) },
        get_etag: Some(etag(modified_secs, size)),
        get_last_modified: Some(last_modified),
        resource_type: Some(DavResourceTypeElement { collection: is_dir }),
        supported_lock: Some(DavSupportedLock { entries }),
        lock_discovery: None,
    }
}

/// Converts file system metadata to WebDAV properties.
pub fn metadata_to_prop(
    name: &str,
    _path: &str,
    is_dir: bool,
    size: u64,
    modified: Timestamp,
    created: Option<Timestamp>,
    mime_type: &str,
) -> (prop: DavProp)
    requires
        writable_times(modified, created),
    ensures
        prop_describes(prop, name@, is_dir, size, modified, created, mime_type@),
{
    let creation_date = match created {
        Some(t) => Some(rfc3339(t.secs, t.nanos)),
        None => None,
    };
    let last_modified = rfc2822(modified.secs, modified.nanos);
    prop_from_texts(name, is_dir, size, modified.secs, creation_date, last_modified, mime_type)
}

/// The status line of a successful property stat.
pub open spec fn ok_status() -> Seq<char> {
    "HTTP/1.1 200 OK"@
}

/// `r` answers for `href` with the one property stat `prop`, which succeeded.
pub open spec fn single_ok_response(r: DavResponse, href: Seq<char>) -> bool {
    &&& r.href@ == href
    &&& r.propstat@.len() == 1
    &&& r.propstat@[0].status@ == ok_status()
    &&& r.status is None
}

fn ok_response(href: String, prop: DavProp) -> (r: DavResponse)
    ensures
        single_ok_response(r, href@),
        r.propstat@[0].prop == prop,
{
    let mut propstat: Vec<DavPropStat> = Vec::new();
    propstat.push(DavPropStat { prop, status: String::from_str("HTTP/1.1 200 OK") });
    DavResponse { href, propstat, status: None }
}

/// The last component of `p` if it is a name (`Path::file_name`).
pub open spec fn file_name(p: Seq<char>) -> Option<Seq<char>> {
    let cs = components(p);
    if cs.len() > 0 && cs.last() != seq!['/'] && cs.last() != seq!['.'] && cs.last() != seq![
        '.',
        '.',
    ] {
        Some(cs.last())
    } else {
        None
    }
}

/// The name of `p`, or nothing when it has none.
pub open spec fn name_or_empty(p: Seq<char>) -> Seq<char> {
    match file_name(p) {
        Some(n) => n,
        None => Seq::<char>::empty(),
    }
}

/// The name that `Path::file_name` gives for `path`, or the empty string.
pub fn file_name_of(path: &str) -> (n: String)
    ensures
        n@ == name_or_empty(path@),
{
    let p = chars_of(path);
    let cs = components_of(&p);
    if cs.len() == 0 {
        return String::new();
    }
    let last = &cs[cs.len() - 1];
    let is_root = last.len() == 1 && last[0] == '/';
    let is_cur = last.len() == 1 && last[0] == '.';
    let is_parent = last.len() == 2 && last[0] == '.' && last[1] == '.';
    proof {
        assert(last@ == crate::paths::views_of(cs@).last());
        if last.len() == 1 {
            assert(last@ == seq![last@[0]]);
        }
        if last.len() == 2 {
            assert(last@ == seq![last@[0], last@[1]]);
        }
    }
    if is_root || is_cur || is_parent {
        String::new()
    } else {
        string_from_chars(last)
    }
}

/// The multi-status entry for a resource at `path` with the given metadata.
pub fn build_response(
    path: &str,
    is_dir: bool,
    size: u64,
    modified: Timestamp,
    created: Option<Timestamp>,
    mime_type: &str,
) -> (r: DavResponse)
    requires
        writable_times(modified, created),
    ensures
        single_ok_response(r, path@),
        prop_describes(
            r.propstat@[0].prop,
            name_or_empty(path@),
            is_dir,
            size,
            modified,
            created,
            mime_type@,
        ),
{
    let name = file_name_of(path);
    let prop = metadata_to_prop(name.as_str(), path, is_dir, size, modified, created, mime_type);
    ok_response(path.to_owned(), prop)
}

/// The multi-status entry for a directory entry found at `path`.
pub fn build_response_from_entry(path: &str, entry: &FileEntry, mime_type: &str) -> (r:
    DavResponse)
    requires
        writable_times(entry.modified, entry.created),
    ensures
        single_ok_response(r, path@),
        prop_describes(
            r.propstat@[0].prop,
            entry.name@,
            entry.is_dir,
            entry.size,
            entry.modified,
            entry.created,
            mime_type@,
        ),
{
    let prop = metadata_to_prop(
        entry.name.as_str(),
        path,
        entry.is_dir,
        entry.size,
        entry.modified,
        entry.created,
        mime_type,
    );
    ok_response(path.to_owned(), prop)
}

/// The path of the child `name` of `path`.
pub fn child_path(path: &str, name: &str) -> (r: String)
    ensures
        r@ == join_path(path@, name@),
{
    let p = chars_of(path);
    let n = chars_of(name);
    string_from_chars(&join_chars(&p, &n))
}

} // verus!

verus! {

/// The depth a PROPFIND works to: the `Depth` header's, infinity without one.
pub fn propfind_depth(header: Option<&str>) -> (d: Depth)
    ensures
        d == match header {
            Some(v) => depth_named(v@),
            None => Depth::Infinity,
        },
{
    match header {
        Some(v) => Depth::from_str(v),
        None => Depth::Infinity,
    }
}

/// Whether a PROPFIND at `depth` also answers for the children.
pub fn includes_children(depth: Depth) -> (b: bool)
    ensures
        b == (depth == Depth::One || depth == Depth::Infinity),
{
    match depth {
        Depth::Zero => false,
        _ => true,
    }
}

/// The request an empty PROPFIND body stands for: all properties.
pub fn all_properties() -> (p: PropFind)
    ensures
        p.prop is None,
        p.allprop,
        !p.propname,
{
    PropFind { prop: None, allprop: true, propname: false }
}

/// A property record with nothing in it but, optionally, active locks.
fn bare_prop(lock_discovery: Option<DavLockDiscovery>) -> (p: DavProp)
    ensures
        p.creation_date is None && p.display_name is None && p.get_content_length is None
            && p.get_content_type is None && p.get_etag is None && p.get_last_modified is None
            && p.resource_type is None && p.supported_lock is None,
        p.lock_discovery == lock_discovery,
{
    DavProp {
        creation_date: None,
        display_name: None,
        get_content_length: None,
        get_content_type: None,
        get_etag: None,
        get_last_modified: None,
        resource_type: None,
        supported_lock: None,
        lock_discovery,
    }
}

/// `p` names no property except possibly its active locks.
pub open spec fn is_bare_prop(p: DavProp) -> bool {
    p.creation_date is None && p.display_name is None && p.get_content_length is None
        && p.get_content_type is None && p.get_etag is None && p.get_last_modified is None
        && p.resource_type is None && p.supported_lock is None
}

/// The answer to a PROPPATCH on an existing resource: one successful,
/// empty property stat for it.
pub fn proppatch_response(path: &str) -> (m: DavMultiStatus)
    ensures
        m.responses@.len() == 1,
        single_ok_response(m.responses@[0], path@),
        is_bare_prop(m.responses@[0].propstat@[0].prop),
        m.responses@[0].propstat@[0].prop.lock_discovery is None,
{
    let mut responses: Vec<DavResponse> = Vec::new();
    responses.push(ok_response(path.to_owned(), bare_prop(None)));
    DavMultiStatus { responses }
}

/// `l` is the exclusive, infinite-depth write lock with token `token` that
/// expires after an hour.
pub open spec fn is_granted_lock(l: DavActiveLock, token: Seq<char>) -> bool {
    &&& l.lock_type == DavLockTypeElement { write: true }
    &&& l.lock_scope == DavLockScopeElement { exclusive: true, shared: false }
    &&& l.depth@ == "infinity"@
    &&& l.owner is None
    &&& l.timeout matches Some(t) && t@ == "Second-3600"@
    &&& l.lock_token.href@ == token
}

/// `m` grants a lock on `path` with `token`: one successful entry for the
/// path whose only property is the active lock.
pub open spec fn grants_lock(m: DavMultiStatus, path: Seq<char>, token: Seq<char>) -> bool {
    &&& m.responses@.len() == 1
    &&& single_ok_response(m.responses@[0], path)
    &&& is_bare_prop(m.responses@[0].propstat@[0].prop)
    &&& m.responses@[0].propstat@[0].prop.lock_discovery matches Some(ld) && ld.active_locks@.len()
        == 1 && is_granted_lock(ld.active_locks@[0], token)
}

/// The answer to a LOCK on `path` granted with `token`.
pub fn lock_response(path: &str, token: &str) -> (m: DavMultiStatus)
    ensures
        grants_lock(m, path@, token@),
{
    let lock = DavActiveLock {
        lock_type: DavLockTypeElement { write: true },
        lock_scope: DavLockScopeElement { exclusive: true, shared: false },
        depth: String::from_str("infinity"),
        owner: None,
        timeout: Some(String::from_str("Second-3600")),
        lock_token: DavLockToken { href: token.to_owned() },
    };
    let mut active_locks: Vec<DavActiveLock> = Vec::new();
    active_locks.push(lock);
    let prop = bare_prop(Some(DavLockDiscovery { active_locks }));
    let mut responses: Vec<DavResponse> = Vec::new();
    responses.push(ok_response(path.to_owned(), prop));
    DavMultiStatus { responses }
}

/// A lowercase hexadecimal digit.
pub open spec fn is_lower_hex(c: char) -> bool {
    ('0' <= c && c <= '9') || ('a' <= c && c <= 'f')
}

/// The hyphenated text of a random UUID (version 4, RFC 4122 variant): 36
/// characters, hyphens at 8, 13, 18 and 23 and lowercase hexadecimal digits
/// elsewhere, `4` at 14 and one of `8`, `9`, `a`, `b` at 19.
pub open spec fn is_random_uuid_text(s: Seq<char>) -> bool {
    &&& s.len() == 36
    &&& s[8] == '-' && s[13] == '-' && s[18] == '-' && s[23] == '-'
    &&& forall|i: int|
        0 <= i < 36 && i != 8 && i != 13 && i != 18 && i != 23 ==> is_lower_hex(#[trigger] s[i])
    &&& s[14] == '4'
    &&& (s[19] == '8' || s[19] == '9' || s[19] == 'a' || s[19] == 'b')
}

/// A fresh random UUID (`Uuid::new_v4`) in the hyphenated lowercase text
/// that its `Display` writes. `new_v4` fixes the version and variant bits
/// and draws the other 122 at random; which UUID comes out is not said.
#[verifier::external_body]
fn random_uuid_text() -> (s: String)
    ensures
        is_random_uuid_text(s@),
{
    uuid::Uuid::new_v4().to_string()
}

/// A fresh lock token: `urn:uuid:` and a random UUID.
pub fn new_lock_token() -> (t: String)
    ensures
        t@.len() == 45,
        t@.subrange(0, 9) == "urn:uuid:"@,
        is_random_uuid_text(t@.skip(9)),
{
    let mut t = String::new();
    push_str(&mut t, "urn:uuid:");
    let u = random_uuid_text();
    push_str(&mut t, u.as_str());
    proof {
        reveal_strlit("urn:uuid:");
        assert(t@.subrange(0, 9) == "urn:uuid:"@);
        assert(t@.skip(9) == u@);
    }
    t
}

/// The `Lock-Token` header value for `token`.
pub fn lock_token_header(token: &str) -> (s: String)
    ensures
        s@ == seq!['<'] + token@ + seq!['>'],
{
    let mut s = String::new();
    crate::text::push_char(&mut s, '<');
    push_str(&mut s, token);
    crate::text::push_char(&mut s, '>');
    s
}

/// Whether a LOCK first creates the resource: only when it does not exist.
pub fn lock_creates(exists: bool) -> (b: bool)
    ensures
        b == !exists,
{
    !exists
}

/// How a LOCK is answered.
#[derive(Debug)]
pub enum LockAnswer {
    /// Creating the missing resource failed: answer 500.
    ServerError,
    /// The lock is granted: the multi-status body and the `Lock-Token`
    /// header value.
    Granted { multi_status: DavMultiStatus, lock_token: String },
}

/// The answer to a LOCK on `path` with the fresh `token`, given how
/// creating the resource went (`None` when it already existed): a server
/// error when the creation failed, else the granted lock and its header.
pub fn lock_answer(path: &str, creation: &Option<Result<(), AppError>>, token: &str) -> (a:
    LockAnswer)
    ensures
        creation matches Some(Err(_)) ==> a is ServerError,
        !(creation matches Some(Err(_))) ==> (a matches LockAnswer::Granted {
            multi_status,
            lock_token,
        } && grants_lock(multi_status, path@, token@) && lock_token@ == seq!['<'] + token@
            + seq!['>']),
{
    match creation {
        Some(Err(_)) => LockAnswer::ServerError,
        _ => LockAnswer::Granted {
            multi_status: lock_response(path, token),
            lock_token: lock_token_header(token),
        },
    }
}

/// Whether a PROPFIND at `depth` walks below the listed children: only at
/// infinite depth, which answers for all descendants.
pub fn lists_descendants(depth: Depth) -> (b: bool)
    ensures
        b == (depth == Depth::Infinity),
{
    match depth {
        Depth::Infinity => true,
        _ => false,
    }
}

/// The multi-status answer of a PROPFIND: the resource's own entry, then
/// one entry for each listed item (its path and its directory entry, with
/// the MIME type guessed from its path), in the order listed.
pub fn propfind_multistatus(resource: DavResponse, listed: &Vec<(String, FileEntry)>) -> (m:
    DavMultiStatus)
    requires
        forall|i: int|
            0 <= i < listed@.len() ==> writable_times(
                #[trigger] listed@[i].1.modified,
                listed@[i].1.created,
            ),
    ensures
        m.responses@.len() == listed@.len() + 1,
        m.responses@[0] == resource,
        forall|i: int|
            0 <= i < listed@.len() ==> single_ok_response(
                #[trigger] m.responses@[i + 1],
                listed@[i].0@,
            ) && prop_describes(
                m.responses@[i + 1].propstat@[0].prop,
                listed@[i].1.name@,
                listed@[i].1.is_dir,
                listed@[i].1.size,
                listed@[i].1.modified,
                listed@[i].1.created,
                crate::local::guessed_mime(listed@[i].0@),
            ),
{
    let mut responses: Vec<DavResponse> = Vec::new();
    responses.push(resource);
    let mut i: usize = 0;
    while i < listed.len()
        invariant
            i <= listed@.len(),
            responses@.len() == i + 1,
            responses@[0] == resource,
            forall|j: int|
                0 <= j < listed@.len() ==> writable_times(
                    #[trigger] listed@[j].1.modified,
                    listed@[j].1.created,
                ),
            forall|j: int|
                0 <= j < i ==> single_ok_response(#[trigger] responses@[j + 1], listed@[j].0@)
                    && prop_describes(
                    responses@[j + 1].propstat@[0].prop,
                    listed@[j].1.name@,
                    listed@[j].1.is_dir,
                    listed@[j].1.size,
                    listed@[j].1.modified,
                    listed@[j].1.created,
                    crate::local::guessed_mime(listed@[j].0@),
                ),
        decreases listed@.len() - i,
    {
        let item = &listed[i];
        let mime = crate::local::guess_mime(item.0.as_str());
        let r = build_response_from_entry(item.0.as_str(), &item.1, mime.as_str());
        responses.push(r);
        i = i + 1;
    }
    DavMultiStatus { responses }
}

} // verus!

verus! {

/// The WebDAV methods the handler serves, and the rest.
#[derive(Clone, Copy, PartialEq, Eq, Structural, Debug)]
pub enum DavMethod {
    Options,
    Get,
    Head,
    Put,
    Delete,
    Mkcol,
    Copy,
    Move,
    Propfind,
    Proppatch,
    Lock,
    Unlock,
    Unsupported,
}

/// The method that the request method text names.
pub open spec fn method_named(m: Seq<char>) -> DavMethod {
    if m == "OPTIONS"@ {
        DavMethod::Options
    } else if m == "GET"@ {
        DavMethod::Get
    } else if m == "HEAD"@ {
        DavMethod::Head
    } else if m == "PUT"@ {
        DavMethod::Put
    } else if m == "DELETE"@ {
        DavMethod::Delete
    } else if m == "MKCOL"@ {
        DavMethod::Mkcol
    } else if m == "COPY"@ {
        DavMethod::Copy
    } else if m == "MOVE"@ {
        DavMethod::Move
    } else if m == "PROPFIND"@ {
        DavMethod::Propfind
    } else if m == "PROPPATCH"@ {
        DavMethod::Proppatch
    } else if m == "LOCK"@ {
        DavMethod::Lock
    } else if m == "UNLOCK"@ {
        DavMethod::Unlock
    } else {
        DavMethod::Unsupported
    }
}

/// The request method text of each served method (nothing for the rest).
pub open spec fn method_text(d: DavMethod) -> Seq<char> {
    match d {
        DavMethod::Options => "OPTIONS"@,
        DavMethod::Get => "GET"@,
        DavMethod::Head => "HEAD"@,
        DavMethod::Put => "PUT"@,
        DavMethod::Delete => "DELETE"@,
        DavMethod::Mkcol => "MKCOL"@,
        DavMethod::Copy => "COPY"@,
        DavMethod::Move => "MOVE"@,
        DavMethod::Propfind => "PROPFIND"@,
        DavMethod::Proppatch => "PROPPATCH"@,
        DavMethod::Lock => "LOCK"@,
        DavMethod::Unlock => "UNLOCK"@,
        DavMethod::Unsupported => Seq::<char>::empty(),
    }
}

/// Each served method is recognised by exactly its own name: a recognised
/// text is the name of the method it is taken for, and the name of every
/// served method is taken for that method, so no two names share a method.
pub proof fn lemma_method_names(m: Seq<char>, d: DavMethod)
    ensures
        method_named(m) != DavMethod::Unsupported ==> method_text(method_named(m)) == m,
        d != DavMethod::Unsupported ==> method_named(method_text(d)) == d,
        method_named(m) != DavMethod::Unsupported ==> method_named(m) == d ==> m == method_text(d),
{
    reveal_strlit("OPTIONS");
    reveal_strlit("GET");
    reveal_strlit("HEAD");
    reveal_strlit("PUT");
    reveal_strlit("DELETE");
    reveal_strlit("MKCOL");
    reveal_strlit("COPY");
    reveal_strlit("MOVE");
    reveal_strlit("PROPFIND");
    reveal_strlit("PROPPATCH");
    reveal_strlit("LOCK");
    reveal_strlit("UNLOCK");
    match d {
        DavMethod::Options => {

        },
        DavMethod::Get => {
            assert("GET"@.len() != "OPTIONS"@.len());
        },
        DavMethod::Head => {
            assert("HEAD"@.len() != "OPTIONS"@.len());
            assert("HEAD"@.len() != "GET"@.len());
        },
        DavMethod::Put => {
            assert("PUT"@.len() != "OPTIONS"@.len());
            assert("PUT"@[0] != "GET"@[0]);
            assert("PUT"@.len() != "HEAD"@.len());
        },
        DavMethod::Delete => {
            assert("DELETE"@.len() != "OPTIONS"@.len());
            assert("DELETE"@.len() != "GET"@.len());
            assert("DELETE"@.len() != "HEAD"@.len());
            assert("DELETE"@.len() != "PUT"@.len());
        },
        DavMethod::Mkcol => {
            assert("MKCOL"@.len() != "OPTIONS"@.len());
            assert("MKCOL"@.len() != "GET"@.len());
            assert("MKCOL"@.len() != "HEAD"@.len());
            assert("MKCOL"@.len() != "PUT"@.len());
            assert("MKCOL"@.len() != "DELETE"@.len());
        },
        DavMethod::Copy => {
            assert("COPY"@.len() != "OPTIONS"@.len());
            assert("COPY"@.len() != "GET"@.len());
            assert("COPY"@[0] != "HEAD"@[0]);
            assert("COPY"@.len() != "PUT"@.len());
            assert("COPY"@.len() != "DELETE"@.len());
            assert("COPY"@.len() != "MKCOL"@.len());
        },
        DavMethod::Move => {
            assert("MOVE"@.len() != "OPTIONS"@.len());
            assert("MOVE"@.len() != "GET"@.len());
            assert("MOVE"@[0] != "HEAD"@[0]);
            assert("MOVE"@.len() != "PUT"@.len());
            assert("MOVE"@.len() != "DELETE"@.len());
            assert("MOVE"@.len() != "MKCOL"@.len());
            assert("MOVE"@[0] != "COPY"@[0]);
        },
        DavMethod::Propfind => {
            assert("PROPFIND"@.len() != "OPTIONS"@.len());
            assert("PROPFIND"@.len() != "GET"@.len());
            assert("PROPFIND"@.len() != "HEAD"@.len());
            assert("PROPFIND"@.len() != "PUT"@.len());
            assert("PROPFIND"@.len() != "DELETE"@.len());
            assert("PROPFIND"@.len() != "MKCOL"@.len());
            assert("PROPFIND"@.len() != "COPY"@.len());
            assert("PROPFIND"@.len() != "MOVE"@.len());
        },
        DavMethod::Proppatch => {
            assert("PROPPATCH"@.len() != "OPTIONS"@.len());
            assert("PROPPATCH"@.len() != "GET"@.len());
            assert("PROPPATCH"@.len() != "HEAD"@.len());
            assert("PROPPATCH"@.len() != "PUT"@.len());
            assert("PROPPATCH"@.len() != "DELETE"@.len());
            assert("PROPPATCH"@.len() != "MKCOL"@.len());
            assert("PROPPATCH"@.len() != "COPY"@.len());
            assert("PROPPATCH"@.len() != "MOVE"@.len());
            assert("PROPPATCH"@.len() != "PROPFIND"@.len());
        },
        DavMethod::Lock => {
            assert("LOCK"@.len() != "OPTIONS"@.len());
            assert("LOCK"@.len() != "GET"@.len());
            assert("LOCK"@[0] != "HEAD"@[0]);
            assert("LOCK"@.len() != "PUT"@.len());
            assert("LOCK"@.len() != "DELETE"@.len());
            assert("LOCK"@.len() != "MKCOL"@.len());
            assert("LOCK"@[0] != "COPY"@[0]);
            assert("LOCK"@[0] != "MOVE"@[0]);
            assert("LOCK"@.len() != "PROPFIND"@.len());
            assert("LOCK"@.len() != "PROPPATCH"@.len());
        },
        DavMethod::Unlock => {
            assert("UNLOCK"@.len() != "OPTIONS"@.len());
            assert("UNLOCK"@.len() != "GET"@.len());
            assert("UNLOCK"@.len() != "HEAD"@.len());
            assert("UNLOCK"@.len() != "PUT"@.len());
            assert("UNLOCK"@[0] != "DELETE"@[0]);
            assert("UNLOCK"@.len() != "MKCOL"@.len());
            assert("UNLOCK"@.len() != "COPY"@.len());
            assert("UNLOCK"@.len() != "MOVE"@.len());
            assert("UNLOCK"@.len() != "PROPFIND"@.len());
            assert("UNLOCK"@.len() != "PROPPATCH"@.len());
            assert("UNLOCK"@.len() != "LOCK"@.len());
        },
        DavMethod::Unsupported => {},
    }
}

fn is_text(m: &Vec<char>, t: &str) -> (b: bool)
    ensures
        b == (m@ == t@),
{
    let v = chars_of(t);
    crate::text::chars_equal(m, &v)
}

/// Which method a request uses.
pub fn dav_method(method: &str) -> (d: DavMethod)
    ensures
        d == method_named(method@),
{
    let m = chars_of(method);
    if is_text(&m, "OPTIONS") {
        DavMethod::Options
    } else if is_text(&m, "GET") {
        DavMethod::Get
    } else if is_text(&m, "HEAD") {
        DavMethod::Head
    } else if is_text(&m, "PUT") {
        DavMethod::Put
    } else if is_text(&m, "DELETE") {
        DavMethod::Delete
    } else if is_text(&m, "MKCOL") {
        DavMethod::Mkcol
    } else if is_text(&m, "COPY") {
        DavMethod::Copy
    } else if is_text(&m, "MOVE") {
        DavMethod::Move
    } else if is_text(&m, "PROPFIND") {
        DavMethod::Propfind
    } else if is_text(&m, "PROPPATCH") {
        DavMethod::Proppatch
    } else if is_text(&m, "LOCK") {
        DavMethod::Lock
    } else if is_text(&m, "UNLOCK") {
        DavMethod::Unlock
    } else {
        DavMethod::Unsupported
    }
}

/// Whether a request that no WebDAV route took is redirected (permanently,
/// to `/protocol/webdav`) rather than answered 404: only `/protocol/webdav/`.
pub fn redirects_to_webdav_root(path: &str) -> (b: bool)
    ensures
        b == (path@ == "/protocol/webdav/"@),
{
    let p = chars_of(path);
    is_text(&p, "/protocol/webdav/")
}

/// The status a PUT answers with: created, or a server error.
pub fn put_status(outcome: &Result<(), AppError>) -> (s: u16)
    ensures
        s == if outcome is Ok { 201u16 } else { 500u16 },
{
    match outcome {
        Ok(_) => 201,
        Err(_) => 500,
    }
}

/// The status a DELETE answers with: no content, not found, or a server error.
pub fn delete_status(outcome: &Result<(), AppError>) -> (s: u16)
    ensures
        s == match outcome {
            Ok(_) => 204u16,
            Err(AppError::NotFound(_)) => 404u16,
            Err(_) => 500u16,
        },
{
    match outcome {
        Ok(_) => 204,
        Err(AppError::NotFound(_)) => 404,
        Err(_) => 500,
    }
}

/// The status a MKCOL answers with: created, not allowed when it exists,
/// or a server error.
pub fn mkcol_status(outcome: &Result<(), AppError>) -> (s: u16)
    ensures
        s == match outcome {
            Ok(_) => 201u16,
            Err(AppError::AlreadyExists(_)) => 405u16,
            Err(_) => 500u16,
        },
{
    match outcome {
        Ok(_) => 201,
        Err(AppError::AlreadyExists(_)) => 405,
        Err(_) => 500,
    }
}

/// The status a COPY or MOVE answers with: created, not found, or a server
/// error.
pub fn transfer_status(outcome: &Result<(), AppError>) -> (s: u16)
    ensures
        s == match outcome {
            Ok(_) => 201u16,
            Err(AppError::NotFound(_)) => 404u16,
            Err(_) => 500u16,
        },
{
    match outcome {
        Ok(_) => 201,
        Err(AppError::NotFound(_)) => 404,
        Err(_) => 500,
    }
}

/// The status for a failed metadata lookup (HEAD, PROPPATCH): not found, or
/// a server error.
pub fn lookup_failure_status(e: &AppError) -> (s: u16)
    ensures
        s == if e is NotFound { 404u16 } else { 500u16 },
{
    match e {
        AppError::NotFound(_) => 404,
        _ => 500,
    }
}

/// What a GET does after reading the file failed.
#[derive(Clone, Copy, PartialEq, Eq, Structural, Debug)]
pub enum GetFallback {
    /// Answer 404.
    NotFound,
    /// The path is a directory: answer with its listing.
    ListDirectory,
    /// Answer 500.
    ServerError,
}

/// What a GET does after reading the file failed with `e`.
pub fn get_fallback(e: &AppError) -> (f: GetFallback)
    ensures
        f == match e {
            AppError::NotFound(_) => GetFallback::NotFound,
            AppError::NotFile(_) => GetFallback::ListDirectory,
            _ => GetFallback::ServerError,
        },
{
    match e {
        AppError::NotFound(_) => GetFallback::NotFound,
        AppError::NotFile(_) => GetFallback::ListDirectory,
        _ => GetFallback::ServerError,
    }
}

/// The headers of an OPTIONS answer.
pub fn options_headers() -> (h: Vec<(String, String)>)
    ensures
        h@.len() == 3,
        h@[0].0@ == "Allow"@,
        h@[0].1@ == "OPTIONS, GET, HEAD, PUT, DELETE, MKCOL, COPY, MOVE, PROPFIND, PROPPATCH, LOCK, UNLOCK"@,
        h@[1].0@ == "DAV"@ && h@[1].1@ == "1, 2"@,
        h@[2].0@ == "MS-Author-Via"@ && h@[2].1@ == "DAV"@,
{
    let mut h: Vec<(String, String)> = Vec::new();
    h.push((
        String::from_str("Allow"),
        String::from_str(
            "OPTIONS, GET, HEAD, PUT, DELETE, MKCOL, COPY, MOVE, PROPFIND, PROPPATCH, LOCK, UNLOCK",
        ),
    ));
    h.push((String::from_str("DAV"), String::from_str("1, 2")));
    h.push((String::from_str("MS-Author-Via"), String::from_str("DAV")));
    h
}

/// The headers of a HEAD answer: the content type, and the length for files.
pub fn head_headers(mime_type: &str, is_dir: bool, size: u64) -> (h: Vec<(String, String)>)
    ensures
        h@.len() == if is_dir { 1int } else { 2int },
        h@[0].0@ == "Content-Type"@ && h@[0].1@ == mime_type@,
        !is_dir ==> h@[1].0@ == "Content-Length"@ && h@[1].1@ == decimal(size as nat),
{
    let mut h: Vec<(String, String)> = Vec::new();
    h.push((String::from_str("Content-Type"), mime_type.to_owned()));
    if !is_dir {
        h.push((String::from_str("Content-Length"), crate::text::decimal_string(size)));
    }
    h
}

/// The list items of a directory listing page, one link per entry.
pub open spec fn listing_items(entries: Seq<FileEntry>) -> Seq<char>
    decreases entries.len(),
{
    if entries.len() == 0 {
        Seq::<char>::empty()
    } else {
        let e = entries.last();
        listing_items(entries.drop_last()) + "<li><a href=\""@ + e.path@ + "\">"@ + e.name@
            + "</a></li>"@
    }
}

/// The HTML page listing a directory.
pub open spec fn listing_page(path: Seq<char>, entries: Seq<FileEntry>) -> Seq<char> {
    "<html><body><h1>Directory: "@ + path + "</h1><ul>"@ + listing_items(entries)
        + "</ul></body></html>"@
}

/// The link of one entry in a directory listing.
pub open spec fn entry_link(e: FileEntry) -> Seq<char> {
    "<li><a href=\""@ + e.path@ + "\">"@ + e.name@ + "</a></li>"@
}

/// Every entry gets its own link, and only its own, in order: no entries
/// give nothing, one entry gives its link, and entries one after another
/// give the items of each part one after another.
pub proof fn lemma_listing_links(a: Seq<FileEntry>, b: Seq<FileEntry>, e: FileEntry)
    ensures
        listing_items(Seq::<FileEntry>::empty()) =~= Seq::<char>::empty(),
        listing_items(seq![e]) =~= entry_link(e),
        listing_items(a + b) =~= listing_items(a) + listing_items(b),
    decreases b.len(),
{
    assert(seq![e].drop_last() =~= Seq::<FileEntry>::empty());
    if b.len() == 0 {
        assert(a + b =~= a);
    } else {
        lemma_listing_links(a, b.drop_last(), e);
        assert((a + b).drop_last() =~= a + b.drop_last());
        assert((a + b).last() == b.last());
    }
}

/// The HTML page that a GET on a directory answers with.
pub fn directory_listing_html(path: &str, entries: &Vec<FileEntry>) -> (s: String)
    ensures
        s@ == listing_page(path@, entries@),
{
    let mut s = String::new();
    push_str(&mut s, "<html><body><h1>Directory: ");
    push_str(&mut s, path);
    push_str(&mut s, "</h1><ul>");
    let ghost head = s@;
    let mut i: usize = 0;
    while i < entries.len()
        invariant
            i <= entries.len(),
            s@ == head + listing_items(entries@.take(i as int)),
        decreases entries.len() - i,
    {
        assert(entries@.take(i + 1).drop_last() == entries@.take(i as int));
        assert(entries@.take(i + 1).last() == entries@[i as int]);
        push_str(&mut s, "<li><a href=\"");
        push_str(&mut s, entries[i].path.as_str());
        push_str(&mut s, "\">");
        push_str(&mut s, entries[i].name.as_str());
        push_str(&mut s, "</a></li>");
        i = i + 1;
    }
    assert(entries@.take(entries.len() as int) == entries@);
    push_str(&mut s, "</ul></body></html>");
    s
}

} // verus!
