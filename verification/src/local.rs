//! The local file system: resolving request paths inside the data directory.
use vstd::prelude::*;
use crate::error::AppError;
use crate::order::{Comparison, SortKey, compare_text, entry_order, is_stable_sort_of, sort_entries};
use crate::vfs::{FileEntry, FileMetadata, FilePermissions, SearchResult, Timestamp, permissions_from};
use crate::webdav::{file_name_of, name_or_empty};
use crate::paths::{
    body_pieces, components, components_of, consumed, has_root, is_skip, join_chars, join_path,
    lemma_consumed_over, lemma_first_piece, lemma_join_pieces_of_pieces, lemma_normals_concat,
    lemma_normals_front, lemma_pieces_concat, lemma_pieces_nonempty, lemma_trim_front_skips,
    normals, path_starts_with, pieces, start_components, start_count, starts_cur_dir,
    starts_with_path, strip_path_prefix, strip_prefix_chars, trim_back, views_of,
};
use crate::text::{
    chars_equal, chars_of, contains_chars, contains_seq, ends_with_chars, has_prefix, has_suffix,
    push_str, starts_with_chars, string_from_chars,
};

verus! {

/// `p` without its leading separators.
pub open spec fn trim_leading_slashes(p: Seq<char>) -> Seq<char>
    decreases p.len(),
{
    if p.len() > 0 && p[0] == '/' {
        trim_leading_slashes(p.drop_first())
    } else {
        p
    }
}

/// `p` with every backslash turned into a separator.
pub open spec fn backslashes_to_slashes(p: Seq<char>) -> Seq<char> {
    p.map_values(|c: char| if c == '\\' { '/' } else { c })
}

/// The two-character sequence `..`.
pub open spec fn dot_dot() -> Seq<char> {
    seq!['.', '.']
}

/// The normalized form of a request path: backslashes become separators,
/// then the leading separators are dropped.
pub open spec fn normalized(p: Seq<char>) -> Seq<char> {
    trim_leading_slashes(backslashes_to_slashes(p))
}

/// What normalizing does to a request: it drops the leading run of
/// separators and backslashes, and turns every later backslash into a
/// separator, keeping every other character in place; so the result starts
/// with neither.
pub proof fn lemma_normalized_shape(p: Seq<char>)
    ensures
        exists|k: int|
            #![trigger p.skip(k)]
            0 <= k <= p.len() && (forall|i: int| 0 <= i < k ==> p[i] == '/' || p[i] == '\\') && (k
                < p.len() ==> p[k] != '/' && p[k] != '\\') && normalized(p).len() == p.len() - k
                && forall|i: int|
                0 <= i < normalized(p).len() ==> #[trigger] normalized(p)[i] == if p[k + i]
                    == '\\' {
                    '/'
                } else {
                    p[k + i]
                },
{
    let c = backslashes_to_slashes(p);
    lemma_trim_leading_slashes(c);
    let k = p.len() - normalized(p).len();
    assert(normalized(p) == c.skip(k));
    assert(forall|i: int| 0 <= i < k ==> c[i] == '/');
    assert forall|i: int| 0 <= i < k implies p[i] == '/' || p[i] == '\\' by {
        assert(c[i] == (if p[i] == '\\' { '/' } else { p[i] }));
    }
    if k < p.len() {
        assert(normalized(p)[0] == c[k]);
        assert(c[k] == (if p[k] == '\\' { '/' } else { p[k] }));
    }
    assert forall|i: int| 0 <= i < normalized(p).len() implies #[trigger] normalized(p)[i] == if p[
        k + i] == '\\' {
        '/'
    } else {
        p[k + i]
    } by {
        assert(normalized(p)[i] == c[k + i]);
    }
    assert(p.skip(k) == p.skip(k));
}

/// `p` is refused outright: its normalized form holds `..`.
pub open spec fn has_dot_dot(p: Seq<char>) -> bool {
    contains_seq(normalized(p), dot_dot())
}

/// Dropping the leading separators leaves a suffix that does not start
/// with a separator.
pub proof fn lemma_trim_leading_slashes(p: Seq<char>)
    ensures
        trim_leading_slashes(p).len() <= p.len(),
        trim_leading_slashes(p) == p.skip(p.len() - trim_leading_slashes(p).len()),
        trim_leading_slashes(p).len() > 0 ==> trim_leading_slashes(p)[0] != '/',
        forall|i: int| 0 <= i < p.len() - trim_leading_slashes(p).len() ==> p[i] == '/',
    decreases p.len(),
{
    if p.len() > 0 && p[0] == '/' {
        lemma_trim_leading_slashes(p.drop_first());
        assert forall|i: int| 0 <= i < p.len() - trim_leading_slashes(p).len() implies p[i] == '/' by {
            if i > 0 {
                assert(p[i] == p.drop_first()[i - 1]);
            }
        }
        assert(p.drop_first().skip(p.drop_first().len() - trim_leading_slashes(p).len()) == p.skip(
            p.len() - trim_leading_slashes(p).len(),
        ));
    } else {
        assert(p.skip(0) == p);
    }
}

/// Where an accepted request path lands under `root`.
pub open spec fn joined(root: Seq<char>, p: Seq<char>) -> Seq<char> {
    join_path(root, normalized(p))
}

/// An accepted request path is refused as a traversal: its normalized form
/// has a `..` component, or it does not land under `root`.
pub open spec fn is_traversal(root: Seq<char>, p: Seq<char>) -> bool {
    components(normalized(p)).contains(dot_dot()) || !path_starts_with(joined(root, p), root)
}

/// The local file system rooted at a data directory.
pub struct LocalFileSystem {
    root: String,
}

impl View for LocalFileSystem {
    type V = Seq<char>;

    /// The data directory.
    closed spec fn view(&self) -> Seq<char> {
        self.root@
    }
}

fn trim_leading_slashes_exec(p: &Vec<char>) -> (r: Vec<char>)
    ensures
        r@ == trim_leading_slashes(p@),
{
    let mut i: usize = 0;
    assert(p@.skip(0) == p@);
    while i < p.len() && p[i] == '/'
        invariant
            i <= p.len(),
            trim_leading_slashes(p@) == trim_leading_slashes(p@.skip(i as int)),
        decreases p.len() - i,
    {
        assert(p@.skip(i as int).drop_first() == p@.skip(i + 1));
        i = i + 1;
    }
    let mut r: Vec<char> = Vec::new();
    let mut k: usize = i;
    while k < p.len()
        invariant
            i <= k <= p.len(),
            r@ == p@.subrange(i as int, k as int),
        decreases p.len() - k,
    {
        r.push(p[k]);
        assert(p@.subrange(i as int, k + 1) == p@.subrange(i as int, k as int).push(p@[k as int]));
        k = k + 1;
    }
    assert(p@.subrange(i as int, p.len() as int) == p@.skip(i as int));
    r
}

fn backslashes_to_slashes_exec(p: &Vec<char>) -> (r: Vec<char>)
    ensures
        r@ == backslashes_to_slashes(p@),
{
    let mut r: Vec<char> = Vec::new();
    let mut k: usize = 0;
    while k < p.len()
        invariant
            k <= p.len(),
            r@ == backslashes_to_slashes(p@.take(k as int)),
        decreases p.len() - k,
    {
        let c = p[k];
        if c == '\\' {
            r.push('/');
        } else {
            r.push(c);
        }
        assert(backslashes_to_slashes(p@.take(k + 1)) == backslashes_to_slashes(
            p@.take(k as int),
        ).push(if c == '\\' { '/' } else { c }));
        k = k + 1;
    }
    assert(p@.take(p.len() as int) == p@);
    r
}

fn has_dot_dot_component(cs: &Vec<Vec<char>>) -> (r: bool)
    ensures
        r == views_of(cs@).contains(dot_dot()),
{
    let dd: Vec<char> = vec!['.', '.'];
    assert(dd@ == dot_dot());
    let mut i: usize = 0;
    while i < cs.len()
        invariant
            i <= cs.len(),
            dd@ == dot_dot(),
            forall|j: int| 0 <= j < i ==> cs@[j]@ != dot_dot(),
        decreases cs.len() - i,
    {
        if chars_equal(&cs[i], &dd) {
            assert(views_of(cs@)[i as int] == dot_dot());
            return true;
        }
        i = i + 1;
    }
    assert forall|j: int| 0 <= j < views_of(cs@).len() implies views_of(cs@)[j] != dot_dot() by {}
    false
}

impl LocalFileSystem {
    /// A file system serving the data directory `root`.
    pub fn new(root: String) -> (fs: Self)
        ensures
            fs@ == root@,
    {
        LocalFileSystem { root }
    }

    /// Normalizes a request path: turns backslashes into separators, drops
    /// the leading separators, and refuses it with `InvalidPath` if it then
    /// holds `..`. An accepted path comes out with no leading separator and
    /// no backslash.
    pub fn normalize_path(&self, path: &str) -> (r: Result<String, AppError>)
        ensures
            match r {
                Ok(n) => !has_dot_dot(path@) && n@ == normalized(path@) && !(n@.len() > 0 && n@[0]
                    == '/') && forall|i: int| 0 <= i < n@.len() ==> n@[i] != '\\',
                Err(e) => has_dot_dot(path@) && (e matches AppError::InvalidPath(s) && s@ == path@),
            },
    {
        let p = chars_of(path);
        let converted = backslashes_to_slashes_exec(&p);
        let n = trim_leading_slashes_exec(&converted);
        let dd: Vec<char> = vec!['.', '.'];
        assert(dd@ == dot_dot());
        if contains_chars(&n, &dd) {
            return Err(AppError::InvalidPath(path.to_owned()));
        }
        proof {
            lemma_trim_leading_slashes(converted@);
            assert forall|i: int| 0 <= i < n@.len() implies n@[i] != '\\' by {
                let k = converted@.len() - n@.len();
                assert(n@[i] == converted@[k + i]);
            }
        }
        Ok(string_from_chars(&n))
    }

    /// Resolves a request path to a path under the data directory. Refuses
    /// with `InvalidPath` a path whose normalized form holds `..`,
    /// and with `PathTraversal` one that would not land under the data
    /// directory.
    pub fn resolve_path(&self, path: &str) -> (r: Result<String, AppError>)
        ensures
            match r {
                Ok(res) => !has_dot_dot(path@) && !is_traversal(self@, path@) && res@ == joined(
                    self@,
                    path@,
                ),
                Err(e) => if has_dot_dot(path@) {
                    e matches AppError::InvalidPath(s) && s@ == path@
                } else {
                    is_traversal(self@, path@) && e is PathTraversal
                },
            },
    {
        let normalized = match self.normalize_path(path) {
            Ok(n) => n,
            Err(e) => {
                return Err(e);
            },
        };
        let n = chars_of(normalized.as_str());
        let comps = components_of(&n);
        if has_dot_dot_component(&comps) {
            return Err(AppError::PathTraversal);
        }
        let root = chars_of(self.root.as_str());
        let resolved = join_chars(&root, &n);
        if !starts_with_path(&resolved, &root) {
            return Err(AppError::PathTraversal);
        }
        Ok(string_from_chars(&resolved))
    }

    /// The path of `path` relative to the data directory; `InvalidPath` if it
    /// is not under it.
    pub fn to_relative(&self, path: &str) -> (r: Result<String, AppError>)
        ensures
            match r {
                Ok(q) => strip_path_prefix(path@, self@) == Some(q@),
                Err(e) => strip_path_prefix(path@, self@) is None && (e matches AppError::InvalidPath(
                    s,
                ) && s@ == "Path "@ + path@ + " is not under root"@),
            },
    {
        let p = chars_of(path);
        let root = chars_of(self.root.as_str());
        match strip_prefix_chars(&p, &root) {
            Some(q) => Ok(string_from_chars(&q)),
            None => {
                let mut msg = String::new();
                push_str(&mut msg, "Path ");
                push_str(&mut msg, path);
                push_str(&mut msg, " is not under root");
                Err(AppError::InvalidPath(msg))
            },
        }
    }
}

} // verus!

verus! {

proof fn lemma_normals_drop_skip(ps: Seq<Seq<char>>)
    requires
        ps.len() > 0,
        is_skip(ps.last()),
    ensures
        normals(ps.drop_last()) == normals(ps),
{
}

/// Joining a relative path to a non-empty base appends the naming pieces of
/// the relative path to the components of the base.
proof fn lemma_components_join_relative(root: Seq<char>, n: Seq<char>)
    requires
        root.len() > 0,
        !has_root(n),
    ensures
        components(join_path(root, n)) == components(root) + normals(
            pieces(n),
        ),
        start_components(join_path(root, n)) == start_components(root),
        body_pieces(join_path(root, n)).len() >= pieces(n).len(),
        ({
            let body = body_pieces(join_path(root, n));
            let front = body.take(body.len() - pieces(n).len());
            body == front + pieces(n) && normals(front) == normals(body_pieces(root))
        }),
{
    let pr = pieces(root);
    lemma_pieces_nonempty(root);
    lemma_pieces_nonempty(n);
    let p2 = if root.last() == '/' { root } else { root + seq!['/'] };
    let r = join_path(root, n);
    assert(r == p2 + n);
    if root.last() != '/' {
        assert((root + seq!['/']).drop_last() == root);
        assert(pieces(p2) == pr.push(Seq::<char>::empty()));
    } else {
        assert(root.drop_last() + seq!['/'] == root);
        lemma_pieces_nonempty(root.drop_last());
        assert(pieces(p2) == pieces(root.drop_last()).push(Seq::<char>::empty()));
    }
    let pp = pieces(p2);
    assert(pp.len() >= 2);
    assert(pp.last() == Seq::<char>::empty());
    lemma_pieces_concat(p2, n);
    assert(pp.last() + pieces(n)[0] == pieces(n)[0]);
    assert(pieces(r) == pp.drop_last() + pieces(n));
    // the start of `r` is the start of `root`
    assert(r[0] == root[0]);
    assert(has_root(r) == has_root(root));
    assert(pieces(r)[0] == pp[0]);
    assert(pp[0] == pr[0]);
    assert(starts_cur_dir(r) == starts_cur_dir(root));
    let s = start_count(root) as int;
    assert(start_count(r) == s);
    assert(start_components(r) == start_components(root));
    let front = pp.drop_last();
    assert(body_pieces(r) == front.skip(s) + pieces(n));
    lemma_normals_concat(front.skip(s), pieces(n));
    if root.last() != '/' {
        assert(front == pr);
    } else {
        assert(front == pr.drop_last());
        assert(pr.len() >= 2);
        assert(pr.skip(s).drop_last() == pr.drop_last().skip(s));
        lemma_normals_drop_skip(pr.skip(s));
    }
    assert(normals(front.skip(s)) == normals(body_pieces(root)));
    assert((front.skip(s) + pieces(n)).take(front.skip(s).len() as int) == front.skip(s));
    assert(components(r) == start_components(root) + (normals(body_pieces(root)) + normals(
        pieces(n),
    )));
}

/// For a relative path the naming pieces are exactly its components after
/// the start component.
proof fn lemma_normals_of_relative(n: Seq<char>)
    requires
        !has_root(n),
    ensures
        normals(pieces(n)) == normals(
            body_pieces(n),
        ),
        components(n) == start_components(n) + normals(
            body_pieces(n),
        ),
{
    lemma_pieces_nonempty(n);
    let ps = pieces(n);
    let s = start_count(n) as int;
    assert(ps == ps.take(s) + ps.skip(s));
    lemma_normals_concat(ps.take(s), ps.skip(s));
    if s == 1 {
        assert(starts_cur_dir(n));
        assert(ps.take(1).last() == ps[0]);
        assert(is_skip(ps[0]));
        assert(ps.take(1).drop_last().len() == 0);
        assert(normals(ps.take(1).drop_last()) == Seq::<Seq<char>>::empty());
        assert(is_skip(ps.take(1).last()));
        assert(normals(ps.take(1)) == normals(ps.take(1).drop_last()));
    } else {
        assert(ps.take(0).len() == 0);
    }
}

/// No `..` component comes from a path that has none.
proof fn lemma_no_dot_dot_in_normals(n: Seq<char>)
    requires
        !has_root(n),
        !components(n).contains(dot_dot()),
    ensures
        !normals(pieces(n)).contains(dot_dot()),
{
    lemma_normals_of_relative(n);
    if normals(pieces(n)).contains(dot_dot()) {
        let i = choose|i: int| 0 <= i < normals(pieces(n)).len() && normals(pieces(n))[i] == dot_dot();
        assert(components(n)[start_components(n).len() + i] == dot_dot());
    }
}

/// A path accepted by `resolve_path` lies under the data directory: the
/// components of the data directory come first, and none of the components
/// after them is `..`.
pub proof fn lemma_resolved_stays_under_root(root: Seq<char>, path: Seq<char>)
    requires
        !has_dot_dot(path),
        !is_traversal(root, path),
    ensures
        path_starts_with(joined(root, path), root),
        forall|i: int|
            components(root).len() <= i < components(joined(root, path)).len() ==> components(
                joined(root, path),
            )[i] != dot_dot(),
{
    let n = normalized(path);
    let r = joined(root, path);
    let k = components(root).len();
    if has_root(n) {
        assert(r == n);
        assert forall|i: int| k <= i < components(r).len() implies components(r)[i] != dot_dot() by {
            if components(r)[i] == dot_dot() {
                assert(components(n).contains(dot_dot()));
            }
        }
    } else if root.len() == 0 {
        assert(r == n);
        assert forall|i: int| k <= i < components(r).len() implies components(r)[i] != dot_dot() by {
            if components(r)[i] == dot_dot() {
                assert(components(n).contains(dot_dot()));
            }
        }
    } else {
        lemma_components_join_relative(root, n);
        lemma_no_dot_dot_in_normals(n);
        let ns = normals(pieces(n));
        assert forall|i: int| k <= i < components(r).len() implies components(r)[i] != dot_dot() by {
            assert(components(r)[i] == ns[i - k]);
            if ns[i - k] == dot_dot() {
                assert(ns.contains(dot_dot()));
            }
        }
    }
}

/// `n` is a chain of names: every piece between its separators names a
/// component (no empty piece, no `.` piece).
pub open spec fn is_name_chain(n: Seq<char>) -> bool {
    forall|i: int| 0 <= i < pieces(n).len() ==> !is_skip(#[trigger] pieces(n)[i])
}

/// A non-empty path has at least one component.
proof fn lemma_nonempty_has_component(p: Seq<char>)
    requires
        p.len() > 0,
    ensures
        components(p).len() > 0,
{
    lemma_pieces_nonempty(p);
    if !has_root(p) && !starts_cur_dir(p) {
        lemma_first_piece(p);
        lemma_normals_front(pieces(p));
        assert(body_pieces(p) == pieces(p));
    }
}

/// A chain of names joined to a non-empty directory relativizes back to
/// itself.
proof fn lemma_relativize_name_chain(root: Seq<char>, n: Seq<char>)
    requires
        root.len() > 0,
        is_name_chain(n),
    ensures
        n.len() > 0 && n[0] != '/' && n.last() != '/',
        strip_path_prefix(join_path(root, n), root) == Some(n),
{
    let r = join_path(root, n);
    lemma_pieces_nonempty(n);
    let pn = pieces(n);
    assert(!is_skip(pn[0]));
    if n.len() == 0 {
        assert(pieces(n) == seq![Seq::<char>::empty()]);
    }
    lemma_first_piece(n);
    assert(!has_root(n));
    assert(!is_skip(pn[pn.len() - 1]));
    if n.last() == '/' {
        assert(pn == pieces(n.drop_last()).push(Seq::<char>::empty()));
    }
    lemma_components_join_relative(root, n);
    assert(components(r).take(components(root).len() as int) == components(root));
    let body = body_pieces(r);
    let front = body.take(body.len() - pn.len());
    lemma_nonempty_has_component(root);
    let k = (components(root).len() - start_components(r).len()) as nat;
    assert(k == normals(front).len());
    lemma_consumed_over(front, pn);
    let c = consumed(body, k) as int;
    assert(body.skip(c) == front.skip(c) + pn);
    assert forall|j: int| 0 <= j < front.skip(c).len() implies is_skip(#[trigger] front.skip(c)[j]) by {
        assert(front.skip(c)[j] == front[c + j]);
    }
    lemma_trim_front_skips(front.skip(c), pn);
    assert(trim_back(pn) == pn);
    lemma_join_pieces_of_pieces(n);
}

/// A request whose normalized form is a chain of names resolves to a path
/// that `to_relative` turns back into exactly that chain.
pub proof fn lemma_resolve_then_relativize(root: Seq<char>, path: Seq<char>)
    requires
        !has_dot_dot(path),
        !is_traversal(root, path),
        root.len() > 0,
        is_name_chain(normalized(path)),
    ensures
        strip_path_prefix(joined(root, path), root) == Some(normalized(path)),
{
    lemma_relativize_name_chain(root, normalized(path));
}

/// Two chains of names with a separator between them are a chain of names.
proof fn lemma_name_chain_concat(n: Seq<char>, m: Seq<char>)
    requires
        is_name_chain(n),
        is_name_chain(m),
    ensures
        is_name_chain(n + seq!['/'] + m),
{
    let ns = n + seq!['/'];
    lemma_pieces_nonempty(n);
    lemma_pieces_nonempty(m);
    assert(ns.drop_last() == n);
    assert(pieces(ns) == pieces(n).push(Seq::<char>::empty()));
    lemma_pieces_concat(ns, m);
    assert(pieces(ns).drop_last() == pieces(n));
    assert(pieces(ns).last() + pieces(m)[0] == pieces(m)[0]);
    assert(pieces(ns + m) == pieces(n) + pieces(m));
    assert forall|i: int| 0 <= i < pieces(ns + m).len() implies !is_skip(#[trigger] pieces(ns + m)[i]) by {
        if i < pieces(n).len() {
            assert(pieces(ns + m)[i] == pieces(n)[i]);
        } else {
            assert(pieces(ns + m)[i] == pieces(m)[i - pieces(n).len()]);
        }
    }
}

/// The path of a listed entry in a requested directory, relative to the
/// data directory.
pub open spec fn listed_path(dir: Seq<char>, name: Seq<char>) -> Seq<char> {
    if dir.len() == 0 {
        name
    } else {
        dir + seq!['/'] + name
    }
}

/// What a listing shows for an entry: when a directory is requested by the
/// root or by a chain of names, the entry named by a chain of names `name`
/// that is found in the resolved directory relativizes to the request's
/// normalized form and `name`, with a separator between them.
pub proof fn lemma_listed_entry_path(root: Seq<char>, path: Seq<char>, name: Seq<char>)
    requires
        !has_dot_dot(path),
        !is_traversal(root, path),
        root.len() > 0,
        normalized(path).len() == 0 || is_name_chain(normalized(path)),
        is_name_chain(name),
    ensures
        strip_path_prefix(join_path(joined(root, path), name), root) == Some(
            listed_path(normalized(path), name),
        ),
{
    let n = normalized(path);
    let base = if root.last() == '/' { root } else { root + seq!['/'] };
    lemma_relativize_name_chain(root, name);
    assert(join_path(root, name) == base + name);
    if n.len() == 0 {
        assert(join_path(root, n) == base);
        assert(base.last() == '/');
        assert(join_path(base, name) == base + name);
    } else {
        let m = n + seq!['/'] + name;
        lemma_relativize_name_chain(root, n);
        lemma_name_chain_concat(n, name);
        lemma_relativize_name_chain(root, m);
        assert(join_path(root, n) == base + n);
        assert((base + n).last() == n.last());
        assert(join_path(base + n, name) == base + n + seq!['/'] + name);
        assert(m[0] == n[0]);
        assert(join_path(root, m) == base + m);
        assert(base + n + seq!['/'] + name == base + m);
    }
}

/// Every path that `resolve_path` returns is one that `to_relative` turns
/// back into a path relative to the data directory.
pub proof fn lemma_resolved_is_relative_to_root(root: Seq<char>, path: Seq<char>)
    requires
        !has_dot_dot(path),
        !is_traversal(root, path),
    ensures
        strip_path_prefix(joined(root, path), root) is Some,
{
}

} // verus!

verus! {

/// Whether `name` matches `pattern`: `*` and the empty pattern match every
/// name; `*mid*` matches names holding `mid`; `*suf` names ending with
/// `suf`; `pre*` names starting with `pre`; any other pattern only itself.
pub open spec fn pattern_matches(name: Seq<char>, pattern: Seq<char>) -> bool {
    if pattern == seq!['*'] || pattern.len() == 0 {
        true
    } else if pattern[0] == '*' && pattern.last() == '*' {
        contains_seq(name, pattern.subrange(1, pattern.len() - 1))
    } else if pattern[0] == '*' {
        has_suffix(name, pattern.skip(1))
    } else if pattern.last() == '*' {
        has_prefix(name, pattern.drop_last())
    } else {
        name == pattern
    }
}

/// What each kind of search pattern matches, in terms of the name's text:
/// the empty pattern and `*` match every name; `*mid*` matches exactly the
/// names in which `mid` occurs; `*suf` (with `suf` not ending in `*`)
/// exactly the names that end with `suf`, so a name holding `suf` only
/// before its end does not match; `pre*` (with `pre` not starting with `*`)
/// exactly the names that start with `pre`; a pattern without a star at
/// either end only the name equal to it.
pub proof fn lemma_pattern_kinds(name: Seq<char>, pattern: Seq<char>)
    ensures
        pattern.len() == 0 ==> pattern_matches(name, pattern),
        pattern =~= seq!['*'] ==> pattern_matches(name, pattern),
        pattern.len() >= 2 && pattern[0] == '*' && pattern[pattern.len() - 1] == '*' ==> (
        pattern_matches(name, pattern) <==> exists|i: int|
            0 <= i && i + (pattern.len() - 2) <= name.len() && #[trigger] name.subrange(
                i,
                i + (pattern.len() - 2),
            ) =~= pattern.subrange(1, pattern.len() - 1)),
        pattern.len() >= 2 && pattern[0] == '*' && pattern[pattern.len() - 1] != '*' ==> (
        pattern_matches(name, pattern) <==> pattern.len() - 1 <= name.len() && name.subrange(
            name.len() - (pattern.len() - 1),
            name.len() as int,
        ) =~= pattern.subrange(1, pattern.len() as int)),
        pattern.len() >= 2 && pattern[0] != '*' && pattern[pattern.len() - 1] == '*' ==> (
        pattern_matches(name, pattern) <==> pattern.len() - 1 <= name.len() && name.subrange(
            0,
            pattern.len() - 1,
        ) =~= pattern.subrange(0, pattern.len() - 1)),
        pattern.len() >= 1 && pattern[0] != '*' && pattern[pattern.len() - 1] != '*' ==> (
        pattern_matches(name, pattern) <==> name =~= pattern),
{
    if pattern.len() >= 2 && pattern[0] == '*' && pattern[pattern.len() - 1] == '*' {
        assert(pattern != seq!['*']);
        let m = pattern.subrange(1, pattern.len() - 1);
        assert(pattern.last() == '*');
        if pattern_matches(name, pattern) {
            let i = choose|i: int| crate::text::occurs_at(name, m, i);
            assert(name.subrange(i, i + (pattern.len() - 2)) =~= m);
        }
        if exists|i: int|
            0 <= i && i + (pattern.len() - 2) <= name.len() && #[trigger] name.subrange(
                i,
                i + (pattern.len() - 2),
            ) =~= m {
            let i = choose|i: int|
                0 <= i && i + (pattern.len() - 2) <= name.len() && #[trigger] name.subrange(
                    i,
                    i + (pattern.len() - 2),
                ) =~= m;
            assert(crate::text::occurs_at(name, m, i));
        }
    }
    if pattern.len() >= 2 && pattern[0] == '*' && pattern[pattern.len() - 1] != '*' {
        assert(pattern != seq!['*']);
        assert(pattern.skip(1) =~= pattern.subrange(1, pattern.len() as int));
    }
    if pattern.len() >= 2 && pattern[0] != '*' && pattern[pattern.len() - 1] == '*' {
        assert(pattern.drop_last() =~= pattern.subrange(0, pattern.len() - 1));
    }
    if pattern.len() >= 1 && pattern[0] != '*' && pattern[pattern.len() - 1] != '*' {
        assert(pattern != seq!['*']);
    }
}

fn chars_range(v: &Vec<char>, lo: usize, hi: usize) -> (r: Vec<char>)
    requires
        lo <= hi <= v.len(),
    ensures
        r@ == v@.subrange(lo as int, hi as int),
{
    let mut r: Vec<char> = Vec::new();
    let mut k: usize = lo;
    while k < hi
        invariant
            lo <= k <= hi <= v.len(),
            r@ == v@.subrange(lo as int, k as int),
        decreases hi - k,
    {
        r.push(v[k]);
        assert(v@.subrange(lo as int, k + 1) == v@.subrange(lo as int, k as int).push(v@[k as int]));
        k = k + 1;
    }
    r
}

/// Simple glob-like matching of a file name against a search pattern
/// (see [`pattern_matches`]).
pub fn matches_pattern(name: &str, pattern: &str) -> (r: bool)
    ensures
        r == pattern_matches(name@, pattern@),
{
    let n = chars_of(name);
    let p = chars_of(pattern);
    let star: Vec<char> = vec!['*'];
    assert(star@ == seq!['*']);
    if chars_equal(&p, &star) || p.len() == 0 {
        return true;
    }
    let first_star = p[0] == '*';
    let last_star = p[p.len() - 1] == '*';
    if first_star && last_star {
        if p.len() < 2 {
            assert(p@ == seq!['*']);
            return true;
        }
        let middle = chars_range(&p, 1, p.len() - 1);
        return contains_chars(&n, &middle);
    }
    if first_star {
        let suffix = chars_range(&p, 1, p.len());
        assert(suffix@ == p@.skip(1));
        return ends_with_chars(&n, &suffix);
    }
    if last_star {
        let prefix = chars_range(&p, 0, p.len() - 1);
        assert(prefix@ == p@.drop_last());
        return starts_with_chars(&n, &prefix);
    }
    chars_equal(&n, &p)
}

} // verus!

verus! {

/// The MIME type that `mime_guess` picks for `path` (the first type known for
/// its extension, `application/octet-stream` when there is none).
pub uninterp spec fn guessed_mime(path: Seq<char>) -> Seq<char>;

/// `mime_guess::from_path(path).first_or_octet_stream()`, written out. The
/// result depends on the path's extension only; the table is not restated.
#[verifier::external_body]
pub(crate) fn guess_mime(path: &str) -> (m: String)
    ensures
        m@ == guessed_mime(path@),
{
    mime_guess::from_path(path).first_or_octet_stream().to_string()
}

impl LocalFileSystem {
    /// The MIME type served for `path`.
    pub fn mime_type(&self, path: &str) -> (m: String)
        ensures
            m@ == guessed_mime(path@),
    {
        guess_mime(path)
    }
}

} // verus!

verus! {

/// Whether a search walks into an item it found: only into directories, and
/// only when the search is recursive.
pub fn search_descends(recursive: bool, is_dir: bool) -> (b: bool)
    ensures
        b == (recursive && is_dir),
{
    recursive && is_dir
}

/// A file name that may be created: it holds no separator (`/`, or `\\`,
/// which becomes one) and no `..`.
pub open spec fn is_valid_file_name(name: Seq<char>) -> bool {
    !name.contains('/') && !name.contains('\\') && !contains_seq(name, dot_dot())
}

/// Refuses a file name that holds a separator or `..`.
pub fn check_file_name(name: &str) -> (r: Result<(), AppError>)
    ensures
        r is Ok <==> is_valid_file_name(name@),
        r matches Err(e) ==> (e matches AppError::InvalidPath(p) && p@ == name@),
{
    let n = chars_of(name);
    let mut i: usize = 0;
    while i < n.len()
        invariant
            i <= n.len(),
            n@ == name@,
            forall|j: int| 0 <= j < i ==> n@[j] != '/' && n@[j] != '\\',
        decreases n.len() - i,
    {
        if n[i] == '/' || n[i] == '\\' {
            proof {
                assert(name@[i as int] == n@[i as int]);
            }
            return Err(AppError::InvalidPath(name.to_owned()));
        }
        i = i + 1;
    }
    let dd: Vec<char> = vec!['.', '.'];
    assert(dd@ == dot_dot());
    if contains_chars(&n, &dd) {
        return Err(AppError::InvalidPath(name.to_owned()));
    }
    Ok(())
}

/// Refuses a path that is not a directory.
pub fn require_directory(path: &str, is_dir: bool) -> (r: Result<(), AppError>)
    ensures
        r is Ok <==> is_dir,
        r matches Err(e) ==> (e matches AppError::NotDirectory(p) && p@ == path@),
{
    if !is_dir {
        return Err(AppError::NotDirectory(path.to_owned()));
    }
    Ok(())
}

/// Refuses a path that does not exist.
pub fn require_exists(path: &str, exists: bool) -> (r: Result<(), AppError>)
    ensures
        r is Ok <==> exists,
        r matches Err(e) ==> (e matches AppError::NotFound(p) && p@ == path@),
{
    if !exists {
        return Err(AppError::NotFound(path.to_owned()));
    }
    Ok(())
}

/// Refuses a path that does not exist or is not a file.
pub fn require_file(path: &str, exists: bool, is_file: bool) -> (r: Result<(), AppError>)
    ensures
        r is Ok <==> exists && is_file,
        !exists ==> (r matches Err(e) && e matches AppError::NotFound(p) && p@ == path@),
        exists && !is_file ==> (r matches Err(e) && e matches AppError::NotFile(p) && p@ == path@),
{
    if !exists {
        return Err(AppError::NotFound(path.to_owned()));
    }
    if !is_file {
        return Err(AppError::NotFile(path.to_owned()));
    }
    Ok(())
}

/// Refuses a rename or copy whose source is missing or whose target exists.
pub fn check_transfer(from: &str, to: &str, from_exists: bool, to_exists: bool) -> (r: Result<
    (),
    AppError,
>)
    ensures
        r is Ok <==> from_exists && !to_exists,
        !from_exists ==> (r matches Err(e) && e matches AppError::NotFound(p) && p@ == from@),
        from_exists && to_exists ==> (r matches Err(e) && e matches AppError::AlreadyExists(p)
            && p@ == to@),
{
    if !from_exists {
        return Err(AppError::NotFound(from.to_owned()));
    }
    if to_exists {
        return Err(AppError::AlreadyExists(to.to_owned()));
    }
    Ok(())
}

impl LocalFileSystem {
    /// The listing record of an item found at `entry_path` while listing a
    /// directory: its path relative to the data directory, and its metadata.
    pub fn listing_entry(
        &self,
        entry_path: &str,
        name: String,
        is_dir: bool,
        size: u64,
        modified: Timestamp,
        created: Option<Timestamp>,
    ) -> (r: Result<FileEntry, AppError>)
        ensures
            match r {
                Ok(e) => strip_path_prefix(entry_path@, self@) == Some(e.path@) && e.name == name
                    && e.is_dir == is_dir && e.size == size && e.modified == modified && e.created
                    == created,
                Err(e) => strip_path_prefix(entry_path@, self@) is None && (e matches AppError::InvalidPath(
                    s,
                ) && s@ == "Path "@ + entry_path@ + " is not under root"@),
            },
    {
        let path = match self.to_relative(entry_path) {
            Ok(p) => p,
            Err(e) => {
                return Err(e);
            },
        };
        Ok(FileEntry { name, path, is_dir, size, modified, created })
    }

    /// A directory listing in its served order: directories first, each
    /// group by name; equal entries keep their order.
    pub fn sort_listing(entries: Vec<FileEntry>) -> (r: Vec<FileEntry>)
        ensures
            is_stable_sort_of(r@, entries@, entry_order(SortKey::DirectoriesFirst, false)),
    {
        sort_entries(entries, SortKey::DirectoriesFirst, false)
    }

    /// In a served listing no file comes before a directory, and within
    /// each group no name comes after a later one: distinct names ascend
    /// strictly.
    pub proof fn lemma_listing_directories_first(r: Seq<FileEntry>, s: Seq<FileEntry>)
        requires
            is_stable_sort_of(r, s, entry_order(SortKey::DirectoriesFirst, false)),
        ensures
            forall|i: int, j: int| 0 <= i < j < r.len() && r[j].is_dir ==> r[i].is_dir,
            forall|i: int, j: int|
                0 <= i < j < r.len() && r[i].is_dir == r[j].is_dir ==> compare_text(
                    r[i].name@,
                    r[j].name@,
                ) != Comparison::Greater,
            forall|i: int, j: int|
                0 <= i < j < r.len() && r[i].is_dir == r[j].is_dir && r[i].name@ != r[j].name@
                    ==> compare_text(r[i].name@, r[j].name@) == Comparison::Less,
    {
        let f = entry_order(SortKey::DirectoriesFirst, false);
        assert forall|i: int, j: int| 0 <= i < j < r.len() && r[j].is_dir implies r[i].is_dir by {
            assert(f(r[i], r[j]) != Comparison::Greater);
        }
        assert forall|i: int, j: int|
            0 <= i < j < r.len() && r[i].is_dir == r[j].is_dir implies compare_text(
                r[i].name@,
                r[j].name@,
            ) != Comparison::Greater by {
            assert(f(r[i], r[j]) != Comparison::Greater);
        }
        assert forall|i: int, j: int|
            0 <= i < j < r.len() && r[i].is_dir == r[j].is_dir && r[i].name@ != r[j].name@
                implies compare_text(r[i].name@, r[j].name@) == Comparison::Less by {
            assert(f(r[i], r[j]) != Comparison::Greater);
            crate::order::lemma_compare_text_flip(r[i].name@, r[j].name@);
        }
    }

    /// The metadata record of `path` (the request path) from what the file
    /// system reports: its name is the last component of the path, or empty.
    pub fn metadata_record(
        path: &str,
        is_dir: bool,
        size: u64,
        modified: Timestamp,
        created: Option<Timestamp>,
        accessed: Option<Timestamp>,
        readonly: bool,
    ) -> (m: FileMetadata)
        ensures
            m.name@ == name_or_empty(path@),
            m.path@ == path@,
            m.is_dir == is_dir,
            m.size == size,
            m.modified == modified,
            m.created == created,
            m.accessed == accessed,
            m.permissions == Some(FilePermissions { readable: true, writable: !readonly, executable: false }),
    {
        FileMetadata {
            name: file_name_of(path),
            path: path.to_owned(),
            is_dir,
            size,
            modified,
            created,
            accessed,
            permissions: Some(permissions_from(readonly)),
        }
    }

    /// The search result for an item found at `entry_path`, if its name
    /// matches `pattern`.
    pub fn search_hit(
        &self,
        entry_path: &str,
        name: String,
        pattern: &str,
        is_dir: bool,
        size: u64,
        modified: Timestamp,
    ) -> (r: Result<Option<SearchResult>, AppError>)
        ensures
            !pattern_matches(name@, pattern@) ==> r == Ok::<Option<SearchResult>, AppError>(None),
            pattern_matches(name@, pattern@) ==> match r {
                Ok(Some(h)) => strip_path_prefix(entry_path@, self@) == Some(h.path@) && h.name == name
                    && h.is_dir == is_dir && h.size == size && h.modified == modified,
                Ok(None) => false,
                Err(e) => strip_path_prefix(entry_path@, self@) is None && (e matches AppError::InvalidPath(
                    s,
                ) && s@ == "Path "@ + entry_path@ + " is not under root"@),
            },
    {
        if !matches_pattern(name.as_str(), pattern) {
            return Ok(None);
        }
        let path = match self.to_relative(entry_path) {
            Ok(p) => p,
            Err(e) => {
                return Err(e);
            },
        };
        Ok(Some(SearchResult { path, name, is_dir, size, modified }))
    }
}

} // verus!

verus! {

/// An item found while reading a directory: where it was found, its name
/// and its metadata.
#[derive(Debug)]
pub struct FoundItem {
    pub path: String,
    pub name: String,
    pub is_dir: bool,
    pub size: u64,
    pub modified: Timestamp,
    pub created: Option<Timestamp>,
}

/// `e` is the listing record of `it` under the data directory `root`.
pub open spec fn lists_item(e: FileEntry, it: FoundItem, root: Seq<char>) -> bool {
    &&& strip_path_prefix(it.path@, root) == Some(e.path@)
    &&& e.name@ == it.name@
    &&& e.is_dir == it.is_dir
    &&& e.size == it.size
    &&& e.modified == it.modified
    &&& e.created == it.created
}

/// `h` is the search record of `it` under the data directory `root`.
pub open spec fn finds_item(h: SearchResult, it: FoundItem, root: Seq<char>) -> bool {
    &&& strip_path_prefix(it.path@, root) == Some(h.path@)
    &&& h.name@ == it.name@
    &&& h.is_dir == it.is_dir
    &&& h.size == it.size
    &&& h.modified == it.modified
}

/// Every item lies under the data directory `root`.
pub open spec fn all_under(items: Seq<FoundItem>, root: Seq<char>) -> bool {
    forall|i: int| 0 <= i < items.len() ==> (#[trigger] strip_path_prefix(items[i].path@, root)) is Some
}

/// The items whose names match `pattern`.
pub open spec fn name_matches(pattern: Seq<char>) -> spec_fn(FoundItem) -> bool {
    |it: FoundItem| pattern_matches(it.name@, pattern)
}

/// The refusal of an item that is not under the data directory.
pub open spec fn not_under_root(e: AppError, items: Seq<FoundItem>, root: Seq<char>) -> bool {
    exists|i: int|
        0 <= i < items.len() && strip_path_prefix(items[i].path@, root) is None && (e matches AppError::InvalidPath(
            s,
        ) && s@ == "Path "@ + items[i].path@ + " is not under root"@)
}

impl LocalFileSystem {
    /// The listing of the items found in one directory: each relative to
    /// the data directory, in the served order.
    pub fn listing_of(&self, items: Vec<FoundItem>) -> (r: Result<Vec<FileEntry>, AppError>)
        ensures
            r is Ok <==> all_under(items@, self@),
            r matches Ok(es) ==> exists|listed: Seq<FileEntry>|
                #![trigger listed.to_multiset()]
                listed.len() == items@.len() && (forall|k: int|
                    0 <= k < listed.len() ==> lists_item(#[trigger] listed[k], items@[k], self@))
                    && is_stable_sort_of(es@, listed, entry_order(SortKey::DirectoriesFirst, false)),
            r matches Err(e) ==> not_under_root(e, items@, self@),
    {
        let ghost all = items@;
        let mut rest = crate::order::reversed(items);
        let mut entries: Vec<FileEntry> = Vec::new();
        let ghost mut i: int = 0;
        assert(all.skip(0) == all);
        while rest.len() > 0
            invariant
                all == items@,
                0 <= i <= all.len(),
                rest@ == all.skip(i).reverse(),
                entries@.len() == i,
                forall|k: int| 0 <= k < i ==> lists_item(#[trigger] entries@[k], all[k], self@),
                all_under(all.take(i), self@),
            decreases rest.len(),
        {
            assert(rest@.last() == all[i]);
            let it = rest.pop().unwrap();
            proof {
                assert(it == all[i]);
                assert(all.skip(i).reverse().drop_last() == all.skip(i + 1).reverse());
            }
            let ghost found = it.path@;
            match self.listing_entry(it.path.as_str(), it.name, it.is_dir, it.size, it.modified, it.created) {
                Ok(e) => {
                    entries.push(e);
                    proof {
                        assert forall|k: int| 0 <= k < i + 1 implies (#[trigger] strip_path_prefix(
                            all.take(i + 1)[k].path@,
                            self@,
                        )) is Some by {
                            if k < i {
                                assert(all.take(i + 1)[k] == all.take(i)[k]);
                            }
                        }
                        i = i + 1;
                    }
                },
                Err(e) => {
                    proof {
                        assert(found == all[i].path@);
                        assert(strip_path_prefix(all[i].path@, self@) is None);
                        assert(!all_under(all, self@));
                        assert(not_under_root(e, all, self@));
                    }
                    return Err(e);
                },
            }
        }
        assert(i == all.len());
        assert(all.take(i) == all);
        let ghost listed = entries@;
        let sorted = LocalFileSystem::sort_listing(entries);
        assert(is_stable_sort_of(sorted@, listed, entry_order(SortKey::DirectoriesFirst, false)));
        assert(listed.len() == all.len());
        assert(forall|k: int| 0 <= k < listed.len() ==> lists_item(#[trigger] listed[k], all[k], self@));
        assert(sorted@.to_multiset() == listed.to_multiset());
        assert(listed.len() == items@.len() && (forall|k: int|
            0 <= k < listed.len() ==> lists_item(#[trigger] listed[k], items@[k], self@))
            && is_stable_sort_of(sorted@, listed, entry_order(SortKey::DirectoriesFirst, false)));
        Ok(sorted)
    }

    /// The search results among the items found in one directory: those
    /// whose names match `pattern`, in the order found, each relative to the
    /// data directory.
    pub fn search_of(&self, items: &Vec<FoundItem>, pattern: &str) -> (r: Result<
        Vec<SearchResult>,
        AppError,
    >)
        ensures
            r is Ok <==> all_under(items@.filter(name_matches(pattern@)), self@),
            r matches Ok(hs) ==> hs@.len() == items@.filter(name_matches(pattern@)).len() && forall|
                k: int,
            |
                0 <= k < hs@.len() ==> finds_item(
                    #[trigger] hs@[k],
                    items@.filter(name_matches(pattern@))[k],
                    self@,
                ),
            r matches Err(e) ==> not_under_root(e, items@, self@),
    {
        let ghost p = name_matches(pattern@);
        let mut hits: Vec<SearchResult> = Vec::new();
        let mut i: usize = 0;
        assert(items@.take(0) == Seq::<FoundItem>::empty());
        assert(items@.take(0).filter(p) == Seq::<FoundItem>::empty()) by {
            reveal(Seq::filter);
        }
        while i < items.len()
            invariant
                i <= items@.len(),
                p == name_matches(pattern@),
                hits@.len() == items@.take(i as int).filter(p).len(),
                forall|k: int|
                    0 <= k < hits@.len() ==> finds_item(
                        #[trigger] hits@[k],
                        items@.take(i as int).filter(p)[k],
                        self@,
                    ),
                all_under(items@.take(i as int).filter(p), self@),
            decreases items@.len() - i,
        {
            let it = &items[i];
            proof {
                assert(items@.take(i + 1) == items@.take(i as int).push(items@[i as int]));
                items@.take(i as int).lemma_filter_push(items@[i as int], p);
            }
            match self.search_hit(it.path.as_str(), it.name.clone(), pattern, it.is_dir, it.size, it.modified) {
                Ok(Some(h)) => {
                    hits.push(h);
                    proof {
                        let t = items@.take(i + 1).filter(p);
                        assert(t == items@.take(i as int).filter(p).push(items@[i as int]));
                        assert forall|k: int| 0 <= k < t.len() implies (#[trigger] strip_path_prefix(
                            t[k].path@,
                            self@,
                        )) is Some by {
                            if k < t.len() - 1 {
                                assert(t[k] == items@.take(i as int).filter(p)[k]);
                            }
                        }
                    }
                },
                Ok(None) => {
                    proof {
                        assert(items@.take(i + 1).filter(p) == items@.take(i as int).filter(p));
                    }
                },
                Err(e) => {
                    proof {
                        let t = items@.take(i + 1).filter(p);
                        assert(t == items@.take(i as int).filter(p).push(items@[i as int]));
                        assert(!all_under(items@.filter(p), self@)) by {
                            let f = items@.filter(p);
                            let rest = items@.skip(i + 1);
                            assert(items@ == items@.take(i + 1) + rest);
                            Seq::filter_distributes_over_add(items@.take(i + 1), rest, p);
                            assert(f[t.len() - 1] == items@[i as int]);
                        }
                    }
                    return Err(e);
                },
            }
            i = i + 1;
        }
        assert(items@.take(items@.len() as int) == items@);
        Ok(hits)
    }
}

/// A filter that every element passes keeps the whole sequence.
proof fn lemma_filter_all_pass<A>(s: Seq<A>, p: spec_fn(A) -> bool)
    requires
        forall|i: int| 0 <= i < s.len() ==> p(#[trigger] s[i]),
    ensures
        s.filter(p) == s,
    decreases s.len(),
{
    if s.len() == 0 {
        assert(s.filter(p) == Seq::<A>::empty()) by {
            reveal(Seq::filter);
        }
    } else {
        let d = s.drop_last();
        assert forall|i: int| 0 <= i < d.len() implies p(#[trigger] d[i]) by {
            assert(d[i] == s[i]);
        }
        lemma_filter_all_pass(d, p);
        d.lemma_filter_push(s.last(), p);
        assert(d.push(s.last()) == s);
    }
}

/// Searching one directory for `*` finds what listing it lists: the listing
/// holds the same records (as a multiset, in the served order), with the
/// same names, relative paths, kinds, sizes and modification times as the
/// search results.
pub proof fn lemma_star_search_is_listing(
    root: Seq<char>,
    items: Seq<FoundItem>,
    hits: Seq<SearchResult>,
    listing: Seq<FileEntry>,
)
    requires
        hits.len() == items.filter(name_matches(seq!['*'])).len(),
        forall|k: int|
            0 <= k < hits.len() ==> finds_item(
                #[trigger] hits[k],
                items.filter(name_matches(seq!['*']))[k],
                root,
            ),
        exists|listed: Seq<FileEntry>|
            #![trigger listed.to_multiset()]
            listed.len() == items.len() && (forall|k: int|
                0 <= k < listed.len() ==> lists_item(#[trigger] listed[k], items[k], root))
                && is_stable_sort_of(listing, listed, entry_order(SortKey::DirectoriesFirst, false)),
    ensures
        exists|listed: Seq<FileEntry>|
            #![trigger listed.to_multiset()]
            listing.to_multiset() == listed.to_multiset() && listed.len() == hits.len() && forall|k: int|
                0 <= k < listed.len() ==> {
                    &&& (#[trigger] listed[k]).name@ == hits[k].name@
                    &&& listed[k].path@ == hits[k].path@
                    &&& listed[k].is_dir == hits[k].is_dir
                    &&& listed[k].size == hits[k].size
                    &&& listed[k].modified == hits[k].modified
                },
{
    let p = name_matches(seq!['*']);
    lemma_filter_all_pass(items, p);
    let listed = choose|listed: Seq<FileEntry>|
        #![trigger listed.to_multiset()]
        listed.len() == items.len() && (forall|k: int|
            0 <= k < listed.len() ==> lists_item(#[trigger] listed[k], items[k], root))
            && is_stable_sort_of(listing, listed, entry_order(SortKey::DirectoriesFirst, false));
    assert forall|k: int| 0 <= k < listed.len() implies {
        &&& (#[trigger] listed[k]).name@ == hits[k].name@
        &&& listed[k].path@ == hits[k].path@
        &&& listed[k].is_dir == hits[k].is_dir
        &&& listed[k].size == hits[k].size
        &&& listed[k].modified == hits[k].modified
    } by {
        assert(lists_item(listed[k], items[k], root));
        assert(finds_item(hits[k], items.filter(p)[k], root));
    }
    assert(listing.to_multiset() == listed.to_multiset());
}

} // verus!
