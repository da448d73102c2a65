//! Serving the embedded web UI: which asset answers a request path.
use vstd::prelude::*;
use crate::local::{guess_mime, guessed_mime, trim_leading_slashes};
use crate::text::{chars_of, string_from_chars};
use crate::webdav::{file_name, file_name_of};

verus! {

/// The name of `p` has an extension: a `.` after its first character.
pub open spec fn has_extension(p: Seq<char>) -> bool {
    match file_name(p) {
        Some(n) => exists|i: int| 0 < i < n.len() && n[i] == '.',
        None => false,
    }
}

/// The key an asset is looked up by: the request path without its leading
/// separators.
pub fn asset_key(path: &str) -> (k: String)
    ensures
        k@ == trim_leading_slashes(path@),
{
    let p = chars_of(path);
    let mut i: usize = 0;
    assert(p@.skip(0) == p@);
    while i < p.len() && p[i] == '/'
        invariant
            i <= p.len(),
            trim_leading_slashes(p@) == trim_leading_slashes(p@.skip(i as int)),
        decreases p.len() - i,
    {
        assert(p@.skip(i as int).drop_first() == p@.skip(i + 1));
        i = i + 1;
    }
    let mut r: Vec<char> = Vec::new();
    let mut k: usize = i;
    while k < p.len()
        invariant
            i <= k <= p.len(),
            r@ == p@.subrange(i as int, k as int),
        decreases p.len() - k,
    {
        r.push(p[k]);
        assert(p@.subrange(i as int, k + 1) == p@.subrange(i as int, k as int).push(p@[k as int]));
        k = k + 1;
    }
    assert(p@.subrange(i as int, p.len() as int) == p@.skip(i as int));
    string_from_chars(&r)
}

/// Whether the name of `path` has an extension (`Path::extension().is_some()`).
pub fn path_has_extension(path: &str) -> (b: bool)
    ensures
        b == has_extension(path@),
{
    let name = file_name_of(path);
    let n = chars_of(name.as_str());
    let mut i: usize = 1;
    let mut found = false;
    while i < n.len()
        invariant
            1 <= i <= n.len() || n.len() == 0,
            found == exists|j: int| 0 < j < i && j < n.len() && n@[j] == '.',
        decreases n.len() - i,
    {
        if n[i] == '.' {
            found = true;
        }
        i = i + 1;
    }
    proof {
        if file_name(path@) is None {
            assert(n@.len() == 0);
        }
    }
    found
}

/// How a request for a static asset is answered.
#[derive(Debug)]
pub enum StaticAnswer {
    /// The asset itself, with its MIME type.
    Asset { mime: String },
    /// The single-page app's `index.html`, as `text/html`.
    Index,
    /// 404.
    NotFound,
}

/// How to answer for the asset `key`, given whether it exists and whether
/// `index.html` exists: the asset if found; else, for a path without an
/// extension, the index page if there is one; else not found.
pub fn static_answer(key: &str, asset_found: bool, index_found: bool) -> (a: StaticAnswer)
    ensures
        asset_found ==> (a matches StaticAnswer::Asset { mime } && mime@ == guessed_mime(key@)),
        !asset_found && !has_extension(key@) && index_found ==> a is Index,
        !asset_found && (has_extension(key@) || !index_found) ==> a is NotFound,
{
    if asset_found {
        return StaticAnswer::Asset { mime: guess_mime(key) };
    }
    if !path_has_extension(key) && index_found {
        return StaticAnswer::Index;
    }
    StaticAnswer::NotFound
}

} // verus!
