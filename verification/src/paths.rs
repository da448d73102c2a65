//! A model of Unix path syntax (pieces between separators, components,
//! joining, prefix tests and prefix stripping) with verified implementations.
use vstd::prelude::*;

verus! {

/// The character sequences of a vector of character vectors.
pub open spec fn views_of(v: Seq<Vec<char>>) -> Seq<Seq<char>> {
    v.map_values(|x: Vec<char>| x@)
}

/// The pieces of `p` between `/` separators: `k` separators give `k + 1`
/// pieces, some of which may be empty.
pub open spec fn pieces(p: Seq<char>) -> Seq<Seq<char>>
    decreases p.len(),
{
    if p.len() == 0 {
        seq![Seq::<char>::empty()]
    } else {
        let q = pieces(p.drop_last());
        if p.last() == '/' {
            q.push(Seq::<char>::empty())
        } else {
            q.update(q.len() - 1, q.last().push(p.last()))
        }
    }
}

/// Pieces glued back together with `/` between consecutive pieces.
pub open spec fn join_pieces(ps: Seq<Seq<char>>) -> Seq<char>
    decreases ps.len(),
{
    if ps.len() == 0 {
        Seq::<char>::empty()
    } else if ps.len() == 1 {
        ps[0]
    } else {
        join_pieces(ps.drop_last()) + seq!['/'] + ps.last()
    }
}

/// Splitting always gives at least one piece.
pub proof fn lemma_pieces_nonempty(p: Seq<char>)
    ensures
        pieces(p).len() >= 1,
    decreases p.len(),
{
    if p.len() > 0 {
        lemma_pieces_nonempty(p.drop_last());
    }
}

/// Splitting `a + b` splits both and merges the last piece of `a` with the
/// first piece of `b`.
pub proof fn lemma_pieces_concat(a: Seq<char>, b: Seq<char>)
    ensures
        pieces(a + b) == pieces(a).drop_last() + seq![pieces(a).last() + pieces(b)[0]]
            + pieces(b).drop_first(),
    decreases b.len(),
{
    lemma_pieces_nonempty(a);
    lemma_pieces_nonempty(b);
    if b.len() == 0 {
        assert(a + b == a);
        assert(pieces(b) == seq![Seq::<char>::empty()]);
        assert(pieces(a).last() + pieces(b)[0] == pieces(a).last());
        assert(pieces(a).drop_last() + seq![pieces(a).last()] == pieces(a));
    } else {
        let b0 = b.drop_last();
        lemma_pieces_concat(a, b0);
        lemma_pieces_nonempty(b0);
        assert((a + b).drop_last() == a + b0);
        assert((a + b).last() == b.last());
        let pa = pieces(a);
        let pb0 = pieces(b0);
        if b.last() == '/' {
            assert(pieces(b) == pb0.push(Seq::<char>::empty()));
            if pb0.len() == 1 {
                assert(pieces(b)[0] == pb0[0]);
            } else {
                assert(pieces(b)[0] == pb0[0]);
            }
            assert(pieces(b).drop_first() == pb0.drop_first().push(Seq::<char>::empty()));
            assert(pieces(a + b) == pieces(a + b0).push(Seq::<char>::empty()));
            assert(pieces(a + b) == pa.drop_last() + seq![pa.last() + pieces(b)[0]]
                + pieces(b).drop_first());
        } else {
            let c = b.last();
            assert(pieces(b) == pb0.update(pb0.len() - 1, pb0.last().push(c)));
            let q = pieces(a + b0);
            assert(pieces(a + b) == q.update(q.len() - 1, q.last().push(c)));
            if pb0.len() == 1 {
                assert(pieces(b)[0] == pb0[0].push(c));
                assert(pieces(b).drop_first() == pb0.drop_first());
                assert(pa.last() + pb0[0].push(c) == (pa.last() + pb0[0]).push(c));
                assert(pieces(a + b) == pa.drop_last() + seq![pa.last() + pieces(b)[0]]
                    + pieces(b).drop_first());
            } else {
                assert(pieces(b)[0] == pb0[0]);
                assert(pieces(b).drop_first() == pb0.drop_first().update(
                    pb0.len() - 2,
                    pb0.last().push(c),
                ));
                assert(pieces(a + b) == pa.drop_last() + seq![pa.last() + pieces(b)[0]]
                    + pieces(b).drop_first());
            }
        }
    }
}

/// Splits `p` into its pieces.
pub fn split_pieces(p: &Vec<char>) -> (ps: Vec<Vec<char>>)
    ensures
        views_of(ps@) == pieces(p@),
{
    let mut done: Vec<Vec<char>> = Vec::new();
    let mut cur: Vec<char> = Vec::new();
    let mut i: usize = 0;
    while i < p.len()
        invariant
            i <= p.len(),
            views_of(done@).push(cur@) == pieces(p@.take(i as int)),
        decreases p.len() - i,
    {
        let c = p[i];
        let ghost before = p@.take(i as int);
        assert(p@.take(i + 1).drop_last() == before);
        assert(p@.take(i + 1).last() == c);
        if c == '/' {
            let old_cur = cur;
            done.push(old_cur);
            cur = Vec::new();
            assert(views_of(done@) == views_of(done@.drop_last()).push(old_cur@));
        } else {
            let ghost oc = cur@;
            cur.push(c);
            let ghost q = views_of(done@).push(oc);
            assert(views_of(done@).push(cur@) == q.update(q.len() - 1, q.last().push(c)));
        }
        i = i + 1;
    }
    assert(p@.take(p.len() as int) == p@);
    done.push(cur);
    proof {
        assert(views_of(done@) == views_of(done@.drop_last()).push(done@.last()@));
    }
    done
}

} // verus!

verus! {

/// A piece that names no component: the empty piece and `.`.
pub open spec fn is_skip(x: Seq<char>) -> bool {
    x.len() == 0 || x == seq!['.']
}

/// `p` is absolute: it starts with the separator.
pub open spec fn has_root(p: Seq<char>) -> bool {
    p.len() > 0 && p[0] == '/'
}

/// `p` is relative and its first piece is `.` (kept as a current-directory component).
pub open spec fn starts_cur_dir(p: Seq<char>) -> bool {
    !has_root(p) && pieces(p)[0] == seq!['.']
}

/// How many leading pieces the start component (root or `.`) takes.
pub open spec fn start_count(p: Seq<char>) -> nat {
    if has_root(p) || starts_cur_dir(p) {
        1
    } else {
        0
    }
}

/// The root component `/`, the current-directory component `.`, or nothing.
pub open spec fn start_components(p: Seq<char>) -> Seq<Seq<char>> {
    if has_root(p) {
        seq![seq!['/']]
    } else if starts_cur_dir(p) {
        seq![seq!['.']]
    } else {
        Seq::<Seq<char>>::empty()
    }
}

/// The pieces after the start component.
pub open spec fn body_pieces(p: Seq<char>) -> Seq<Seq<char>> {
    pieces(p).skip(start_count(p) as int)
}

/// The pieces that name components, in order.
pub open spec fn normals(ps: Seq<Seq<char>>) -> Seq<Seq<char>>
    decreases ps.len(),
{
    if ps.len() == 0 {
        Seq::<Seq<char>>::empty()
    } else if is_skip(ps.last()) {
        normals(ps.drop_last())
    } else {
        normals(ps.drop_last()).push(ps.last())
    }
}

/// The components of `p` as std's `Path::components` yields them on Unix:
/// `/` for the root, `.` for a leading current directory, `..` for a parent,
/// and the text of every other non-empty, non-`.` piece.
pub open spec fn components(p: Seq<char>) -> Seq<Seq<char>> {
    start_components(p) + normals(body_pieces(p))
}

/// `base` is a leading run of `cs`.
pub open spec fn is_prefix_of<A>(base: Seq<A>, cs: Seq<A>) -> bool {
    base.len() <= cs.len() && cs.take(base.len() as int) == base
}

/// `p` starts with `base` in the sense of `Path::starts_with`: the
/// components of `base` are the first components of `p`.
pub open spec fn path_starts_with(p: Seq<char>, base: Seq<char>) -> bool {
    is_prefix_of(components(base), components(p))
}

/// The naming pieces of a concatenation are those of each part, in order.
pub proof fn lemma_normals_concat(a: Seq<Seq<char>>, b: Seq<Seq<char>>)
    ensures
        normals(a + b) == normals(a) + normals(b),
    decreases b.len(),
{
    if b.len() == 0 {
        assert(a + b == a);
    } else {
        lemma_normals_concat(a, b.drop_last());
        assert((a + b).drop_last() == a + b.drop_last());
    }
}

fn is_skip_exec(x: &Vec<char>) -> (r: bool)
    ensures
        r == is_skip(x@),
{
    let r = x.len() == 0 || (x.len() == 1 && x[0] == '.');
    proof {
        if x.len() == 1 && x[0] == '.' {
            assert(x@ == seq!['.']);
        }
    }
    r
}

/// The components of `p` (see [`components`]).
pub fn components_of(p: &Vec<char>) -> (cs: Vec<Vec<char>>)
    ensures
        views_of(cs@) == components(p@),
{
    let ps = split_pieces(p);
    proof {
        lemma_pieces_nonempty(p@);
    }
    let mut cs: Vec<Vec<char>> = Vec::new();
    let mut start: usize = 0;
    assert(ps@[0]@ == pieces(p@)[0]);
    if p.len() > 0 && p[0] == '/' {
        let root_piece: Vec<char> = vec!['/'];
        assert(root_piece@ == seq!['/']);
        cs.push(root_piece);
        start = 1;
    } else if ps[0].len() == 1 && ps[0][0] == '.' {
        assert(ps@[0]@ == seq!['.']);
        let dot_piece: Vec<char> = vec!['.'];
        assert(dot_piece@ == seq!['.']);
        cs.push(dot_piece);
        start = 1;
    } else {
        assert(ps@[0]@ != seq!['.']);
    }
    assert(views_of(cs@) == start_components(p@));
    assert(start == start_count(p@));
    let ghost body = body_pieces(p@);
    let mut i: usize = start;
    while i < ps.len()
        invariant
            start <= i <= ps.len(),
            views_of(ps@) == pieces(p@),
            start == start_count(p@),
            body == pieces(p@).skip(start as int),
            views_of(cs@) == start_components(p@) + normals(body.take(i - start)),
        decreases ps.len() - i,
    {
        let ghost prev = body.take(i - start);
        assert(body.take(i + 1 - start).drop_last() == prev);
        assert(body.take(i + 1 - start).last() == ps@[i as int]@);
        if !is_skip_exec(&ps[i]) {
            let piece = ps[i].clone();
            let ghost before = views_of(cs@);
            cs.push(piece);
            assert(normals(body.take(i + 1 - start)) == normals(prev).push(piece@));
            assert(views_of(cs@) == before.push(piece@));
            assert(start_components(p@) + normals(prev).push(piece@) == (start_components(p@)
                + normals(prev)).push(piece@));
        } else {
            assert(normals(body.take(i + 1 - start)) == normals(prev));
        }
        i = i + 1;
    }
    assert(body.take(ps.len() - start) == body);
    cs
}

} // verus!

verus! {

/// `p` adjoined to `base` as `Path::join` does on Unix: an absolute `p`
/// replaces `base`; otherwise a separator is put between them unless `base`
/// is empty or already ends with one.
pub open spec fn join_path(base: Seq<char>, p: Seq<char>) -> Seq<char> {
    if has_root(p) {
        p
    } else if base.len() == 0 || base.last() == '/' {
        base + p
    } else {
        base + seq!['/'] + p
    }
}

/// `Path::join` on character vectors.
pub fn join_chars(base: &Vec<char>, p: &Vec<char>) -> (r: Vec<char>)
    ensures
        r@ == join_path(base@, p@),
{
    if p.len() > 0 && p[0] == '/' {
        return p.clone();
    }
    let mut r = base.clone();
    if base.len() > 0 && base[base.len() - 1] != '/' {
        r.push('/');
    }
    let mut i: usize = 0;
    let ghost start = r@;
    while i < p.len()
        invariant
            i <= p.len(),
            r@ == start + p@.take(i as int),
        decreases p.len() - i,
    {
        r.push(p[i]);
        assert(p@.take(i + 1) == p@.take(i as int).push(p@[i as int]));
        i = i + 1;
    }
    assert(p@.take(p.len() as int) == p@);
    r
}

/// Whether the components of `base` are the first components of `cs`.
pub fn components_prefix(base: &Vec<Vec<char>>, cs: &Vec<Vec<char>>) -> (r: bool)
    ensures
        r == is_prefix_of(views_of(base@), views_of(cs@)),
{
    if base.len() > cs.len() {
        return false;
    }
    let mut i: usize = 0;
    while i < base.len()
        invariant
            base.len() <= cs.len(),
            i <= base.len(),
            forall|j: int| 0 <= j < i ==> base@[j]@ == cs@[j]@,
        decreases base.len() - i,
    {
        if !crate::text::chars_equal(&base[i], &cs[i]) {
            assert(views_of(cs@).take(base.len() as int)[i as int] != views_of(base@)[i as int]);
            return false;
        }
        i = i + 1;
    }
    assert(views_of(cs@).take(base.len() as int) == views_of(base@));
    true
}

/// `Path::starts_with` on character vectors.
pub fn starts_with_path(p: &Vec<char>, base: &Vec<char>) -> (r: bool)
    ensures
        r == path_starts_with(p@, base@),
{
    let cp = components_of(p);
    let cb = components_of(base);
    components_prefix(&cb, &cp)
}

} // verus!

verus! {

/// How many leading pieces of `ps` are passed to get over `n` naming pieces.
pub open spec fn consumed(ps: Seq<Seq<char>>, n: nat) -> nat
    decreases ps.len(),
{
    if n == 0 || ps.len() == 0 {
        0
    } else if is_skip(ps[0]) {
        1 + consumed(ps.drop_first(), n)
    } else {
        1 + consumed(ps.drop_first(), (n - 1) as nat)
    }
}

/// `ps` without its leading non-naming pieces.
pub open spec fn trim_front(ps: Seq<Seq<char>>) -> Seq<Seq<char>>
    decreases ps.len(),
{
    if ps.len() > 0 && is_skip(ps[0]) {
        trim_front(ps.drop_first())
    } else {
        ps
    }
}

/// `ps` without its trailing non-naming pieces.
pub open spec fn trim_back(ps: Seq<Seq<char>>) -> Seq<Seq<char>>
    decreases ps.len(),
{
    if ps.len() > 0 && is_skip(ps.last()) {
        trim_back(ps.drop_last())
    } else {
        ps
    }
}

/// `p` with trailing separators and trailing `.` pieces removed, but never
/// its root or leading `.` (what `Path::strip_prefix` gives for an empty base).
pub open spec fn trim_trailing(p: Seq<char>) -> Seq<char> {
    let rest = trim_back(body_pieces(p));
    if has_root(p) {
        seq!['/'] + join_pieces(rest)
    } else if starts_cur_dir(p) {
        if rest.len() == 0 {
            seq!['.']
        } else {
            seq!['.', '/'] + join_pieces(rest)
        }
    } else {
        join_pieces(rest)
    }
}

/// `Path::strip_prefix` on Unix: `None` unless `p` starts with `base`;
/// otherwise the text of `p` after the components of `base`, without leading
/// and trailing separators and `.` pieces.
pub open spec fn strip_path_prefix(p: Seq<char>, base: Seq<char>) -> Option<Seq<char>> {
    let cp = components(p);
    let cb = components(base);
    if !is_prefix_of(cb, cp) {
        None
    } else if cb.len() == 0 {
        Some(trim_trailing(p))
    } else {
        let body = body_pieces(p);
        let n = (cb.len() - start_components(p).len()) as nat;
        Some(join_pieces(trim_back(trim_front(body.skip(consumed(body, n) as int)))))
    }
}

fn start_count_exec(p: &Vec<char>, ps: &Vec<Vec<char>>) -> (n: usize)
    requires
        views_of(ps@) == pieces(p@),
    ensures
        n == start_count(p@),
        n <= ps.len(),
{
    proof {
        lemma_pieces_nonempty(p@);
    }
    assert(ps@[0]@ == pieces(p@)[0]);
    if p.len() > 0 && p[0] == '/' {
        1
    } else if ps[0].len() == 1 && ps[0][0] == '.' {
        assert(ps@[0]@ == seq!['.']);
        1
    } else {
        assert(ps@[0]@ != seq!['.']);
        0
    }
}

/// The index reached in `ps` after passing `n` naming pieces from `from`.
fn consumed_exec(ps: &Vec<Vec<char>>, from: usize, n: usize) -> (t: usize)
    requires
        from <= ps.len(),
    ensures
        from <= t <= ps.len(),
        t - from == consumed(views_of(ps@).skip(from as int), n as nat),
{
    let ghost w = views_of(ps@).skip(from as int);
    let mut i: usize = from;
    let mut count: usize = 0;
    assert(w.skip(0) == w);
    while count < n && i < ps.len()
        invariant
            from <= i <= ps.len(),
            count <= n,
            w == views_of(ps@).skip(from as int),
            consumed(w, n as nat) == (i - from) + consumed(w.skip(i - from), (n - count) as nat),
        decreases ps.len() - i,
    {
        let ghost k = i - from;
        assert(w.skip(k).drop_first() == w.skip(k + 1));
        assert(w.skip(k)[0] == ps@[i as int]@);
        if !is_skip_exec(&ps[i]) {
            count = count + 1;
        }
        i = i + 1;
    }
    proof {
        lemma_nothing_left_to_consume(w, i - from, (n - count) as nat);
    }
    i
}

/// Passing no more naming pieces, or passing them from the end, moves nowhere.
proof fn lemma_nothing_left_to_consume(w: Seq<Seq<char>>, k: int, m: nat)
    requires
        0 <= k <= w.len(),
        m == 0 || k == w.len(),
    ensures
        consumed(w.skip(k), m) == 0,
{
}

/// The range `lo..hi` of `ps` with leading and trailing non-naming pieces removed.
fn trim_range(ps: &Vec<Vec<char>>, lo: usize, hi: usize) -> (r: (usize, usize))
    requires
        lo <= hi <= ps.len(),
    ensures
        lo <= r.0 <= r.1 <= hi,
        views_of(ps@).subrange(r.0 as int, r.1 as int) == trim_back(
            trim_front(views_of(ps@).subrange(lo as int, hi as int)),
        ),
{
    let ghost v = views_of(ps@);
    let mut a: usize = lo;
    while a < hi && is_skip_exec(&ps[a])
        invariant
            lo <= a <= hi <= ps.len(),
            v == views_of(ps@),
            trim_front(v.subrange(lo as int, hi as int)) == trim_front(
                v.subrange(a as int, hi as int),
            ),
        decreases hi - a,
    {
        assert(v.subrange(a as int, hi as int).drop_first() == v.subrange(a + 1, hi as int));
        a = a + 1;
    }
    assert(trim_front(v.subrange(a as int, hi as int)) == v.subrange(a as int, hi as int));
    let mut b: usize = hi;
    while b > a && is_skip_exec(&ps[b - 1])
        invariant
            lo <= a <= b <= hi <= ps.len(),
            v == views_of(ps@),
            trim_back(v.subrange(a as int, hi as int)) == trim_back(v.subrange(a as int, b as int)),
        decreases b - a,
    {
        assert(v.subrange(a as int, b as int).drop_last() == v.subrange(a as int, b - 1));
        b = b - 1;
    }
    assert(trim_back(v.subrange(a as int, b as int)) == v.subrange(a as int, b as int));
    (a, b)
}

/// The pieces `lo..hi` of `ps` glued with separators.
fn join_range(ps: &Vec<Vec<char>>, lo: usize, hi: usize) -> (r: Vec<char>)
    requires
        lo <= hi <= ps.len(),
    ensures
        r@ == join_pieces(views_of(ps@).subrange(lo as int, hi as int)),
{
    let ghost v = views_of(ps@);
    let mut r: Vec<char> = Vec::new();
    let mut i: usize = lo;
    while i < hi
        invariant
            lo <= i <= hi <= ps.len(),
            v == views_of(ps@),
            r@ == join_pieces(v.subrange(lo as int, i as int)),
        decreases hi - i,
    {
        let ghost before = v.subrange(lo as int, i as int);
        assert(v.subrange(lo as int, i + 1).drop_last() == before);
        assert(v.subrange(lo as int, i + 1).last() == ps@[i as int]@);
        if i > lo {
            r.push('/');
        }
        let ghost mid = r@;
        let mut k: usize = 0;
        while k < ps[i].len()
            invariant
                lo <= i < hi <= ps.len(),
                k <= ps@[i as int]@.len(),
                r@ == mid + ps@[i as int]@.take(k as int),
            decreases ps@[i as int]@.len() - k,
        {
            r.push(ps[i][k]);
            assert(ps@[i as int]@.take(k + 1) == ps@[i as int]@.take(k as int).push(
                ps@[i as int]@[k as int],
            ));
            k = k + 1;
        }
        assert(ps@[i as int]@.take(ps@[i as int]@.len() as int) == ps@[i as int]@);
        i = i + 1;
    }
    r
}

/// `Path::strip_prefix` on character vectors.
pub fn strip_prefix_chars(p: &Vec<char>, base: &Vec<char>) -> (r: Option<Vec<char>>)
    ensures
        r matches Some(q) ==> strip_path_prefix(p@, base@) == Some(q@),
        r is None ==> strip_path_prefix(p@, base@) is None,
{
    let cp = components_of(p);
    let cb = components_of(base);
    if !components_prefix(&cb, &cp) {
        return None;
    }
    let ps = split_pieces(p);
    let start = start_count_exec(p, &ps);
    let ghost body = body_pieces(p@);
    assert(body == views_of(ps@).subrange(start as int, ps.len() as int));
    if cb.len() == 0 {
        let (lo2, hi2) = trim_back_range(&ps, start, ps.len());
        let rest = join_range(&ps, lo2, hi2);
        assert(views_of(ps@).subrange(lo2 as int, hi2 as int) == trim_back(body));
        if p.len() > 0 && p[0] == '/' {
            let mut out: Vec<char> = vec!['/'];
            append_chars(&mut out, &rest);
            assert(out@ == seq!['/'] + join_pieces(trim_back(body)));
            return Some(out);
        } else if start == 1 {
            if hi2 == lo2 {
                let out: Vec<char> = vec!['.'];
                assert(out@ == seq!['.']);
                return Some(out);
            }
            let mut out: Vec<char> = vec!['.', '/'];
            append_chars(&mut out, &rest);
            assert(out@ == seq!['.', '/'] + join_pieces(trim_back(body)));
            return Some(out);
        } else {
            return Some(rest);
        }
    }
    let n = cb.len() - start;
    let t = consumed_exec(&ps, start, n);
    assert(views_of(ps@).skip(start as int) == body);
    assert(body.skip((t - start) as int) == views_of(ps@).subrange(t as int, ps.len() as int));
    let (lo, hi) = trim_range(&ps, t, ps.len());
    Some(join_range(&ps, lo, hi))
}

/// The range `lo..hi` of `ps` with trailing non-naming pieces removed.
fn trim_back_range(ps: &Vec<Vec<char>>, lo: usize, hi: usize) -> (r: (usize, usize))
    requires
        lo <= hi <= ps.len(),
    ensures
        r.0 == lo,
        lo <= r.1 <= hi,
        views_of(ps@).subrange(lo as int, r.1 as int) == trim_back(
            views_of(ps@).subrange(lo as int, hi as int),
        ),
{
    let ghost v = views_of(ps@);
    let mut b: usize = hi;
    while b > lo && is_skip_exec(&ps[b - 1])
        invariant
            lo <= b <= hi <= ps.len(),
            v == views_of(ps@),
            trim_back(v.subrange(lo as int, hi as int)) == trim_back(v.subrange(lo as int, b as int)),
        decreases b - lo,
    {
        assert(v.subrange(lo as int, b as int).drop_last() == v.subrange(lo as int, b - 1));
        b = b - 1;
    }
    assert(trim_back(v.subrange(lo as int, b as int)) == v.subrange(lo as int, b as int));
    (lo, b)
}

/// Appends the characters of `t` to `v`.
pub fn append_chars(v: &mut Vec<char>, t: &Vec<char>)
    ensures
        final(v)@ == old(v)@ + t@,
{
    let mut i: usize = 0;
    while i < t.len()
        invariant
            i <= t.len(),
            v@ == old(v)@ + t@.take(i as int),
        decreases t.len() - i,
    {
        v.push(t[i]);
        assert(t@.take(i + 1) == t@.take(i as int).push(t@[i as int]));
        i = i + 1;
    }
    assert(t@.take(t.len() as int) == t@);
}

} // verus!

verus! {

/// Splitting a path into its pieces and gluing them back gives the path.
pub proof fn lemma_join_pieces_of_pieces(p: Seq<char>)
    ensures
        join_pieces(pieces(p)) == p,
    decreases p.len(),
{
    if p.len() > 0 {
        let p0 = p.drop_last();
        lemma_join_pieces_of_pieces(p0);
        lemma_pieces_nonempty(p0);
        let q = pieces(p0);
        if p.last() == '/' {
            assert(pieces(p) == q.push(Seq::<char>::empty()));
            assert(q.push(Seq::<char>::empty()).drop_last() == q);
            assert(p == p0 + seq!['/'] + Seq::<char>::empty());
        } else {
            let c = p.last();
            let r = q.update(q.len() - 1, q.last().push(c));
            assert(pieces(p) == r);
            assert(p == p0.push(c));
            if q.len() == 1 {
                assert(r[0] == q[0].push(c));
            } else {
                assert(r.drop_last() == q.drop_last());
                assert(r.last() == q.last().push(c));
                assert((join_pieces(q.drop_last()) + seq!['/'] + q.last()).push(c) == join_pieces(
                    q.drop_last(),
                ) + seq!['/'] + q.last().push(c));
            }
        }
    }
}

/// The first piece of a path that does not start with a separator is not
/// empty; that of one that does is.
pub proof fn lemma_first_piece(p: Seq<char>)
    requires
        p.len() > 0,
    ensures
        pieces(p)[0].len() > 0 <==> p[0] != '/',
{
    let head = seq![p[0]];
    let rest = p.skip(1);
    assert(p == head + rest);
    lemma_pieces_concat(head, rest);
    lemma_pieces_nonempty(rest);
    assert(head.drop_last() == Seq::<char>::empty());
    assert(pieces(Seq::<char>::empty()) == seq![Seq::<char>::empty()]);
    assert(head.last() == p[0]);
    if p[0] == '/' {
        assert(pieces(head) == seq![Seq::<char>::empty(), Seq::<char>::empty()]);
    } else {
        assert(pieces(head) == seq![Seq::<char>::empty()].update(0, Seq::<char>::empty().push(p[0])));
        assert(pieces(head).last() + pieces(rest)[0] == seq![p[0]] + pieces(rest)[0]);
    }
}

/// Whether the first piece names a component decides the first naming piece.
pub proof fn lemma_normals_front(a: Seq<Seq<char>>)
    requires
        a.len() > 0,
    ensures
        normals(a).len() == (if is_skip(a[0]) { 0int } else { 1int }) + normals(a.drop_first()).len(),
{
    let head = seq![a[0]];
    assert(a == head + a.drop_first());
    lemma_normals_concat(head, a.drop_first());
    assert(head.drop_last() == Seq::<Seq<char>>::empty());
    assert(normals(Seq::<Seq<char>>::empty()) == Seq::<Seq<char>>::empty());
}

/// Pieces without a naming piece are all empty or `.`.
pub proof fn lemma_no_normals_all_skip(a: Seq<Seq<char>>)
    requires
        normals(a).len() == 0,
    ensures
        forall|j: int| 0 <= j < a.len() ==> is_skip(#[trigger] a[j]),
    decreases a.len(),
{
    if a.len() > 0 {
        lemma_no_normals_all_skip(a.drop_last());
        assert forall|j: int| 0 <= j < a.len() implies is_skip(#[trigger] a[j]) by {
            if j < a.len() - 1 {
                assert(a[j] == a.drop_last()[j]);
            }
        }
    }
}

/// Passing over all the naming pieces of `a` in `a + b` stops within `a`,
/// and what is left of `a` names nothing.
pub proof fn lemma_consumed_over(a: Seq<Seq<char>>, b: Seq<Seq<char>>)
    ensures
        consumed(a + b, normals(a).len()) <= a.len(),
        forall|j: int|
            consumed(a + b, normals(a).len()) <= j < a.len() ==> is_skip(#[trigger] a[j]),
    decreases a.len(),
{
    if a.len() == 0 {
        assert(normals(a) == Seq::<Seq<char>>::empty());
    } else if normals(a).len() == 0 {
        lemma_no_normals_all_skip(a);
    } else {
        lemma_normals_front(a);
        let t = a.drop_first();
        lemma_consumed_over(t, b);
        assert((a + b).drop_first() == t + b);
        assert((a + b)[0] == a[0]);
        assert forall|j: int|
            consumed(a + b, normals(a).len()) <= j < a.len() implies is_skip(#[trigger] a[j]) by {
            assert(a[j] == t[j - 1]);
        }
    }
}

/// Leading pieces that name nothing are dropped up to a naming piece.
pub proof fn lemma_trim_front_skips(s: Seq<Seq<char>>, b: Seq<Seq<char>>)
    requires
        forall|j: int| 0 <= j < s.len() ==> is_skip(#[trigger] s[j]),
        b.len() > 0,
        !is_skip(b[0]),
    ensures
        trim_front(s + b) == b,
    decreases s.len(),
{
    if s.len() == 0 {
        assert(s + b == b);
    } else {
        assert((s + b)[0] == s[0]);
        assert((s + b).drop_first() == s.drop_first() + b);
        assert forall|j: int| 0 <= j < s.drop_first().len() implies is_skip(
            #[trigger] s.drop_first()[j],
        ) by {
            assert(s.drop_first()[j] == s[j + 1]);
        }
        lemma_trim_front_skips(s.drop_first(), b);
    }
}

} // verus!

verus! {

/// `ps` without its last naming piece and what follows it (nothing is left
/// when there is no naming piece).
pub open spec fn before_last_name(ps: Seq<Seq<char>>) -> Seq<Seq<char>>
    decreases ps.len(),
{
    if ps.len() == 0 {
        ps
    } else if is_skip(ps.last()) {
        before_last_name(ps.drop_last())
    } else {
        ps.drop_last()
    }
}

/// `Path::parent` on Unix: `None` for a path without components or with
/// the root alone; the empty path for a leading `.` alone; otherwise the
/// text before the last component, without trailing separators and `.`
/// pieces, keeping the root or the leading `.`.
pub open spec fn parent_path(p: Seq<char>) -> Option<Seq<char>> {
    let body = body_pieces(p);
    if normals(body).len() == 0 {
        if starts_cur_dir(p) {
            Some(Seq::<char>::empty())
        } else {
            None
        }
    } else {
        let rest = trim_back(before_last_name(body));
        if has_root(p) {
            Some(seq!['/'] + join_pieces(rest))
        } else if starts_cur_dir(p) {
            if rest.len() == 0 {
                Some(seq!['.'])
            } else {
                Some(seq!['.', '/'] + join_pieces(rest))
            }
        } else {
            Some(join_pieces(rest))
        }
    }
}

/// `Path::parent` on character vectors.
pub fn parent_chars(p: &Vec<char>) -> (r: Option<Vec<char>>)
    ensures
        r matches Some(q) ==> parent_path(p@) == Some(q@),
        r is None ==> parent_path(p@) is None,
{
    let ps = split_pieces(p);
    let start = start_count_exec(p, &ps);
    let ghost v = views_of(ps@);
    let ghost body = body_pieces(p@);
    assert(body == v.subrange(start as int, ps.len() as int));
    let mut k: usize = ps.len();
    while k > start && is_skip_exec(&ps[k - 1])
        invariant
            start <= k <= ps.len(),
            v == views_of(ps@),
            before_last_name(body) == before_last_name(v.subrange(start as int, k as int)),
            normals(body) == normals(v.subrange(start as int, k as int)),
        decreases k - start,
    {
        assert(v.subrange(start as int, k as int).drop_last() == v.subrange(start as int, k - 1));
        k = k - 1;
    }
    let rooted = p.len() > 0 && p[0] == '/';
    if k == start {
        assert(normals(v.subrange(start as int, k as int)) == Seq::<Seq<char>>::empty());
        if start == 1 && !rooted {
            return Some(Vec::new());
        }
        return None;
    }
    let ghost s = v.subrange(start as int, k as int);
    assert(s.last() == v[k - 1]);
    assert(s.drop_last() == v.subrange(start as int, k - 1));
    assert(normals(s).len() > 0);
    let (lo, hi) = trim_back_range(&ps, start, k - 1);
    let rest = join_range(&ps, lo, hi);
    if rooted {
        let mut out: Vec<char> = vec!['/'];
        append_chars(&mut out, &rest);
        return Some(out);
    }
    if start == 1 {
        if hi == lo {
            let out: Vec<char> = vec!['.'];
            return Some(out);
        }
        let mut out: Vec<char> = vec!['.', '/'];
        append_chars(&mut out, &rest);
        return Some(out);
    }
    Some(rest)
}

/// The parent of `path` as `Path::parent` gives it.
pub fn parent_of(path: &str) -> (r: Option<String>)
    ensures
        match r {
            Some(q) => parent_path(path@) == Some(q@),
            None => parent_path(path@) is None,
        },
{
    let p = crate::text::chars_of(path);
    match parent_chars(&p) {
        Some(q) => Some(crate::text::string_from_chars(&q)),
        None => None,
    }
}

} // verus!
