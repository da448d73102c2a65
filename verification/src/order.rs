//! Orders on directory entries and a stable sort.
use vstd::prelude::*;
use crate::vfs::{FileEntry, Timestamp};
use crate::text::chars_of;

verus! {

broadcast use vstd::seq_lib::group_seq_properties;

/// The result of comparing two values.
#[derive(Clone, Copy, PartialEq, Eq, Structural, Debug)]
pub enum Comparison {
    Less,
    Equal,
    Greater,
}

/// The opposite result: `Less` and `Greater` swap.
pub open spec fn flip(c: Comparison) -> Comparison {
    match c {
        Comparison::Less => Comparison::Greater,
        Comparison::Equal => Comparison::Equal,
        Comparison::Greater => Comparison::Less,
    }
}

/// Lexicographic order on character sequences by code point (the order of
/// `str`'s `cmp`, since UTF-8 keeps code point order).
pub open spec fn compare_text(a: Seq<char>, b: Seq<char>) -> Comparison
    decreases a.len(),
{
    if a.len() == 0 {
        if b.len() == 0 {
            Comparison::Equal
        } else {
            Comparison::Less
        }
    } else if b.len() == 0 {
        Comparison::Greater
    } else if a[0] < b[0] {
        Comparison::Less
    } else if a[0] > b[0] {
        Comparison::Greater
    } else {
        compare_text(a.drop_first(), b.drop_first())
    }
}

/// The order of unsigned integers.
pub open spec fn compare_u64(a: u64, b: u64) -> Comparison {
    if a < b {
        Comparison::Less
    } else if a > b {
        Comparison::Greater
    } else {
        Comparison::Equal
    }
}

/// The order of instants.
pub open spec fn compare_times(a: Timestamp, b: Timestamp) -> Comparison {
    if a.secs < b.secs {
        Comparison::Less
    } else if a.secs > b.secs {
        Comparison::Greater
    } else {
        compare_u64(a.nanos as u64, b.nanos as u64)
    }
}

/// Comparing the other way round flips the result, and only equal texts
/// compare equal.
pub proof fn lemma_compare_text_flip(a: Seq<char>, b: Seq<char>)
    ensures
        compare_text(b, a) == flip(compare_text(a, b)),
        compare_text(a, b) == Comparison::Equal <==> a == b,
    decreases a.len(),
{
    if a.len() > 0 && b.len() > 0 {
        lemma_compare_text_flip(a.drop_first(), b.drop_first());
        if a[0] == b[0] && a.drop_first() == b.drop_first() {
            assert(a == seq![a[0]] + a.drop_first());
            assert(b == seq![b[0]] + b.drop_first());
        }
        if a == b {
            assert(a.drop_first() == b.drop_first());
        }
    } else if a.len() == 0 && b.len() == 0 {
        assert(a == b);
    }
}

/// "Not after" on texts is transitive.
pub proof fn lemma_compare_text_trans(a: Seq<char>, b: Seq<char>, c: Seq<char>)
    requires
        compare_text(a, b) != Comparison::Greater,
        compare_text(b, c) != Comparison::Greater,
    ensures
        compare_text(a, c) != Comparison::Greater,
    decreases a.len(),
{
    if a.len() > 0 && b.len() > 0 && c.len() > 0 {
        if a[0] == b[0] && b[0] == c[0] {
            lemma_compare_text_trans(a.drop_first(), b.drop_first(), c.drop_first());
        }
    }
}

/// `f` is a total preorder: swapping the arguments flips the result, and
/// "not greater" is transitive.
pub open spec fn is_total_preorder<A>(f: spec_fn(A, A) -> Comparison) -> bool {
    &&& forall|a: A, b: A| #[trigger] f(b, a) == flip(f(a, b))
    &&& forall|a: A, b: A, c: A|
        #![trigger f(a, b), f(b, c)]
        f(a, b) != Comparison::Greater && f(b, c) != Comparison::Greater ==> f(a, c)
            != Comparison::Greater
}

/// `s` is sorted by `f`: no element is greater than a later one.
pub open spec fn sorted_by_order<A>(s: Seq<A>, f: spec_fn(A, A) -> Comparison) -> bool {
    forall|i: int, j: int| 0 <= i < j < s.len() ==> #[trigger] f(s[i], s[j]) != Comparison::Greater
}

/// The elements of `s` that `f` ranks equal to `x`, in their order in `s`.
pub open spec fn equal_run<A>(s: Seq<A>, f: spec_fn(A, A) -> Comparison, x: A) -> Seq<A> {
    s.filter(|y: A| f(y, x) == Comparison::Equal)
}

/// `r` is `s` sorted stably by `f`: sorted, with the same elements, and with
/// the elements that `f` ranks equal in the order they had in `s`.
pub open spec fn is_stable_sort_of<A>(r: Seq<A>, s: Seq<A>, f: spec_fn(A, A) -> Comparison) -> bool {
    &&& sorted_by_order(r, f)
    &&& r.to_multiset() == s.to_multiset()
    &&& forall|x: A| #[trigger] equal_run(r, f, x) == equal_run(s, f, x)
}

/// The orders in which a listing can be sorted.
#[derive(Clone, Copy, PartialEq, Eq, Structural, Debug)]
pub enum SortKey {
    /// Directories before files, each by name.
    DirectoriesFirst,
    ByName,
    BySize,
    ByModified,
    ByCreated,
}

/// The creation time used for sorting: the epoch when unknown.
pub open spec fn created_or_epoch(e: FileEntry) -> Timestamp {
    match e.created {
        Some(t) => t,
        None => Timestamp { secs: 0, nanos: 0 },
    }
}

/// How `key` ranks `a` against `b`, in ascending order.
pub open spec fn compare_by_key(key: SortKey, a: FileEntry, b: FileEntry) -> Comparison {
    match key {
        SortKey::DirectoriesFirst => if a.is_dir == b.is_dir {
            compare_text(a.name@, b.name@)
        } else if a.is_dir {
            Comparison::Less
        } else {
            Comparison::Greater
        },
        SortKey::ByName => compare_text(a.name@, b.name@),
        SortKey::BySize => compare_u64(a.size, b.size),
        SortKey::ByModified => compare_times(a.modified, b.modified),
        SortKey::ByCreated => compare_times(created_or_epoch(a), created_or_epoch(b)),
    }
}

/// How entries are ranked: by `key`, the other way round when `descending`.
pub open spec fn entry_order(key: SortKey, descending: bool) -> spec_fn(FileEntry, FileEntry) -> Comparison {
    |a: FileEntry, b: FileEntry|
        if descending {
            flip(compare_by_key(key, a, b))
        } else {
            compare_by_key(key, a, b)
        }
}

/// Every entry order is a total preorder.
pub proof fn lemma_entry_order_preorder(key: SortKey, descending: bool)
    ensures
        is_total_preorder(entry_order(key, descending)),
{
    let f = entry_order(key, descending);
    assert forall|a: FileEntry, b: FileEntry| #[trigger] f(b, a) == flip(f(a, b)) by {
        lemma_compare_text_flip(a.name@, b.name@);
    }
    assert forall|a: FileEntry, b: FileEntry, c: FileEntry|
        #![trigger f(a, b), f(b, c)]
        f(a, b) != Comparison::Greater && f(b, c) != Comparison::Greater implies f(a, c)
            != Comparison::Greater by {
        lemma_compare_text_flip(a.name@, b.name@);
        lemma_compare_text_flip(b.name@, c.name@);
        lemma_compare_text_flip(a.name@, c.name@);
        if compare_text(c.name@, b.name@) != Comparison::Greater && compare_text(b.name@, a.name@)
            != Comparison::Greater {
            lemma_compare_text_trans(c.name@, b.name@, a.name@);
        }
        if compare_text(a.name@, b.name@) != Comparison::Greater && compare_text(b.name@, c.name@)
            != Comparison::Greater {
            lemma_compare_text_trans(a.name@, b.name@, c.name@);
        }
    }
}

} // verus!

verus! {

/// What a total preorder gives for three values.
proof fn lemma_preorder_facts<A>(f: spec_fn(A, A) -> Comparison, a: A, b: A, c: A)
    requires
        is_total_preorder(f),
    ensures
        f(a, a) == Comparison::Equal,
        f(a, b) == Comparison::Less && f(b, c) != Comparison::Greater ==> f(a, c) == Comparison::Less,
        f(a, b) == Comparison::Equal && f(b, c) == Comparison::Equal ==> f(a, c)
            == Comparison::Equal,
{
    assert(f(a, a) == flip(f(a, a)));
    assert(f(b, a) == flip(f(a, b)));
    assert(f(c, b) == flip(f(b, c)));
    assert(f(c, a) == flip(f(a, c)));
    if f(a, b) == Comparison::Less && f(b, c) != Comparison::Greater {
        if f(a, c) != Comparison::Less {
            assert(f(c, a) != Comparison::Greater);
            assert(f(b, a) == Comparison::Greater);
            assert(f(b, c) != Comparison::Greater && f(c, a) != Comparison::Greater);
        }
    }
    if f(a, b) == Comparison::Equal && f(b, c) == Comparison::Equal {
        assert(f(a, c) != Comparison::Greater);
        assert(f(c, b) == Comparison::Equal && f(b, a) == Comparison::Equal);
        assert(f(c, a) != Comparison::Greater);
    }
}

} // verus!

verus! {

/// Compares two strings lexicographically by code point.
pub fn compare_strings(a: &str, b: &str) -> (c: Comparison)
    ensures
        c == compare_text(a@, b@),
{
    let x = chars_of(a);
    let y = chars_of(b);
    let mut i: usize = 0;
    assert(x@.skip(0) == x@ && y@.skip(0) == y@);
    while i < x.len() && i < y.len()
        invariant
            i <= x.len() && i <= y.len(),
            compare_text(a@, b@) == compare_text(x@.skip(i as int), y@.skip(i as int)),
            x@ == a@ && y@ == b@,
        decreases x.len() - i,
    {
        assert(x@.skip(i as int)[0] == x@[i as int] && y@.skip(i as int)[0] == y@[i as int]);
        if x[i] < y[i] {
            return Comparison::Less;
        }
        if x[i] > y[i] {
            return Comparison::Greater;
        }
        assert(x@.skip(i as int).drop_first() == x@.skip(i + 1));
        assert(y@.skip(i as int).drop_first() == y@.skip(i + 1));
        i = i + 1;
    }
    if i == x.len() && i == y.len() {
        Comparison::Equal
    } else if i == x.len() {
        Comparison::Less
    } else {
        Comparison::Greater
    }
}

fn compare_u64_exec(a: u64, b: u64) -> (c: Comparison)
    ensures
        c == compare_u64(a, b),
{
    if a < b {
        Comparison::Less
    } else if a > b {
        Comparison::Greater
    } else {
        Comparison::Equal
    }
}

/// Compares two instants.
pub fn compare_timestamps(a: Timestamp, b: Timestamp) -> (c: Comparison)
    ensures
        c == compare_times(a, b),
{
    if a.secs < b.secs {
        Comparison::Less
    } else if a.secs > b.secs {
        Comparison::Greater
    } else {
        compare_u64_exec(a.nanos as u64, b.nanos as u64)
    }
}

fn created_or_epoch_exec(e: &FileEntry) -> (t: Timestamp)
    ensures
        t == created_or_epoch(*e),
{
    match e.created {
        Some(t) => t,
        None => Timestamp::epoch(),
    }
}

fn flip_exec(c: Comparison) -> (r: Comparison)
    ensures
        r == flip(c),
{
    match c {
        Comparison::Less => Comparison::Greater,
        Comparison::Equal => Comparison::Equal,
        Comparison::Greater => Comparison::Less,
    }
}

/// Ranks `a` against `b` as `entry_order(key, descending)` does.
pub fn compare_entries(key: SortKey, descending: bool, a: &FileEntry, b: &FileEntry) -> (c:
    Comparison)
    ensures
        c == (entry_order(key, descending))(*a, *b),
{
    let ascending = match key {
        SortKey::DirectoriesFirst => {
            if a.is_dir == b.is_dir {
                compare_strings(a.name.as_str(), b.name.as_str())
            } else if a.is_dir {
                Comparison::Less
            } else {
                Comparison::Greater
            }
        },
        SortKey::ByName => compare_strings(a.name.as_str(), b.name.as_str()),
        SortKey::BySize => compare_u64_exec(a.size, b.size),
        SortKey::ByModified => compare_timestamps(a.modified, b.modified),
        SortKey::ByCreated => compare_timestamps(created_or_epoch_exec(a), created_or_epoch_exec(b)),
    };
    if descending {
        flip_exec(ascending)
    } else {
        ascending
    }
}

/// What merging `a` and `b` has reached after taking their first `i` and
/// `j` elements into `out`.
pub open spec fn merge_progress<A>(
    out: Seq<A>,
    a: Seq<A>,
    b: Seq<A>,
    i: int,
    j: int,
    f: spec_fn(A, A) -> Comparison,
) -> bool {
    &&& 0 <= i <= a.len() && 0 <= j <= b.len()
    &&& sorted_by_order(out, f)
    &&& forall|p: int, h: int|
        0 <= p < out.len() && i <= h < a.len() ==> #[trigger] f(out[p], a[h]) != Comparison::Greater
    &&& forall|p: int, k: int|
        0 <= p < out.len() && j <= k < b.len() ==> #[trigger] f(out[p], b[k]) != Comparison::Greater
    &&& forall|k: int, h: int|
        0 <= k < j && i <= h < a.len() ==> #[trigger] f(a[h], b[k]) == Comparison::Greater
    &&& out.to_multiset() == (a.take(i) + b.take(j)).to_multiset()
    &&& forall|z: A| #[trigger]
        equal_run(out, f, z) == equal_run(a.take(i), f, z) + equal_run(b.take(j), f, z)
}

/// Nothing merged yet.
proof fn lemma_merge_start<A>(a: Seq<A>, b: Seq<A>, f: spec_fn(A, A) -> Comparison)
    ensures
        merge_progress(Seq::<A>::empty(), a, b, 0, 0, f),
{
    assert(a.take(0) + b.take(0) == Seq::<A>::empty());
    assert forall|z: A| #[trigger]
        equal_run(Seq::<A>::empty(), f, z) == equal_run(a.take(0), f, z) + equal_run(
            b.take(0),
            f,
            z,
        ) by {
        reveal(Seq::filter);
        assert(a.take(0) == Seq::<A>::empty());
        assert(b.take(0) == Seq::<A>::empty());
        assert(Seq::<A>::empty().filter(|y: A| f(y, z) == Comparison::Equal) == Seq::<A>::empty());
    }
}

/// Taking the next element of `a`, which ranks no higher than the next of `b`.
#[verifier::spinoff_prover]
#[verifier::rlimit(40)]
proof fn lemma_merge_take_a<A>(out: Seq<A>, a: Seq<A>, b: Seq<A>, i: int, j: int, f: spec_fn(
    A,
    A,
) -> Comparison)
    requires
        is_total_preorder(f),
        sorted_by_order(a, f),
        sorted_by_order(b, f),
        merge_progress(out, a, b, i, j, f),
        i < a.len(),
        j < b.len() ==> f(a[i], b[j]) != Comparison::Greater,
    ensures
        merge_progress(out.push(a[i]), a, b, i + 1, j, f),
{
    let x = a[i];
    let o2 = out.push(x);
    assert forall|p: int, q: int| 0 <= p < q < o2.len() implies #[trigger] f(o2[p], o2[q])
        != Comparison::Greater by {
        if q < out.len() {
            assert(o2[p] == out[p] && o2[q] == out[q]);
        } else {
            assert(o2[p] == out[p] && o2[q] == x);
        }
    }
    assert forall|p: int, h: int| 0 <= p < o2.len() && i + 1 <= h < a.len() implies #[trigger] f(
        o2[p],
        a[h],
    ) != Comparison::Greater by {
        if p < out.len() {
            assert(o2[p] == out[p]);
        } else {
            assert(f(a[i], a[h]) != Comparison::Greater);
        }
    }
    assert forall|p: int, k: int| 0 <= p < o2.len() && j <= k < b.len() implies #[trigger] f(
        o2[p],
        b[k],
    ) != Comparison::Greater by {
        if p < out.len() {
            assert(o2[p] == out[p]);
        } else {
            assert(o2[p] == x);
            assert(f(a[i], b[j]) != Comparison::Greater);
            if k > j {
                assert(f(b[j], b[k]) != Comparison::Greater);
            }
        }
    }
    // same elements
    assert(a.take(i + 1) + b.take(j) == (a.take(i) + b.take(j)).insert(i, x));
    vstd::seq_lib::to_multiset_insert(a.take(i) + b.take(j), i, x);
    vstd::seq_lib::to_multiset_build(out, x);
    // equal runs
    assert(a.take(i + 1) == a.take(i).push(x));
    assert forall|z: A| #[trigger] equal_run(o2, f, z) == equal_run(a.take(i + 1), f, z)
        + equal_run(b.take(j), f, z) by {
        let pr = |y: A| f(y, z) == Comparison::Equal;
        out.lemma_filter_push(x, pr);
        a.take(i).lemma_filter_push(x, pr);
        assert(equal_run(out, f, z) == equal_run(a.take(i), f, z) + equal_run(b.take(j), f, z));
        if pr(x) {
            let bj = b.take(j);
            assert forall|k: int| 0 <= k < bj.len() implies !pr(bj[k]) by {
                assert(bj[k] == b[k]);
                assert(f(a[i], b[k]) == Comparison::Greater);
                if pr(b[k]) {
                    assert(f(z, b[k]) == flip(f(b[k], z)));
                    lemma_preorder_facts(f, x, z, b[k]);
                }
            }
            assert(bj.all(|y: A| !pr(y)));
            bj.lemma_all_neg_filter_empty(pr);
            assert(bj.filter(pr) == Seq::<A>::empty());
            assert(equal_run(o2, f, z) == equal_run(a.take(i + 1), f, z));
            assert(equal_run(a.take(i + 1), f, z) + equal_run(bj, f, z) == equal_run(
                a.take(i + 1),
                f,
                z,
            ));
        } else {
            assert(equal_run(o2, f, z) == equal_run(out, f, z));
            assert(equal_run(a.take(i + 1), f, z) == equal_run(a.take(i), f, z));
        }
    }
}

/// Taking the next element of `b`, which ranks strictly lower than the next
/// of `a`.
#[verifier::spinoff_prover]
#[verifier::rlimit(40)]
proof fn lemma_merge_take_b<A>(out: Seq<A>, a: Seq<A>, b: Seq<A>, i: int, j: int, f: spec_fn(
    A,
    A,
) -> Comparison)
    requires
        is_total_preorder(f),
        sorted_by_order(a, f),
        sorted_by_order(b, f),
        merge_progress(out, a, b, i, j, f),
        j < b.len(),
        i < a.len() ==> f(a[i], b[j]) == Comparison::Greater,
    ensures
        merge_progress(out.push(b[j]), a, b, i, j + 1, f),
{
    let x = b[j];
    let o2 = out.push(x);
    assert forall|h: int| i <= h < a.len() implies f(x, a[h]) == Comparison::Less by {
        assert(f(x, a[i]) == flip(f(a[i], x)));
        if h > i {
            assert(f(a[i], a[h]) != Comparison::Greater);
        }
        lemma_preorder_facts(f, a[i], a[i], a[i]);
        lemma_preorder_facts(f, x, a[i], a[h]);
    }
    assert forall|p: int, q: int| 0 <= p < q < o2.len() implies #[trigger] f(o2[p], o2[q])
        != Comparison::Greater by {
        if q < out.len() {
            assert(o2[p] == out[p] && o2[q] == out[q]);
        } else {
            assert(o2[p] == out[p] && o2[q] == x);
        }
    }
    assert forall|p: int, h: int| 0 <= p < o2.len() && i <= h < a.len() implies #[trigger] f(
        o2[p],
        a[h],
    ) != Comparison::Greater by {
        if p < out.len() {
            assert(o2[p] == out[p]);
        } else {
            assert(f(x, a[h]) == Comparison::Less);
        }
    }
    assert forall|p: int, k: int| 0 <= p < o2.len() && j + 1 <= k < b.len() implies #[trigger] f(
        o2[p],
        b[k],
    ) != Comparison::Greater by {
        if p < out.len() {
            assert(o2[p] == out[p]);
        } else {
            assert(f(b[j], b[k]) != Comparison::Greater);
        }
    }
    assert forall|k: int, h: int| 0 <= k < j + 1 && i <= h < a.len() implies #[trigger] f(
        a[h],
        b[k],
    ) == Comparison::Greater by {
        if k == j {
            assert(f(x, a[h]) == Comparison::Less);
            assert(f(a[h], x) == flip(f(x, a[h])));
        }
    }
    // same elements
    assert(a.take(i) + b.take(j + 1) == (a.take(i) + b.take(j)).push(x));
    vstd::seq_lib::to_multiset_build(a.take(i) + b.take(j), x);
    vstd::seq_lib::to_multiset_build(out, x);
    // equal runs
    assert(b.take(j + 1) == b.take(j).push(x));
    assert forall|z: A| #[trigger] equal_run(o2, f, z) == equal_run(a.take(i), f, z) + equal_run(
        b.take(j + 1),
        f,
        z,
    ) by {
        let pr = |y: A| f(y, z) == Comparison::Equal;
        out.lemma_filter_push(x, pr);
        b.take(j).lemma_filter_push(x, pr);
        assert(equal_run(out, f, z) == equal_run(a.take(i), f, z) + equal_run(b.take(j), f, z));
        if pr(x) {
            assert(equal_run(a.take(i), f, z) + equal_run(b.take(j), f, z).push(x) == (equal_run(
                a.take(i),
                f,
                z,
            ) + equal_run(b.take(j), f, z)).push(x));
        }
    }
}

/// All of both merged: a stable sort of `a` followed by `b`.
proof fn lemma_merge_done<A>(out: Seq<A>, a: Seq<A>, b: Seq<A>, f: spec_fn(A, A) -> Comparison)
    requires
        merge_progress(out, a, b, a.len() as int, b.len() as int, f),
    ensures
        is_stable_sort_of(out, a + b, f),
{
    assert(a.take(a.len() as int) == a);
    assert(b.take(b.len() as int) == b);
    assert forall|z: A| #[trigger] equal_run(out, f, z) == equal_run(a + b, f, z) by {
        Seq::filter_distributes_over_add(a, b, |y: A| f(y, z) == Comparison::Equal);
    }
}

/// Sorting the two halves stably and merging them sorts the whole stably.
proof fn lemma_halves_sorted<A>(
    out: Seq<A>,
    sl: Seq<A>,
    sr: Seq<A>,
    left: Seq<A>,
    right: Seq<A>,
    f: spec_fn(A, A) -> Comparison,
)
    requires
        is_stable_sort_of(out, sl + sr, f),
        is_stable_sort_of(sl, left, f),
        is_stable_sort_of(sr, right, f),
    ensures
        is_stable_sort_of(out, left + right, f),
{
    vstd::seq_lib::lemma_multiset_commutative(sl, sr);
    vstd::seq_lib::lemma_multiset_commutative(left, right);
    assert forall|z: A| #[trigger] equal_run(out, f, z) == equal_run(left + right, f, z) by {
        Seq::filter_distributes_over_add(sl, sr, |y: A| f(y, z) == Comparison::Equal);
        Seq::filter_distributes_over_add(left, right, |y: A| f(y, z) == Comparison::Equal);
        assert(equal_run(sl, f, z) == equal_run(left, f, z));
        assert(equal_run(sr, f, z) == equal_run(right, f, z));
    }
}

/// The elements of `v` in reverse order.
pub(crate) fn reversed<T>(v: Vec<T>) -> (r: Vec<T>)
    ensures
        r@ == v@.reverse(),
{
    let ghost all = v@;
    let mut v = v;
    let mut r: Vec<T> = Vec::new();
    assert(all.skip(all.len() as int).reverse() == Seq::<T>::empty());
    while v.len() > 0
        invariant
            v@ == all.take(v.len() as int),
            r@ == all.skip(v.len() as int).reverse(),
            v.len() <= all.len(),
        decreases v.len(),
    {
        let ghost k = v.len() as int;
        let x = v.pop().unwrap();
        assert(x == all[k - 1]);
        r.push(x);
        assert(all.skip(k - 1).reverse() == all.skip(k).reverse().push(all[k - 1]));
        assert(v@ == all.take(k - 1));
    }
    assert(all.skip(0) == all);
    r
}

/// Merges two lists each sorted by the entry order, taking from `a` on ties.
fn merge_entries(a: Vec<FileEntry>, b: Vec<FileEntry>, key: SortKey, descending: bool) -> (r: Vec<
    FileEntry,
>)
    requires
        is_total_preorder(entry_order(key, descending)),
        sorted_by_order(a@, entry_order(key, descending)),
        sorted_by_order(b@, entry_order(key, descending)),
    ensures
        is_stable_sort_of(r@, a@ + b@, entry_order(key, descending)),
{
    let ghost f = entry_order(key, descending);
    let ghost sa = a@;
    let ghost sb = b@;
    let mut ra = reversed(a);
    let mut rb = reversed(b);
    let mut out: Vec<FileEntry> = Vec::new();
    let ghost mut i: int = 0;
    let ghost mut j: int = 0;
    proof {
        lemma_merge_start(sa, sb, f);
        assert(sa.skip(0) == sa && sb.skip(0) == sb);
    }
    while ra.len() > 0 || rb.len() > 0
        invariant
            f == entry_order(key, descending),
            is_total_preorder(f),
            sorted_by_order(sa, f),
            sorted_by_order(sb, f),
            0 <= i <= sa.len() && 0 <= j <= sb.len(),
            ra@ == sa.skip(i).reverse(),
            rb@ == sb.skip(j).reverse(),
            merge_progress(out@, sa, sb, i, j, f),
        decreases ra.len() + rb.len(),
    {
        let take_a = if ra.len() == 0 {
            false
        } else if rb.len() == 0 {
            true
        } else {
            compare_entries(key, descending, &ra[ra.len() - 1], &rb[rb.len() - 1])
                != Comparison::Greater
        };
        if take_a {
            proof {
                assert(ra@.last() == sa[i]);
                if rb.len() > 0 {
                    assert(rb@.last() == sb[j]);
                }
                lemma_merge_take_a(out@, sa, sb, i, j, f);
            }
            let x = ra.pop().unwrap();
            out.push(x);
            proof {
                assert(sa.skip(i).reverse().drop_last() == sa.skip(i + 1).reverse());
                i = i + 1;
            }
        } else {
            proof {
                assert(rb@.last() == sb[j]);
                if ra.len() > 0 {
                    assert(ra@.last() == sa[i]);
                }
                lemma_merge_take_b(out@, sa, sb, i, j, f);
            }
            let x = rb.pop().unwrap();
            out.push(x);
            proof {
                assert(sb.skip(j).reverse().drop_last() == sb.skip(j + 1).reverse());
                j = j + 1;
            }
        }
    }
    proof {
        lemma_merge_done(out@, sa, sb, f);
    }
    out
}

/// Sorts entries stably by the entry order (merge sort).
fn merge_sort_entries(v: Vec<FileEntry>, key: SortKey, descending: bool) -> (r: Vec<FileEntry>)
    requires
        is_total_preorder(entry_order(key, descending)),
    ensures
        is_stable_sort_of(r@, v@, entry_order(key, descending)),
    decreases v@.len(),
{
    let ghost f = entry_order(key, descending);
    if v.len() <= 1 {
        proof {
            vstd::seq_lib::lemma_multiset_commutative(v@, Seq::<FileEntry>::empty());
        }
        return v;
    }
    let ghost all = v@;
    let mid = v.len() / 2;
    let mut left = v;
    let right = left.split_off(mid);
    assert(all == left@ + right@);
    let sl = merge_sort_entries(left, key, descending);
    let sr = merge_sort_entries(right, key, descending);
    let ghost (gl, gr) = (sl@, sr@);
    let r = merge_entries(sl, sr, key, descending);
    proof {
        lemma_halves_sorted(r@, gl, gr, all.subrange(0, mid as int), all.subrange(
            mid as int,
            all.len() as int,
        ), f);
    }
    r
}

/// Sorts entries stably by `key`, the other way round when `descending`:
/// entries that rank equal keep their order.
pub fn sort_entries(entries: Vec<FileEntry>, key: SortKey, descending: bool) -> (r: Vec<FileEntry>)
    ensures
        is_stable_sort_of(r@, entries@, entry_order(key, descending)),
{
    proof {
        lemma_entry_order_preorder(key, descending);
    }
    merge_sort_entries(entries, key, descending)
}

} // verus!
