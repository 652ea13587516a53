//! The order of paths, and lists of paths kept in it.

use crate::paths;
use vstd::prelude::*;

verus! {

/// -1, 0 or 1 as `a` is less than, equal to or greater than `b`.
pub open spec fn order_of(a: int, b: int) -> int {
    if a < b {
        -1
    } else if a > b {
        1
    } else {
        0
    }
}

/// The order of byte strings: by the first byte that differs, a prefix before the longer.
pub open spec fn bytes_order(a: Seq<u8>, b: Seq<u8>) -> int
    decreases a.len(),
{
    if a.len() == 0 || b.len() == 0 {
        order_of(a.len() as int, b.len() as int)
    } else if a.first() != b.first() {
        order_of(a.first() as int, b.first() as int)
    } else {
        bytes_order(a.drop_first(), b.drop_first())
    }
}

/// The order of components: by kind, names by their bytes.
pub open spec fn component_order(a: paths::Component, b: paths::Component) -> int {
    if a.rank() != b.rank() {
        order_of(a.rank(), b.rank())
    } else {
        bytes_order(a.name(), b.name())
    }
}

/// The order of component sequences: by the first that differs, a prefix before the longer.
pub open spec fn components_order(a: Seq<paths::Component>, b: Seq<paths::Component>) -> int
    decreases a.len(),
{
    if a.len() == 0 || b.len() == 0 {
        order_of(a.len() as int, b.len() as int)
    } else if component_order(a.first(), b.first()) != 0 {
        component_order(a.first(), b.first())
    } else {
        components_order(a.drop_first(), b.drop_first())
    }
}

/// The order of paths: component by component.
pub open spec fn path_order(a: Seq<u8>, b: Seq<u8>) -> int {
    components_order(paths::components(a), paths::components(b))
}

proof fn lemma_bytes_order(a: Seq<u8>, b: Seq<u8>)
    ensures
        -1 <= bytes_order(a, b) <= 1,
        bytes_order(b, a) == -bytes_order(a, b),
        bytes_order(a, b) == 0 <==> a == b,
    decreases a.len(),
{
    if a.len() > 0 && b.len() > 0 && a.first() == b.first() {
        lemma_bytes_order(a.drop_first(), b.drop_first());
        if a.drop_first() == b.drop_first() {
            assert(a == seq![a.first()] + a.drop_first());
            assert(b == seq![b.first()] + b.drop_first());
        }
    } else if a.len() == 0 && b.len() == 0 {
        assert(a == b);
    }
}

proof fn lemma_bytes_order_transitive(a: Seq<u8>, b: Seq<u8>, c: Seq<u8>)
    requires
        bytes_order(a, b) <= 0,
        bytes_order(b, c) <= 0,
    ensures
        bytes_order(a, c) <= 0,
    decreases a.len(),
{
    if a.len() > 0 && b.len() > 0 && c.len() > 0 && a.first() == b.first() && b.first()
        == c.first() {
        lemma_bytes_order_transitive(a.drop_first(), b.drop_first(), c.drop_first());
    }
}

proof fn lemma_component_order(a: paths::Component, b: paths::Component)
    ensures
        -1 <= component_order(a, b) <= 1,
        component_order(b, a) == -component_order(a, b),
        component_order(a, b) == 0 <==> a == b,
{
    lemma_bytes_order(a.name(), b.name());
}

proof fn lemma_component_order_transitive(a: paths::Component, b: paths::Component, c: paths::Component)
    requires
        component_order(a, b) <= 0,
        component_order(b, c) <= 0,
    ensures
        component_order(a, c) <= 0,
{
    if a.rank() == b.rank() && b.rank() == c.rank() {
        lemma_bytes_order_transitive(a.name(), b.name(), c.name());
    }
}

proof fn lemma_components_order(a: Seq<paths::Component>, b: Seq<paths::Component>)
    ensures
        -1 <= components_order(a, b) <= 1,
        components_order(b, a) == -components_order(a, b),
        components_order(a, b) == 0 <==> a == b,
    decreases a.len(),
{
    if a.len() > 0 && b.len() > 0 {
        lemma_component_order(a.first(), b.first());
        if a.first() == b.first() {
            lemma_components_order(a.drop_first(), b.drop_first());
            if a.drop_first() == b.drop_first() {
                assert(a == seq![a.first()] + a.drop_first());
                assert(b == seq![b.first()] + b.drop_first());
            }
        }
    } else if a.len() == 0 && b.len() == 0 {
        assert(a == b);
    }
}

proof fn lemma_components_order_transitive(
    a: Seq<paths::Component>,
    b: Seq<paths::Component>,
    c: Seq<paths::Component>,
)
    requires
        components_order(a, b) <= 0,
        components_order(b, c) <= 0,
    ensures
        components_order(a, c) <= 0,
    decreases a.len(),
{
    if a.len() > 0 && b.len() > 0 && c.len() > 0 {
        lemma_component_order(a.first(), b.first());
        lemma_component_order(b.first(), c.first());
        lemma_component_order(a.first(), c.first());
        lemma_component_order_transitive(a.first(), b.first(), c.first());
        if component_order(a.first(), c.first()) == 0 {
            if component_order(a.first(), b.first()) != 0 {
                lemma_component_order(c.first(), b.first());
            }
            lemma_components_order_transitive(a.drop_first(), b.drop_first(), c.drop_first());
        }
    }
}

/// Paths are totally ordered by their components: any two compare, one way or the other,
/// and they compare equal exactly when their components are the same.
pub proof fn law_path_order(a: Seq<u8>, b: Seq<u8>)
    ensures
        -1 <= path_order(a, b) <= 1,
        path_order(b, a) == -path_order(a, b),
        path_order(a, b) == 0 <==> paths::components(a) == paths::components(b),
{
    lemma_components_order(paths::components(a), paths::components(b));
}

/// The order of paths is transitive.
pub proof fn law_path_order_transitive(a: Seq<u8>, b: Seq<u8>, c: Seq<u8>)
    requires
        path_order(a, b) <= 0,
        path_order(b, c) <= 0,
    ensures
        path_order(a, c) <= 0,
{
    lemma_components_order_transitive(paths::components(a), paths::components(b), paths::components(c));
}

/// Compares `a[a_from..a_to]` with `b[b_from..b_to]`.
fn compare_bytes(
    a: &Vec<u8>,
    a_from: usize,
    a_to: usize,
    b: &Vec<u8>,
    b_from: usize,
    b_to: usize,
) -> (order: i8)
    requires
        a_from <= a_to <= a@.len(),
        b_from <= b_to <= b@.len(),
    ensures
        order == bytes_order(
            a@.subrange(a_from as int, a_to as int),
            b@.subrange(b_from as int, b_to as int),
        ),
{
    let mut i: usize = a_from;
    let mut j: usize = b_from;
    while i < a_to && j < b_to
        invariant
            i <= a_to <= a@.len(),
            j <= b_to <= b@.len(),
            bytes_order(
                a@.subrange(a_from as int, a_to as int),
                b@.subrange(b_from as int, b_to as int),
            ) == bytes_order(
                a@.subrange(i as int, a_to as int),
                b@.subrange(j as int, b_to as int),
            ),
        decreases a_to - i,
    {
        if a[i] < b[j] {
            return -1;
        }
        if a[i] > b[j] {
            return 1;
        }
        proof {
            assert(a@.subrange(i as int, a_to as int).drop_first() == a@.subrange(
                i + 1,
                a_to as int,
            ));
            assert(b@.subrange(j as int, b_to as int).drop_first() == b@.subrange(
                j + 1,
                b_to as int,
            ));
        }
        i = i + 1;
        j = j + 1;
    }
    if i < a_to {
        1
    } else if j < b_to {
        -1
    } else {
        0
    }
}

/// Compares two components.
fn compare_pieces(a: &Vec<u8>, x: paths::Piece, b: &Vec<u8>, y: paths::Piece) -> (order: i8)
    requires
        x.fits(a@),
        y.fits(b@),
    ensures
        order == component_order(x.component(a@), y.component(b@)),
{
    if x.rank < y.rank {
        -1
    } else if x.rank > y.rank {
        1
    } else if x.rank < 3 {
        0
    } else {
        compare_bytes(a, x.from, x.to, b, y.from, y.to)
    }
}

/// Compares two paths: -1, 0 or 1 as `a` comes before `b`, with it or after it.
pub fn compare_paths(a: &Vec<u8>, b: &Vec<u8>) -> (order: i8)
    ensures
        order == path_order(a@, b@),
{
    let xs: Vec<paths::Piece> = paths::pieces_of(a);
    let ys: Vec<paths::Piece> = paths::pieces_of(b);
    let ghost left = paths::components(a@);
    let ghost right = paths::components(b@);
    let mut i: usize = 0;
    proof {
        assert(left.skip(0) == left);
        assert(right.skip(0) == right);
    }
    while i < xs.len() && i < ys.len()
        invariant
            i <= xs@.len(),
            i <= ys@.len(),
            left == paths::components(a@),
            left == paths::components_at(a@, xs@),
            right == paths::components(b@),
            right == paths::components_at(b@, ys@),
            forall|k: int| 0 <= k < xs@.len() ==> (#[trigger] xs@[k]).fits(a@),
            forall|k: int| 0 <= k < ys@.len() ==> (#[trigger] ys@[k]).fits(b@),
            components_order(left, right) == components_order(
                left.skip(i as int),
                right.skip(i as int),
            ),
        decreases xs@.len() - i,
    {
        let order: i8 = compare_pieces(a, xs[i], b, ys[i]);
        proof {
            assert(left.skip(i as int).first() == xs@[i as int].component(a@));
            assert(right.skip(i as int).first() == ys@[i as int].component(b@));
            assert(left.skip(i as int).drop_first() == left.skip(i + 1));
            assert(right.skip(i as int).drop_first() == right.skip(i + 1));
        }
        if order != 0 {
            return order;
        }
        i = i + 1;
    }
    if i < xs.len() {
        1
    } else if i < ys.len() {
        -1
    } else {
        0
    }
}


/// `path` put into the ascending list `paths`, behind all that compare less or equal.
pub open spec fn insert_path(paths: Seq<Seq<u8>>, path: Seq<u8>) -> Seq<Seq<u8>>
    decreases paths.len(),
{
    if paths.len() == 0 || path_order(paths.last(), path) <= 0 {
        paths.push(path)
    } else {
        insert_path(paths.drop_last(), path).push(paths.last())
    }
}

/// `paths` in ascending order; those that compare equal keep theirs.
pub open spec fn sorted_paths(paths: Seq<Seq<u8>>) -> Seq<Seq<u8>>
    decreases paths.len(),
{
    if paths.len() == 0 {
        Seq::empty()
    } else {
        insert_path(sorted_paths(paths.drop_last()), paths.last())
    }
}

/// No path comes before one that it follows.
pub open spec fn is_ascending(paths: Seq<Seq<u8>>) -> bool {
    forall|i: int, j: int|
        0 <= i < j < paths.len() ==> path_order(#[trigger] paths[i], #[trigger] paths[j]) <= 0
}

/// The bytes that a list of paths holds.
pub open spec fn all_bytes(list: Seq<Vec<u8>>) -> Seq<Seq<u8>> {
    list.map_values(|path: Vec<u8>| path@)
}

proof fn lemma_insert_at(paths: Seq<Seq<u8>>, path: Seq<u8>, at: int)
    requires
        0 <= at <= paths.len(),
        at > 0 ==> path_order(paths[at - 1], path) <= 0,
        forall|i: int| at <= i < paths.len() ==> path_order(#[trigger] paths[i], path) > 0,
    ensures
        insert_path(paths, path) == paths.insert(at, path),
    decreases paths.len(),
{
    if at < paths.len() {
        assert(path_order(paths[paths.len() - 1], path) > 0);
        lemma_insert_at(paths.drop_last(), path, at);
        assert(paths.insert(at, path) == paths.drop_last().insert(at, path).push(paths.last()));
    } else {
        assert(paths.insert(at, path) == paths.push(path));
    }
}

/// Puts `path` into a list of paths that is kept in order.
pub fn insert_sorted(list: &mut Vec<Vec<u8>>, path: Vec<u8>)
    ensures
        all_bytes(final(list)@) == insert_path(all_bytes(old(list)@), path@),
{
    let ghost before = all_bytes(list@);
    let mut at: usize = list.len();
    while at > 0 && compare_paths(&list[at - 1], &path) > 0
        invariant
            at <= list@.len(),
            before == all_bytes(list@),
            forall|i: int| at <= i < before.len() ==> path_order(#[trigger] before[i], path@) > 0,
        decreases at,
    {
        assert(before[at - 1] == list@[at - 1]@);
        at = at - 1;
    }
    proof {
        if at > 0 {
            assert(before[at - 1] == list@[at - 1]@);
        }
        lemma_insert_at(before, path@, at as int);
    }
    let ghost bytes = path@;
    list.insert(at, path);
    assert(all_bytes(list@) == before.insert(at as int, bytes));
}

proof fn lemma_insert_path(paths: Seq<Seq<u8>>, path: Seq<u8>)
    requires
        is_ascending(paths),
    ensures
        is_ascending(insert_path(paths, path)),
        insert_path(paths, path).to_multiset() == paths.to_multiset().insert(path),
    decreases paths.len(),
{
    broadcast use vstd::seq_lib::group_to_multiset_ensures;

    let all = insert_path(paths, path);
    if paths.len() == 0 || path_order(paths.last(), path) <= 0 {
        assert forall|i: int, j: int| 0 <= i < j < all.len() implies path_order(
            #[trigger] all[i],
            #[trigger] all[j],
        ) <= 0 by {
            if j < paths.len() {
                assert(path_order(paths[i], paths[j]) <= 0);
            } else if i < paths.len() - 1 {
                assert(path_order(paths[i], paths[paths.len() - 1]) <= 0);
                law_path_order_transitive(paths[i], paths.last(), path);
            }
        }
    } else {
        let init = paths.drop_last();
        let last = paths.last();
        assert forall|i: int, j: int| 0 <= i < j < init.len() implies path_order(
            #[trigger] init[i],
            #[trigger] init[j],
        ) <= 0 by {
            assert(path_order(paths[i], paths[j]) <= 0);
        }
        lemma_insert_path(init, path);
        let inner = insert_path(init, path);
        assert(paths == init.push(last));
        assert(all.to_multiset() == inner.to_multiset().insert(last));
        assert(all.to_multiset() == paths.to_multiset().insert(path));
        assert forall|i: int, j: int| 0 <= i < j < all.len() implies path_order(
            #[trigger] all[i],
            #[trigger] all[j],
        ) <= 0 by {
            if j < inner.len() {
                assert(path_order(inner[i], inner[j]) <= 0);
            } else {
                let p = inner[i];
                assert(inner.to_multiset().count(p) > 0);
                if p == path {
                    law_path_order(last, path);
                } else {
                    assert(init.to_multiset().count(p) > 0);
                    assert(init.contains(p));
                    let k = choose|k: int| 0 <= k < init.len() && init[k] == p;
                    assert(path_order(paths[k], paths[paths.len() - 1]) <= 0);
                }
            }
        }
    }
}

/// Sorting keeps every path as often as it was there, and puts them in ascending order.
pub proof fn law_sorted_paths(paths: Seq<Seq<u8>>)
    ensures
        is_ascending(sorted_paths(paths)),
        sorted_paths(paths).to_multiset() == paths.to_multiset(),
    decreases paths.len(),
{
    broadcast use vstd::seq_lib::group_to_multiset_ensures;

    if paths.len() > 0 {
        law_sorted_paths(paths.drop_last());
        lemma_insert_path(sorted_paths(paths.drop_last()), paths.last());
        assert(paths == paths.drop_last().push(paths.last()));
    }
}

/// What a filter keeps of one path more.
pub proof fn lemma_filter_push(paths: Seq<Seq<u8>>, path: Seq<u8>, keep: spec_fn(Seq<u8>) -> bool)
    ensures
        paths.push(path).filter(keep) == if keep(path) {
            paths.filter(keep).push(path)
        } else {
            paths.filter(keep)
        },
{
    reveal(Seq::filter);
    assert(paths.push(path).drop_last() == paths);
}

proof fn lemma_insert_keeps_order(paths: Seq<Seq<u8>>, path: Seq<u8>, like: Seq<u8>)
    requires
        is_ascending(paths),
    ensures
        insert_path(paths, path).filter(|p: Seq<u8>| path_order(p, like) == 0) == paths.push(
            path,
        ).filter(|p: Seq<u8>| path_order(p, like) == 0),
    decreases paths.len(),
{
    let same = |p: Seq<u8>| path_order(p, like) == 0;
    if !(paths.len() == 0 || path_order(paths.last(), path) <= 0) {
        let init = paths.drop_last();
        let last = paths.last();
        assert forall|i: int, j: int| 0 <= i < j < init.len() implies path_order(
            #[trigger] init[i],
            #[trigger] init[j],
        ) <= 0 by {
            assert(path_order(paths[i], paths[j]) <= 0);
        }
        lemma_insert_keeps_order(init, path, like);
        let inner = insert_path(init, path);
        if same(path) && same(last) {
            law_path_order(path, like);
            law_path_order_transitive(last, like, path);
        }
        assert(!(same(path) && same(last)));
        assert(paths == init.push(last));
        lemma_filter_push(inner, last, same);
        lemma_filter_push(paths, path, same);
        lemma_filter_push(init, last, same);
        lemma_filter_push(init, path, same);
    }
}

/// Sorting is stable: paths that compare equal stay in the order that they came in.
pub proof fn law_sort_is_stable(paths: Seq<Seq<u8>>, like: Seq<u8>)
    ensures
        sorted_paths(paths).filter(|p: Seq<u8>| path_order(p, like) == 0) == paths.filter(
            |p: Seq<u8>| path_order(p, like) == 0,
        ),
    decreases paths.len(),
{
    if paths.len() > 0 {
        let same = |p: Seq<u8>| path_order(p, like) == 0;
        let init = paths.drop_last();
        law_sort_is_stable(init, like);
        law_sorted_paths(init);
        lemma_insert_keeps_order(sorted_paths(init), paths.last(), like);
        assert(paths == init.push(paths.last()));
        lemma_filter_push(init, paths.last(), same);
        lemma_filter_push(sorted_paths(init), paths.last(), same);
    }
}

proof fn lemma_ascending_unique(a: Seq<Seq<u8>>, b: Seq<Seq<u8>>)
    requires
        is_ascending(a),
        is_ascending(b),
        a.to_multiset() == b.to_multiset(),
        forall|i: int, j: int|
            0 <= i < a.len() && 0 <= j < a.len() && path_order(#[trigger] a[i], #[trigger] a[j])
                == 0 ==> a[i] == a[j],
    ensures
        a == b,
    decreases a.len(),
{
    broadcast use vstd::seq_lib::group_to_multiset_ensures;

    assert(a.to_multiset().len() == a.len());
    assert(b.to_multiset().len() == b.len());
    if a.len() == 0 {
        assert(a == b);
    } else {
        let x = a.last();
        let y = b.last();
        assert(a.to_multiset().count(x) > 0);
        assert(b.contains(x));
        let j = choose|j: int| 0 <= j < b.len() && b[j] == x;
        assert(b.to_multiset().count(y) > 0);
        assert(a.contains(y));
        let i = choose|i: int| 0 <= i < a.len() && a[i] == y;
        law_path_order(x, x);
        law_path_order(x, y);
        assert(path_order(a[i], a[a.len() - 1]) <= 0);
        assert(path_order(b[j], b[b.len() - 1]) <= 0);
        assert(x == y);
        let init_a = a.drop_last();
        let init_b = b.drop_last();
        assert(a == init_a.push(x));
        assert(b == init_b.push(x));
        assert(a.to_multiset() == init_a.to_multiset().insert(x));
        assert(b.to_multiset() == init_b.to_multiset().insert(x));
        assert(init_a.to_multiset() == a.to_multiset().remove(x));
        assert(init_b.to_multiset() == b.to_multiset().remove(x));
        assert forall|i: int, j: int| 0 <= i < j < init_a.len() implies path_order(
            #[trigger] init_a[i],
            #[trigger] init_a[j],
        ) <= 0 by {
            assert(path_order(a[i], a[j]) <= 0);
        }
        assert forall|i: int, j: int| 0 <= i < j < init_b.len() implies path_order(
            #[trigger] init_b[i],
            #[trigger] init_b[j],
        ) <= 0 by {
            assert(path_order(b[i], b[j]) <= 0);
        }
        assert forall|i: int, j: int|
            0 <= i < init_a.len() && 0 <= j < init_a.len() && path_order(
                #[trigger] init_a[i],
                #[trigger] init_a[j],
            ) == 0 implies init_a[i] == init_a[j] by {
            assert(a[i] == init_a[i] && a[j] == init_a[j]);
        }
        lemma_ascending_unique(init_a, init_b);
    }
}

/// Where no two different paths compare equal, the order in which they came does not show
/// in the sorted list.
pub proof fn law_sort_forgets_order(a: Seq<Seq<u8>>, b: Seq<Seq<u8>>)
    requires
        a.to_multiset() == b.to_multiset(),
        forall|i: int, j: int|
            0 <= i < a.len() && 0 <= j < a.len() && path_order(#[trigger] a[i], #[trigger] a[j])
                == 0 ==> a[i] == a[j],
    ensures
        sorted_paths(a) == sorted_paths(b),
{
    broadcast use vstd::seq_lib::group_to_multiset_ensures;

    law_sorted_paths(a);
    law_sorted_paths(b);
    let s = sorted_paths(a);
    assert forall|i: int, j: int|
        0 <= i < s.len() && 0 <= j < s.len() && path_order(#[trigger] s[i], #[trigger] s[j])
            == 0 implies s[i] == s[j] by {
        assert(s.to_multiset().count(s[i]) > 0);
        assert(s.to_multiset().count(s[j]) > 0);
        assert(a.contains(s[i]) && a.contains(s[j]));
        let k = choose|k: int| 0 <= k < a.len() && a[k] == s[i];
        let l = choose|l: int| 0 <= l < a.len() && a[l] == s[j];
        assert(path_order(a[k], a[l]) == 0);
    }
    lemma_ascending_unique(s, sorted_paths(b));
}

/// `a` and `b` are the same for `k` bytes, and there `a` ends or has the lower byte.
pub open spec fn bytes_before(a: Seq<u8>, b: Seq<u8>, k: int) -> bool {
    &&& 0 <= k <= a.len()
    &&& k < b.len()
    &&& forall|i: int| 0 <= i < k ==> #[trigger] a[i] == b[i]
    &&& k < a.len() ==> a[k] < b[k]
}

proof fn lemma_bytes_before(a: Seq<u8>, b: Seq<u8>, k: int)
    requires
        bytes_before(a, b, k),
    ensures
        bytes_order(a, b) == -1,
    decreases k,
{
    if k > 0 {
        let x = a.drop_first();
        let y = b.drop_first();
        assert(a[0] == b[0]);
        assert forall|i: int| 0 <= i < k - 1 implies #[trigger] x[i] == y[i] by {
            assert(a[i + 1] == b[i + 1]);
        }
        lemma_bytes_before(x, y, k - 1);
    }
}

proof fn lemma_common_front(
    front: Seq<paths::Component>,
    a: Seq<paths::Component>,
    b: Seq<paths::Component>,
)
    ensures
        components_order(front + a, front + b) == components_order(a, b),
    decreases front.len(),
{
    if front.len() == 0 {
        assert(front + a == a);
        assert(front + b == b);
    } else {
        lemma_component_order(front.first(), front.first());
        lemma_common_front(front.drop_first(), a, b);
        assert((front + a).drop_first() == front.drop_first() + a);
        assert((front + b).drop_first() == front.drop_first() + b);
    }
}

/// Two paths are the same up to a directory, and in it the name on the first comes before the
/// name on the second by its bytes, whatever follows either.
pub open spec fn parts_ways(
    a: Seq<u8>,
    b: Seq<u8>,
    front: Seq<u8>,
    x: Seq<u8>,
    y: Seq<u8>,
    k: int,
    below_x: Seq<u8>,
    below_y: Seq<u8>,
) -> bool {
    &&& a == front + x + below_x
    &&& b == front + y + below_y
    &&& paths::is_front(front)
    &&& paths::is_plain(x)
    &&& paths::is_plain(y)
    &&& paths::is_rest(below_x)
    &&& paths::is_rest(below_y)
    &&& bytes_before(x, y, k)
}

/// `b` lies below the directory `a`.
pub open spec fn lies_below(b: Seq<u8>, a: Seq<u8>, name: Seq<u8>, rest: Seq<u8>) -> bool {
    &&& a.len() > 0
    &&& b == a + seq![0x2fu8] + name + rest
    &&& paths::is_plain(name)
    &&& paths::is_rest(rest)
}

/// In the order of paths, names in one directory stand by their bytes, with all that is
/// below them.
pub proof fn lemma_names_stand_by_bytes(
    a: Seq<u8>,
    b: Seq<u8>,
    front: Seq<u8>,
    x: Seq<u8>,
    y: Seq<u8>,
    k: int,
    below_x: Seq<u8>,
    below_y: Seq<u8>,
)
    requires
        parts_ways(a, b, front, x, y, k, below_x, below_y),
    ensures
        path_order(a, b) == -1,
{
    paths::lemma_components_split(front, x, below_x);
    paths::lemma_components_split(front, y, below_y);
    lemma_bytes_before(x, y, k);
    let base = paths::components(front);
    let more = seq![paths::Component::Name(x)] + paths::steps_behind(below_x);
    let others = seq![paths::Component::Name(y)] + paths::steps_behind(below_y);
    assert(paths::components(a) == base + more);
    assert(paths::components(b) == base + others);
    lemma_common_front(base, more, others);
    assert(more.first() == paths::Component::Name(x));
    assert(others.first() == paths::Component::Name(y));
}

/// In the order of paths, a directory stands before all that is below it.
pub proof fn lemma_directory_stands_first(a: Seq<u8>, b: Seq<u8>, name: Seq<u8>, rest: Seq<u8>)
    requires
        lies_below(b, a, name, rest),
    ensures
        path_order(a, b) == -1,
{
    paths::lemma_components_below(a, name, rest);
    let base = paths::components(a);
    let none = Seq::<paths::Component>::empty();
    let more = seq![paths::Component::Name(name)] + paths::steps_behind(rest);
    assert(base + none == base);
    lemma_common_front(base, none, more);
}

/// Paths compare name by name from the front: by the bytes of the first names that differ,
/// and a directory comes before what is below it. The other way round they compare the other
/// way, and a path compares equal to itself.
pub proof fn law_paths_compare_name_by_name(
    a: &Vec<u8>,
    b: &Vec<u8>,
    order: i8,
    turned: i8,
    front: Seq<u8>,
    x: Seq<u8>,
    y: Seq<u8>,
    k: int,
    below_x: Seq<u8>,
    below_y: Seq<u8>,
)
    requires
        call_ensures(compare_paths, (a, b), order),
        call_ensures(compare_paths, (b, a), turned),
    ensures
        parts_ways(a@, b@, front, x, y, k, below_x, below_y) ==> order == -1 && turned == 1,
        lies_below(b@, a@, x, below_x) ==> order == -1 && turned == 1,
        a@ == b@ ==> order == 0 && turned == 0,
{
    law_path_order(a@, b@);
    if parts_ways(a@, b@, front, x, y, k, below_x, below_y) {
        lemma_names_stand_by_bytes(a@, b@, front, x, y, k, below_x, below_y);
    }
    if lies_below(b@, a@, x, below_x) {
        lemma_directory_stands_first(a@, b@, x, below_x);
    }
}

/// A path that is put into a list in order makes the list longer by one, is then in it, and
/// leaves the others in their places and in their order.
pub proof fn law_insertion_adds_one(before: Vec<Vec<u8>>, path: Vec<u8>, after: Vec<Vec<u8>>) -> (at: int)
    requires
        all_bytes(after@) == insert_path(all_bytes(before@), path@),
    ensures
        0 <= at <= before@.len(),
        after@.len() == before@.len() + 1,
        after@[at]@ == path@,
        forall|i: int| 0 <= i < at ==> (#[trigger] after@[i])@ == before@[i]@,
        forall|i: int| at < i < after@.len() ==> (#[trigger] after@[i])@ == before@[i - 1]@,
{
    let was = all_bytes(before@);
    let is = all_bytes(after@);
    let at = lemma_insert_somewhere(was, path@);
    assert(is.len() == after@.len());
    assert(was.len() == before@.len());
    assert(is[at] == after@[at]@);
    assert forall|i: int| 0 <= i < at implies (#[trigger] after@[i])@ == before@[i]@ by {
        assert(is[i] == after@[i]@ && was[i] == before@[i]@);
    }
    assert forall|i: int| at < i < after@.len() implies (#[trigger] after@[i])@ == before@[i
        - 1]@ by {
        assert(is[i] == after@[i]@ && was[i - 1] == before@[i - 1]@);
    }
    at
}

proof fn lemma_insert_somewhere(paths: Seq<Seq<u8>>, path: Seq<u8>) -> (at: int)
    ensures
        0 <= at <= paths.len(),
        insert_path(paths, path) == paths.insert(at, path),
    decreases paths.len(),
{
    if paths.len() == 0 || path_order(paths.last(), path) <= 0 {
        assert(paths.push(path) == paths.insert(paths.len() as int, path));
        paths.len() as int
    } else {
        let at = lemma_insert_somewhere(paths.drop_last(), path);
        assert(paths.insert(at, path) == paths.drop_last().insert(at, path).push(paths.last()));
        at
    }
}

/// Doubled slashes and single dots inside of a path make no difference to its place.
pub proof fn law_idle_parts_do_not_count(
    front: Seq<u8>,
    more: Seq<u8>,
    path: &Vec<u8>,
    doubled: &Vec<u8>,
    dotted: &Vec<u8>,
    first: i8,
    second: i8,
)
    requires
        front.len() > 0,
        front.last() == 0x2f,
        path@ == front + more,
        doubled@ == front + seq![0x2fu8] + more,
        dotted@ == front + seq![0x2eu8, 0x2fu8] + more,
        call_ensures(compare_paths, (path, doubled), first),
        call_ensures(compare_paths, (path, dotted), second),
    ensures
        first == 0,
        second == 0,
{
    paths::lemma_idle_parts(front, more);
    law_path_order(path@, doubled@);
    law_path_order(path@, dotted@);
}

/// The place of what a path starts with: a leading slash first, then a dot, then two dots,
/// then names.
pub open spec fn start_rank(first: Seq<u8>) -> int {
    if first.len() == 0 {
        0
    } else if first == seq![0x2eu8] {
        1
    } else if first == seq![0x2eu8, 0x2eu8] {
        2
    } else {
        3
    }
}

/// Absolute paths come first, then those from a dot, then those from two dots, then those
/// from a name, whatever follows.
pub proof fn law_starts_compare_first(
    a: &Vec<u8>,
    first: Seq<u8>,
    rest: Seq<u8>,
    b: &Vec<u8>,
    other: Seq<u8>,
    others: Seq<u8>,
    order: i8,
)
    requires
        a@.len() > 0,
        a@ == first + rest,
        paths::is_rest(rest),
        forall|i: int| 0 <= i < first.len() ==> #[trigger] first[i] != 0x2f,
        b@.len() > 0,
        b@ == other + others,
        paths::is_rest(others),
        forall|i: int| 0 <= i < other.len() ==> #[trigger] other[i] != 0x2f,
        call_ensures(compare_paths, (a, b), order),
    ensures
        start_rank(first) < start_rank(other) ==> order == -1,
        start_rank(first) > start_rank(other) ==> order == 1,
{
    paths::lemma_first_component(a@, first, rest);
    paths::lemma_first_component(b@, other, others);
}

} // verus!
