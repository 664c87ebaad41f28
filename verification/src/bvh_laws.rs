use vstd::prelude::*;
use vstd::seq_lib::*;
use vstd::arithmetic::power2::*;
use crate::aabb::{AABB, EMPTY_BOUND, lemma_coord_min_max, lemma_center_is_sum, lemma_longest_axis_is_longest, lemma_longest_axis_unique};
use crate::bvh::{BVHNode, Entry, entries_of, all_in_grid, all_object_boxes, bounds_of, centroid_bounds, lemma_sort_length, lemma_sort_properties, sort_by_key, sort_key, spec_build};

verus! {

/// The objects held by the leaves of a hierarchy, left to right, each with
/// the bounds its leaf holds.
pub open spec fn leaf_entries(t: Option<Box<BVHNode>>) -> Seq<Entry>
    decreases t,
{
    match t {
        None => seq![],
        Some(n) => match n.object {
            Some(id) => seq![Entry { id, bounds: n.aabb }],
            None => leaf_entries(n.left) + leaf_entries(n.right),
        },
    }
}

/// The number of nodes on the longest path from the root to a leaf.
pub open spec fn height(t: Option<Box<BVHNode>>) -> nat
    decreases t,
{
    match t {
        None => 0,
        Some(n) => {
            let hl = height(n.left);
            let hr = height(n.right);
            1 + if hl >= hr { hl } else { hr }
        },
    }
}

/// The shape every built hierarchy has: a leaf holds an object and no child;
/// an inner node holds no object, two children, and bounds that enclose its
/// children's bounds.
pub open spec fn well_formed(t: Option<Box<BVHNode>>) -> bool
    decreases t,
{
    match t {
        None => true,
        Some(n) => match n.object {
            Some(_) => n.left is None && n.right is None,
            None => {
                &&& n.left matches Some(l) && n.aabb.encloses(l.aabb)
                &&& n.right matches Some(r) && n.aabb.encloses(r.aabb)
                &&& well_formed(n.left)
                &&& well_formed(n.right)
            },
        },
    }
}

/// Along `axis`, no entry of `a` has a greater key than an entry of `b`.
pub open spec fn keys_ordered(a: Seq<Entry>, b: Seq<Entry>, axis: usize) -> bool {
    forall|i: int, j: int|
        0 <= i < a.len() && 0 <= j < b.len() ==> sort_key(#[trigger] a[i], axis) <= sort_key(
            #[trigger] b[j],
            axis,
        )
}

/// At every inner node the objects on the left lie, by their centres along
/// some axis, before the objects on the right.
pub open spec fn split_by_centres(t: Option<Box<BVHNode>>) -> bool
    decreases t,
{
    match t {
        None => true,
        Some(n) => match n.object {
            Some(_) => true,
            None => {
                &&& exists|axis: usize| keys_ordered(leaf_entries(n.left), leaf_entries(n.right), axis)
                &&& split_by_centres(n.left)
                &&& split_by_centres(n.right)
            },
        },
    }
}

proof fn lemma_bounds_encloses_members(s: Seq<Entry>)
    requires
        all_object_boxes(s),
    ensures
        bounds_of(s).within(EMPTY_BOUND),
        forall|i: int| 0 <= i < s.len() ==> bounds_of(s).encloses(#[trigger] s[i].bounds),
    decreases s.len(),
{
    if s.len() > 0 {
        let t = s.drop_last();
        assert(all_object_boxes(t)) by {
            assert forall|i: int| 0 <= i < t.len() implies (#[trigger] t[i]).bounds.is_object_box() by {
                assert(t[i] == s[i]);
            }
        }
        lemma_bounds_encloses_members(t);
        assert(s.last() == s[s.len() - 1]);
        assert forall|i: int| 0 <= i < s.len() implies bounds_of(s).encloses(#[trigger] s[i].bounds) by {
            if i < s.len() - 1 {
                assert(t[i] == s[i]);
            }
        }
    }
}

proof fn lemma_bounds_enclosed_by(s: Seq<Entry>, b: AABB)
    requires
        b.within(EMPTY_BOUND),
        forall|i: int| 0 <= i < s.len() ==> b.encloses(#[trigger] s[i].bounds),
    ensures
        b.encloses(bounds_of(s)),
    decreases s.len(),
{
    if s.len() > 0 {
        let t = s.drop_last();
        assert forall|i: int| 0 <= i < t.len() implies b.encloses(#[trigger] t[i].bounds) by {
            assert(t[i] == s[i]);
        }
        lemma_bounds_enclosed_by(t, b);
        assert(s.last() == s[s.len() - 1]);
    }
}

proof fn lemma_member_of_multiset(a: Seq<Entry>, b: Seq<Entry>, i: int)
    requires
        a.to_multiset() == b.to_multiset(),
        0 <= i < a.len(),
    ensures
        b.contains(a[i]),
{
    broadcast use group_to_multiset_ensures;
    assert(a.contains(a[i]));
    assert(a.to_multiset().count(a[i]) > 0);
}

/// What every built hierarchy is: its leaves hold exactly the given entries
/// (as a multiset: each object once, with its own bounds), it is well formed,
/// its root holds the union of all bounds and encloses every leaf, and each
/// inner node splits its objects by their centres.
pub proof fn lemma_build_structure(s: Seq<Entry>)
    requires
        all_object_boxes(s),
    ensures
        leaf_entries(spec_build(s)).to_multiset() == s.to_multiset(),
        well_formed(spec_build(s)),
        split_by_centres(spec_build(s)),
        s.len() == 0 <==> spec_build(s) is None,
        s.len() > 0 ==> spec_build(s).unwrap().aabb == bounds_of(s),
        forall|i: int|
            0 <= i < leaf_entries(spec_build(s)).len() ==> spec_build(s).unwrap().aabb.encloses(
                (#[trigger] leaf_entries(spec_build(s))[i]).bounds,
            ),
    decreases s.len(),
{
    broadcast use group_to_multiset_ensures, vstd::multiset::group_multiset_axioms;
    let t = spec_build(s);
    lemma_bounds_encloses_members(s);
    if s.len() == 0 {
        assert(leaf_entries(t) =~= Seq::<Entry>::empty());
    } else if s.len() == 1 {
        let n = t.unwrap();
        assert(s.drop_last() =~= Seq::<Entry>::empty());
        assert(s.last() == s[0]);
        crate::aabb::lemma_union_empty(s[0].bounds);
        assert(bounds_of(s.drop_last()) == AABB::spec_empty());
        assert(bounds_of(s) == s[0].bounds);
        assert(n.object == Some(s[0].id));
        assert(Entry { id: s[0].id, bounds: s[0].bounds } == s[0]);
        assert(leaf_entries(t) =~= seq![s[0]]);
        assert(s =~= seq![s[0]]);
    } else {
        let axis = centroid_bounds(s).spec_longest_axis();
        let sorted = sort_by_key(s, axis);
        let mid = (s.len() / 2) as int;
        lemma_sort_properties(s, axis);
        let ls = sorted.take(mid);
        let rs = sorted.skip(mid);
        assert(sorted =~= ls + rs);
        assert(all_object_boxes(sorted)) by {
            assert forall|i: int| 0 <= i < sorted.len() implies (#[trigger] sorted[i]).bounds.is_object_box() by {
                lemma_member_of_multiset(sorted, s, i);
            }
        }
        assert(all_object_boxes(ls)) by {
            assert forall|i: int| 0 <= i < ls.len() implies (#[trigger] ls[i]).bounds.is_object_box() by {
                assert(ls[i] == sorted[i]);
            }
        }
        assert(all_object_boxes(rs)) by {
            assert forall|i: int| 0 <= i < rs.len() implies (#[trigger] rs[i]).bounds.is_object_box() by {
                assert(rs[i] == sorted[i + mid]);
            }
        }
        lemma_build_structure(ls);
        lemma_build_structure(rs);
        let n = t.unwrap();
        assert(n.left == spec_build(ls));
        assert(n.right == spec_build(rs));
        let le = leaf_entries(n.left);
        let re = leaf_entries(n.right);
        assert(leaf_entries(t) == le + re);
        lemma_multiset_commutative(le, re);
        lemma_multiset_commutative(ls, rs);
        // every entry of a half is one of the whole
        assert forall|i: int| 0 <= i < ls.len() implies bounds_of(s).encloses(#[trigger] ls[i].bounds) by {
            assert(ls[i] == sorted[i]);
            lemma_member_of_multiset(sorted, s, i);
        }
        assert forall|i: int| 0 <= i < rs.len() implies bounds_of(s).encloses(#[trigger] rs[i].bounds) by {
            assert(rs[i] == sorted[i + mid]);
            lemma_member_of_multiset(sorted, s, i + mid);
        }
        lemma_bounds_enclosed_by(ls, bounds_of(s));
        lemma_bounds_enclosed_by(rs, bounds_of(s));
        // the halves are split by their keys
        assert(keys_ordered(le, re, axis)) by {
            assert forall|i: int, j: int| 0 <= i < le.len() && 0 <= j < re.len() implies sort_key(
                #[trigger] le[i],
                axis,
            ) <= sort_key(#[trigger] re[j], axis) by {
                lemma_member_of_multiset(le, ls, i);
                lemma_member_of_multiset(re, rs, j);
                let a = choose|a: int| 0 <= a < ls.len() && ls[a] == le[i];
                let b = choose|b: int| 0 <= b < rs.len() && rs[b] == re[j];
                assert(ls[a] == sorted[a]);
                assert(rs[b] == sorted[b + mid]);
            }
        }
        // every leaf lies in the root's bounds
        assert forall|i: int| 0 <= i < leaf_entries(t).len() implies n.aabb.encloses(
            (#[trigger] leaf_entries(t)[i]).bounds,
        ) by {
            lemma_member_of_multiset(leaf_entries(t), s, i);
            let a = choose|a: int| 0 <= a < s.len() && s[a] == leaf_entries(t)[i];
        }
    }
}

/// A hierarchy over at most `2^k` objects is at most `k + 1` nodes deep, so
/// a search from the root to a leaf visits O(log n) nodes.
pub proof fn lemma_build_height(s: Seq<Entry>, k: nat)
    requires
        s.len() <= pow2(k),
    ensures
        height(spec_build(s)) <= k + 1,
    decreases s.len(),
{
    if s.len() <= 1 {
        reveal_with_fuel(height, 2);
    } else {
        lemma2_to64();
        assert(k > 0);
        lemma_pow2_unfold(k);
        let axis = centroid_bounds(s).spec_longest_axis();
        let sorted = sort_by_key(s, axis);
        let mid = (s.len() / 2) as int;
        lemma_sort_length(s, axis);
        lemma_build_height(sorted.take(mid), (k - 1) as nat);
        lemma_build_height(sorted.skip(mid), (k - 1) as nat);
    }
}

/// Every object of the scene sits in exactly one leaf of the hierarchy built
/// over it, with its own bounds, and the leaves hold nothing else.
pub proof fn lemma_each_object_in_one_leaf(objects: Seq<AABB>)
    requires
        all_in_grid(objects),
        objects.len() <= usize::MAX,
    ensures
        ({
            let leaves = leaf_entries(spec_build(entries_of(objects)));
            &&& leaves.len() == objects.len()
            &&& leaves.no_duplicates()
            &&& forall|i: int|
                0 <= i < objects.len() ==> leaves.contains(
                    Entry { id: i as usize, bounds: #[trigger] objects[i] },
                )
            &&& forall|j: int|
                0 <= j < leaves.len() ==> (#[trigger] leaves[j]).id < objects.len()
                    && leaves[j].bounds == objects[leaves[j].id as int]
        }),
{
    broadcast use group_to_multiset_ensures, vstd::multiset::group_multiset_axioms;
    let es = entries_of(objects);
    assert(all_object_boxes(es)) by {
        assert forall|i: int| 0 <= i < es.len() implies (#[trigger] es[i]).bounds.is_object_box() by {
            assert(es[i].bounds == objects[i]);
        }
    }
    lemma_build_structure(es);
    let leaves = leaf_entries(spec_build(es));
    assert forall|i: int| 0 <= i < es.len() implies (#[trigger] es[i]).id == i by {}
    assert(es.no_duplicates()) by {
        assert forall|i: int, j: int| 0 <= i < es.len() && 0 <= j < es.len() && i != j implies es[i] != es[j] by {
            assert(es[i].id == i);
            assert(es[j].id == j);
        }
    }
    es.lemma_multiset_has_no_duplicates();
    leaves.lemma_multiset_has_no_duplicates_conv();
    assert(leaves.len() == leaves.to_multiset().len());
    assert(es.len() == es.to_multiset().len());
    assert forall|i: int| 0 <= i < objects.len() implies leaves.contains(
        Entry { id: i as usize, bounds: #[trigger] objects[i] },
    ) by {
        assert(es[i] == Entry { id: i as usize, bounds: objects[i] });
        assert(es.contains(es[i]));
        assert(es.to_multiset().count(es[i]) > 0);
    }
    assert forall|j: int| 0 <= j < leaves.len() implies (#[trigger] leaves[j]).id < objects.len()
        && leaves[j].bounds == objects[leaves[j].id as int] by {
        lemma_member_of_multiset(leaves, es, j);
        let a = choose|a: int| 0 <= a < es.len() && es[a] == leaves[j];
        assert(es[a].id == a);
    }
}

/// Twice the centre of an entry's bounds along `axis`: `min + max` there.
pub open spec fn centre(e: Entry, axis: usize) -> int {
    e.bounds.min.coord(axis) + e.bounds.max.coord(axis)
}

/// The least centre (taken twice) among the entries along `axis`.
pub open spec fn centre_lo(s: Seq<Entry>, axis: usize) -> int
    decreases s.len(),
{
    if s.len() <= 1 {
        centre(s[0], axis)
    } else {
        let m = centre_lo(s.drop_last(), axis);
        let c = centre(s.last(), axis);
        if m <= c { m } else { c }
    }
}

/// The greatest centre (taken twice) among the entries along `axis`.
pub open spec fn centre_hi(s: Seq<Entry>, axis: usize) -> int
    decreases s.len(),
{
    if s.len() <= 1 {
        centre(s[0], axis)
    } else {
        let m = centre_hi(s.drop_last(), axis);
        let c = centre(s.last(), axis);
        if m >= c { m } else { c }
    }
}

/// The extent along `axis` of the smallest box holding every entry's centre.
pub open spec fn centre_spread(s: Seq<Entry>, axis: usize) -> int {
    centre_hi(s, axis) - centre_lo(s, axis)
}

/// `axis` is the axis along which the box of the entries' centres is
/// longest, the later one on ties.
pub open spec fn longest_centre_axis(s: Seq<Entry>, axis: usize) -> bool {
    &&& axis < 3
    &&& forall|k: usize| k < 3 ==> centre_spread(s, axis) >= #[trigger] centre_spread(s, k)
    &&& forall|k: usize| axis < k < 3 ==> #[trigger] centre_spread(s, k) < centre_spread(s, axis)
}

/// Along `axis`, no centre in `l` lies beyond a centre in `r`.
pub open spec fn centres_ordered(l: Seq<Entry>, r: Seq<Entry>, axis: usize) -> bool {
    forall|i: int, j: int|
        0 <= i < l.len() && 0 <= j < r.len() ==> centre(#[trigger] l[i], axis) <= centre(#[trigger] r[j], axis)
}

/// Every inner node splits its objects along the longest axis of the box of
/// their centres: the left leaves' centres lie before the right leaves'.
pub open spec fn split_on_centre_axis(t: Option<Box<BVHNode>>) -> bool
    decreases t,
{
    match t {
        None => true,
        Some(n) => match n.object {
            Some(_) => true,
            None => {
                let l = leaf_entries(n.left);
                let r = leaf_entries(n.right);
                &&& exists|a: usize| longest_centre_axis(l + r, a)
                &&& forall|a: usize| longest_centre_axis(l + r, a) ==> centres_ordered(l, r, a)
                &&& split_on_centre_axis(n.left)
                &&& split_on_centre_axis(n.right)
            },
        },
    }
}

/// `centre_lo` and `centre_hi` are the least and the greatest centre: every
/// centre lies between them and both are centres of some entry.
pub proof fn lemma_centre_range(s: Seq<Entry>, axis: usize)
    requires
        s.len() >= 1,
    ensures
        forall|i: int|
            0 <= i < s.len() ==> centre_lo(s, axis) <= #[trigger] centre(s[i], axis) <= centre_hi(s, axis),
        exists|i: int| 0 <= i < s.len() && centre(s[i], axis) == centre_lo(s, axis),
        exists|j: int| 0 <= j < s.len() && centre(s[j], axis) == centre_hi(s, axis),
    decreases s.len(),
{
    if s.len() == 1 {
        assert(centre(s[0], axis) == centre_lo(s, axis));
        assert(centre(s[0], axis) == centre_hi(s, axis));
    } else {
        let t = s.drop_last();
        lemma_centre_range(t, axis);
        let n = s.len() - 1;
        assert(s.last() == s[n]);
        assert forall|i: int| 0 <= i < s.len() implies centre_lo(s, axis) <= #[trigger] centre(s[i], axis)
            <= centre_hi(s, axis) by {
            if i < n {
                assert(t[i] == s[i]);
            }
        }
        let i0 = choose|i: int| 0 <= i < t.len() && centre(t[i], axis) == centre_lo(t, axis);
        let j0 = choose|j: int| 0 <= j < t.len() && centre(t[j], axis) == centre_hi(t, axis);
        assert(t[i0] == s[i0]);
        assert(t[j0] == s[j0]);
        if centre_lo(t, axis) <= centre(s.last(), axis) {
            assert(centre(s[i0], axis) == centre_lo(s, axis));
        } else {
            assert(centre(s[n], axis) == centre_lo(s, axis));
        }
        if centre_hi(t, axis) >= centre(s.last(), axis) {
            assert(centre(s[j0], axis) == centre_hi(s, axis));
        } else {
            assert(centre(s[n], axis) == centre_hi(s, axis));
        }
    }
}

/// The centres' box depends only on which entries there are, not on their
/// order.
proof fn lemma_centre_range_of_permutation(a: Seq<Entry>, b: Seq<Entry>, axis: usize)
    requires
        a.len() >= 1,
        b.len() >= 1,
        a.to_multiset() == b.to_multiset(),
    ensures
        centre_lo(a, axis) == centre_lo(b, axis),
        centre_hi(a, axis) == centre_hi(b, axis),
{
    lemma_centre_range(a, axis);
    lemma_centre_range(b, axis);
    let ia = choose|i: int| 0 <= i < a.len() && centre(a[i], axis) == centre_lo(a, axis);
    let ib = choose|i: int| 0 <= i < b.len() && centre(b[i], axis) == centre_lo(b, axis);
    let ja = choose|j: int| 0 <= j < a.len() && centre(a[j], axis) == centre_hi(a, axis);
    let jb = choose|j: int| 0 <= j < b.len() && centre(b[j], axis) == centre_hi(b, axis);
    lemma_member_of_multiset(a, b, ia);
    lemma_member_of_multiset(b, a, ib);
    lemma_member_of_multiset(a, b, ja);
    lemma_member_of_multiset(b, a, jb);
    let x = choose|x: int| 0 <= x < b.len() && b[x] == a[ia];
    let y = choose|y: int| 0 <= y < a.len() && a[y] == b[ib];
    let z = choose|z: int| 0 <= z < b.len() && b[z] == a[ja];
    let w = choose|w: int| 0 <= w < a.len() && a[w] == b[jb];
    assert(centre(b[x], axis) >= centre_lo(b, axis));
    assert(centre(a[y], axis) >= centre_lo(a, axis));
    assert(centre(b[z], axis) <= centre_hi(b, axis));
    assert(centre(a[w], axis) <= centre_hi(a, axis));
}

proof fn lemma_key_is_centre(e: Entry, axis: usize)
    requires
        e.bounds.is_object_box(),
    ensures
        sort_key(e, axis) == centre(e, axis),
{
    lemma_center_is_sum(e.bounds);
    if axis >= 3 {
        assert(e.bounds.spec_center_times_two().coord(axis) == e.bounds.spec_center_times_two().coord(2));
    }
}

proof fn lemma_centroid_bounds_are_centre_box(s: Seq<Entry>)
    requires
        all_object_boxes(s),
        s.len() >= 1,
    ensures
        forall|k: usize|
            k < 3 ==> #[trigger] centroid_bounds(s).min.coord(k) == centre_lo(s, k) && centroid_bounds(s).max.coord(k)
                == centre_hi(s, k),
    decreases s.len(),
{
    let t = s.drop_last();
    let e = s.last();
    assert(e == s[s.len() - 1]);
    let c = e.bounds.spec_center_times_two();
    lemma_center_is_sum(e.bounds);
    if s.len() > 1 {
        assert(all_object_boxes(t)) by {
            assert forall|i: int| 0 <= i < t.len() implies (#[trigger] t[i]).bounds.is_object_box() by {
                assert(t[i] == s[i]);
            }
        }
        lemma_centroid_bounds_are_centre_box(t);
    }
    assert forall|k: usize| k < 3 implies #[trigger] centroid_bounds(s).min.coord(k) == centre_lo(s, k)
        && centroid_bounds(s).max.coord(k) == centre_hi(s, k) by {
        lemma_coord_min_max(centroid_bounds(t).min, c, k);
        lemma_coord_min_max(centroid_bounds(t).max, c, k);
        assert(c.coord(k) == centre(e, k));
        if s.len() == 1 {
            assert(t.len() == 0);
            assert(s[0] == e);
        }
    }
}

/// Every hierarchy built over objects splits each inner node along the
/// longest axis of the box of that node's objects' centres (the later axis
/// on ties), with the left leaves' centres before the right leaves'.
pub proof fn lemma_build_splits_on_centre_axis(s: Seq<Entry>)
    requires
        all_object_boxes(s),
    ensures
        split_on_centre_axis(spec_build(s)),
    decreases s.len(),
{
    broadcast use group_to_multiset_ensures, vstd::multiset::group_multiset_axioms;
    if s.len() >= 2 {
        let t = spec_build(s);
        let axis = centroid_bounds(s).spec_longest_axis();
        let sorted = sort_by_key(s, axis);
        let mid = (s.len() / 2) as int;
        lemma_sort_properties(s, axis);
        let ls = sorted.take(mid);
        let rs = sorted.skip(mid);
        assert(sorted =~= ls + rs);
        assert(all_object_boxes(sorted)) by {
            assert forall|i: int| 0 <= i < sorted.len() implies (#[trigger] sorted[i]).bounds.is_object_box() by {
                lemma_member_of_multiset(sorted, s, i);
            }
        }
        assert(all_object_boxes(ls)) by {
            assert forall|i: int| 0 <= i < ls.len() implies (#[trigger] ls[i]).bounds.is_object_box() by {
                assert(ls[i] == sorted[i]);
            }
        }
        assert(all_object_boxes(rs)) by {
            assert forall|i: int| 0 <= i < rs.len() implies (#[trigger] rs[i]).bounds.is_object_box() by {
                assert(rs[i] == sorted[i + mid]);
            }
        }
        lemma_build_structure(s);
        lemma_build_structure(ls);
        lemma_build_structure(rs);
        lemma_build_splits_on_centre_axis(ls);
        lemma_build_splits_on_centre_axis(rs);
        let n = t.unwrap();
        assert(n.left == spec_build(ls));
        assert(n.right == spec_build(rs));
        let le = leaf_entries(n.left);
        let re = leaf_entries(n.right);
        let all = le + re;
        assert(leaf_entries(t) == all);
        // the centres' box of the node's leaves is the box the axis was taken from
        lemma_centroid_bounds_are_centre_box(s);
        assert(all.len() == s.len()) by {
            assert(all.to_multiset().len() == all.len());
            assert(s.to_multiset().len() == s.len());
        }
        let cb = centroid_bounds(s);
        assert forall|k: usize| k < 3 implies #[trigger] centre_spread(all, k) == cb.extent(k) by {
            lemma_centre_range_of_permutation(all, s, k);
        }
        lemma_longest_axis_is_longest(cb);
        assert(longest_centre_axis(all, axis)) by {
            assert forall|k: usize| k < 3 implies centre_spread(all, axis) >= #[trigger] centre_spread(all, k) by {
                assert(centre_spread(all, axis) == cb.extent(axis));
            }
            assert forall|k: usize| axis < k < 3 implies #[trigger] centre_spread(all, k) < centre_spread(all, axis) by {
                assert(centre_spread(all, axis) == cb.extent(axis));
            }
        }
        // the halves are ordered by centre along that axis
        assert(centres_ordered(le, re, axis)) by {
            assert forall|i: int, j: int| 0 <= i < le.len() && 0 <= j < re.len() implies centre(
                #[trigger] le[i],
                axis,
            ) <= centre(#[trigger] re[j], axis) by {
                lemma_member_of_multiset(le, ls, i);
                lemma_member_of_multiset(re, rs, j);
                let a = choose|a: int| 0 <= a < ls.len() && ls[a] == le[i];
                let b = choose|b: int| 0 <= b < rs.len() && rs[b] == re[j];
                assert(ls[a] == sorted[a]);
                assert(rs[b] == sorted[b + mid]);
                lemma_key_is_centre(le[i], axis);
                lemma_key_is_centre(re[j], axis);
            }
        }
        // and no other axis qualifies
        assert forall|a: usize| longest_centre_axis(all, a) implies centres_ordered(le, re, a) by {
            assert(cb.is_longest_axis(a)) by {
                assert forall|k: usize| k < 3 implies cb.extent(a) >= #[trigger] cb.extent(k) by {
                    assert(centre_spread(all, k) == cb.extent(k));
                    assert(centre_spread(all, a) == cb.extent(a));
                }
                assert forall|k: usize| a < k < 3 implies #[trigger] cb.extent(k) < cb.extent(a) by {
                    assert(centre_spread(all, k) == cb.extent(k));
                    assert(centre_spread(all, a) == cb.extent(a));
                }
            }
            lemma_longest_axis_unique(cb, a, axis);
        }
    }
}

} // verus!
