use vstd::prelude::*;
use vstd::seq_lib::*;
use crate::aabb::{AABB, EMPTY_BOUND};
use crate::bvh_laws::{leaf_entries, well_formed, split_by_centres, split_on_centre_axis, lemma_build_structure, lemma_build_splits_on_centre_axis, lemma_each_object_in_one_leaf};

verus! {

/// An object handed to the hierarchy: its index among the scene's objects
/// and its bounds.
#[derive(Clone, Copy, Debug, PartialEq, Eq, Structural)]
pub struct Entry {
    pub id: usize,
    pub bounds: AABB,
}

/// Every entry's bounds lie in the grid's range.
pub open spec fn all_object_boxes(s: Seq<Entry>) -> bool {
    forall|i: int| 0 <= i < s.len() ==> (#[trigger] s[i]).bounds.is_object_box()
}

/// The key by which entries are ordered along `axis`: twice the centre of
/// the entry's bounds on that axis.
pub open spec fn sort_key(e: Entry, axis: usize) -> i64 {
    e.bounds.spec_center_times_two().coord(axis)
}

/// Inserts `x` into `s` after every trailing element whose key does not
/// exceed `x`'s key (so equal keys keep their order of arrival).
pub open spec fn insert_by_key(s: Seq<Entry>, x: Entry, axis: usize) -> Seq<Entry>
    decreases s.len(),
{
    if s.len() == 0 {
        seq![x]
    } else if sort_key(s.last(), axis) <= sort_key(x, axis) {
        s.push(x)
    } else {
        insert_by_key(s.drop_last(), x, axis).push(s.last())
    }
}

/// The stable sort of `s` by key along `axis`.
pub open spec fn sort_by_key(s: Seq<Entry>, axis: usize) -> Seq<Entry>
    decreases s.len(),
{
    if s.len() == 0 {
        s
    } else {
        insert_by_key(sort_by_key(s.drop_last(), axis), s.last(), axis)
    }
}

/// `s` is in non-decreasing key order along `axis`.
pub open spec fn sorted_by_key(s: Seq<Entry>, axis: usize) -> bool {
    forall|i: int, j: int| 0 <= i <= j < s.len() ==> sort_key(#[trigger] s[i], axis) <= sort_key(#[trigger] s[j], axis)
}

proof fn lemma_insert_is_seq_insert(s: Seq<Entry>, x: Entry, axis: usize, j: int)
    requires
        0 <= j <= s.len(),
        forall|k: int| j <= k < s.len() ==> sort_key(#[trigger] s[k], axis) > sort_key(x, axis),
        j == 0 || sort_key(s[j - 1], axis) <= sort_key(x, axis),
    ensures
        insert_by_key(s, x, axis) == s.insert(j, x),
    decreases s.len(),
{
    if s.len() == 0 {
        assert(s.insert(j, x) =~= seq![x]);
    } else if sort_key(s.last(), axis) <= sort_key(x, axis) {
        assert(j == s.len());
        assert(s.insert(j, x) =~= s.push(x));
    } else {
        lemma_insert_is_seq_insert(s.drop_last(), x, axis, j);
        assert(s.drop_last().insert(j, x).push(s.last()) =~= s.insert(j, x));
    }
}

pub proof fn lemma_insert_multiset(s: Seq<Entry>, x: Entry, axis: usize)
    ensures
        insert_by_key(s, x, axis).to_multiset() == s.to_multiset().insert(x),
        insert_by_key(s, x, axis).len() == s.len() + 1,
    decreases s.len(),
{
    broadcast use group_to_multiset_ensures, vstd::multiset::group_multiset_axioms;
    if s.len() == 0 {
    } else if sort_key(s.last(), axis) <= sort_key(x, axis) {
    } else {
        lemma_insert_multiset(s.drop_last(), x, axis);
        assert(s.drop_last().push(s.last()) =~= s);
        assert(insert_by_key(s, x, axis).to_multiset() =~= s.to_multiset().insert(x));
    }
}

pub proof fn lemma_insert_sorted(s: Seq<Entry>, x: Entry, axis: usize)
    requires
        sorted_by_key(s, axis),
    ensures
        sorted_by_key(insert_by_key(s, x, axis), axis),
        forall|k: int| 0 <= k < s.len() + 1 ==> {
            let e = #[trigger] insert_by_key(s, x, axis)[k];
            e == x || s.contains(e)
        },
    decreases s.len(),
{
    if s.len() == 0 {
    } else if sort_key(s.last(), axis) <= sort_key(x, axis) {
        let r = s.push(x);
        assert forall|k: int| 0 <= k < s.len() + 1 implies (#[trigger] r[k] == x || s.contains(r[k])) by {
            if k < s.len() {
                assert(r[k] == s[k]);
            }
        }
    } else {
        let t = s.drop_last();
        assert(sorted_by_key(t, axis));
        lemma_insert_sorted(t, x, axis);
        lemma_insert_multiset(t, x, axis);
        let it = insert_by_key(t, x, axis);
        let r = it.push(s.last());
        assert forall|k: int| 0 <= k < s.len() + 1 implies (#[trigger] r[k] == x || s.contains(r[k])) by {
            if k < s.len() {
                assert(r[k] == it[k]);
                if it[k] != x {
                    assert(t.contains(it[k]));
                    let w = choose|w: int| 0 <= w < t.len() && t[w] == it[k];
                    assert(s[w] == it[k]);
                }
            } else {
                assert(s[s.len() - 1] == s.last());
            }
        }
        assert forall|i: int, j: int| 0 <= i <= j < r.len() implies sort_key(#[trigger] r[i], axis)
            <= sort_key(#[trigger] r[j], axis) by {
            if j == r.len() - 1 && i < j {
                assert(r[i] == it[i]);
                if it[i] == x {
                } else {
                    assert(t.contains(it[i]));
                    let w = choose|w: int| 0 <= w < t.len() && t[w] == it[i];
                    assert(s[w] == t[w]);
                    assert(s[s.len() - 1] == s.last());
                }
            } else if j < r.len() - 1 {
                assert(r[i] == it[i]);
                assert(r[j] == it[j]);
            }
        }
    }
}

pub proof fn lemma_sort_properties(s: Seq<Entry>, axis: usize)
    ensures
        sort_by_key(s, axis).to_multiset() == s.to_multiset(),
        sort_by_key(s, axis).len() == s.len(),
        sorted_by_key(sort_by_key(s, axis), axis),
    decreases s.len(),
{
    broadcast use group_to_multiset_ensures, vstd::multiset::group_multiset_axioms;
    if s.len() > 0 {
        let t = s.drop_last();
        lemma_sort_properties(t, axis);
        lemma_insert_multiset(sort_by_key(t, axis), s.last(), axis);
        lemma_insert_sorted(sort_by_key(t, axis), s.last(), axis);
        assert(t.push(s.last()) =~= s);
    }
}

pub proof fn lemma_sort_length(s: Seq<Entry>, axis: usize)
    ensures
        sort_by_key(s, axis).len() == s.len(),
{
    lemma_sort_properties(s, axis);
}

fn key_of(e: &Entry, axis: usize) -> (k: i64)
    requires
        e.bounds.is_object_box(),
    ensures
        k == sort_key(*e, axis),
{
    e.bounds.center_times_two().element(axis)
}

/// Sorts the entries by key along `axis`, keeping entries of equal key in
/// their order.
fn sort_entries(entries: Vec<Entry>, axis: usize) -> (sorted: Vec<Entry>)
    requires
        all_object_boxes(entries@),
    ensures
        sorted@ == sort_by_key(entries@, axis),
{
    let n = entries.len();
    let mut sorted: Vec<Entry> = Vec::new();
    for i in 0..n
        invariant
            n == entries.len(),
            all_object_boxes(entries@),
            sorted@ == sort_by_key(entries@.take(i as int), axis),
            all_object_boxes(sorted@),
    {
        let x = entries[i];
        let kx = key_of(&x, axis);
        let mut j = sorted.len();
        while j > 0 && key_of(&sorted[j - 1], axis) > kx
            invariant
                0 <= j <= sorted.len(),
                all_object_boxes(sorted@),
                kx == sort_key(x, axis),
                forall|k: int| j <= k < sorted.len() ==> sort_key(#[trigger] sorted@[k], axis) > kx,
            decreases j,
        {
            j = j - 1;
        }
        proof {
            lemma_insert_is_seq_insert(sorted@, x, axis, j as int);
            assert(entries@.take(i + 1).drop_last() =~= entries@.take(i as int));
            assert(entries@.take(i + 1).last() == x);
            lemma_sort_properties(entries@.take(i as int), axis);
            lemma_insert_sorted(sorted@, x, axis);
        }
        let ghost before = sorted@;
        sorted.insert(j, x);
        proof {
            assert forall|k: int| 0 <= k < sorted@.len() implies (#[trigger] sorted@[k]).bounds.is_object_box() by {
                let e = sorted@[k];
                if e != x {
                    assert(before.contains(e));
                }
            }
        }
    }
    proof {
        assert(entries@.take(n as int) =~= entries@);
    }
    sorted
}

/// The union of the bounds of all entries, folded from the empty box.
pub open spec fn bounds_of(s: Seq<Entry>) -> AABB
    decreases s.len(),
{
    if s.len() == 0 {
        AABB::spec_empty()
    } else {
        bounds_of(s.drop_last()).spec_union(s.last().bounds)
    }
}

/// The box of the entries' centres (each taken twice, as keys are), folded
/// from the empty box.
pub open spec fn centroid_bounds(s: Seq<Entry>) -> AABB
    decreases s.len(),
{
    if s.len() == 0 {
        AABB::spec_empty()
    } else {
        centroid_bounds(s.drop_last()).spec_extend(s.last().bounds.spec_center_times_two())
    }
}

proof fn lemma_folds_within(s: Seq<Entry>)
    requires
        all_object_boxes(s),
    ensures
        bounds_of(s).within(EMPTY_BOUND),
        centroid_bounds(s).within(EMPTY_BOUND),
    decreases s.len(),
{
    if s.len() > 0 {
        let t = s.drop_last();
        assert(all_object_boxes(t)) by {
            assert forall|i: int| 0 <= i < t.len() implies (#[trigger] t[i]).bounds.is_object_box() by {
                assert(t[i] == s[i]);
            }
        }
        lemma_folds_within(t);
        assert(s.last() == s[s.len() - 1]);
    }
}

proof fn lemma_take_object_boxes(s: Seq<Entry>, n: int)
    requires
        all_object_boxes(s),
        0 <= n <= s.len(),
    ensures
        all_object_boxes(s.take(n)),
        all_object_boxes(s.skip(n)),
{
    assert forall|i: int| 0 <= i < s.take(n).len() implies (#[trigger] s.take(n)[i]).bounds.is_object_box() by {
        assert(s.take(n)[i] == s[i]);
    }
    assert forall|i: int| 0 <= i < s.skip(n).len() implies (#[trigger] s.skip(n)[i]).bounds.is_object_box() by {
        assert(s.skip(n)[i] == s[i + n]);
    }
}

proof fn lemma_sorted_object_boxes(s: Seq<Entry>, axis: usize)
    requires
        all_object_boxes(s),
    ensures
        all_object_boxes(sort_by_key(s, axis)),
{
    broadcast use group_to_multiset_ensures;
    lemma_sort_properties(s, axis);
    let r = sort_by_key(s, axis);
    assert forall|i: int| 0 <= i < r.len() implies (#[trigger] r[i]).bounds.is_object_box() by {
        assert(r.to_multiset().count(r[i]) > 0);
        assert(s.contains(r[i]));
    }
}

/// A node of the bounding volume hierarchy. A leaf holds one object (by its
/// index); an inner node holds two children. Every node holds the bounds of
/// all objects below it.
pub struct BVHNode {
    pub aabb: AABB,
    pub left: Option<Box<BVHNode>>,
    pub right: Option<Box<BVHNode>>,
    pub object: Option<usize>,
}

/// The hierarchy built over `s`: none for no entries; a leaf for one entry;
/// otherwise the entries are sorted by centre along the longest axis of their
/// centres' box and split at the middle, the first half (rounded down) going
/// left.
pub open spec fn spec_build(s: Seq<Entry>) -> Option<Box<BVHNode>>
    decreases s.len(),
{
    if s.len() == 0 {
        None
    } else if s.len() == 1 {
        Some(Box::new(BVHNode { aabb: bounds_of(s), left: None, right: None, object: Some(s[0].id) }))
    } else {
        let axis = centroid_bounds(s).spec_longest_axis();
        let sorted = sort_by_key(s, axis);
        let mid = (s.len() / 2) as int;
        proof {
            lemma_sort_length(s, axis);
        }
        Some(
            Box::new(
                BVHNode {
                    aabb: bounds_of(s),
                    left: spec_build(sorted.take(mid)),
                    right: spec_build(sorted.skip(mid)),
                    object: None,
                },
            ),
        )
    }
}

impl BVHNode {
    fn build(objects: Vec<Entry>) -> (node: Option<Box<BVHNode>>)
        requires
            all_object_boxes(objects@),
        ensures
            node == spec_build(objects@),
        decreases objects@.len(),
    {
        let n = objects.len();
        if n == 0 {
            return None;
        }
        let mut aabb = AABB::empty();
        for i in 0..n
            invariant
                n == objects.len(),
                all_object_boxes(objects@),
                aabb == bounds_of(objects@.take(i as int)),
        {
            proof {
                assert(objects@.take(i + 1).drop_last() =~= objects@.take(i as int));
                assert(objects@.take(i + 1).last() == objects@[i as int]);
            }
            aabb = aabb.union(&objects[i].bounds);
        }
        proof {
            assert(objects@.take(n as int) =~= objects@);
        }
        if n == 1 {
            let mut objects = objects;
            let obj = objects.pop().unwrap();
            return Some(Box::new(BVHNode { aabb, left: None, right: None, object: Some(obj.id) }));
        }
        let mut centroid_box = AABB::empty();
        for i in 0..n
            invariant
                n == objects.len(),
                all_object_boxes(objects@),
                centroid_box == centroid_bounds(objects@.take(i as int)),
        {
            proof {
                assert(objects@.take(i + 1).drop_last() =~= objects@.take(i as int));
                assert(objects@.take(i + 1).last() == objects@[i as int]);
            }
            let c = objects[i].bounds.center_times_two();
            centroid_box.extend(c);
        }
        proof {
            assert(objects@.take(n as int) =~= objects@);
            lemma_folds_within(objects@);
        }
        let axis = centroid_box.longest_axis();
        let ghost all = objects@;
        let mut sorted = sort_entries(objects, axis);
        proof {
            lemma_sort_properties(all, axis);
            lemma_sorted_object_boxes(all, axis);
        }
        let mid = n / 2;
        let right = sorted.split_off(mid);
        proof {
            let full = sort_by_key(all, axis);
            assert(sorted@ =~= full.take(mid as int));
            assert(right@ =~= full.skip(mid as int));
            lemma_take_object_boxes(full, mid as int);
        }
        let left = Self::build(sorted);
        let right_child = Self::build(right);
        Some(Box::new(BVHNode { aabb, left, right: right_child, object: None }))
    }
}

/// The entries standing for `objects`: object `i` has index `i`.
pub open spec fn entries_of(objects: Seq<AABB>) -> Seq<Entry> {
    Seq::new(objects.len(), |i: int| Entry { id: i as usize, bounds: objects[i] })
}

/// Every object's bounds lie in the grid's range.
pub open spec fn all_in_grid(objects: Seq<AABB>) -> bool {
    forall|i: int| 0 <= i < objects.len() ==> (#[trigger] objects[i]).is_object_box()
}

proof fn lemma_build_structure_of_objects(objects: Seq<AABB>)
    requires
        all_in_grid(objects),
    ensures
        all_object_boxes(entries_of(objects)),
        well_formed(spec_build(entries_of(objects))),
        split_by_centres(spec_build(entries_of(objects))),
        split_on_centre_axis(spec_build(entries_of(objects))),
        leaf_entries(spec_build(entries_of(objects))).to_multiset() == entries_of(objects).to_multiset(),
{
    let es = entries_of(objects);
    assert forall|i: int| 0 <= i < es.len() implies (#[trigger] es[i]).bounds.is_object_box() by {
        assert(es[i].bounds == objects[i]);
    }
    lemma_build_structure(es);
    lemma_build_splits_on_centre_axis(es);
}

impl BVHNode {
    /// Builds the hierarchy over the objects' bounds; a leaf names its object
    /// by its index in `objects`. No objects give no hierarchy.
    pub fn from_objects(objects: Vec<AABB>) -> (node: Option<Box<Self>>)
        requires
            all_in_grid(objects@),
        ensures
            node == spec_build(entries_of(objects@)),
            well_formed(node),
            split_by_centres(node),
            split_on_centre_axis(node),
            leaf_entries(node).to_multiset() == entries_of(objects@).to_multiset(),
    {
        proof {
            lemma_build_structure_of_objects(objects@);
        }
        let n = objects.len();
        let mut entries: Vec<Entry> = Vec::new();
        for i in 0..n
            invariant
                n == objects.len(),
                all_in_grid(objects@),
                entries@ =~= entries_of(objects@).take(i as int),
        {
            entries.push(Entry { id: i, bounds: objects[i] });
        }
        proof {
            assert(entries@ =~= entries_of(objects@));
        }
        Self::build(entries)
    }

    /// The bounds of every object below this node.
    pub fn aabb(&self) -> (b: AABB)
        ensures
            b == self.aabb,
    {
        self.aabb
    }
}

/// A bounding volume hierarchy over a scene's objects.
pub struct BVH {
    pub root: Option<Box<BVHNode>>,
}

impl BVH {
    /// The hierarchy over the objects' bounds, or none when there is no
    /// object.
    pub fn from_objects(objects: Vec<AABB>) -> (bvh: Option<Self>)
        requires
            all_in_grid(objects@),
        ensures
            bvh is None <==> objects@.len() == 0,
            bvh matches Some(b) ==> {
                &&& b.root == spec_build(entries_of(objects@))
                &&& well_formed(b.root)
                &&& split_by_centres(b.root)
                &&& split_on_centre_axis(b.root)
                &&& b.root.unwrap().aabb == bounds_of(entries_of(objects@))
                &&& leaf_entries(b.root).len() == objects@.len()
                &&& forall|i: int|
                    0 <= i < objects@.len() ==> leaf_entries(b.root).contains(
                        Entry { id: i as usize, bounds: #[trigger] objects@[i] },
                    )
            },
    {
        let n = objects.len();
        proof {
            lemma_each_object_in_one_leaf(objects@);
            lemma_build_structure(entries_of(objects@));
        }
        let root = BVHNode::from_objects(objects);
        match root {
            Some(r) => Some(BVH { root: Some(r) }),
            None => {
                assert(n == 0) by {
                    reveal_with_fuel(spec_build, 2);
                }
                None
            },
        }
    }

    /// The bounds of the whole hierarchy; the empty box when it holds nothing.
    pub fn aabb(&self) -> (b: AABB)
        ensures
            b == (match self.root {
                Some(r) => r.aabb,
                None => AABB::spec_empty(),
            }),
    {
        match &self.root {
            Some(r) => r.aabb(),
            None => AABB::empty(),
        }
    }
}

} // verus!
