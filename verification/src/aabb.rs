use vstd::prelude::*;

verus! {

/// Largest magnitude an object's coordinate may have on the integer grid.
pub const COORD_LIMIT: i64 = 0x10_0000_0000_0000;

/// Magnitude used for the bounds of the empty box; every box met in a
/// hierarchy lies strictly inside it.
pub const EMPTY_BOUND: i64 = 0x1000_0000_0000_0000;

/// The upper bounds of the empty box.
pub const EMPTY_LOW: i64 = -0x1000_0000_0000_0000;

/// A point (or a vector) on the integer grid.
#[derive(Clone, Copy, Debug, PartialEq, Eq, Structural)]
pub struct Point {
    pub x: i64,
    pub y: i64,
    pub z: i64,
}

pub open spec fn within(v: i64, bound: i64) -> bool {
    -bound <= v <= bound
}

impl Point {
    pub fn new(x: i64, y: i64, z: i64) -> (p: Point)
        ensures
            p == (Point { x, y, z }),
    {
        Point { x, y, z }
    }

    pub open spec fn within(self, bound: i64) -> bool {
        within(self.x, bound) && within(self.y, bound) && within(self.z, bound)
    }

    /// The coordinate along `axis`: x for 0, y for 1, z for any other axis.
    pub open spec fn coord(self, axis: usize) -> i64 {
        if axis == 0 {
            self.x
        } else if axis == 1 {
            self.y
        } else {
            self.z
        }
    }

    /// The coordinate along `axis`; every axis past 1 reads z.
    pub fn element(&self, axis: usize) -> (v: i64)
        ensures
            v == self.coord(axis),
    {
        if axis == 0 {
            self.x
        } else if axis == 1 {
            self.y
        } else {
            self.z
        }
    }
}


pub open spec fn min_i(a: i64, b: i64) -> i64 {
    if a <= b { a } else { b }
}

pub open spec fn max_i(a: i64, b: i64) -> i64 {
    if a >= b { a } else { b }
}

/// Component-wise minimum of two points.
pub open spec fn point_min(a: Point, b: Point) -> Point {
    Point { x: min_i(a.x, b.x), y: min_i(a.y, b.y), z: min_i(a.z, b.z) }
}

/// Component-wise maximum of two points.
pub open spec fn point_max(a: Point, b: Point) -> Point {
    Point { x: max_i(a.x, b.x), y: max_i(a.y, b.y), z: max_i(a.z, b.z) }
}

fn min_of(a: i64, b: i64) -> (r: i64)
    ensures
        r == min_i(a, b),
{
    if a <= b { a } else { b }
}

fn max_of(a: i64, b: i64) -> (r: i64)
    ensures
        r == max_i(a, b),
{
    if a >= b { a } else { b }
}

impl Point {
    /// Component-wise minimum.
    pub fn min(&self, other: &Point) -> (r: Point)
        ensures
            r == point_min(*self, *other),
    {
        Point { x: min_of(self.x, other.x), y: min_of(self.y, other.y), z: min_of(self.z, other.z) }
    }

    /// Component-wise maximum.
    pub fn max(&self, other: &Point) -> (r: Point)
        ensures
            r == point_max(*self, *other),
    {
        Point { x: max_of(self.x, other.x), y: max_of(self.y, other.y), z: max_of(self.z, other.z) }
    }
}

/// An axis-aligned bounding box on the integer grid. A box whose `min`
/// exceeds its `max` on some axis holds no point; `AABB::empty()` is such a
/// box and is the neutral element of `union`.
#[derive(Clone, Copy, Debug, PartialEq, Eq, Structural)]
pub struct AABB {
    pub min: Point,
    pub max: Point,
}

impl AABB {
    pub open spec fn within(self, bound: i64) -> bool {
        self.min.within(bound) && self.max.within(bound)
    }

    /// The bounds of an object: its coordinates lie in the grid's range.
    pub open spec fn is_object_box(self) -> bool {
        self.within(COORD_LIMIT)
    }

    /// The box holds the point `p`.
    pub open spec fn holds(self, p: Point) -> bool {
        &&& self.min.x <= p.x <= self.max.x
        &&& self.min.y <= p.y <= self.max.y
        &&& self.min.z <= p.z <= self.max.z
    }

    /// Every point of `inner` lies in `self` (on each axis `inner`'s interval
    /// is inside `self`'s).
    pub open spec fn encloses(self, inner: AABB) -> bool {
        &&& self.min.x <= inner.min.x && inner.max.x <= self.max.x
        &&& self.min.y <= inner.min.y && inner.max.y <= self.max.y
        &&& self.min.z <= inner.min.z && inner.max.z <= self.max.z
    }

    /// The length of the box along `axis`: `max - min` on that axis.
    pub open spec fn extent(self, axis: usize) -> int {
        self.max.coord(axis) - self.min.coord(axis)
    }

    /// `axis` is an axis along which the box is longest, and no later axis
    /// is as long (ties go to the later axis).
    pub open spec fn is_longest_axis(self, axis: usize) -> bool {
        &&& axis < 3
        &&& forall|k: usize| k < 3 ==> self.extent(axis) >= #[trigger] self.extent(k)
        &&& forall|k: usize| axis < k < 3 ==> #[trigger] self.extent(k) < self.extent(axis)
    }

    pub open spec fn spec_empty() -> AABB {
        AABB {
            min: Point { x: EMPTY_BOUND, y: EMPTY_BOUND, z: EMPTY_BOUND },
            max: Point { x: EMPTY_LOW, y: EMPTY_LOW, z: EMPTY_LOW },
        }
    }

    pub open spec fn spec_union(self, other: AABB) -> AABB {
        AABB { min: point_min(self.min, other.min), max: point_max(self.max, other.max) }
    }

    pub open spec fn spec_extend(self, p: Point) -> AABB {
        AABB { min: point_min(self.min, p), max: point_max(self.max, p) }
    }

    /// Twice the centre of the box: `min + max` on each axis. Scaling by two
    /// keeps the centre exact on the integer grid and orders centres as the
    /// centres themselves are ordered.
    pub open spec fn spec_center_times_two(self) -> Point {
        Point {
            x: (self.min.x + self.max.x) as i64,
            y: (self.min.y + self.max.y) as i64,
            z: (self.min.z + self.max.z) as i64,
        }
    }

    /// The axis along which the box is longest: x (0) when it is longer than
    /// both others, else y (1) when longer than z, else z (2); ties go to the
    /// later axis.
    pub open spec fn spec_longest_axis(self) -> usize {
        let ex = self.max.x - self.min.x;
        let ey = self.max.y - self.min.y;
        let ez = self.max.z - self.min.z;
        if ex > ey {
            if ex > ez { 0 } else { 2 }
        } else if ey > ez {
            1
        } else {
            2
        }
    }

    pub fn new(min: Point, max: Point) -> (b: AABB)
        ensures
            b == (AABB { min, max }),
    {
        AABB { min, max }
    }

    /// The box that holds no point.
    pub fn empty() -> (b: AABB)
        ensures
            b == AABB::spec_empty(),
    {
        AABB {
            min: Point { x: EMPTY_BOUND, y: EMPTY_BOUND, z: EMPTY_BOUND },
            max: Point { x: EMPTY_LOW, y: EMPTY_LOW, z: EMPTY_LOW },
        }
    }

    /// The smallest box enclosing both boxes.
    pub fn union(&self, other: &AABB) -> (b: AABB)
        ensures
            b == self.spec_union(*other),
            b.encloses(*self),
            b.encloses(*other),
            forall|k: usize|
                k < 3 ==> {
                    &&& #[trigger] b.min.coord(k) == self.min.coord(k) || b.min.coord(k) == other.min.coord(k)
                    &&& b.max.coord(k) == self.max.coord(k) || b.max.coord(k) == other.max.coord(k)
                },
    {
        AABB { min: self.min.min(&other.min), max: self.max.max(&other.max) }
    }

    /// Grows the box so that it holds `p`.
    pub fn extend(&mut self, p: Point)
        ensures
            *final(self) == old(self).spec_extend(p),
            final(self).holds(p),
            final(self).encloses(*old(self)),
            forall|k: usize|
                k < 3 ==> {
                    &&& #[trigger] final(self).min.coord(k) == old(self).min.coord(k) || final(self).min.coord(k) == p.coord(k)
                    &&& final(self).max.coord(k) == old(self).max.coord(k) || final(self).max.coord(k) == p.coord(k)
                },
    {
        self.min = self.min.min(&p);
        self.max = self.max.max(&p);
    }

    /// Twice the centre of the box.
    pub fn center_times_two(&self) -> (c: Point)
        requires
            self.within(COORD_LIMIT),
        ensures
            c == self.spec_center_times_two(),
            forall|k: usize| k < 3 ==> #[trigger] c.coord(k) == self.min.coord(k) + self.max.coord(k),
    {
        Point { x: self.min.x + self.max.x, y: self.min.y + self.max.y, z: self.min.z + self.max.z }
    }

    /// The axis along which the box is longest.
    pub fn longest_axis(&self) -> (axis: usize)
        requires
            self.within(EMPTY_BOUND),
        ensures
            axis == self.spec_longest_axis(),
            axis < 3,
            self.is_longest_axis(axis),
    {
        proof {
            lemma_longest_axis_is_longest(*self);
        }
        let ex = self.max.x - self.min.x;
        let ey = self.max.y - self.min.y;
        let ez = self.max.z - self.min.z;
        if ex > ey {
            if ex > ez { 0 } else { 2 }
        } else if ey > ez {
            1
        } else {
            2
        }
    }
}

/// The union keeps every point of both boxes.
pub proof fn lemma_union_encloses(a: AABB, b: AABB)
    ensures
        a.spec_union(b).encloses(a),
        a.spec_union(b).encloses(b),
{
}

/// The empty box is neutral for `union` on boxes inside its bounds.
pub proof fn lemma_union_empty(b: AABB)
    requires
        b.within(EMPTY_BOUND),
    ensures
        AABB::spec_empty().spec_union(b) == b,
{
}

pub proof fn lemma_coord_min_max(a: Point, b: Point, k: usize)
    ensures
        point_min(a, b).coord(k) == min_i(a.coord(k), b.coord(k)),
        point_max(a, b).coord(k) == max_i(a.coord(k), b.coord(k)),
{
}

/// `longest_axis` picks the axis of largest extent `max - min`, the later
/// one on ties.
pub proof fn lemma_longest_axis_is_longest(b: AABB)
    ensures
        b.is_longest_axis(b.spec_longest_axis()),
{
    let a = b.spec_longest_axis();
    assert forall|k: usize| k < 3 implies b.extent(a) >= #[trigger] b.extent(k) by {}
    assert forall|k: usize| a < k < 3 implies #[trigger] b.extent(k) < b.extent(a) by {}
}

/// A box has one longest axis in this sense: two axes that both qualify
/// are the same.
pub proof fn lemma_longest_axis_unique(b: AABB, a1: usize, a2: usize)
    requires
        b.is_longest_axis(a1),
        b.is_longest_axis(a2),
    ensures
        a1 == a2,
{
    if a1 < a2 {
        assert(b.extent(a2) < b.extent(a1));
        assert(b.extent(a2) >= b.extent(a1));
    } else if a2 < a1 {
        assert(b.extent(a1) < b.extent(a2));
        assert(b.extent(a1) >= b.extent(a2));
    }
}

/// Twice the centre is `min + max` on every axis: unchanged when `min` and
/// `max` trade places, moved by `2d` when the box moves by `d`.
pub proof fn lemma_center_is_sum(b: AABB)
    requires
        b.within(COORD_LIMIT),
    ensures
        forall|k: usize|
            k < 3 ==> #[trigger] b.spec_center_times_two().coord(k) == b.min.coord(k) + b.max.coord(k),
{
}

/// Extending a box by `p` gives the smallest box holding `p` and the old box:
/// every bound moves only as far as `p`'s coordinate.
pub proof fn lemma_extend_is_smallest(b: AABB, p: Point)
    ensures
        b.spec_extend(p).holds(p),
        b.spec_extend(p).encloses(b),
        forall|k: usize|
            k < 3 ==> {
                &&& #[trigger] b.spec_extend(p).min.coord(k) == b.min.coord(k) || b.spec_extend(p).min.coord(k)
                    == p.coord(k)
                &&& b.spec_extend(p).max.coord(k) == b.max.coord(k) || b.spec_extend(p).max.coord(k) == p.coord(k)
            },
{
}

/// The union of two boxes encloses both and each of its bounds is a bound of
/// one of them, so it is the smallest box enclosing both.
pub proof fn lemma_union_is_smallest(a: AABB, b: AABB)
    ensures
        a.spec_union(b).encloses(a),
        a.spec_union(b).encloses(b),
        forall|k: usize|
            k < 3 ==> {
                &&& #[trigger] a.spec_union(b).min.coord(k) == a.min.coord(k) || a.spec_union(b).min.coord(k)
                    == b.min.coord(k)
                &&& a.spec_union(b).max.coord(k) == a.max.coord(k) || a.spec_union(b).max.coord(k) == b.max.coord(k)
            },
{
}

/// The empty box holds no point.
pub proof fn lemma_empty_holds_nothing(p: Point)
    ensures
        !AABB::spec_empty().holds(p),
{
}

} // verus!
