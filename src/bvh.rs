use vstd::prelude::*;

verus! {

broadcast use vstd::seq_lib::group_to_multiset_ensures;

/// Relies on `rand::random::<u32>`, which draws a number from the thread-local generator;
/// it picks the split axis of a hierarchy node, and nothing is assumed of the number.
#[verifier::external_body]
fn random_u32() -> u32 {
    rand::random::<u32>()
}

/// A point whose coordinates are carried as order keys. The key of a coordinate
/// ranks it in the total order of `f32::total_cmp`, so comparing two keys compares
/// the two coordinates, and the smaller key belongs to the smaller coordinate.
#[derive(Clone, Copy, Debug, PartialEq, Eq)]
pub struct Point3 {
    pub x: i32,
    pub y: i32,
    pub z: i32,
}

impl Point3 {
    pub open spec fn coord(self, axis: int) -> int {
        if axis == 0 {
            self.x as int
        } else if axis == 1 {
            self.y as int
        } else {
            self.z as int
        }
    }

    /// Every coordinate of `self` is at most the same coordinate of `o`.
    pub open spec fn le(self, o: Point3) -> bool {
        self.x <= o.x && self.y <= o.y && self.z <= o.z
    }

    pub open spec fn spec_min(self, o: Point3) -> Point3 {
        Point3 {
            x: if self.x <= o.x { self.x } else { o.x },
            y: if self.y <= o.y { self.y } else { o.y },
            z: if self.z <= o.z { self.z } else { o.z },
        }
    }

    pub open spec fn spec_max(self, o: Point3) -> Point3 {
        Point3 {
            x: if self.x >= o.x { self.x } else { o.x },
            y: if self.y >= o.y { self.y } else { o.y },
            z: if self.z >= o.z { self.z } else { o.z },
        }
    }

    pub fn get(&self, axis: usize) -> (r: i32)
        requires
            axis < 3,
        ensures
            r == self.coord(axis as int),
    {
        if axis == 0 {
            self.x
        } else if axis == 1 {
            self.y
        } else {
            self.z
        }
    }

    pub fn min_by_component(&self, o: &Point3) -> (r: Point3)
        ensures
            r == self.spec_min(*o),
    {
        Point3 {
            x: if self.x <= o.x { self.x } else { o.x },
            y: if self.y <= o.y { self.y } else { o.y },
            z: if self.z <= o.z { self.z } else { o.z },
        }
    }

    pub fn max_by_component(&self, o: &Point3) -> (r: Point3)
        ensures
            r == self.spec_max(*o),
    {
        Point3 {
            x: if self.x >= o.x { self.x } else { o.x },
            y: if self.y >= o.y { self.y } else { o.y },
            z: if self.z >= o.z { self.z } else { o.z },
        }
    }
}

/// An axis-aligned box given by its lower and upper corners.
#[derive(Clone, Copy, Debug, PartialEq, Eq)]
pub struct BoundingBox {
    pub min: Point3,
    pub max: Point3,
}

impl BoundingBox {
    pub open spec fn valid(self) -> bool {
        self.min.le(self.max)
    }

    /// The point `p` lies within `self`.
    pub open spec fn contains_point(self, p: Point3) -> bool {
        self.min.le(p) && p.le(self.max)
    }

    /// `inner` lies within `self`.
    pub open spec fn encloses(self, inner: BoundingBox) -> bool {
        self.min.le(inner.min) && inner.max.le(self.max)
    }

    pub open spec fn spec_union(self, o: BoundingBox) -> BoundingBox {
        BoundingBox { min: self.min.spec_min(o.min), max: self.max.spec_max(o.max) }
    }

    /// The smallest box around both boxes.
    pub fn union(&self, o: &BoundingBox) -> (r: BoundingBox)
        ensures
            r == self.spec_union(*o),
    {
        BoundingBox { min: self.min.min_by_component(&o.min), max: self.max.max_by_component(&o.max) }
    }
}

/// An object of the scene, named by its position in the scene's object list,
/// with its bounds.
#[derive(Clone, Copy, Debug, PartialEq, Eq)]
pub struct Primitive {
    pub object: usize,
    pub bbox: BoundingBox,
}

/// A bounding-volume hierarchy: a binary tree whose leaves are the scene's objects
/// and whose inner nodes hold the union of their children's bounds.
#[derive(Debug)]
pub enum BVH {
    Leaf(Primitive),
    Node { bbox: BoundingBox, left: Box<BVH>, right: Box<BVH> },
}

/// The objects are in order of their lower bound on `axis`.
pub open spec fn sorted_on(s: Seq<Primitive>, axis: int) -> bool {
    forall|i: int, j: int|
        0 <= i < j < s.len() ==> #[trigger] s[i].bbox.min.coord(axis) <= #[trigger] s[j].bbox.min.coord(
            axis,
        )
}

/// No object of `left` has a larger lower bound on `axis` than an object of `right`.
pub open spec fn split_on_axis(left: Seq<Primitive>, right: Seq<Primitive>, axis: int) -> bool {
    forall|i: int, j: int|
        0 <= i < left.len() && 0 <= j < right.len() ==> #[trigger] left[i].bbox.min.coord(axis)
            <= #[trigger] right[j].bbox.min.coord(axis)
}

/// The objects of all the trees of `s`, tree after tree.
pub open spec fn leaves_of_all(s: Seq<BVH>) -> Seq<Primitive>
    decreases s.len(),
{
    if s.len() == 0 {
        Seq::empty()
    } else {
        leaves_of_all(s.drop_last()) + s.last().leaves()
    }
}

impl BVH {
    pub open spec fn bounds(self) -> BoundingBox {
        match self {
            BVH::Leaf(p) => p.bbox,
            BVH::Node { bbox, .. } => bbox,
        }
    }

    /// The objects under this node, left to right.
    pub open spec fn leaves(self) -> Seq<Primitive>
        decreases self,
    {
        match self {
            BVH::Leaf(p) => seq![p],
            BVH::Node { left, right, .. } => left.leaves() + right.leaves(),
        }
    }

    /// Every object has valid bounds, and every inner node's box is the union of its
    /// children's boxes.
    pub open spec fn well_formed(self) -> bool
        decreases self,
    {
        match self {
            BVH::Leaf(p) => p.bbox.valid(),
            BVH::Node { bbox, left, right } => left.well_formed() && right.well_formed() && bbox
                == left.bounds().spec_union(right.bounds()),
        }
    }

    /// Every inner node splits its objects at the median: its left child holds the
    /// lower half (rounded down) of them by lower bound along some axis.
    pub open spec fn median_split(self) -> bool
        decreases self,
    {
        match self {
            BVH::Leaf(_) => true,
            BVH::Node { left, right, .. } => {
                &&& left.median_split()
                &&& right.median_split()
                &&& left.leaves().len() == (left.leaves().len() + right.leaves().len()) / 2
                &&& exists|a: int| 0 <= a < 3 && #[trigger] split_on_axis(left.leaves(), right.leaves(), a)
            },
        }
    }

    /// The number of edges on the longest path from this node down to an object.
    pub open spec fn height(self) -> nat
        decreases self,
    {
        match self {
            BVH::Leaf(_) => 0,
            BVH::Node { left, right, .. } => {
                let (l, r) = (left.height(), right.height());
                1 + if l >= r {
                    l
                } else {
                    r
                }
            },
        }
    }

    pub fn get_min_bounds(&self) -> (r: Point3)
        ensures
            r == self.bounds().min,
    {
        match self {
            BVH::Leaf(p) => p.bbox.min,
            BVH::Node { bbox, .. } => bbox.min,
        }
    }

    pub fn get_max_bounds(&self) -> (r: Point3)
        ensures
            r == self.bounds().max,
    {
        match self {
            BVH::Leaf(p) => p.bbox.max,
            BVH::Node { bbox, .. } => bbox.max,
        }
    }

    /// A node over two trees, bounded by the union of their boxes.
    pub fn join(left: BVH, right: BVH) -> (r: BVH)
        ensures
            r == (BVH::Node {
                bbox: left.bounds().spec_union(right.bounds()),
                left: Box::new(left),
                right: Box::new(right),
            }),
    {
        let lb = match &left {
            BVH::Leaf(p) => p.bbox,
            BVH::Node { bbox, .. } => *bbox,
        };
        let rb = match &right {
            BVH::Leaf(p) => p.bbox,
            BVH::Node { bbox, .. } => *bbox,
        };
        BVH::Node { bbox: lb.union(&rb), left: Box::new(left), right: Box::new(right) }
    }
}

/// The objects of two sorted lists, merged into one sorted list.
fn merge_sorted(a: &Vec<Primitive>, b: &Vec<Primitive>, axis: usize) -> (r: Vec<Primitive>)
    requires
        axis < 3,
        sorted_on(a@, axis as int),
        sorted_on(b@, axis as int),
    ensures
        r@.to_multiset() == a@.to_multiset().add(b@.to_multiset()),
        sorted_on(r@, axis as int),
{
    let ghost ax = axis as int;
    let mut out: Vec<Primitive> = Vec::new();
    let mut i: usize = 0;
    let mut j: usize = 0;
    assert(a@.subrange(0, 0).to_multiset().add(b@.subrange(0, 0).to_multiset()) =~= out@.to_multiset());
    while i < a.len() || j < b.len()
        invariant
            axis < 3,
            ax == axis as int,
            sorted_on(a@, ax),
            sorted_on(b@, ax),
            i <= a.len(),
            j <= b.len(),
            out@.len() == i + j,
            sorted_on(out@, ax),
            out@.to_multiset() == a@.subrange(0, i as int).to_multiset().add(b@.subrange(0, j as int).to_multiset()),
            out@.len() > 0 && i < a.len() ==> out@.last().bbox.min.coord(ax) <= a@[i as int].bbox.min.coord(ax),
            out@.len() > 0 && j < b.len() ==> out@.last().bbox.min.coord(ax) <= b@[j as int].bbox.min.coord(ax),
        decreases a.len() - i + b.len() - j,
    {
        let ghost before = out@;
        let take_a = j >= b.len() || (i < a.len() && a[i].bbox.min.get(axis) <= b[j].bbox.min.get(axis));
        let item = if take_a {
            a[i]
        } else {
            b[j]
        };
        out.push(item);
        proof {
            assert forall|x: int, y: int| 0 <= x < y < out@.len() implies #[trigger] out@[x].bbox.min.coord(ax)
                <= #[trigger] out@[y].bbox.min.coord(ax) by {
                if y == out@.len() - 1 && x < y {
                    assert(before[x].bbox.min.coord(ax) <= before.last().bbox.min.coord(ax));
                }
            }
            if take_a {
                assert(a@.subrange(0, i + 1) == a@.subrange(0, i as int).push(item));
            } else {
                assert(b@.subrange(0, j + 1) == b@.subrange(0, j as int).push(item));
            }
        }
        if take_a {
            i = i + 1;
        } else {
            j = j + 1;
        }
    }
    assert(a@.subrange(0, a@.len() as int) == a@);
    assert(b@.subrange(0, b@.len() as int) == b@);
    out
}

/// The objects of `objects` in order of their lower bound on `axis`, by merge sort.
fn sort_by_min_bound(objects: Vec<Primitive>, axis: usize) -> (r: Vec<Primitive>)
    requires
        axis < 3,
    ensures
        r@.to_multiset() == objects@.to_multiset(),
        sorted_on(r@, axis as int),
    decreases objects.len(),
{
    if objects.len() <= 1 {
        return objects;
    }
    let ghost all = objects@;
    let half = objects.len() / 2;
    let mut left = objects;
    let right = left.split_off(half);
    assert(all == left@ + right@);
    proof {
        vstd::seq_lib::lemma_multiset_commutative(left@, right@);
    }
    let l = sort_by_min_bound(left, axis);
    let r = sort_by_min_bound(right, axis);
    merge_sorted(&l, &r, axis)
}

/// Where the sorted objects are split in two, every object of the first part has a lower
/// bound at most that of every object of the second part, whatever order each part is
/// then in.
proof fn lemma_sorted_split(s: Seq<Primitive>, h: int, l: Seq<Primitive>, r: Seq<Primitive>, axis: int)
    requires
        sorted_on(s, axis),
        0 <= h <= s.len(),
        l.to_multiset() == s.subrange(0, h).to_multiset(),
        r.to_multiset() == s.subrange(h, s.len() as int).to_multiset(),
    ensures
        split_on_axis(l, r, axis),
{
    assert forall|i: int, j: int| 0 <= i < l.len() && 0 <= j < r.len() implies #[trigger] l[i].bbox.min.coord(
        axis,
    ) <= #[trigger] r[j].bbox.min.coord(axis) by {
        let lo = s.subrange(0, h);
        let hi = s.subrange(h, s.len() as int);
        assert(l.contains(l[i]));
        assert(l.to_multiset().count(l[i]) > 0);
        assert(lo.to_multiset().count(l[i]) > 0);
        assert(lo.contains(l[i]));
        assert(r.contains(r[j]));
        assert(r.to_multiset().count(r[j]) > 0);
        assert(hi.to_multiset().count(r[j]) > 0);
        assert(hi.contains(r[j]));
        let p = choose|p: int| 0 <= p < lo.len() && lo[p] == l[i];
        let q = choose|q: int| 0 <= q < hi.len() && hi[q] == r[j];
        assert(s[p] == l[i]);
        assert(s[h + q] == r[j]);
    }
}

/// Each object of a well-formed tree has valid bounds, and the tree's box encloses them.
/// Every node of a well-formed tree is itself a well-formed tree, so this holds at every
/// node for every object under it.
pub proof fn lemma_bounds_enclose_objects(t: BVH, k: int)
    requires
        t.well_formed(),
        0 <= k < t.leaves().len(),
    ensures
        t.leaves()[k].bbox.valid(),
        t.bounds().encloses(t.leaves()[k].bbox),
        t.bounds().valid(),
    decreases t,
{
    match t {
        BVH::Leaf(p) => {},
        BVH::Node { bbox, left, right } => {
            let nl = left.leaves().len();
            if k < nl {
                lemma_bounds_enclose_objects(*left, k);
                assert(t.leaves()[k] == left.leaves()[k]);
            } else {
                lemma_bounds_enclose_objects(*right, k - nl);
                assert(t.leaves()[k] == right.leaves()[k - nl]);
            }
        },
    }
}

/// A point outside the box of a well-formed tree is outside the box of every object under
/// it: whatever misses a node's box misses all the objects below that node, so a
/// traversal may skip the node.
pub proof fn lemma_outside_node_outside_objects(t: BVH, p: Point3, k: int)
    requires
        t.well_formed(),
        0 <= k < t.leaves().len(),
        !t.bounds().contains_point(p),
    ensures
        !t.leaves()[k].bbox.contains_point(p),
{
    lemma_bounds_enclose_objects(t, k);
}

impl BVH {
    /// Builds a hierarchy over `objects` by recursive median split: the objects are sorted
    /// by their lower bound on an axis picked at random, the lower half goes left and the
    /// rest right. A single object is returned as a leaf.
    pub fn build_recursive(objects: Vec<Primitive>) -> (r: BVH)
        requires
            objects.len() >= 1,
            forall|k: int| 0 <= k < objects.len() ==> (#[trigger] objects@[k]).bbox.valid(),
        ensures
            r.well_formed(),
            r.median_split(),
            r.leaves().to_multiset() == objects@.to_multiset(),
        decreases objects.len(),
    {
        if objects.len() == 1 {
            let r = BVH::Leaf(objects[0]);
            assert(r.leaves() == objects@);
            return r;
        }
        let ghost input = objects@;
        let axis = (random_u32() % 3) as usize;
        let mut sorted = sort_by_min_bound(objects, axis);
        let ghost all = sorted@;
        assert(all.len() == all.to_multiset().len());
        assert(input.len() == input.to_multiset().len());
        let h = sorted.len() / 2;
        let right = sorted.split_off(h);
        assert forall|k: int| 0 <= k < sorted.len() implies (#[trigger] sorted@[k]).bbox.valid() by {
            assert(all.to_multiset().count(sorted@[k]) > 0);
            assert(input.contains(sorted@[k]));
        }
        assert forall|k: int| 0 <= k < right.len() implies (#[trigger] right@[k]).bbox.valid() by {
            assert(all[h + k] == right@[k]);
            assert(all.to_multiset().count(right@[k]) > 0);
            assert(input.contains(right@[k]));
        }
        let l = BVH::build_recursive(sorted);
        let rt = BVH::build_recursive(right);
        proof {
            lemma_sorted_split(all, h as int, l.leaves(), rt.leaves(), axis as int);
            vstd::seq_lib::lemma_multiset_commutative(l.leaves(), rt.leaves());
            assert(all == all.subrange(0, h as int) + all.subrange(h as int, all.len() as int));
            vstd::seq_lib::lemma_multiset_commutative(all.subrange(0, h as int), all.subrange(h as int, all.len() as int));
        }
        let r = BVH::join(l, rt);
        assert(split_on_axis(r->left.leaves(), r->right.leaves(), axis as int));
        r
    }
}

proof fn lemma_leaves_of_all_first(s: Seq<BVH>)
    requires
        s.len() > 0,
    ensures
        leaves_of_all(s) == s[0].leaves() + leaves_of_all(s.drop_first()),
    decreases s.len(),
{
    if s.len() == 1 {
        assert(s.drop_last().len() == 0);
        assert(s.drop_first().len() == 0);
        assert(leaves_of_all(s.drop_first()) == Seq::<Primitive>::empty());
        assert(leaves_of_all(s.drop_last()) == Seq::<Primitive>::empty());
        assert(s[0].leaves() + Seq::<Primitive>::empty() == s[0].leaves());
        assert(Seq::<Primitive>::empty() + s[0].leaves() == s[0].leaves());
    } else {
        lemma_leaves_of_all_first(s.drop_last());
        assert(s.drop_last().drop_first() == s.drop_first().drop_last());
        assert(s.drop_first().last() == s.last());
        assert(s.drop_last()[0] == s[0]);
    }
}

proof fn lemma_leaves_of_all_push(s: Seq<BVH>, x: BVH)
    ensures
        leaves_of_all(s.push(x)) == leaves_of_all(s) + x.leaves(),
{
    assert(s.push(x).drop_last() == s);
}

/// The node over `a` and `b`, bounded by the union of their boxes.
pub open spec fn spec_join(a: BVH, b: BVH) -> BVH {
    BVH::Node { bbox: a.bounds().spec_union(b.bounds()), left: Box::new(a), right: Box::new(b) }
}

/// One round of pairing: the first tree joined with the second, the third with the
/// fourth, and so on; an odd last tree goes up alone.
pub open spec fn pair_round(s: Seq<BVH>) -> Seq<BVH>
    decreases s.len(),
{
    if s.len() <= 1 {
        s
    } else {
        seq![spec_join(s[0], s[1])] + pair_round(s.subrange(2, s.len() as int))
    }
}

/// Rounds of pairing until at most one tree is left. (A round always shortens a list of
/// two or more trees, so the last branch is never taken.)
pub open spec fn pairing_rounds(s: Seq<BVH>) -> Seq<BVH>
    decreases s.len(),
{
    if s.len() <= 1 {
        s
    } else if pair_round(s).len() < s.len() {
        pairing_rounds(pair_round(s))
    } else {
        s
    }
}

/// Builds a hierarchy bottom-up by joining neighbours: each round pairs the first tree
/// with the second, the third with the fourth, and so on, an odd last tree going up
/// alone, until one tree is left. A single tree is returned as it is. The objects keep
/// their order.
pub fn build_bvh(initial_objects: Vec<BVH>) -> (r: BVH)
    requires
        initial_objects.len() >= 1,
        forall|k: int| 0 <= k < initial_objects.len() ==> (#[trigger] initial_objects@[k]).well_formed(),
    ensures
        r == pairing_rounds(initial_objects@)[0],
        pairing_rounds(initial_objects@).len() == 1,
        initial_objects.len() == 1 ==> r == initial_objects@[0],
        r.well_formed(),
        r.leaves() == leaves_of_all(initial_objects@),
{
    let ghost init = initial_objects@;
    let ghost target = leaves_of_all(initial_objects@);
    let mut working = initial_objects;
    while working.len() != 1
        invariant
            working.len() >= 1,
            forall|k: int| 0 <= k < working.len() ==> (#[trigger] working@[k]).well_formed(),
            leaves_of_all(working@) == target,
            pairing_rounds(working@) == pairing_rounds(init),
        decreases working.len(),
    {
        let ghost w0 = working@;
        let n = working.len();
        let mut reversed: Vec<BVH> = Vec::new();
        while working.len() > 0
            invariant
                n == w0.len(),
                working.len() <= n,
                working@ == w0.subrange(0, working.len() as int),
                reversed.len() == n - working.len(),
                forall|k: int| 0 <= k < reversed.len() ==> #[trigger] reversed@[k] == w0[n - 1 - k],
            decreases working.len(),
        {
            let x = working.pop().unwrap();
            reversed.push(x);
        }
        let mut next: Vec<BVH> = Vec::new();
        proof {
            assert(w0.subrange(0, n as int) == w0);
            assert(leaves_of_all(next@) == Seq::<Primitive>::empty());
            assert(leaves_of_all(next@) + leaves_of_all(w0) == leaves_of_all(w0));
            assert(next@ + pair_round(w0) =~= pair_round(w0));
        }
        while reversed.len() > 0
            invariant
                n == w0.len(),
                n >= 2,
                reversed.len() <= n,
                forall|k: int| 0 <= k < reversed.len() ==> #[trigger] reversed@[k] == w0[n - 1 - k],
                forall|k: int| 0 <= k < n ==> (#[trigger] w0[k]).well_formed(),
                reversed.len() > 0 ==> (n - reversed.len()) % 2 == 0,
                2 * next.len() <= n - reversed.len() + 1,
                n - reversed.len() > 0 ==> next.len() >= 1,
                forall|k: int| 0 <= k < next.len() ==> (#[trigger] next@[k]).well_formed(),
                leaves_of_all(next@) + leaves_of_all(w0.subrange(n - reversed.len(), n as int)) == target,
                next@ + pair_round(w0.subrange(n - reversed.len(), n as int)) == pair_round(w0),
            decreases reversed.len(),
        {
            let ghost c = n - reversed.len();
            let ghost rest = w0.subrange(c, n as int);
            let ghost n0 = next@;
            proof {
                lemma_leaves_of_all_first(rest);
                assert(rest.drop_first() == w0.subrange(c + 1, n as int));
            }
            let a = reversed.pop().unwrap();
            assert(a == w0[c]);
            if reversed.len() > 0 {
                let ghost rest1 = w0.subrange(c + 1, n as int);
                proof {
                    lemma_leaves_of_all_first(rest1);
                    assert(rest1.drop_first() == w0.subrange(c + 2, n as int));
                }
                let b = reversed.pop().unwrap();
                assert(b == w0[c + 1]);
                let j = BVH::join(a, b);
                next.push(j);
                proof {
                    let tail = w0.subrange(c + 2, n as int);
                    assert(rest.subrange(2, rest.len() as int) == tail);
                    assert(rest[0] == a && rest[1] == b);
                    assert(pair_round(rest) == seq![spec_join(a, b)] + pair_round(tail));
                    assert(next@ + pair_round(tail) =~= n0 + pair_round(rest));
                    lemma_leaves_of_all_push(n0, j);
                    assert(j.leaves() == a.leaves() + b.leaves());
                    assert(leaves_of_all(next@) + leaves_of_all(w0.subrange(c + 2, n as int)) == leaves_of_all(n0)
                        + (a.leaves() + (b.leaves() + leaves_of_all(w0.subrange(c + 2, n as int)))));
                }
            } else {
                next.push(a);
                proof {
                    assert(rest.len() == 1);
                    assert(rest[0] == a);
                    assert(pair_round(rest) == rest);
                    assert(rest =~= seq![a]);
                    assert(pair_round(w0.subrange(n as int, n as int)) =~= Seq::<BVH>::empty());
                    assert(next@ + pair_round(w0.subrange(n as int, n as int)) =~= n0 + pair_round(rest));
                    lemma_leaves_of_all_push(n0, a);
                }
            }
        }
        assert(leaves_of_all(w0.subrange(n as int, n as int)) == Seq::<Primitive>::empty());
        assert(leaves_of_all(next@) + Seq::<Primitive>::empty() == leaves_of_all(next@));
        assert(pair_round(w0.subrange(n as int, n as int)) =~= Seq::<BVH>::empty());
        assert(next@ =~= pair_round(w0));
        assert(pairing_rounds(w0) == pairing_rounds(next@));
        working = next;
    }
    let ghost last = working@;
    let r = working.remove(0);
    proof {
        assert(pairing_rounds(last) == last);
        assert(last.drop_last().len() == 0);
        assert(leaves_of_all(last.drop_last()) == Seq::<Primitive>::empty());
        assert(Seq::<Primitive>::empty() + r.leaves() == r.leaves());
    }
    r
}

/// The number of pairing rounds that bring `n` trees down to one.
pub open spec fn rounds_for(n: nat) -> nat
    decreases n,
{
    if n <= 1 {
        0
    } else {
        1 + rounds_for(((n + 1) / 2) as nat)
    }
}

proof fn lemma_pair_round_bound(s: Seq<BVH>, h: nat)
    requires
        forall|k: int| 0 <= k < s.len() ==> (#[trigger] s[k]).height() <= h,
    ensures
        pair_round(s).len() == (s.len() + 1) / 2,
        forall|k: int| 0 <= k < pair_round(s).len() ==> (#[trigger] pair_round(s)[k]).height() <= h + 1,
    decreases s.len(),
{
    if s.len() >= 2 {
        let tail = s.subrange(2, s.len() as int);
        assert forall|k: int| 0 <= k < tail.len() implies (#[trigger] tail[k]).height() <= h by {
            assert(tail[k] == s[k + 2]);
        }
        lemma_pair_round_bound(tail, h);
        let p = pair_round(s);
        assert(p == seq![spec_join(s[0], s[1])] + pair_round(tail));
        assert(s[0].height() <= h && s[1].height() <= h);
        assert forall|k: int| 0 <= k < p.len() implies (#[trigger] p[k]).height() <= h + 1 by {
            if k > 0 {
                assert(p[k] == pair_round(tail)[k - 1]);
            }
        }
    }
}

proof fn lemma_rounds_height(s: Seq<BVH>, h: nat)
    requires
        s.len() >= 1,
        s[0].height() == h,
        forall|k: int| 0 <= k < s.len() ==> (#[trigger] s[k]).height() <= h,
    ensures
        pairing_rounds(s).len() == 1,
        pairing_rounds(s)[0].height() == h + rounds_for(s.len()),
    decreases s.len(),
{
    if s.len() >= 2 {
        lemma_pair_round_bound(s, h);
        let p = pair_round(s);
        assert(p == seq![spec_join(s[0], s[1])] + pair_round(s.subrange(2, s.len() as int)));
        assert(s[1].height() <= h);
        assert(p[0].height() == h + 1);
        lemma_rounds_height(p, h + 1);
    }
}

proof fn lemma_rounds_for_log(n: nat)
    requires
        n >= 1,
    ensures
        vstd::arithmetic::power2::pow2(rounds_for(n)) >= n,
        n >= 2 ==> vstd::arithmetic::power2::pow2((rounds_for(n) - 1) as nat) < n,
    decreases n,
{
    vstd::arithmetic::power2::lemma_pow2(0);
    vstd::arithmetic::power::lemma_pow0(2);
    if n >= 2 {
        let m = ((n + 1) / 2) as nat;
        lemma_rounds_for_log(m);
        vstd::arithmetic::power2::lemma_pow2_unfold(rounds_for(n));
        if m >= 2 {
            vstd::arithmetic::power2::lemma_pow2_unfold(rounds_for(m));
        }
    }
}

/// Built from single objects, the hierarchy of `build_bvh` has height ceil(log2 n) for
/// n objects: `rounds_for(n)` is the least k with 2^k >= n.
pub proof fn lemma_build_bvh_height(s: Seq<BVH>)
    requires
        s.len() >= 1,
        forall|k: int| 0 <= k < s.len() ==> (#[trigger] s[k]) is Leaf,
    ensures
        pairing_rounds(s)[0].height() == rounds_for(s.len()),
        vstd::arithmetic::power2::pow2(rounds_for(s.len())) >= s.len(),
        s.len() >= 2 ==> vstd::arithmetic::power2::pow2((rounds_for(s.len()) - 1) as nat) < s.len(),
{
    assert forall|k: int| 0 <= k < s.len() implies (#[trigger] s[k]).height() <= 0 by {
        assert(s[k] is Leaf);
    }
    lemma_rounds_height(s, 0);
    lemma_rounds_for_log(s.len());
}

} // verus!
