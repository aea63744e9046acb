//! The bounding volume hierarchy: a binary tree over an arena of surfaces.
//!
//! The central theorem is the contract of `Bvh::hit`: traversal with interval
//! tightening returns exactly what a brute-force linear scan over the tree's
//! leaf surfaces returns, for every ray and every allowed interval. A branch
//! over a single surface carries it on both sides (the degenerate pair that
//! keeps traversal uniform), so the leaf sequence can name a surface twice;
//! the scan equality accounts for exactly that sequence.

use vstd::prelude::*;
use vstd::multiset::Multiset;
use vstd::seq_lib::group_to_multiset_ensures;
use crate::aabb::{box_encloses, box_wf, Aabb};
use crate::fixed::TMAX;
use crate::hittable::{
    bbox_of, hit_ok, hittable_wf, lemma_lin_hit_ok, lemma_wf_bbox, lin_hit, spec_hit, HitRecord,
    Hittable,
};
use crate::ray::{ray_wf, spec_at, Ray};
use crate::rng::Rng;
use crate::util::Interval;

verus! {

/// A node of the hierarchy: a leaf holds an index into the surface arena.
pub enum BvhNode {
    Leaf(usize),
    Node { left: Box<BvhNode>, right: Box<BvhNode>, bbox: Aabb },
}

/// A hierarchy over an arena of surfaces.
pub struct Bvh {
    pub surfaces: Vec<Hittable>,
    pub root: BvhNode,
}

/// The leaf indices of a subtree, left to right.
pub open spec fn leaves(n: BvhNode) -> Seq<usize>
    decreases n,
{
    match n {
        BvhNode::Leaf(i) => seq![i],
        BvhNode::Node { left, right, bbox } => leaves(*left) + leaves(*right),
    }
}

/// The leaf surfaces of a subtree, left to right.
pub open spec fn leaf_surfs(n: BvhNode, s: Seq<Hittable>) -> Seq<Hittable>
    decreases n,
{
    match n {
        BvhNode::Leaf(i) => seq![s[i as int]],
        BvhNode::Node { left, right, bbox } => leaf_surfs(*left, s) + leaf_surfs(*right, s),
    }
}

/// The box of the `j`-th leaf surface under the subtree fits inside `b`.
pub open spec fn encl_at(n: BvhNode, s: Seq<Hittable>, b: Aabb, j: int) -> bool {
    box_encloses(b, bbox_of(s[leaves(n)[j] as int]))
}

/// Every leaf surface under the subtree fits inside `b`.
pub open spec fn covered(n: BvhNode, s: Seq<Hittable>, b: Aabb) -> bool {
    forall|j: int| 0 <= j < leaves(n).len() ==> #[trigger] encl_at(n, s, b, j)
}

/// Structural well-formedness: indices in range, and each inner node's box
/// encloses the boxes of all surfaces beneath it.
pub open spec fn node_wf(n: BvhNode, s: Seq<Hittable>) -> bool
    decreases n,
{
    match n {
        BvhNode::Leaf(i) => i < s.len(),
        BvhNode::Node { left, right, bbox } => {
            &&& node_wf(*left, s)
            &&& node_wf(*right, s)
            &&& box_wf(bbox)
            &&& covered(*left, s, bbox)
            &&& covered(*right, s, bbox)
        },
    }
}

pub open spec fn all_wf(s: Seq<Hittable>) -> bool {
    forall|i: int| 0 <= i < s.len() ==> hittable_wf(#[trigger] s[i])
}

pub open spec fn bvh_wf(b: Bvh) -> bool {
    &&& all_wf(b.surfaces@)
    &&& node_wf(b.root, b.surfaces@)
    &&& forall|x: usize| leaves(b.root).contains(x) <==> 0 <= x < b.surfaces.len()
}

/// The surfaces at the leaves are exactly the arena entries the indices name.
pub proof fn lemma_leaf_surfs(n: BvhNode, s: Seq<Hittable>)
    requires
        node_wf(n, s),
    ensures
        leaf_surfs(n, s).len() == leaves(n).len() >= 1,
        forall|j: int| 0 <= j < leaves(n).len()
            ==> #[trigger] leaf_surfs(n, s)[j] == s[leaves(n)[j] as int]
                && leaves(n)[j] < s.len(),
    decreases n,
{
    match n {
        BvhNode::Leaf(i) => {},
        BvhNode::Node { left, right, bbox } => {
            lemma_leaf_surfs(*left, s);
            lemma_leaf_surfs(*right, s);
        },
    }
}

/// Leaf surfaces of a well-formed subtree are all well formed.
pub proof fn lemma_leaf_surfs_wf(n: BvhNode, s: Seq<Hittable>)
    requires
        node_wf(n, s),
        all_wf(s),
    ensures
        forall|i: int| 0 <= i < leaf_surfs(n, s).len()
            ==> hittable_wf(#[trigger] leaf_surfs(n, s)[i]),
{
    lemma_leaf_surfs(n, s);
    assert forall|i: int| 0 <= i < leaf_surfs(n, s).len()
        implies hittable_wf(#[trigger] leaf_surfs(n, s)[i]) by {
        assert(leaf_surfs(n, s)[i] == s[leaves(n)[i] as int]);
    }
}

/// Concatenation law for the linear scan: scanning `s1 + s2` is scanning
/// `s1`, then scanning `s2` with the upper bound tightened to the best hit
/// of `s1`, preferring a hit from `s2`.
proof fn lemma_lin_concat(s1: Seq<Hittable>, s2: Seq<Hittable>, ray: Ray, tmin: int, tmax: int)
    ensures
        lin_hit(s1 + s2, ray, tmin, tmax) == {
            let first = lin_hit(s1, ray, tmin, tmax);
            let m = match first {
                Some(rec) => rec.t as int,
                None => tmax,
            };
            match lin_hit(s2, ray, tmin, m) {
                Some(rec) => Some(rec),
                None => first,
            }
        },
    decreases s2.len(),
{
    let first = lin_hit(s1, ray, tmin, tmax);
    let m = match first {
        Some(rec) => rec.t as int,
        None => tmax,
    };
    if s2.len() == 0 {
        assert(s1 + s2 =~= s1);
    } else {
        lemma_lin_concat(s1, s2.drop_last(), ray, tmin, tmax);
        assert((s1 + s2).drop_last() =~= s1 + s2.drop_last());
        assert((s1 + s2).last() == s2.last());
    }
}

impl Bvh {
    /// Build a hierarchy over the given surfaces: split by the box minimum
    /// on a randomly chosen axis, recursing on count halves.
    pub fn new(objects: Vec<Hittable>, rng: &mut Rng) -> (r: Bvh)
        requires
            objects.len() >= 1,
            all_wf(objects@),
        ensures
            bvh_wf(r),
            r.surfaces == objects,
            forall|x: usize| leaves(r.root).contains(x) <==> 0 <= x < objects.len(),
            objects.len() == 1 ==> leaves(r.root) =~= seq![0usize, 0usize],
    {
        let n = objects.len();
        let mut idxs: Vec<usize> = Vec::new();
        let mut k: usize = 0;
        while k < n
            invariant
                k <= n,
                idxs@.len() == k,
                forall|i: int| 0 <= i < k ==> idxs@[i] == i,
            decreases n - k,
        {
            idxs.push(k);
            k = k + 1;
        }
        proof {
            assert forall|x: usize| idxs@.contains(x) implies 0 <= x < n by {
                let i = choose|i: int| 0 <= i < idxs@.len() && idxs@[i] == x;
            }
            assert forall|x: usize| 0 <= x < n implies idxs@.contains(x) by {
                assert(idxs@[x as int] == x);
            }
        }
        let root = build(idxs, &objects, rng);
        Bvh { surfaces: objects, root }
    }

    /// A box covering the bounding box of every surface in the arena.
    pub fn bounding_box(&self) -> (r: Aabb)
        requires
            bvh_wf(*self),
        ensures
            box_wf(r),
            forall|i: int| 0 <= i < self.surfaces.len()
                ==> box_encloses(r, bbox_of(#[trigger] self.surfaces@[i])),
    {
        let r = match &self.root {
            BvhNode::Leaf(i) => {
                proof {
                    lemma_wf_bbox(self.surfaces@[*i as int]);
                }
                self.surfaces[*i].bounding_box()
            },
            BvhNode::Node { left, right, bbox } => *bbox,
        };
        proof {
            assert forall|i: int| 0 <= i < self.surfaces.len()
                implies box_encloses(r, bbox_of(#[trigger] self.surfaces@[i])) by {
                assert(leaves(self.root).contains(i as usize));
                let j = choose|j: int| 0 <= j < leaves(self.root).len()
                    && leaves(self.root)[j] == i as usize;
                match self.root {
                    BvhNode::Leaf(k) => {
                        assert(leaves(self.root) =~= seq![k]);
                        assert(i as usize == k);
                    },
                    BvhNode::Node { left, right, bbox } => {
                        if j < leaves(*left).len() {
                            assert(encl_at(*left, self.surfaces@, bbox, j));
                            assert(leaves(self.root)[j] == leaves(*left)[j]);
                        } else {
                            assert(encl_at(*right, self.surfaces@, bbox,
                                j - leaves(*left).len()));
                            assert(leaves(self.root)[j]
                                == leaves(*right)[j - leaves(*left).len()]);
                        }
                    },
                }
            }
        }
        r
    }

    /// Traverse the hierarchy. The result equals a brute-force linear scan
    /// over the tree's leaf surfaces, for the same ray and interval.
    pub fn hit(&self, ray: &Ray, allowed_t: Interval) -> (r: Option<HitRecord>)
        requires
            bvh_wf(*self),
            ray_wf(*ray),
            -TMAX <= allowed_t.0,
            allowed_t.1 <= TMAX,
        ensures
            r == lin_hit(leaf_surfs(self.root, self.surfaces@), *ray,
                allowed_t.0 as int, allowed_t.1 as int),
    {
        hit_node(&self.root, &self.surfaces, ray, allowed_t.0, allowed_t.1)
    }
}

/// Recursive traversal with interval tightening.
fn hit_node(node: &BvhNode, surfaces: &Vec<Hittable>, ray: &Ray, tmin: i64, tmax: i64)
    -> (r: Option<HitRecord>)
    requires
        node_wf(*node, surfaces@),
        all_wf(surfaces@),
        ray_wf(*ray),
        -TMAX <= tmin,
        tmax <= TMAX,
    ensures
        r == lin_hit(leaf_surfs(*node, surfaces@), *ray, tmin as int, tmax as int),
    decreases *node,
{
    proof {
        lemma_leaf_surfs(*node, surfaces@);
        lemma_leaf_surfs_wf(*node, surfaces@);
        lemma_lin_hit_ok(leaf_surfs(*node, surfaces@), *ray, tmin as int, tmax as int);
    }
    match node {
        BvhNode::Leaf(i) => {
            let r = (&surfaces[*i]).hit(ray, Interval(tmin, tmax));
            proof {
                let s1 = leaf_surfs(*node, surfaces@);
                assert(s1.drop_last() =~= Seq::<Hittable>::empty());
                assert(lin_hit(s1.drop_last(), *ray, tmin as int, tmax as int)
                    == None::<HitRecord>);
                assert(s1.last() == surfaces@[*i as int]);
                assert(lin_hit(s1, *ray, tmin as int, tmax as int)
                    == spec_hit(surfaces@[*i as int], *ray, tmin as int, tmax as int));
            }
            r
        },
        BvhNode::Node { left, right, bbox } => {
            if !bbox.hit(ray, Interval(tmin, tmax)) {
                proof {
                    let surfs = leaf_surfs(*node, surfaces@);
                    if let Some(rec) = lin_hit(surfs, *ray, tmin as int, tmax as int) {
                        let i = choose|i: int| 0 <= i < surfs.len()
                            && crate::aabb::box_contains(bbox_of(surfs[i]),
                                spec_at(*ray, rec.t as int));
                        assert(box_encloses(*bbox, bbox_of(surfs[i]))) by {
                            if i < leaves(**left).len() {
                                assert(encl_at(**left, surfaces@, *bbox, i));
                                assert(leaves(*node)[i] == leaves(**left)[i]);
                            } else {
                                assert(encl_at(**right, surfaces@, *bbox,
                                    i - leaves(**left).len()));
                                assert(leaves(*node)[i]
                                    == leaves(**right)[i - leaves(**left).len()]);
                            }
                            assert(surfs[i] == surfaces@[leaves(*node)[i] as int]);
                        }
                        crate::aabb::lemma_encloses_contains(*bbox, bbox_of(surfs[i]),
                            spec_at(*ray, rec.t as int));
                        assert(false);
                    }
                }
                None
            } else {
                let hl = hit_node(left, surfaces, ray, tmin, tmax);
                proof {
                    lemma_leaf_surfs_wf(**left, surfaces@);
                    lemma_lin_hit_ok(leaf_surfs(**left, surfaces@), *ray,
                        tmin as int, tmax as int);
                }
                let m = match &hl {
                    Some(rec) => rec.t,
                    None => tmax,
                };
                let hr = hit_node(right, surfaces, ray, tmin, m);
                proof {
                    lemma_lin_concat(leaf_surfs(**left, surfaces@),
                        leaf_surfs(**right, surfaces@), *ray, tmin as int, tmax as int);
                }
                match hr {
                    Some(rec) => Some(rec),
                    None => hl,
                }
            }
        },
    }
}

/// Sequences with the same multiset hold the same elements.
proof fn lemma_same_multiset_contains(a: Seq<usize>, b: Seq<usize>)
    requires
        a.to_multiset() == b.to_multiset(),
    ensures
        forall|x: usize| a.contains(x) <==> b.contains(x),
{
    a.to_multiset_ensures();
    b.to_multiset_ensures();
    assert forall|x: usize| a.contains(x) <==> b.contains(x) by {
        assert(a.contains(x) <==> a.to_multiset().count(x) > 0);
        assert(b.contains(x) <==> b.to_multiset().count(x) > 0);
        assert(a.to_multiset().count(x) == b.to_multiset().count(x));
    }
}

/// Membership in a concatenation follows membership in the halves.
proof fn lemma_concat_contains(a: Seq<usize>, b: Seq<usize>, c: Seq<usize>, d: Seq<usize>)
    requires
        forall|x: usize| a.contains(x) <==> c.contains(x),
        forall|x: usize| b.contains(x) <==> d.contains(x),
    ensures
        forall|x: usize| (a + b).contains(x) <==> (c + d).contains(x),
{
    assert forall|x: usize| (a + b).contains(x) implies (c + d).contains(x) by {
        let j = choose|j: int| 0 <= j < (a + b).len() && (a + b)[j] == x;
        if j < a.len() {
            assert(a[j] == x);
            assert(c.contains(x));
            let k = choose|k: int| 0 <= k < c.len() && c[k] == x;
            assert((c + d)[k] == x);
        } else {
            assert(b[j - a.len()] == x);
            assert(d.contains(x));
            let k = choose|k: int| 0 <= k < d.len() && d[k] == x;
            assert((c + d)[k + c.len()] == x);
        }
    }
    assert forall|x: usize| (c + d).contains(x) implies (a + b).contains(x) by {
        let j = choose|j: int| 0 <= j < (c + d).len() && (c + d)[j] == x;
        if j < c.len() {
            assert(c[j] == x);
            assert(a.contains(x));
            let k = choose|k: int| 0 <= k < a.len() && a[k] == x;
            assert((a + b)[k] == x);
        } else {
            assert(d[j - c.len()] == x);
            assert(b.contains(x));
            let k = choose|k: int| 0 <= k < b.len() && b[k] == x;
            assert((a + b)[k + b.len() - b.len() + a.len()] == x);
        }
    }
}

/// Recursive construction over a set of arena indices.
#[verifier::rlimit(100)]
fn build(idxs: Vec<usize>, surfaces: &Vec<Hittable>, rng: &mut Rng) -> (r: BvhNode)
    requires
        idxs.len() >= 1,
        forall|i: int| 0 <= i < idxs@.len() ==> idxs@[i] < surfaces.len(),
        all_wf(surfaces@),
    ensures
        node_wf(r, surfaces@),
        forall|x: usize| leaves(r).contains(x) <==> idxs@.contains(x),
        idxs@.len() == 1 ==> leaves(r) =~= seq![idxs@[0], idxs@[0]],
    decreases idxs.len(),
{
    broadcast use group_to_multiset_ensures;

    let axis = (rng.next_u64() % 3) as usize;
    let n = idxs.len();
    if n == 1 {
        let a = idxs[0];
        let node = leaf_pair(a, a, surfaces);
        proof {
            assert forall|x: usize| leaves(node).contains(x) implies idxs@.contains(x) by {
                assert(idxs@[0] == a);
            }
            assert forall|x: usize| idxs@.contains(x) implies leaves(node).contains(x) by {
                assert(leaves(node)[0] == a);
            }
        }
        node
    } else if n == 2 {
        let a = idxs[0];
        let b = idxs[1];
        let (a, b) = if box_min(a, surfaces, axis) <= box_min(b, surfaces, axis) {
            (a, b)
        } else {
            (b, a)
        };
        let node = leaf_pair(a, b, surfaces);
        proof {
            assert(idxs@ =~= seq![idxs@[0]] + seq![idxs@[1]]);
            assert forall|x: usize| leaves(node).contains(x) implies idxs@.contains(x) by {}
            assert forall|x: usize| idxs@.contains(x) implies leaves(node).contains(x) by {
                assert(leaves(node)[0] == a && leaves(node)[1] == b);
            }
        }
        node
    } else {
        let sorted = sort_by_axis(idxs, surfaces, axis);
        let ghost gsorted = sorted@;
        let mut leftv = sorted;
        let mid = n / 2;
        let rightv = leftv.split_off(mid);
        let ghost glv = leftv@;
        let ghost grv = rightv@;
        let left = build(leftv, surfaces, rng);
        let right = build(rightv, surfaces, rng);
        let ghost gleft = left;
        let ghost gright = right;
        let bl = node_box(&left, surfaces);
        let br = node_box(&right, surfaces);
        let bbox = Aabb::combine(bl, br);
        let node = BvhNode::Node { left: Box::new(left), right: Box::new(right), bbox };
        proof {
            lemma_covered_widen(gleft, surfaces@, bl, bbox);
            lemma_covered_widen(gright, surfaces@, br, bbox);
            assert(node_wf(gleft, surfaces@) && node_wf(gright, surfaces@));
            assert(leaves(node) == leaves(gleft) + leaves(gright));
            lemma_concat_contains(leaves(gleft), leaves(gright), glv, grv);
            assert(glv + grv =~= gsorted);
            lemma_same_multiset_contains(gsorted, idxs@);
            assert forall|x: usize| leaves(node).contains(x) <==> idxs@.contains(x) by {
                assert(leaves(node).contains(x) <==> (glv + grv).contains(x));
                assert(gsorted.contains(x) <==> idxs@.contains(x));
            }
            assert(covered(gleft, surfaces@, bbox) && covered(gright, surfaces@, bbox));
        }
        node
    }
}

/// A degenerate pair node over two leaves (possibly the same surface).
fn leaf_pair(a: usize, b: usize, surfaces: &Vec<Hittable>) -> (r: BvhNode)
    requires
        a < surfaces.len(),
        b < surfaces.len(),
        all_wf(surfaces@),
    ensures
        node_wf(r, surfaces@),
        leaves(r) =~= seq![a, b],
{
    let la = BvhNode::Leaf(a);
    let lb = BvhNode::Leaf(b);
    let ghost gla = la;
    let ghost glb = lb;
    let ba = node_box(&la, surfaces);
    let bb = node_box(&lb, surfaces);
    let bbox = Aabb::combine(ba, bb);
    let node = BvhNode::Node { left: Box::new(la), right: Box::new(lb), bbox };
    proof {
        lemma_covered_widen(gla, surfaces@, ba, bbox);
        lemma_covered_widen(glb, surfaces@, bb, bbox);
        assert(node_wf(gla, surfaces@));
        assert(node_wf(glb, surfaces@));
        assert(leaves(gla) =~= seq![a]);
        assert(leaves(glb) =~= seq![b]);
        assert(leaves(node) =~= seq![a, b]);
    }
    node
}

/// A box covering all surfaces under a subtree.
fn node_box(node: &BvhNode, surfaces: &Vec<Hittable>) -> (r: Aabb)
    requires
        node_wf(*node, surfaces@),
        all_wf(surfaces@),
    ensures
        box_wf(r),
        covered(*node, surfaces@, r),
{
    match node {
        BvhNode::Leaf(i) => {
            proof {
                lemma_wf_bbox(surfaces@[*i as int]);
            }
            let r = (&surfaces[*i]).bounding_box();
            proof {
                assert(leaves(*node) =~= seq![*i]);
                assert forall|j: int| 0 <= j < leaves(*node).len()
                    implies #[trigger] encl_at(*node, surfaces@, r, j) by {
                    assert(leaves(*node)[j] == *i);
                    assert(box_encloses(r, bbox_of(surfaces@[*i as int])));
                }
                assert(covered(*node, surfaces@, r));
            }
            r
        },
        BvhNode::Node { left, right, bbox } => {
            proof {
                lemma_covered_join(*node, surfaces@, *bbox);
            }
            *bbox
        },
    }
}

/// The two halves' coverage joins into the whole subtree's coverage.
proof fn lemma_covered_join(n: BvhNode, s: Seq<Hittable>, b: Aabb)
    requires
        match n {
            BvhNode::Node { left, right, bbox } => covered(*left, s, b) && covered(*right, s, b),
            BvhNode::Leaf(_) => false,
        },
    ensures
        covered(n, s, b),
{
    match n {
        BvhNode::Node { left, right, bbox } => {
            assert(leaves(n) == leaves(*left) + leaves(*right));
            assert forall|j: int| 0 <= j < leaves(n).len()
                implies #[trigger] encl_at(n, s, b, j) by {
                if j < leaves(*left).len() {
                    assert(encl_at(*left, s, b, j));
                    assert(leaves(n)[j] == leaves(*left)[j]);
                } else {
                    assert(encl_at(*right, s, b, j - leaves(*left).len()));
                    assert(leaves(n)[j] == leaves(*right)[j - leaves(*left).len()]);
                }
            }
        },
        BvhNode::Leaf(_) => {},
    }
}

/// Coverage is monotone in the covering box.
proof fn lemma_covered_widen(n: BvhNode, s: Seq<Hittable>, inner: Aabb, outer: Aabb)
    requires
        covered(n, s, inner),
        box_encloses(outer, inner),
    ensures
        covered(n, s, outer),
{
    assert forall|j: int| 0 <= j < leaves(n).len()
        implies #[trigger] encl_at(n, s, outer, j) by {
        assert(encl_at(n, s, inner, j));
    }
}

/// The minimum bound of a surface's box on an axis (the build comparator key).
fn box_min(i: usize, surfaces: &Vec<Hittable>, axis: usize) -> (r: i64)
    requires
        i < surfaces.len(),
        axis < 3,
    ensures
        r == bbox_of(surfaces@[i as int]).spec_axis(axis as int).0,
{
    let b = (&surfaces[i]).bounding_box();
    b.axis(axis).0
}

/// Sort indices by the box minimum on the chosen axis (insertion sort);
/// the result holds exactly the same indices.
fn sort_by_axis(idxs: Vec<usize>, surfaces: &Vec<Hittable>, axis: usize) -> (r: Vec<usize>)
    requires
        forall|i: int| 0 <= i < idxs@.len() ==> idxs@[i] < surfaces.len(),
        axis < 3,
    ensures
        r@.to_multiset() == idxs@.to_multiset(),
        r@.len() == idxs@.len(),
        forall|i: int| 0 <= i < r@.len() ==> r@[i] < surfaces.len(),
{
    broadcast use group_to_multiset_ensures;

    let mut src = idxs;
    let mut dst: Vec<usize> = Vec::new();
    proof {
        assert(src@.to_multiset().add(dst@.to_multiset()) =~= idxs@.to_multiset());
    }
    while src.len() > 0
        invariant
            forall|i: int| 0 <= i < src@.len() ==> src@[i] < surfaces.len(),
            forall|i: int| 0 <= i < dst@.len() ==> dst@[i] < surfaces.len(),
            src@.to_multiset().add(dst@.to_multiset()) =~= idxs@.to_multiset(),
            src@.len() + dst@.len() == idxs@.len(),
            axis < 3,
        decreases src.len(),
    {
        let mut best: usize = 0;
        let mut j: usize = 1;
        while j < src.len()
            invariant
                src@.len() > 0,
                best < src@.len(),
                j <= src@.len(),
                forall|i: int| 0 <= i < src@.len() ==> src@[i] < surfaces.len(),
                axis < 3,
            decreases src.len() - j,
        {
            if box_min(src[j], surfaces, axis) < box_min(src[best], surfaces, axis) {
                best = j;
            }
            j = j + 1;
        }
        let ghost gsrc = src@;
        let ghost gdst = dst@;
        let x = src.remove(best);
        dst.push(x);
        proof {
            gsrc.to_multiset_ensures();
            gdst.to_multiset_ensures();
            assert(gsrc.contains(x)) by {
                assert(gsrc[best as int] == x);
            }
            assert(gsrc.to_multiset().count(x) > 0);
            assert(src@.to_multiset() =~= gsrc.to_multiset().remove(x));
            assert(dst@.to_multiset() =~= gdst.to_multiset().insert(x));
            assert(src@.to_multiset().add(dst@.to_multiset()) =~= idxs@.to_multiset());
        }
    }
    proof {
        assert(src@.to_multiset() =~= Multiset::<usize>::empty());
        assert(dst@.to_multiset() =~= idxs@.to_multiset());
        vstd::seq_lib::lemma_multiset_commutative(src@, dst@);
    }
    dst
}

} // verus!
