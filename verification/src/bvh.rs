//! Bounding-volume hierarchy: a binary tree over the primitive arena whose
//! traversal provably returns the same hit as a brute-force linear scan of
//! the same primitives.
//!
//! Box pruning is lossless by construction: every reported hit point lies in
//! its primitive's stored box, every node's box contains its descendants'
//! boxes, and the slab test accepts every parameter whose position is inside
//! the box — so a pruned subtree can never have produced a hit.

use vstd::prelude::*;
use vstd::seq_lib::lemma_multiset_commutative;
use vstd::multiset::Multiset;
use crate::fx::{Fx};
use crate::interval::Interval;
use crate::ray::{Ray3, ray_wf, Hit, HitView, opt_hit_view, clip_hit};
use crate::aabb::{AABB, box_contains, slab_hit, lemma_point_mem, lemma_slab_mono};
use crate::world::{World, world_wf, Primitive, prims_wf, prim_bbox, prim_rho, prim_det,
    prim_hit, prim_bbox_exec, hit_ok, scan, bound_of, objs_ok, all_det, Hittables,
    hittables_wf, lemma_rho_good};
use crate::rng::Prng;

verus! {

/// A child of a tree node: an internal node or a primitive leaf.
#[derive(Clone, Copy, PartialEq, Eq, Structural, Debug)]
pub enum BvhChild {
    Node(usize),
    Prim(usize),
}

/// An internal node: two children and the box containing both.
#[derive(Clone, Copy, PartialEq, Eq, Structural, Debug)]
pub struct BvhNode {
    pub left: BvhChild,
    pub right: BvhChild,
    pub bbox: AABB,
}

/// The hierarchy: a node arena (children precede parents) and the root.
#[derive(Clone, PartialEq, Eq, Debug)]
pub struct Bvh {
    pub nodes: Vec<BvhNode>,
    pub root: BvhChild,
}

/// Rank for structural recursion over children: leaves are smallest, nodes
/// are ordered by arena position.
pub open spec fn crank(c: BvhChild) -> int {
    match c {
        BvhChild::Prim(_) => 0,
        BvhChild::Node(k) => k + 1,
    }
}

/// A child reference valid below `bound` in the node arena.
pub open spec fn child_ok(nodes: Seq<BvhNode>, prims: Seq<Primitive>, c: BvhChild,
    bound: int) -> bool {
    match c {
        BvhChild::Node(k) => k < bound && k < nodes.len(),
        BvhChild::Prim(p) => p < prims.len(),
    }
}

/// The box stored for a child.
pub open spec fn child_box(nodes: Seq<BvhNode>, prims: Seq<Primitive>, c: BvhChild) -> AABB {
    match c {
        BvhChild::Node(k) => nodes[k as int].bbox,
        BvhChild::Prim(p) => prim_bbox(prims[p as int]),
    }
}

/// Arena invariant: children precede their parents and boxes contain their
/// children's boxes.
pub open spec fn nodes_wf(nodes: Seq<BvhNode>, prims: Seq<Primitive>) -> bool {
    forall|k: int| 0 <= k < nodes.len() ==> {
        &&& child_ok(nodes, prims, (#[trigger] nodes[k]).left, k)
        &&& child_ok(nodes, prims, nodes[k].right, k)
        &&& box_contains(nodes[k].bbox, child_box(nodes, prims, nodes[k].left))
        &&& box_contains(nodes[k].bbox, child_box(nodes, prims, nodes[k].right))
    }
}

pub open spec fn bvh_wf(b: Bvh, prims: Seq<Primitive>) -> bool {
    &&& nodes_wf(b.nodes@, prims)
    &&& child_ok(b.nodes@, prims, b.root, b.nodes@.len() as int)
}

/// The primitive indices at the leaves of a subtree, in traversal order.
pub open spec fn leaves(nodes: Seq<BvhNode>, c: BvhChild) -> Seq<usize>
    decreases crank(c),
{
    match c {
        BvhChild::Prim(p) => seq![p],
        BvhChild::Node(k) => if 0 <= k < nodes.len() && crank(nodes[k as int].left) <= k
            && crank(nodes[k as int].right) <= k {
            leaves(nodes, nodes[k as int].left) + leaves(nodes, nodes[k as int].right)
        } else {
            Seq::empty()
        },
    }
}

/// The traversal threaded through the sampler state: prune by the node box,
/// walk the left child, walk the right child against the tightened bound,
/// keep the nearer hit. This is what `Bvh::hit` computes, exactly, for every
/// scene — media included, whose draws follow this traversal order.
#[verifier::opaque]
pub open spec fn walk(nodes: Seq<BvhNode>, prims: Seq<Primitive>, c: BvhChild, ray: Ray3,
    t0: int, m0: int, st: u64) -> (Option<HitView>, u64)
    decreases crank(c),
{
    match c {
        BvhChild::Prim(p) => crate::world::prim_res(prims, p as int, ray, t0, m0, st),
        BvhChild::Node(k) => if 0 <= k < nodes.len() && crank(nodes[k as int].left) <= k
            && crank(nodes[k as int].right) <= k {
            if !slab_hit(nodes[k as int].bbox, ray.origin@, ray.dir@, t0, m0) {
                (None, st)
            } else {
                let l = walk(nodes, prims, nodes[k as int].left, ray, t0, m0, st);
                let m2 = bound_of(l.0, m0);
                let r = walk(nodes, prims, nodes[k as int].right, ray, t0, m2, l.1);
                (match r.0 {
                    Some(h) => Some(h),
                    None => l.0,
                }, r.1)
            }
        } else {
            (None, st)
        },
    }
}

/// Appending to the node arena never changes an existing subtree's leaves.
pub proof fn lemma_leaves_stable(n1: Seq<BvhNode>, n2: Seq<BvhNode>, prims: Seq<Primitive>,
    c: BvhChild)
    requires
        n1.len() <= n2.len(),
        forall|k: int| 0 <= k < n1.len() ==> n2[k] == n1[k],
        nodes_wf(n1, prims),
        child_ok(n1, prims, c, n1.len() as int),
    ensures
        leaves(n2, c) == leaves(n1, c),
    decreases crank(c),
{
    match c {
        BvhChild::Prim(_) => {},
        BvhChild::Node(k) => {
            lemma_leaves_stable(n1, n2, prims, n1[k as int].left);
            lemma_leaves_stable(n1, n2, prims, n1[k as int].right);
        },
    }
}

/// Every leaf is a valid primitive whose box the subtree's box contains.
pub proof fn lemma_leaves_boxed(nodes: Seq<BvhNode>, prims: Seq<Primitive>, c: BvhChild)
    requires
        nodes_wf(nodes, prims),
        child_ok(nodes, prims, c, nodes.len() as int),
    ensures
        forall|j: int| 0 <= j < leaves(nodes, c).len() ==> {
            &&& (#[trigger] leaves(nodes, c)[j]) < prims.len()
            &&& box_contains(child_box(nodes, prims, c),
                prim_bbox(prims[leaves(nodes, c)[j] as int]))
        },
    decreases crank(c),
{
    match c {
        BvhChild::Prim(_) => {},
        BvhChild::Node(k) => {
            let l = nodes[k as int].left;
            let r = nodes[k as int].right;
            lemma_leaves_boxed(nodes, prims, l);
            lemma_leaves_boxed(nodes, prims, r);
            assert forall|j: int| 0 <= j < leaves(nodes, c).len() implies {
                &&& (#[trigger] leaves(nodes, c)[j]) < prims.len()
                &&& box_contains(child_box(nodes, prims, c),
                    prim_bbox(prims[leaves(nodes, c)[j] as int]))
            } by {
                let ll = leaves(nodes, l);
                if j < ll.len() {
                    assert(leaves(nodes, c)[j] == ll[j]);
                } else {
                    assert(leaves(nodes, c)[j] == leaves(nodes, r)[j - ll.len()]);
                }
            }
        },
    }
}

/// A scan whose members all have clipped-out candidates returns its
/// accumulator unchanged (stated for an empty accumulator).
pub proof fn lemma_scan_pruned(w: Seq<Primitive>, s: Seq<usize>, ray: Ray3, t0: int, m0: int)
    requires
        forall|k: int| 0 <= k < s.len()
            ==> clip_hit(prim_rho(w, (#[trigger] s[k]) as int, ray, t0), m0) is None,
    ensures
        scan(w, s, ray, t0, m0, None) is None,
    decreases s.len(),
{
    reveal(scan);
    if s.len() > 0 {
        lemma_scan_pruned(w, s.drop_first(), ray, t0, m0);
    }
}

/// A scan distributes over concatenation: the left part's result feeds the
/// right part as its accumulator.
pub proof fn lemma_scan_concat(w: Seq<Primitive>, s1: Seq<usize>, s2: Seq<usize>, ray: Ray3,
    t0: int, m0: int, acc: Option<HitView>)
    ensures
        scan(w, s1 + s2, ray, t0, m0, acc) == scan(w, s2, ray, t0, m0, scan(w, s1, ray, t0, m0,
            acc)),
    decreases s1.len(),
{
    reveal(scan);
    if s1.len() == 0 {
        assert(s1 + s2 =~= s2);
    } else {
        assert((s1 + s2).drop_first() =~= s1.drop_first() + s2);
        assert((s1 + s2)[0] == s1[0]);
        match clip_hit(prim_rho(w, s1[0] as int, ray, t0), bound_of(acc, m0)) {
            Some(h) => lemma_scan_concat(w, s1.drop_first(), s2, ray, t0, m0, Some(h)),
            None => lemma_scan_concat(w, s1.drop_first(), s2, ray, t0, m0, acc),
        }
    }
}

/// A scan that already holds a best hit equals a fresh scan bounded by that
/// hit's parameter, falling back to the held hit.
pub proof fn lemma_scan_acc(w: Seq<Primitive>, s: Seq<usize>, ray: Ray3, t0: int, m0: int,
    h: HitView)
    ensures
        scan(w, s, ray, t0, m0, Some(h)) == (match scan(w, s, ray, t0, h.t, None) {
            Some(x) => Some(x),
            None => Some(h),
        }),
    decreases s.len(),
{
    reveal(scan);
    if s.len() > 0 {
        match clip_hit(prim_rho(w, s[0] as int, ray, t0), h.t) {
            Some(g) => {
                lemma_scan_acc(w, s.drop_first(), ray, t0, m0, g);
                lemma_scan_acc(w, s.drop_first(), ray, t0, h.t, g);
            },
            None => {
                lemma_scan_acc(w, s.drop_first(), ray, t0, m0, h);
            },
        }
    }
}

/// What a scan computes, order-independently: `None` exactly when every
/// member's candidate is clipped out, otherwise some member's candidate with
/// the smallest parameter.
pub proof fn lemma_scan_min(w: Seq<Primitive>, s: Seq<usize>, ray: Ray3, t0: int, m0: int,
    acc: Option<HitView>)
    requires
        match acc {
            Some(h0) => h0.t < m0,
            None => true,
        },
    ensures
        match scan(w, s, ray, t0, m0, acc) {
            None => acc is None && forall|k: int| 0 <= k < s.len()
                ==> clip_hit(prim_rho(w, (#[trigger] s[k]) as int, ray, t0), m0) is None,
            Some(h) => h.t < m0 && (acc == Some(h) || exists|k: int| 0 <= k < s.len()
                && prim_rho(w, (#[trigger] s[k]) as int, ray, t0) == Some(h))
                && (match acc {
                    Some(h0) => h.t <= h0.t,
                    None => true,
                })
                && forall|k: int| 0 <= k < s.len()
                    ==> (match clip_hit(prim_rho(w, (#[trigger] s[k]) as int, ray, t0), m0) {
                        Some(g) => h.t <= g.t,
                        None => true,
                    }),
        },
    decreases s.len(),
{
    reveal(scan);
    if s.len() > 0 {
        let bd = bound_of(acc, m0);
        match clip_hit(prim_rho(w, s[0] as int, ray, t0), bd) {
            Some(g) => {
                lemma_scan_min(w, s.drop_first(), ray, t0, m0, Some(g));
                assert forall|k: int| 0 <= k < s.len() implies
                    (match clip_hit(prim_rho(w, (#[trigger] s[k]) as int, ray, t0), m0) {
                        Some(x) => (match scan(w, s, ray, t0, m0, acc) {
                            Some(h) => h.t <= x.t,
                            None => false,
                        }),
                        None => true,
                    }) by {
                    if k > 0 {
                        assert(s[k] == s.drop_first()[k - 1]);
                    }
                }
            },
            None => {
                lemma_scan_min(w, s.drop_first(), ray, t0, m0, acc);
                assert forall|k: int| 0 <= k < s.len() implies
                    (match clip_hit(prim_rho(w, (#[trigger] s[k]) as int, ray, t0), m0) {
                        Some(x) => (match scan(w, s, ray, t0, m0, acc) {
                            Some(h) => h.t <= x.t,
                            None => false,
                        }),
                        None => true,
                    }) by {
                    if k > 0 {
                        assert(s[k] == s.drop_first()[k - 1]);
                    } else {
                        // the head's candidate was clipped by the running
                        // bound, so if it survives the outer bound its
                        // parameter is at least the running bound
                        match scan(w, s, ray, t0, m0, acc) {
                            Some(h) => {
                                assert(h.t <= bd);
                            },
                            None => {},
                        }
                    }
                }
            },
        }
    }
}

/// A scan does not depend on the order of its members: any two orders of the
/// same index set yield the same hit, provided equal-parameter candidates
/// carry equal hit records (with duplicated or re-ordered members, ties
/// between distinct records could otherwise be resolved either way).
pub proof fn lemma_scan_order_free(w: Seq<Primitive>, s1: Seq<usize>, s2: Seq<usize>, ray: Ray3,
    t0: int, m0: int)
    requires
        forall|x: usize| s1.contains(x) <==> s2.contains(x),
        forall|a: int, b: int| 0 <= a < s1.len() && 0 <= b < s1.len()
            ==> (match (prim_rho(w, (#[trigger] s1[a]) as int, ray, t0),
                prim_rho(w, (#[trigger] s1[b]) as int, ray, t0)) {
                (Some(x), Some(y)) => x.t == y.t ==> x == y,
                _ => true,
            }),
    ensures
        scan(w, s1, ray, t0, m0, None) == scan(w, s2, ray, t0, m0, None),
{
    lemma_scan_min(w, s1, ray, t0, m0, None);
    lemma_scan_min(w, s2, ray, t0, m0, None);
    match (scan(w, s1, ray, t0, m0, None), scan(w, s2, ray, t0, m0, None)) {
        (None, None) => {},
        (None, Some(h2)) => {
            let k2 = choose|k: int| 0 <= k < s2.len()
                && prim_rho(w, (#[trigger] s2[k]) as int, ray, t0) == Some(h2);
            assert(s2.contains(s2[k2]));
            let k1 = choose|k: int| 0 <= k < s1.len() && s1[k] == s2[k2];
            assert(clip_hit(prim_rho(w, s1[k1] as int, ray, t0), m0) is None);
            assert(false);
        },
        (Some(h1), None) => {
            let k1 = choose|k: int| 0 <= k < s1.len()
                && prim_rho(w, (#[trigger] s1[k]) as int, ray, t0) == Some(h1);
            assert(s1.contains(s1[k1]));
            let k2 = choose|k: int| 0 <= k < s2.len() && s2[k] == s1[k1];
            assert(clip_hit(prim_rho(w, s2[k2] as int, ray, t0), m0) is None);
            assert(false);
        },
        (Some(h1), Some(h2)) => {
            let k1 = choose|k: int| 0 <= k < s1.len()
                && prim_rho(w, (#[trigger] s1[k]) as int, ray, t0) == Some(h1);
            let k2 = choose|k: int| 0 <= k < s2.len()
                && prim_rho(w, (#[trigger] s2[k]) as int, ray, t0) == Some(h2);
            assert(s1.contains(s1[k1]));
            assert(s2.contains(s2[k2]));
            let j1 = choose|k: int| 0 <= k < s1.len() && s1[k] == s2[k2];
            let j2 = choose|k: int| 0 <= k < s2.len() && s2[k] == s1[k1];
            assert(clip_hit(prim_rho(w, s1[j1] as int, ray, t0), m0) == Some(h2));
            assert(clip_hit(prim_rho(w, s2[j2] as int, ray, t0), m0) == Some(h1));
            assert(h1.t <= h2.t);
            assert(h2.t <= h1.t);
        },
    }
}

/// The hierarchy is a drop-in replacement for the flat collection: over any
/// deterministic primitives, a tree whose leaves hold exactly a collection's
/// members yields the same scan as the collection itself, for every ray and
/// every range — so `Bvh::hit` and `Hittables::hit` return the same hit.
/// (The one proviso: among the members in question, candidates at equal
/// parameters must carry equal hit records, since with exact ties the two
/// traversal orders could otherwise keep different coincident surfaces.)
pub proof fn lemma_hierarchy_equals_linear(w: Seq<Primitive>, members: Seq<usize>, b: Bvh,
    ray: Ray3, t0: int, m0: int)
    requires
        forall|x: usize| leaves(b.nodes@, b.root).contains(x) <==> members.contains(x),
        forall|a: int, c: int| 0 <= a < members.len() && 0 <= c < members.len()
            ==> (match (prim_rho(w, (#[trigger] members[a]) as int, ray, t0),
                prim_rho(w, (#[trigger] members[c]) as int, ray, t0)) {
                (Some(x), Some(y)) => x.t == y.t ==> x == y,
                _ => true,
            }),
    ensures
        scan(w, leaves(b.nodes@, b.root), ray, t0, m0, None) == scan(w, members, ray, t0, m0,
            None),
{
    let lv = leaves(b.nodes@, b.root);
    assert forall|a: int, c: int| 0 <= a < lv.len() && 0 <= c < lv.len()
        implies (match (prim_rho(w, (#[trigger] lv[a]) as int, ray, t0),
            prim_rho(w, (#[trigger] lv[c]) as int, ray, t0)) {
            (Some(x), Some(y)) => x.t == y.t ==> x == y,
            _ => true,
        }) by {
        assert(lv.contains(lv[a]) && lv.contains(lv[c]));
        assert(members.contains(lv[a]) && members.contains(lv[c]));
        let ka = choose|k: int| 0 <= k < members.len() && members[k] == lv[a];
        let kc = choose|k: int| 0 <= k < members.len() && members[k] == lv[c];
        assert(members[ka] == lv[a] && members[kc] == lv[c]);
    }
    lemma_scan_order_free(w, lv, members, ray, t0, m0);
}

impl Bvh {
    /// The closest hit over the whole tree within the range: exactly the
    /// state-threaded traversal `walk`; for a fully deterministic scene it
    /// moreover equals the linear scan over the tree's leaves, with the
    /// sampler untouched.
    pub fn hit(&self, world: &World, ray: &Ray3, t_range: Interval, rng: &mut Prng)
        -> (r: Option<Hit>)
        requires
            world_wf(*world),
            bvh_wf(*self, world.prims@),
            ray_wf(*ray),
        ensures
            all_det(world.prims@, leaves(self.nodes@, self.root)) ==> opt_hit_view(r)
                == scan(world.prims@, leaves(self.nodes@, self.root), *ray, t_range.min.v(),
                t_range.max.v(), None) && final(rng).state == old(rng).state,
            (opt_hit_view(r), final(rng).state) == walk(self.nodes@, world.prims@, self.root,
                *ray, t_range.min.v(), t_range.max.v(), old(rng).state),
            match r {
                Some(h) => hit_ok(world.prims@, *ray, t_range.min.v(), t_range.max.v(), h@),
                None => true,
            },
    {
        child_hit(&self.nodes, &world.prims, self.root, ray, t_range.min, t_range.max, rng)
    }
}

/// Recursive traversal: prune by the node box, search the left child, then
/// the right child against the bound tightened by the left result, and keep
/// the nearer hit.
#[verifier::rlimit(100)]
#[verifier::spinoff_prover]
fn child_hit(nodes: &Vec<BvhNode>, prims: &Vec<Primitive>, c: BvhChild, ray: &Ray3, t0: Fx,
    m0: Fx, rng: &mut Prng) -> (r: Option<Hit>)
    requires
        prims_wf(prims@),
        nodes_wf(nodes@, prims@),
        child_ok(nodes@, prims@, c, nodes@.len() as int),
        ray_wf(*ray),
    ensures
        all_det(prims@, leaves(nodes@, c)) ==> opt_hit_view(r) == scan(prims@, leaves(nodes@,
            c), *ray, t0.v(), m0.v(), None) && final(rng).state == old(rng).state,
        (opt_hit_view(r), final(rng).state) == walk(nodes@, prims@, c, *ray, t0.v(), m0.v(),
            old(rng).state),
        match r {
            Some(h) => hit_ok(prims@, *ray, t0.v(), m0.v(), h@),
            None => true,
        },
    decreases crank(c),
{
    proof {
        reveal(walk);
    }
    match c {
        BvhChild::Prim(p) => {
            let r = prim_hit(prims, p, ray, Interval { min: t0, max: m0 }, rng);
            proof {
                let lv = leaves(nodes@, c);
                assert(lv[0] == p);
                assert(lv.drop_first() =~= Seq::<usize>::empty());
                reveal_with_fuel(scan, 3);
            }
            r
        },
        BvhChild::Node(k) => {
            let node = nodes[k];
            if !node.bbox.hit(ray, Interval { min: t0, max: m0 }) {
                proof {
                    lemma_prune(nodes@, prims@, c, *ray, t0.v(), m0.v());
                }
                return None;
            }
            let hl = child_hit(nodes, prims, node.left, ray, t0, m0, rng);
            let m2 = match &hl {
                Some(h) => h.t,
                None => m0,
            };
            let hr = child_hit(nodes, prims, node.right, ray, t0, m2, rng);
            proof {
                if all_det(prims@, leaves(nodes@, c)) {
                    lemma_det_split(prims@, leaves(nodes@, node.left), leaves(nodes@,
                        node.right));
                    lemma_combine(prims@, leaves(nodes@, node.left), leaves(nodes@,
                        node.right), *ray, t0.v(), m0.v(), opt_hit_view(hl),
                        opt_hit_view(hr));
                }
            }
            match hr {
                Some(h) => Some(h),
                None => hl,
            }
        },
    }
}

/// A subtree whose box the slab test rejects holds no candidate: scanning
/// its leaves returns nothing.
proof fn lemma_prune(nodes: Seq<BvhNode>, prims: Seq<Primitive>, c: BvhChild, ray: Ray3,
    t0: int, m0: int)
    requires
        prims_wf(prims),
        nodes_wf(nodes, prims),
        child_ok(nodes, prims, c, nodes.len() as int),
        ray_wf(ray),
        !slab_hit(child_box(nodes, prims, c), ray.origin@, ray.dir@, t0, m0),
    ensures
        scan(prims, leaves(nodes, c), ray, t0, m0, None) is None,
{
    let lv = leaves(nodes, c);
    lemma_leaves_boxed(nodes, prims, c);
    assert forall|j: int| 0 <= j < lv.len() implies clip_hit(prim_rho(prims,
        (#[trigger] lv[j]) as int, ray, t0), m0) is None by {
        let idx = lv[j] as int;
        lemma_rho_good(prims, idx, ray, t0);
        if let Some(h) = prim_rho(prims, idx, ray, t0) {
            if h.t < m0 {
                lemma_point_mem(prim_bbox(prims[idx]), ray.origin@, ray.dir@, h.t, t0, m0);
                lemma_slab_mono(child_box(nodes, prims, c), prim_bbox(prims[idx]), ray.origin@,
                    ray.dir@, t0, m0);
            }
        }
    }
    lemma_scan_pruned(prims, lv, ray, t0, m0);
}

/// Determinism of a concatenation splits into its parts.
proof fn lemma_det_split(w: Seq<Primitive>, ll: Seq<usize>, rl: Seq<usize>)
    requires
        all_det(w, ll + rl),
    ensures
        all_det(w, ll),
        all_det(w, rl),
{
    assert forall|j: int| 0 <= j < ll.len() implies prim_det(w, (#[trigger] ll[j]) as int) by {
        assert((ll + rl)[j] == ll[j]);
    }
    assert forall|j: int| 0 <= j < rl.len() implies prim_det(w, (#[trigger] rl[j]) as int) by {
        assert((ll + rl)[ll.len() + j] == rl[j]);
    }
}

/// Combining the two children's results the way the traversal does yields
/// the scan of the concatenated leaves.
proof fn lemma_combine(w: Seq<Primitive>, ll: Seq<usize>, rl: Seq<usize>, ray: Ray3, t0: int,
    m0: int, a: Option<HitView>, b: Option<HitView>)
    requires
        a == scan(w, ll, ray, t0, m0, None),
        b == scan(w, rl, ray, t0, bound_of(a, m0), None),
    ensures
        scan(w, ll + rl, ray, t0, m0, None) == (match b {
            Some(h) => Some(h),
            None => a,
        }),
{
    lemma_scan_concat(w, ll, rl, ray, t0, m0, None);
    if let Some(h) = a {
        lemma_scan_acc(w, rl, ray, t0, m0, h);
    }
}

/// The minimum coordinate of a primitive's box along an axis, the key the
/// builder sorts by.
fn axis_key(prims: &Vec<Primitive>, idx: usize, axis: usize) -> (r: i64)
    requires
        idx < prims@.len(),
        axis < 3,
    ensures
        r as int == axis_key_spec(prims@, idx as int, axis as int),
{
    let b = prim_bbox_exec(&prims[idx]);
    b.axis_interval(axis).min.raw
}

pub open spec fn axis_key_spec(w: Seq<Primitive>, idx: int, axis: int) -> int {
    let b = prim_bbox(w[idx]);
    if axis == 0 {
        b.x.min.v()
    } else if axis == 1 {
        b.y.min.v()
    } else {
        b.z.min.v()
    }
}

impl Bvh {
    /// Build a tree over a collection's members, recursively splitting at
    /// the midpoint after ordering by the minimum bound of a randomly chosen
    /// axis. The leaves hold exactly the collection's members.
    pub fn from_hittables(world: &World, hs: &Hittables, rng: &mut Prng) -> (r: Bvh)
        requires
            world_wf(*world),
            hittables_wf(*hs, world.prims@),
            hs.objects@.len() >= 1,
        ensures
            bvh_wf(r, world.prims@),
            leaves(r.nodes@, r.root).to_multiset() == hs.objects@.to_multiset(),
            forall|x: usize| leaves(r.nodes@, r.root).contains(x) <==> hs.objects@.contains(x),
    {
        let items = clone_indices(&hs.objects);
        let mut nodes: Vec<BvhNode> = Vec::new();
        let root = build_tree(world, items, &mut nodes, rng);
        proof {
            broadcast use vstd::seq_lib::group_to_multiset_ensures;
        }
        Bvh { nodes, root }
    }
}

/// Copy a member list (the builder reorders its own copy).
fn clone_indices(v: &Vec<usize>) -> (r: Vec<usize>)
    ensures
        r@ == v@,
{
    let mut r: Vec<usize> = Vec::new();
    let mut k: usize = 0;
    while k < v.len()
        invariant
            k <= v@.len(),
            r@ == v@.subrange(0, k as int),
        decreases v@.len() - k,
    {
        r.push(v[k]);
        k = k + 1;
    }
    proof {
        assert(v@.subrange(0, v@.len() as int) =~= v@);
    }
    r
}

/// Recursively build a subtree over the given members; children are pushed
/// into the arena before their parent. A single member becomes both children
/// of one node (one redundant test, simpler traversal).
fn build_tree(world: &World, items: Vec<usize>, nodes: &mut Vec<BvhNode>, rng: &mut Prng)
    -> (r: BvhChild)
    requires
        world_wf(*world),
        objs_ok(items@, world.prims@.len() as int),
        items@.len() >= 1,
        nodes_wf(old(nodes)@, world.prims@),
    ensures
        old(nodes)@.len() <= final(nodes)@.len(),
        forall|k: int| 0 <= k < old(nodes)@.len() ==> final(nodes)@[k] == old(nodes)@[k],
        nodes_wf(final(nodes)@, world.prims@),
        child_ok(final(nodes)@, world.prims@, r, final(nodes)@.len() as int),
        leaves(final(nodes)@, r).to_multiset() == items@.to_multiset(),
        forall|x: usize| leaves(final(nodes)@, r).contains(x) <==> items@.contains(x),
    decreases items@.len(),
{
    proof {
        broadcast use vstd::seq_lib::group_to_multiset_ensures;
    }
    if items.len() == 1 {
        // a single member becomes a true leaf: no node, no redundant test
        let p = BvhChild::Prim(items[0]);
        proof {
            assert(leaves(nodes@, p) =~= seq![items@[0]]);
            assert(items@ =~= seq![items@[0]]);
        }
        p
    } else if items.len() == 2 {
        let l = BvhChild::Prim(items[0]);
        let rr = BvhChild::Prim(items[1]);
        let bl = prim_bbox_exec(&world.prims[items[0]]);
        let br = prim_bbox_exec(&world.prims[items[1]]);
        let node = BvhNode { left: l, right: rr, bbox: AABB::from_bboxes(&bl, &br) };
        let k = nodes.len();
        let pre: Ghost<Seq<BvhNode>> = Ghost(nodes@);
        nodes.push(node);
        proof {
            lemma_nodes_push(pre@, world.prims@, node);
            reveal_with_fuel(leaves, 2);
            assert(leaves(nodes@, BvhChild::Node(k as usize)) =~= seq![items@[0]]
                + seq![items@[1]]);
            lemma_concat_contains(seq![items@[0]], seq![items@[1]]);
            assert(items@ =~= seq![items@[0]] + seq![items@[1]]);
        }
        BvhChild::Node(k)
    } else {
        let axis = rng.axis();
        let sorted = sort_by_key(world, items, axis);
        let ghost items_v = items@;
        let mid = sorted.len() / 2;
        let ghost sorted_v = sorted@;
        let (left_items, right_items) = split_at(sorted, mid);
        proof {
            assert forall|j: int| 0 <= j < left_items@.len()
                implies (#[trigger] left_items@[j]) < world.prims@.len() by {
                assert(left_items@[j] == sorted_v[j]);
            }
            assert forall|j: int| 0 <= j < right_items@.len()
                implies (#[trigger] right_items@[j]) < world.prims@.len() by {
                assert(right_items@[j] == sorted_v[mid as int + j]);
            }
        }
        let lc = build_tree(world, left_items, nodes, rng);
        let snap: Ghost<Seq<BvhNode>> = Ghost(nodes@);
        let ghost left_v = left_items@;
        let ghost right_v = right_items@;
        let rc = build_tree(world, right_items, nodes, rng);
        proof {
            lemma_leaves_stable(snap@, nodes@, world.prims@, lc);
        }
        let bl = child_box_exec(nodes, &world.prims, lc);
        let br = child_box_exec(nodes, &world.prims, rc);
        let node = BvhNode { left: lc, right: rc, bbox: AABB::from_bboxes(&bl, &br) };
        let k = nodes.len();
        let pre: Ghost<Seq<BvhNode>> = Ghost(nodes@);
        nodes.push(node);
        proof {
            lemma_nodes_push(pre@, world.prims@, node);
            lemma_leaves_stable(pre@, nodes@, world.prims@, lc);
            lemma_leaves_stable(pre@, nodes@, world.prims@, rc);
            assert(leaves(nodes@, BvhChild::Node(k as usize)) == leaves(nodes@, lc)
                + leaves(nodes@, rc));
            lemma_concat_contains(leaves(nodes@, lc), leaves(nodes@, rc));
            assert(sorted_v =~= left_v + right_v);
            lemma_concat_contains(left_v, right_v);
            broadcast use vstd::seq_lib::group_to_multiset_ensures;
            lemma_multiset_commutative(leaves(nodes@, lc), leaves(nodes@, rc));
            lemma_multiset_commutative(left_v, right_v);
            assert(leaves(nodes@, BvhChild::Node(k as usize)).to_multiset()
                =~= items_v.to_multiset());
            assert forall|x: usize| leaves(nodes@, BvhChild::Node(k as usize)).contains(x)
                <==> items_v.contains(x) by {
                assert(sorted_v.contains(x) <==> items_v.contains(x)) by {
                    assert(sorted_v.contains(x) <==> sorted_v.to_multiset().count(x) > 0);
                    assert(items_v.contains(x) <==> items_v.to_multiset().count(x) > 0);
                }
            }
        }
        BvhChild::Node(k)
    }
}

/// Membership in a concatenation is membership in either part.
proof fn lemma_concat_contains(a: Seq<usize>, b: Seq<usize>)
    ensures
        forall|x: usize| #[trigger] (a + b).contains(x) <==> a.contains(x) || b.contains(x),
{
    assert forall|x: usize| #[trigger] (a + b).contains(x) implies a.contains(x)
        || b.contains(x) by {
        let j = choose|j: int| 0 <= j < (a + b).len() && (a + b)[j] == x;
        if j < a.len() {
            assert(a[j] == x);
        } else {
            assert(b[j - a.len()] == x);
        }
    }
    assert forall|x: usize| a.contains(x) || b.contains(x) implies #[trigger] (a
        + b).contains(x) by {
        if a.contains(x) {
            let j = choose|j: int| 0 <= j < a.len() && a[j] == x;
            assert((a + b)[j] == x);
        } else {
            let j = choose|j: int| 0 <= j < b.len() && b[j] == x;
            assert((a + b)[a.len() + j] == x);
        }
    }
}

/// Pushing a parent after its children keeps the arena invariant.
proof fn lemma_nodes_push(nodes: Seq<BvhNode>, prims: Seq<Primitive>, node: BvhNode)
    requires
        nodes_wf(nodes, prims),
        child_ok(nodes, prims, node.left, nodes.len() as int),
        child_ok(nodes, prims, node.right, nodes.len() as int),
        box_contains(node.bbox, child_box(nodes, prims, node.left)),
        box_contains(node.bbox, child_box(nodes, prims, node.right)),
    ensures
        nodes_wf(nodes.push(node), prims),
{
    let n2 = nodes.push(node);
    assert forall|k: int| 0 <= k < n2.len() implies {
        &&& child_ok(n2, prims, (#[trigger] n2[k]).left, k)
        &&& child_ok(n2, prims, n2[k].right, k)
        &&& box_contains(n2[k].bbox, child_box(n2, prims, n2[k].left))
        &&& box_contains(n2[k].bbox, child_box(n2, prims, n2[k].right))
    } by {
        if k < nodes.len() {
            assert(n2[k] == nodes[k]);
        }
    }
}

/// The stored box of a child, read from the arenas.
fn child_box_exec(nodes: &Vec<BvhNode>, prims: &Vec<Primitive>, c: BvhChild) -> (r: AABB)
    requires
        child_ok(nodes@, prims@, c, nodes@.len() as int),
    ensures
        r == child_box(nodes@, prims@, c),
{
    match c {
        BvhChild::Node(k) => nodes[k].bbox,
        BvhChild::Prim(p) => prim_bbox_exec(&prims[p]),
    }
}

/// Order members by ascending box minimum along the axis, by repeatedly
/// extracting the smallest remaining key.
fn sort_by_key(world: &World, items: Vec<usize>, axis: usize) -> (r: Vec<usize>)
    requires
        objs_ok(items@, world.prims@.len() as int),
        axis < 3,
    ensures
        r@.to_multiset() == items@.to_multiset(),
        r@.len() == items@.len(),
        objs_ok(r@, world.prims@.len() as int),
        forall|i: int, j: int| #![trigger r@[i], r@[j]] 0 <= i <= j < r@.len()
            ==> axis_key_spec(world.prims@, r@[i] as int, axis as int) <= axis_key_spec(
            world.prims@, r@[j] as int, axis as int),
    {
    proof {
        broadcast use vstd::seq_lib::group_to_multiset_ensures;
    }
    let mut rem = items;
    let mut sorted: Vec<usize> = Vec::new();
    proof {
        assert forall|x: usize| sorted@.to_multiset().count(x) == 0 by {
            assert(!sorted@.contains(x));
        }
        assert(sorted@.to_multiset().add(rem@.to_multiset()) =~= rem@.to_multiset());
    }
    while rem.len() > 0
        invariant
            objs_ok(rem@, world.prims@.len() as int),
            objs_ok(sorted@, world.prims@.len() as int),
            axis < 3,
            sorted@.to_multiset().add(rem@.to_multiset()) == items@.to_multiset(),
            sorted@.len() + rem@.len() == items@.len(),
            forall|i: int, j: int| #![trigger sorted@[i], sorted@[j]]
                0 <= i <= j < sorted@.len() ==> axis_key_spec(world.prims@, sorted@[i] as int,
                axis as int) <= axis_key_spec(world.prims@, sorted@[j] as int, axis as int),
            forall|i: int, j: int| #![trigger sorted@[i], rem@[j]] 0 <= i < sorted@.len()
                && 0 <= j < rem@.len() ==> axis_key_spec(world.prims@, sorted@[i] as int,
                axis as int) <= axis_key_spec(world.prims@, rem@[j] as int, axis as int),
        decreases rem@.len(),
    {
        proof {
            broadcast use vstd::seq_lib::group_to_multiset_ensures;
        }
        let mut best: usize = 0;
        let mut j: usize = 1;
        while j < rem.len()
            invariant
                best < rem@.len(),
                j <= rem@.len(),
                rem@.len() > 0,
                objs_ok(rem@, world.prims@.len() as int),
                axis < 3,
                forall|j2: int| #![trigger rem@[j2]] 0 <= j2 < j ==> axis_key_spec(
                    world.prims@, rem@[best as int] as int, axis as int) <= axis_key_spec(
                    world.prims@, rem@[j2] as int, axis as int),
            decreases rem@.len() - j,
        {
            if axis_key(&world.prims, rem[j], axis) < axis_key(&world.prims, rem[best], axis) {
                best = j;
            }
            j = j + 1;
        }
        let ghost rem_pre = rem@;
        let ghost sorted_pre = sorted@;
        let picked = rem.remove(best);
        sorted.push(picked);
        proof {
            assert(sorted@.to_multiset().add(rem@.to_multiset()) =~= items@.to_multiset());
            // the extracted minimum keeps both orderings: it follows every
            // earlier pick and precedes everything left behind
            assert forall|i: int, j2: int| #![trigger sorted@[i], sorted@[j2]]
                0 <= i <= j2 < sorted@.len() implies axis_key_spec(world.prims@,
                sorted@[i] as int, axis as int) <= axis_key_spec(world.prims@,
                sorted@[j2] as int, axis as int) by {
                if j2 < sorted@.len() - 1 {
                    assert(sorted@[i] == sorted_pre[i] && sorted@[j2] == sorted_pre[j2]);
                } else if i < sorted@.len() - 1 {
                    assert(sorted@[i] == sorted_pre[i]);
                    assert(sorted@[j2] == picked && picked == rem_pre[best as int]);
                }
            }
            assert forall|i: int, j2: int| #![trigger sorted@[i], rem@[j2]]
                0 <= i < sorted@.len() && 0 <= j2 < rem@.len() implies axis_key_spec(
                world.prims@, sorted@[i] as int, axis as int) <= axis_key_spec(world.prims@,
                rem@[j2] as int, axis as int) by {
                let orig = if j2 < best as int { j2 } else { j2 + 1 };
                assert(rem@[j2] == rem_pre[orig]);
                if i < sorted@.len() - 1 {
                    assert(sorted@[i] == sorted_pre[i]);
                } else {
                    assert(sorted@[i] == rem_pre[best as int]);
                }
            }
        }
    }
    proof {
        assert(rem@.to_multiset() =~= Multiset::<usize>::empty()) by {
            assert(rem@ =~= Seq::<usize>::empty());
        }
        assert(sorted@.to_multiset() =~= items@.to_multiset());
    }
    sorted
}

/// Split a member list at an index into its two halves.
fn split_at(items: Vec<usize>, mid: usize) -> (r: (Vec<usize>, Vec<usize>))
    requires
        mid <= items@.len(),
    ensures
        r.0@ == items@.subrange(0, mid as int),
        r.1@ == items@.subrange(mid as int, items@.len() as int),
    {
    let mut left: Vec<usize> = Vec::new();
    let mut right: Vec<usize> = Vec::new();
    let mut k: usize = 0;
    while k < mid
        invariant
            k <= mid <= items@.len(),
            left@ == items@.subrange(0, k as int),
        decreases mid - k,
    {
        left.push(items[k]);
        k = k + 1;
    }
    while k < items.len()
        invariant
            mid <= k <= items@.len(),
            left@ == items@.subrange(0, mid as int),
            right@ == items@.subrange(mid as int, k as int),
        decreases items@.len() - k,
    {
        right.push(items[k]);
        k = k + 1;
    }
    (left, right)
}

} // verus!
