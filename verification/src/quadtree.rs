//! A per-kind spatial index: a quadtree over the square world, bucketing
//! `(agent id, position)` entries by position. A leaf holds at most
//! `capacity` entries unless it sits at `max_level`, where overflow is
//! tolerated so insertion always terminates. Child regions are four equal
//! quarters, in clockwise order from the region's origin corner.
//!
//! The model of a tree is `entries()`: the pre-order sequence of all
//! entries in the subtree. Insertion changes it only up to order (stated
//! with multisets); a radius query returns exactly its matching entries.

use vstd::prelude::*;
use vstd::arithmetic::power2::pow2;
use vstd::multiset::Multiset;
use crate::geom::clamp;
use crate::geom::clamp_spec;
use crate::geom::dist2;
use crate::geom::dist2_exec;
use crate::SimError;
use crate::MAX_COORD;

verus! {

/// One indexed point: an agent id and its position.
pub type Entry = (u64, (i64, i64));

/// Half-open square region membership: both axes in `[origin, origin + size)`.
pub open spec fn in_region(origin: (i64, i64), size: i64, p: (i64, i64)) -> bool {
    &&& origin.0 <= p.0 < origin.0 + size
    &&& origin.1 <= p.1 < origin.1 + size
}

/// Horizontal offset factor of child `i`, clockwise from the origin corner.
pub open spec fn quad_dx(i: int) -> int {
    if i == 1 || i == 2 {
        1
    } else {
        0
    }
}

/// Vertical offset factor of child `i`.
pub open spec fn quad_dy(i: int) -> int {
    if i == 2 || i == 3 {
        1
    } else {
        0
    }
}

/// Which child quarter of `[origin, origin+size)²` holds `p`.
pub open spec fn child_index_spec(origin: (i64, i64), size: i64, p: (i64, i64)) -> int {
    let half = size as int / 2;
    let right = p.0 >= origin.0 + half;
    let down = p.1 >= origin.1 + half;
    if right && down {
        2
    } else if right {
        1
    } else if down {
        3
    } else {
        0
    }
}

/// Does the closed region `[origin, origin+size]²` come within `radius` of
/// `c`? Clamping `c` into the region yields the region's nearest point.
pub open spec fn circle_intersects(origin: (i64, i64), size: i64, c: (i64, i64), radius: i64) -> bool {
    let cx = clamp_spec(c.0 as int, origin.0 as int, origin.0 + size);
    let cy = clamp_spec(c.1 as int, origin.1 as int, origin.1 + size);
    (c.0 - cx) * (c.0 - cx) + (c.1 - cy) * (c.1 - cy) <= radius * radius
}

/// Whether an entry falls inside the query circle.
pub open spec fn entry_matches(e: Entry, c: (i64, i64), radius: i64) -> bool {
    dist2(e.1, c) <= radius * radius
}

pub struct QuadTree {
    /// Entries held directly at this node; non-empty only at leaves.
    pub children: Vec<Entry>,
    /// Zero or exactly four subquadrants.
    pub child_nodes: Vec<QuadTree>,
    pub is_leaf: bool,
    /// Origin corner of this node's region.
    pub position: (i64, i64),
    /// Side length of this node's region.
    pub size: i64,
    /// Depth below the root.
    pub level: usize,
    /// Which quarter of the parent this node is.
    pub index: usize,
    /// Child indices from the root down to this node.
    pub address: Vec<usize>,
    /// Leaf capacity, inherited from the root.
    pub capacity: usize,
    /// Deepest level, inherited from the root.
    pub max_level: usize,
}

impl QuadTree {
    /// Every entry in this subtree, in pre-order.
    pub open spec fn entries(self) -> Seq<Entry>
        decreases self,
    {
        if self.child_nodes@.len() == 4 {
            self.children@ + self.child_nodes@[0].entries() + self.child_nodes@[1].entries()
                + self.child_nodes@[2].entries() + self.child_nodes@[3].entries()
        } else {
            self.children@
        }
    }

    /// The fields subdivision and insertion never touch.
    pub open spec fn frame(self) -> (((i64, i64), i64), (int, int, Seq<usize>, int, int)) {
        (
            (self.position, self.size),
            (
                self.level as int,
                self.index as int,
                self.address@,
                self.capacity as int,
                self.max_level as int,
            ),
        )
    }

    /// Shape of one child slot: region, depth, address and inherited limits.
    pub open spec fn child_frame_ok(self, c: QuadTree, i: int) -> bool {
        let half = self.size as int / 2;
        &&& c.position.0 == self.position.0 + half * quad_dx(i)
        &&& c.position.1 == self.position.1 + half * quad_dy(i)
        &&& c.size == half
        &&& c.level == self.level + 1
        &&& c.index == i
        &&& c.address@ == self.address@.push(i as usize)
        &&& c.capacity == self.capacity
        &&& c.max_level == self.max_level
    }

    /// Conditions local to this node.
    pub open spec fn local_wf(self) -> bool {
        &&& 0 <= self.position.0
        &&& 0 <= self.position.1
        &&& 1 <= self.size
        &&& self.position.0 + self.size <= MAX_COORD
        &&& self.position.1 + self.size <= MAX_COORD
        &&& self.level <= self.max_level <= 30
        &&& 1 <= self.capacity
        &&& (self.size as int) % (pow2((self.max_level - self.level) as nat) as int) == 0
        &&& (self.is_leaf <==> self.child_nodes@.len() == 0)
        &&& (self.child_nodes@.len() == 0 || self.child_nodes@.len() == 4)
        &&& (self.child_nodes@.len() == 4 ==> self.children@.len() == 0 && self.level
            < self.max_level)
        &&& forall|i: int|
            0 <= i < self.children@.len() ==> in_region(
                self.position,
                self.size,
                (#[trigger] self.children@[i]).1,
            )
    }

    /// Well-formed except that this node's own leaf bucket may overflow;
    /// every descendant is fully well-formed.
    pub open spec fn wf_except_cap(self) -> bool
        decreases self, 0int,
    {
        &&& self.local_wf()
        &&& self.child_nodes@.len() == 4 ==> forall|i: int|
            0 <= i < 4 ==> self.child_frame_ok(#[trigger] self.child_nodes@[i], i)
                && self.child_nodes@[i].wf()
    }

    /// This node's leaf bucket respects the capacity, except at `max_level`.
    pub open spec fn cap_ok(self) -> bool {
        self.is_leaf ==> self.children@.len() <= self.capacity || self.level == self.max_level
    }

    /// The index invariant.
    pub open spec fn wf(self) -> bool
        decreases self, 1int,
    {
        self.wf_except_cap() && self.cap_ok()
    }

    /// An empty root covering `[0, size)²` at depth 0.
    pub fn new(size: i64, capacity: usize, max_level: usize) -> (q: QuadTree)
        requires
            1 <= size <= MAX_COORD,
            1 <= capacity,
            max_level <= 30,
            (size as int) % (pow2(max_level as nat) as int) == 0,
        ensures
            q.wf(),
            q.entries() == Seq::<Entry>::empty(),
            q.position == (0i64, 0i64),
            q.size == size,
            q.level == 0,
            q.capacity == capacity,
            q.max_level == max_level,
            q.address@ == Seq::<usize>::empty(),
            q.is_leaf,
    {
        let q = QuadTree {
            children: Vec::new(),
            child_nodes: Vec::new(),
            is_leaf: true,
            position: (0, 0),
            size,
            level: 0,
            index: 0,
            address: Vec::new(),
            capacity,
            max_level,
        };
        proof {
            assert(q.entries() =~= Seq::<Entry>::empty());
        }
        q
    }

    /// Whether `point` lies in this node's (half-open) region.
    pub fn contains(&self, point: (i64, i64)) -> (r: bool)
        requires
            0 <= self.position.0,
            0 <= self.position.1,
            self.position.0 + self.size <= i64::MAX,
            self.position.1 + self.size <= i64::MAX,
        ensures
            r == in_region(self.position, self.size, point),
    {
        point.0 >= self.position.0 && point.0 < self.position.0 + self.size
            && point.1 >= self.position.1 && point.1 < self.position.1 + self.size
    }
}

/// Entries of the four children of a subdivided node, as one multiset.
pub open spec fn sum4_ms(s: Seq<QuadTree>) -> Multiset<Entry>
    recommends
        s.len() == 4,
{
    s[0].entries().to_multiset().add(s[1].entries().to_multiset()).add(
        s[2].entries().to_multiset(),
    ).add(s[3].entries().to_multiset())
}

impl QuadTree {
    /// A subdivided node's entries are its own bucket plus its children's.
    proof fn lemma_entries4(self)
        requires
            self.child_nodes@.len() == 4,
        ensures
            self.entries().to_multiset() == self.children@.to_multiset().add(
                sum4_ms(self.child_nodes@),
            ),
    {
        broadcast use vstd::multiset::group_multiset_axioms;

        let a = self.children@;
        let e0 = self.child_nodes@[0].entries();
        let e1 = self.child_nodes@[1].entries();
        let e2 = self.child_nodes@[2].entries();
        let e3 = self.child_nodes@[3].entries();
        vstd::seq_lib::lemma_multiset_commutative(a, e0);
        vstd::seq_lib::lemma_multiset_commutative(a + e0, e1);
        vstd::seq_lib::lemma_multiset_commutative(a + e0 + e1, e2);
        vstd::seq_lib::lemma_multiset_commutative(a + e0 + e1 + e2, e3);
        assert(self.entries().to_multiset() =~= self.children@.to_multiset().add(
            sum4_ms(self.child_nodes@),
        ));
    }

    /// Every entry of a well-formed subtree lies in the subtree's region.
    pub proof fn lemma_entries_in_region(self)
        requires
            self.wf_except_cap(),
        ensures
            forall|j: int|
                0 <= j < self.entries().len() ==> in_region(
                    self.position,
                    self.size,
                    (#[trigger] self.entries()[j]).1,
                ),
        decreases self,
    {
        if self.child_nodes@.len() == 4 {
            proof_entries_in_region_children(self);
        }
    }

    /// One fresh, empty child quarter of `parent`.
    fn make_child(parent: &QuadTree, i: usize) -> (c: QuadTree)
        requires
            parent.local_wf(),
            parent.level < parent.max_level,
            i < 4,
        ensures
            parent.child_frame_ok(c, i as int),
            c.wf(),
            c.entries() == Seq::<Entry>::empty(),
            c.is_leaf,
            c.children@.len() == 0,
    {
        proof {
            lemma_half_divisibility(
                parent.size as int,
                (parent.max_level - parent.level) as nat,
            );
        }
        let half = parent.size / 2;
        let dx: i64 = if i == 1 || i == 2 {
            1
        } else {
            0
        };
        let dy: i64 = if i == 2 || i == 3 {
            1
        } else {
            0
        };
        let mut address = copy_addr(&parent.address);
        address.push(i);
        let c = QuadTree {
            children: Vec::new(),
            child_nodes: Vec::new(),
            is_leaf: true,
            position: (parent.position.0 + half * dx, parent.position.1 + half * dy),
            size: half,
            level: parent.level + 1,
            index: i,
            address,
            capacity: parent.capacity,
            max_level: parent.max_level,
        };
        proof {
            assert(c.entries() =~= Seq::<Entry>::empty());
        }
        c
    }

    /// Turn an overfull leaf into a subdivided node: four fresh quarters,
    /// every held entry pushed down into the quarter that contains it.
    #[verifier::loop_isolation(false)]
    fn split(node: QuadTree) -> (r: QuadTree)
        requires
            node.wf_except_cap(),
            node.is_leaf,
            node.level < node.max_level,
        ensures
            r.wf(),
            r.frame() == node.frame(),
            r.entries().to_multiset() == node.entries().to_multiset(),
            !r.is_leaf,
        decreases node.max_level - node.level, 0int,
    {
        broadcast use vstd::multiset::group_multiset_axioms;

        let ghost orig = node;
        let mut node = node;
        let mut kids: Vec<QuadTree> = Vec::new();
        kids.push(Self::make_child(&node, 0));
        kids.push(Self::make_child(&node, 1));
        kids.push(Self::make_child(&node, 2));
        kids.push(Self::make_child(&node, 3));
        proof {
            broadcast use vstd::seq_lib::group_to_multiset_ensures;

            lemma_half_divisibility(node.size as int, (node.max_level - node.level) as nat);
            assert(kids@[0].entries().to_multiset() =~= Multiset::<Entry>::empty());
            assert(kids@[1].entries().to_multiset() =~= Multiset::<Entry>::empty());
            assert(kids@[2].entries().to_multiset() =~= Multiset::<Entry>::empty());
            assert(kids@[3].entries().to_multiset() =~= Multiset::<Entry>::empty());
            assert(sum4_ms(kids@).add(node.children@.to_multiset()) =~= orig.children@.to_multiset());
        }
        while node.children.len() > 0
            invariant
                node.is_leaf,
                node.child_nodes@.len() == 0,
                node.local_wf(),
                node.frame() == orig.frame(),
                node.level < node.max_level,
                kids@.len() == 4,
                forall|i: int|
                    0 <= i < 4 ==> orig.child_frame_ok(#[trigger] kids@[i], i) && kids@[i].wf(),
                sum4_ms(kids@).add(node.children@.to_multiset()) == orig.children@.to_multiset(),
            decreases node.children@.len(),
        {
            let ghost pre = node.children@;
            let e = node.children.pop().unwrap();
            proof {
                broadcast use vstd::seq_lib::group_to_multiset_ensures;

                assert(pre == pre.subrange(0, pre.len() - 1).push(pre[pre.len() - 1]));
                assert(node.children@.to_multiset().insert(e) =~= pre.to_multiset());
                lemma_half_divisibility(node.size as int, (node.max_level - node.level) as nat);
            }
            let i = child_index(node.position, node.size, e.1);
            let ghost kids_pre = kids@;
            let kid = kids.remove(i);
            proof {
                assert(orig.child_frame_ok(kids_pre[i as int], i as int));
                assert(kid == kids_pre[i as int]);
                assert(node.position == orig.position && node.size == orig.size);
                assert(kid.level == orig.level + 1 && kid.max_level == orig.max_level);
                assert(in_region(kid.position, kid.size, e.1));
            }
            let kid = Self::insert_at(kid, e.0, e.1);
            kids.insert(i, kid);
            proof {
                assert(sum4_ms(kids@).add(node.children@.to_multiset())
                    =~= orig.children@.to_multiset());
            }
        }
        node.child_nodes = kids;
        node.is_leaf = false;
        proof {
            node.lemma_entries4();
            assert(node.entries().to_multiset() =~= orig.children@.to_multiset());
            assert(orig.entries().to_multiset() == orig.children@.to_multiset());
        }
        node
    }

    /// Insert one entry into the leaf of this subtree that contains its
    /// position, subdividing that leaf if it overflows above `max_level`.
    fn insert_at(node: QuadTree, id: u64, pos: (i64, i64)) -> (r: QuadTree)
        requires
            node.wf(),
            in_region(node.position, node.size, pos),
        ensures
            r.wf(),
            r.frame() == node.frame(),
            r.entries().to_multiset() == node.entries().to_multiset().insert((id, pos)),
        decreases node.max_level - node.level, 1int,
    {
        broadcast use vstd::multiset::group_multiset_axioms;

        let ghost orig = node;
        let mut node = node;
        if node.is_leaf {
            node.children.push((id, pos));
            proof {
                broadcast use vstd::seq_lib::group_to_multiset_ensures;

                assert(node.entries().to_multiset() == orig.entries().to_multiset().insert(
                    (id, pos),
                ));
            }
            if node.children.len() > node.capacity && node.level < node.max_level {
                node = Self::split(node);
            }
            node
        } else {
            proof {
                lemma_half_divisibility(node.size as int, (node.max_level - node.level) as nat);
            }
            let i = child_index(node.position, node.size, pos);
            let ghost old_kids = node.child_nodes@;
            let kid = node.child_nodes.remove(i);
            proof {
                assert(in_region(kid.position, kid.size, pos));
            }
            let kid = Self::insert_at(kid, id, pos);
            node.child_nodes.insert(i, kid);
            proof {
                assert(node.child_nodes@ =~= old_kids.update(i as int, kid));
                orig.lemma_entries4();
                node.lemma_entries4();
                assert(node.entries().to_multiset() =~= orig.entries().to_multiset().insert(
                    (id, pos),
                ));
            }
            node
        }
    }

    /// Descend to the leaf containing `position` and append the entry; the
    /// leaf subdivides if it overflows above `max_level`. A position outside
    /// the root region is the caller's bug and is surfaced, never dropped.
    pub fn insert(&mut self, id: u64, position: (i64, i64)) -> (r: Result<(), SimError>)
        requires
            old(self).wf(),
        ensures
            final(self).wf(),
            final(self).frame() == old(self).frame(),
            match r {
                Ok(()) => {
                    &&& in_region(old(self).position, old(self).size, position)
                    &&& final(self).entries().to_multiset()
                        == old(self).entries().to_multiset().insert((id, position))
                },
                Err(e) => {
                    &&& e == SimError::SpatialIndexViolation
                    &&& !in_region(old(self).position, old(self).size, position)
                    &&& *final(self) == *old(self)
                },
            },
    {
        if !self.contains(position) {
            return Err(SimError::SpatialIndexViolation);
        }
        proof {
            vstd::arithmetic::power2::lemma2_to64();
        }
        let mut node = QuadTree::new(1, 1, 0);
        core::mem::swap(self, &mut node);
        node = Self::insert_at(node, id, position);
        core::mem::swap(self, &mut node);
        Ok(())
    }

    /// Split this leaf into four quarters, pushing its entries down.
    pub fn subdivide(&mut self)
        requires
            old(self).wf_except_cap(),
            old(self).is_leaf,
            old(self).level < old(self).max_level,
        ensures
            final(self).wf(),
            final(self).frame() == old(self).frame(),
            final(self).entries().to_multiset() == old(self).entries().to_multiset(),
            !final(self).is_leaf,
    {
        proof {
            vstd::arithmetic::power2::lemma2_to64();
        }
        let mut node = QuadTree::new(1, 1, 0);
        core::mem::swap(self, &mut node);
        node = Self::split(node);
        core::mem::swap(self, &mut node);
    }
}

/// The predicate a radius query filters with: squared distance from the
/// query centre at most `radius²`.
pub open spec fn radius_pred(c: (i64, i64), radius: i64) -> spec_fn(Entry) -> bool {
    |e: Entry| entry_matches(e, c, radius)
}

impl QuadTree {
    /// Whether this node's region comes within `radius` of `position`.
    pub fn intersects_circle(&self, position: (i64, i64), radius: i64) -> (r: bool)
        requires
            0 <= self.position.0,
            0 <= self.position.1,
            0 <= self.size,
            self.position.0 + self.size <= MAX_COORD,
            self.position.1 + self.size <= MAX_COORD,
            0 <= position.0 <= MAX_COORD,
            0 <= position.1 <= MAX_COORD,
            0 <= radius <= 2 * MAX_COORD,
        ensures
            r == circle_intersects(self.position, self.size, position, radius),
    {
        let cx = clamp(position.0, self.position.0, self.position.0 + self.size);
        let cy = clamp(position.1, self.position.1, self.position.1 + self.size);
        let dx = position.0 - cx;
        let dy = position.1 - cy;
        proof {
            assert(0 <= dx * dx <= 4_000_000_000_000_000_000) by (nonlinear_arith)
                requires
                    -2_000_000_000 <= dx <= 2_000_000_000,
            ;
            assert(0 <= dy * dy <= 4_000_000_000_000_000_000) by (nonlinear_arith)
                requires
                    -2_000_000_000 <= dy <= 2_000_000_000,
            ;
            assert(0 <= radius * radius <= 4_000_000_000_000_000_000) by (nonlinear_arith)
                requires
                    0 <= radius <= 2_000_000_000,
            ;
        }
        dx * dx + dy * dy <= radius * radius
    }

    /// Collect, after `result`, every entry of this subtree whose position
    /// lies within `radius` of `position`, pruning subtrees whose regions
    /// stay outside the circle. The result is exactly the matching entries,
    /// in pre-order, appended to what was passed in.
    #[verifier::loop_isolation(false)]
    pub fn get_children_in_radius(
        &self,
        position: (i64, i64),
        radius: i64,
        result: Vec<Entry>,
    ) -> (r: Vec<Entry>)
        requires
            self.wf_except_cap(),
            0 <= position.0 <= MAX_COORD,
            0 <= position.1 <= MAX_COORD,
            0 <= radius <= 2 * MAX_COORD,
        ensures
            r@ == result@ + self.entries().filter(radius_pred(position, radius)),
        decreases self.max_level - self.level,
    {
        let ghost pred = radius_pred(position, radius);
        let mut out = result;
        if !self.intersects_circle(position, radius) {
            proof {
                self.lemma_entries_in_region();
                assert forall|j: int| 0 <= j < self.entries().len() implies !pred(
                    #[trigger] self.entries()[j],
                ) by {
                    lemma_prune(self.position, self.size, position, radius, self.entries()[j].1);
                }
                lemma_filter_none(self.entries(), pred);
                assert(out@ =~= out@ + self.entries().filter(pred));
            }
            return out;
        }
        proof {
            assert(0 <= radius * radius <= 4_000_000_000_000_000_000) by (nonlinear_arith)
                requires
                    0 <= radius <= 2_000_000_000,
            ;
        }
        let rad2 = radius * radius;
        let mut k: usize = 0;
        while k < self.children.len()
            invariant
                k <= self.children@.len(),
                out@ == result@ + self.children@.subrange(0, k as int).filter(pred),
            decreases self.children@.len() - k,
        {
            let e = self.children[k];
            let d = dist2_exec(e.1, position);
            if d <= rad2 {
                out.push(e);
            }
            proof {
                lemma_filter_push(self.children@.subrange(0, k as int), pred, e);
                assert(self.children@.subrange(0, k as int).push(e) =~= self.children@.subrange(
                    0,
                    k + 1int,
                ));
            }
            k = k + 1;
        }
        proof {
            assert(self.children@.subrange(0, self.children@.len() as int) =~= self.children@);
        }
        if self.child_nodes.len() == 4 {
            let ghost base = out@;
            out = self.child_nodes[0].get_children_in_radius(position, radius, out);
            out = self.child_nodes[1].get_children_in_radius(position, radius, out);
            out = self.child_nodes[2].get_children_in_radius(position, radius, out);
            out = self.child_nodes[3].get_children_in_radius(position, radius, out);
            proof {
                broadcast use vstd::seq_lib::group_filter_ensures;

                let a = self.children@;
                let e0 = self.child_nodes@[0].entries();
                let e1 = self.child_nodes@[1].entries();
                let e2 = self.child_nodes@[2].entries();
                let e3 = self.child_nodes@[3].entries();
                assert(self.entries() == a + e0 + e1 + e2 + e3);
                assert(out@ =~= result@ + self.entries().filter(pred));
            }
        } else {
            proof {
                assert(self.entries() == self.children@);
            }
        }
        out
    }
}

/// A summary of one node, for diagnostics and visualization.
#[derive(Clone, Copy, Debug, PartialEq, Eq)]
pub struct NodeInfo {
    pub position: (i64, i64),
    pub size: i64,
    pub level: usize,
    pub index: usize,
    pub is_leaf: bool,
    pub entry_count: usize,
}

impl QuadTree {
    /// This node's summary.
    pub open spec fn info(self) -> NodeInfo {
        NodeInfo {
            position: self.position,
            size: self.size,
            level: self.level,
            index: self.index,
            is_leaf: self.is_leaf,
            entry_count: self.children@.len() as usize,
        }
    }

    /// Pre-order summaries of every node of this subtree.
    pub open spec fn all_nodes(self) -> Seq<NodeInfo>
        decreases self,
    {
        if self.child_nodes@.len() == 4 {
            seq![self.info()] + self.child_nodes@[0].all_nodes() + self.child_nodes@[1].all_nodes()
                + self.child_nodes@[2].all_nodes() + self.child_nodes@[3].all_nodes()
        } else {
            seq![self.info()]
        }
    }

    /// The node reached from here by a sequence of child indices.
    pub open spec fn node_at(self, addr: Seq<usize>) -> Option<QuadTree>
        decreases addr.len(),
    {
        if addr.len() == 0 {
            Some(self)
        } else if addr[0] < 4 && self.child_nodes@.len() == 4 {
            self.child_nodes@[addr[0] as int].node_at(addr.drop_first())
        } else {
            None
        }
    }

    /// Descend while not at a leaf, picking the child whose quarter holds
    /// `point`; none if `point` lies outside this subtree's region.
    pub fn find_quad_containing_point(&self, point: (i64, i64)) -> (r: Option<&QuadTree>)
        requires
            self.wf(),
        ensures
            match r {
                Some(q) => {
                    &&& q.is_leaf
                    &&& q.wf()
                    &&& in_region(q.position, q.size, point)
                    &&& in_region(self.position, self.size, point)
                },
                None => !in_region(self.position, self.size, point),
            },
        decreases self.max_level - self.level,
    {
        if !self.contains(point) {
            return None;
        }
        if self.is_leaf {
            return Some(self);
        }
        proof {
            lemma_half_divisibility(self.size as int, (self.max_level - self.level) as nat);
        }
        let i = child_index(self.position, self.size, point);
        proof {
            assert(self.child_frame_ok(self.child_nodes@[i as int], i as int));
            assert(in_region(
                self.child_nodes@[i as int].position,
                self.child_nodes@[i as int].size,
                point,
            ));
        }
        self.child_nodes[i].find_quad_containing_point(point)
    }

    /// Walk an address from this node down; a malformed address is
    /// surfaced as a `SpatialIndexViolation`, never swallowed.
    pub fn get_child_at<'a>(&'a self, address: &Vec<usize>) -> (r: Result<&'a QuadTree, SimError>)
        ensures
            match r {
                Ok(q) => self.node_at(address@) == Some(*q),
                Err(e) => e == SimError::SpatialIndexViolation && self.node_at(address@) is None,
            },
    {
        let mut cur: &QuadTree = self;
        let mut k: usize = 0;
        proof {
            assert(address@.skip(0) =~= address@);
        }
        while k < address.len()
            invariant
                k <= address@.len(),
                self.node_at(address@) == cur.node_at(address@.skip(k as int)),
            decreases address@.len() - k,
        {
            let ghost rest = address@.skip(k as int);
            let i = address[k];
            proof {
                assert(rest[0] == address@[k as int]);
                assert(rest.drop_first() =~= address@.skip(k + 1int));
            }
            if i < 4 && cur.child_nodes.len() == 4 {
                cur = &cur.child_nodes[i];
                k = k + 1;
            } else {
                return Err(SimError::SpatialIndexViolation);
            }
        }
        proof {
            assert(address@.skip(address@.len() as int) =~= Seq::<usize>::empty());
        }
        Ok(cur)
    }

    /// Append, after `result`, the summaries of `node`'s subtree in
    /// pre-order.
    pub fn gather_children(node: &QuadTree, result: Vec<NodeInfo>) -> (r: Vec<NodeInfo>)
        requires
            node.wf_except_cap(),
        ensures
            r@ == result@ + node.all_nodes(),
        decreases node.max_level - node.level,
    {
        let mut out = result;
        let ghost base = out@;
        out.push(
            NodeInfo {
                position: node.position,
                size: node.size,
                level: node.level,
                index: node.index,
                is_leaf: node.is_leaf,
                entry_count: node.children.len(),
            },
        );
        proof {
            assert(out@ =~= base + seq![node.info()]);
        }
        if node.child_nodes.len() == 4 {
            out = Self::gather_children(&node.child_nodes[0], out);
            out = Self::gather_children(&node.child_nodes[1], out);
            out = Self::gather_children(&node.child_nodes[2], out);
            out = Self::gather_children(&node.child_nodes[3], out);
            proof {
                assert(out@ =~= base + node.all_nodes());
            }
        }
        out
    }

    /// All node summaries of this subtree, in pre-order; for diagnostics.
    pub fn get_all(&self) -> (r: Vec<NodeInfo>)
        requires
            self.wf_except_cap(),
        ensures
            r@ == self.all_nodes(),
    {
        let out = Self::gather_children(self, Vec::new());
        proof {
            assert(out@ =~= self.all_nodes());
        }
        out
    }
}

/// Every node reachable by an address inside a well-formed index is itself
/// well-formed.
pub proof fn lemma_node_at_wf(t: QuadTree, addr: Seq<usize>, q: QuadTree)
    requires
        t.wf(),
        t.node_at(addr) == Some(q),
    ensures
        q.wf(),
    decreases addr.len(),
{
    if addr.len() > 0 {
        lemma_node_at_wf(t.child_nodes@[addr[0] as int], addr.drop_first(), q);
    }
}

/// No leaf of a well-formed index holds more than `capacity` entries
/// unless it sits at `max_level`, wherever it is in the tree.
pub proof fn lemma_no_leaf_overflow(t: QuadTree, addr: Seq<usize>, q: QuadTree)
    requires
        t.wf(),
        t.node_at(addr) == Some(q),
        q.is_leaf,
        q.level != q.max_level,
    ensures
        q.children@.len() <= q.capacity,
{
    lemma_node_at_wf(t, addr, q);
}

/// Filtering a sequence all of whose elements satisfy the predicate
/// leaves it unchanged.
pub proof fn lemma_filter_all<A>(s: Seq<A>, pred: spec_fn(A) -> bool)
    requires
        forall|j: int| 0 <= j < s.len() ==> pred(#[trigger] s[j]),
    ensures
        s.filter(pred) == s,
    decreases s.len(),
{
    reveal(Seq::filter);
    if s.len() == 0 {
        assert(s.filter(pred) =~= s);
    } else {
        lemma_filter_all(s.drop_last(), pred);
        assert(s.drop_last().push(s.last()) =~= s);
    }
}

/// A query circle wide enough to cover the whole coordinate range keeps
/// every entry: nothing is lost and nothing is duplicated, whatever the
/// centre.
pub proof fn lemma_full_world_query(t: QuadTree, c: (i64, i64), radius: i64)
    requires
        t.wf_except_cap(),
        0 <= c.0 <= MAX_COORD,
        0 <= c.1 <= MAX_COORD,
        radius >= 2 * MAX_COORD,
    ensures
        t.entries().filter(radius_pred(c, radius)) == t.entries(),
{
    t.lemma_entries_in_region();
    assert forall|j: int| 0 <= j < t.entries().len() implies radius_pred(c, radius)(
        #[trigger] t.entries()[j],
    ) by {
        let p = t.entries()[j].1;
        assert(dist2(p, c) <= radius * radius) by (nonlinear_arith)
            requires
                0 <= p.0 <= MAX_COORD,
                0 <= p.1 <= MAX_COORD,
                0 <= c.0 <= MAX_COORD,
                0 <= c.1 <= MAX_COORD,
                radius >= 2 * MAX_COORD,
                MAX_COORD == 1_000_000_000,
                dist2(p, c) == (p.0 - c.0) * (p.0 - c.0) + (p.1 - c.1) * (p.1 - c.1),
        ;
    }
    lemma_filter_all(t.entries(), radius_pred(c, radius));
}

/// Filtering a sequence none of whose elements satisfy the predicate
/// yields the empty sequence.
pub proof fn lemma_filter_none<A>(s: Seq<A>, pred: spec_fn(A) -> bool)
    requires
        forall|j: int| 0 <= j < s.len() ==> !pred(#[trigger] s[j]),
    ensures
        s.filter(pred) == Seq::<A>::empty(),
    decreases s.len(),
{
    reveal(Seq::filter);
    if s.len() == 0 {
        assert(s.filter(pred) =~= Seq::<A>::empty());
    } else {
        lemma_filter_none(s.drop_last(), pred);
    }
}

/// Filtering after a push appends the pushed element exactly when it
/// satisfies the predicate.
pub proof fn lemma_filter_push<A>(s: Seq<A>, pred: spec_fn(A) -> bool, e: A)
    ensures
        s.push(e).filter(pred) == if pred(e) {
            s.filter(pred).push(e)
        } else {
            s.filter(pred)
        },
{
    reveal(Seq::filter);
    assert(s.push(e).drop_last() =~= s);
    assert(s.push(e).last() == e);
}

/// The square of a clamped difference never exceeds the square of the
/// difference to any point of the clamping interval.
proof fn lemma_axis(lo: int, hi: int, c: int, p: int)
    requires
        lo <= p <= hi,
    ensures
        (c - clamp_spec(c, lo, hi)) * (c - clamp_spec(c, lo, hi)) <= (c - p) * (c - p),
{
    let cl = clamp_spec(c, lo, hi);
    if c < lo {
        assert((c - cl) * (c - cl) <= (c - p) * (c - p)) by (nonlinear_arith)
            requires
                cl == lo,
                lo <= p,
                c < lo,
        ;
    } else if c > hi {
        assert((c - cl) * (c - cl) <= (c - p) * (c - p)) by (nonlinear_arith)
            requires
                cl == hi,
                p <= hi,
                c > hi,
        ;
    } else {
        assert(0 <= (c - p) * (c - p)) by (nonlinear_arith);
        assert(c - cl == 0);
    }
}

/// A point inside a region that stays outside the query circle lies
/// strictly beyond the query radius.
pub proof fn lemma_prune(origin: (i64, i64), size: i64, c: (i64, i64), radius: i64, p: (i64, i64))
    requires
        !circle_intersects(origin, size, c, radius),
        in_region(origin, size, p),
    ensures
        dist2(p, c) > radius * radius,
{
    lemma_axis(origin.0 as int, origin.0 + size, c.0 as int, p.0 as int);
    lemma_axis(origin.1 as int, origin.1 + size, c.1 as int, p.1 as int);
    let cx = clamp_spec(c.0 as int, origin.0 as int, origin.0 + size);
    let cy = clamp_spec(c.1 as int, origin.1 as int, origin.1 + size);
    assert((c.0 - p.0) * (c.0 - p.0) == (p.0 - c.0) * (p.0 - c.0)) by (nonlinear_arith);
    assert((c.1 - p.1) * (c.1 - p.1) == (p.1 - c.1) * (p.1 - c.1)) by (nonlinear_arith);
}

/// The quarter picked for a point inside a region contains that point, and
/// entries of well-formed children lie inside the parent region.
proof fn proof_entries_in_region_children(t: QuadTree)
    requires
        t.wf_except_cap(),
        t.child_nodes@.len() == 4,
    ensures
        forall|j: int|
            0 <= j < t.entries().len() ==> in_region(
                t.position,
                t.size,
                (#[trigger] t.entries()[j]).1,
            ),
    decreases t, 2int,
{
    lemma_half_divisibility(t.size as int, (t.max_level - t.level) as nat);
    let half = t.size as int / 2;
    t.child_nodes@[0].lemma_entries_in_region();
    t.child_nodes@[1].lemma_entries_in_region();
    t.child_nodes@[2].lemma_entries_in_region();
    t.child_nodes@[3].lemma_entries_in_region();
    assert forall|j: int| 0 <= j < t.entries().len() implies in_region(
        t.position,
        t.size,
        (#[trigger] t.entries()[j]).1,
    ) by {
        let a = t.children@;
        let e0 = t.child_nodes@[0].entries();
        let e1 = t.child_nodes@[1].entries();
        let e2 = t.child_nodes@[2].entries();
        let e3 = t.child_nodes@[3].entries();
        assert(t.entries() == a + e0 + e1 + e2 + e3);
        if j < a.len() {
        } else if j < a.len() + e0.len() {
            assert(t.entries()[j] == e0[j - a.len()]);
        } else if j < a.len() + e0.len() + e1.len() {
            assert(t.entries()[j] == e1[j - a.len() - e0.len()]);
        } else if j < a.len() + e0.len() + e1.len() + e2.len() {
            assert(t.entries()[j] == e2[j - a.len() - e0.len() - e1.len()]);
        } else {
            assert(t.entries()[j] == e3[j - a.len() - e0.len() - e1.len() - e2.len()]);
        }
    }
}

/// Copy an address vector.
fn copy_addr(v: &Vec<usize>) -> (r: Vec<usize>)
    ensures
        r@ == v@,
{
    let mut r: Vec<usize> = Vec::new();
    let mut k: usize = 0;
    while k < v.len()
        invariant
            k <= v@.len(),
            r@ == v@.subrange(0, k as int),
        decreases v@.len() - k,
    {
        r.push(v[k]);
        proof {
            assert(r@ =~= v@.subrange(0, k + 1));
        }
        k = k + 1;
    }
    proof {
        assert(r@ =~= v@);
    }
    r
}

/// Which quarter of `[origin, origin+size)²` holds `p`, executable.
fn child_index(origin: (i64, i64), size: i64, p: (i64, i64)) -> (r: usize)
    requires
        0 <= origin.0,
        0 <= origin.1,
        2 <= size,
        origin.0 + size <= MAX_COORD,
        origin.1 + size <= MAX_COORD,
        (size as int) % 2 == 0,
        in_region(origin, size, p),
    ensures
        r < 4,
        r == child_index_spec(origin, size, p),
        quarter_holds(origin, size, p, r as int),
{
    proof {
        vstd::arithmetic::div_mod::lemma_fundamental_div_mod(size as int, 2);
    }
    let half = size / 2;
    let right = p.0 >= origin.0 + half;
    let down = p.1 >= origin.1 + half;
    if right && down {
        2
    } else if right {
        1
    } else if down {
        3
    } else {
        0
    }
}

/// Positive multiples of `2^k` are at least `2^k`.
pub proof fn lemma_multiple_at_least(size: int, k: nat)
    requires
        1 <= size,
        size % (pow2(k) as int) == 0,
    ensures
        size >= pow2(k),
{
    vstd::arithmetic::power2::lemma_pow2_pos(k);
    let p = pow2(k) as int;
    vstd::arithmetic::div_mod::lemma_fundamental_div_mod(size, p);
    let q = size / p;
    assert(size == p * q);
    assert(q >= 1 ==> p * q >= p) by (nonlinear_arith)
        requires
            p >= 1,
    ;
    assert(q <= 0 ==> p * q <= 0) by (nonlinear_arith)
        requires
            p >= 1,
    ;
}

/// Halving keeps the power-of-two divisibility one level down.
pub proof fn lemma_half_divisibility(size: int, k: nat)
    requires
        1 <= size,
        1 <= k,
        size % (pow2(k) as int) == 0,
    ensures
        size % 2 == 0,
        size / 2 >= 1,
        (size / 2) % (pow2((k - 1) as nat) as int) == 0,
        2 * (size / 2) == size,
{
    vstd::arithmetic::power2::lemma_pow2_unfold(k);
    vstd::arithmetic::power2::lemma_pow2_pos(k);
    vstd::arithmetic::power2::lemma_pow2_pos((k - 1) as nat);
    let p = pow2((k - 1) as nat) as int;
    vstd::arithmetic::div_mod::lemma_fundamental_div_mod(size, 2 * p);
    let q = size / (2 * p);
    assert(size == 2 * p * q) by (nonlinear_arith)
        requires
            size == 2 * p * q + size % (2 * p) && size % (2 * p) == 0,
    ;
    assert(size == (p * q) * 2) by (nonlinear_arith)
        requires
            size == 2 * p * q,
    ;
    vstd::arithmetic::div_mod::lemma_mod_multiples_basic(p * q, 2);
    vstd::arithmetic::div_mod::lemma_div_multiples_vanish(p * q, 2);
    assert(size / 2 == p * q);
    vstd::arithmetic::div_mod::lemma_mod_multiples_basic(q, p);
    assert(p * q == q * p) by (nonlinear_arith);
    assert((size / 2) % p == 0);
    lemma_multiple_at_least(size, k);
    vstd::arithmetic::power2::lemma_pow2_strictly_increases(0nat, k);
    vstd::arithmetic::power2::lemma2_to64();
}

/// With an even side, the four quarters tile the region: `p` lies in the
/// quarter `child_index_spec` picks, and in no other.
pub proof fn lemma_quarters(origin: (i64, i64), size: i64, p: (i64, i64))
    requires
        2 <= size,
        (size as int) % 2 == 0,
        in_region(origin, size, p),
    ensures
        forall|i: int|
            0 <= i < 4 ==> (quarter_holds(origin, size, p, i) <==> i == child_index_spec(
                origin,
                size,
                p,
            )),
{
    let half = size as int / 2;
    assert(half + half == size);
}

/// Whether `p` lies in quarter `i` of the region.
pub open spec fn quarter_holds(origin: (i64, i64), size: i64, p: (i64, i64), i: int) -> bool {
    let half = size as int / 2;
    &&& origin.0 + half * quad_dx(i) <= p.0 < origin.0 + half * quad_dx(i) + half
    &&& origin.1 + half * quad_dy(i) <= p.1 < origin.1 + half * quad_dy(i) + half
}

} // verus!
