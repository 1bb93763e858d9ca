//! The path tree: maps dotted cvar paths to the handles of their resources
//! and keeps namespaces and values apart.
//!
//! The nodes live in one vector; a namespace node holds, for each segment
//! below it, the position of the child. Children are always stored after their
//! parent.

use crate::collections::{
    no_segments, segment_map, segment_map_entries, segment_map_get, segment_map_insert,
    segment_map_new, SegmentMap,
};
use crate::path::{segment_views, split_path, split_segments};
use vstd::prelude::*;

verus! {

/// The handle of a resource: it links a leaf of the tree to the resource's
/// registration and to the cell that holds its value.
#[derive(Debug, Clone, Copy, PartialEq, Eq, Hash, Structural)]
pub struct ComponentId(pub usize);

/// What stands at a path of the tree.
pub enum NodeShape {
    /// A value: the cvar registered under `name`, with its handle.
    Leaf { name: Seq<char>, reg: ComponentId },
    /// A namespace.
    Branch,
}

/// Why a path cannot be added to the tree.
#[derive(Debug, Clone, Copy, PartialEq, Eq, Structural)]
pub enum TreeConflict {
    /// The path, or a namespace of that name, is in the tree already.
    Duplicate,
    /// A segment before the last one is a value, which cannot hold children.
    ParentIsLeaf,
}

enum TreeSlot {
    Leaf { name: String, reg: ComponentId },
    Branch { descendants: SegmentMap },
}

/// The tree of all registered cvar paths.
///
/// The node at position 0 is the root. Beside the nodes the tree keeps, for
/// its proofs only, the path and the parent of each node.
pub struct CVarTreeNode {
    slots: Vec<TreeSlot>,
    routes: Ghost<Seq<Seq<Seq<char>>>>,
    parents: Ghost<Seq<int>>,
}

/// `q` is the beginning of `p`, or `p` itself.
pub open spec fn is_prefix(q: Seq<Seq<char>>, p: Seq<Seq<char>>) -> bool {
    q.len() <= p.len() && p.take(q.len() as int) == q
}

/// The handle found at `p`: that of the value registered there, if `p` is a
/// value of the tree.
pub open spec fn leaf_at(m: Map<Seq<Seq<char>>, NodeShape>, p: Seq<Seq<char>>) -> Option<
    ComponentId,
> {
    if m.contains_key(p) {
        match m[p] {
            NodeShape::Leaf { name, reg } => Some(reg),
            NodeShape::Branch => None,
        }
    } else {
        None
    }
}

/// What stands in the way of adding the value `p` to the tree `m`, if
/// anything: `p` is there already, as a value or as a namespace, or one of its
/// proper prefixes is a value.
pub open spec fn conflict_at(m: Map<Seq<Seq<char>>, NodeShape>, p: Seq<Seq<char>>) -> Option<
    TreeConflict,
> {
    if exists|d: int| 0 <= d < p.len() && m.contains_key(p.take(d)) && m[p.take(d)] is Leaf {
        Some(TreeConflict::ParentIsLeaf)
    } else if m.contains_key(p) {
        Some(TreeConflict::Duplicate)
    } else {
        None
    }
}

/// The tree `m` with the value `p` added: `p` is a leaf, each of its prefixes
/// that was missing is a namespace, and every other path is as before.
pub open spec fn inserted(
    m: Map<Seq<Seq<char>>, NodeShape>,
    p: Seq<Seq<char>>,
    name: Seq<char>,
    reg: ComponentId,
) -> Map<Seq<Seq<char>>, NodeShape> {
    Map::new(
        |q: Seq<Seq<char>>| m.contains_key(q) || is_prefix(q, p),
        |q: Seq<Seq<char>>|
            if q == p {
                NodeShape::Leaf { name, reg }
            } else if m.contains_key(q) {
                m[q]
            } else {
                NodeShape::Branch
            },
    )
}

impl TreeSlot {
    spec fn kids(self) -> Map<Seq<char>, usize> {
        match self {
            TreeSlot::Branch { descendants } => segment_map(descendants),
            TreeSlot::Leaf { .. } => no_segments(),
        }
    }

    spec fn shape(self) -> NodeShape {
        match self {
            TreeSlot::Branch { .. } => NodeShape::Branch,
            TreeSlot::Leaf { name, reg } => NodeShape::Leaf { name: name@, reg },
        }
    }
}

impl View for CVarTreeNode {
    type V = Map<Seq<Seq<char>>, NodeShape>;

    /// What stands at each path of the tree. The empty path is the root.
    closed spec fn view(&self) -> Map<Seq<Seq<char>>, NodeShape> {
        Map::new(
            |p: Seq<Seq<char>>| self.holds(p),
            |p: Seq<Seq<char>>| self.slots[self.position_of(p)].shape(),
        )
    }
}

impl CVarTreeNode {
    /// The number of nodes; the positions are the numbers below it.
    pub closed spec fn positions(&self) -> nat {
        self.slots.len() as nat
    }

    /// The path that leads from the root to the node at `pos`.
    pub closed spec fn route(&self, pos: int) -> Seq<Seq<char>> {
        self.routes@[pos]
    }

    /// What the node at `pos` is.
    pub closed spec fn shape(&self, pos: int) -> NodeShape {
        self.slots[pos].shape()
    }

    spec fn kids(&self, pos: int) -> Map<Seq<char>, usize> {
        self.slots[pos].kids()
    }

    spec fn holds(&self, p: Seq<Seq<char>>) -> bool {
        exists|i: int| 0 <= i < self.slots.len() && #[trigger] self.routes@[i] == p
    }

    spec fn position_of(&self, p: Seq<Seq<char>>) -> int {
        choose|i: int| 0 <= i < self.slots.len() && #[trigger] self.routes@[i] == p
    }

    /// The tree is well formed: the root is a namespace, every node but the
    /// root hangs under exactly one namespace, no two nodes have the same
    /// path, and a value's name splits into its path.
    pub closed spec fn wf(&self) -> bool {
        &&& self.slots.len() >= 1
        &&& self.routes@.len() == self.slots.len()
        &&& self.parents@.len() == self.slots.len()
        &&& self.slots[0] is Branch
        &&& self.routes@[0] == Seq::<Seq<char>>::empty()
        &&& forall|i: int, k: Seq<char>|
            0 <= i < self.slots.len() && #[trigger] self.kids(i).contains_key(k) ==> {
                let c = self.kids(i)[k] as int;
                &&& i < c < self.slots.len()
                &&& self.routes@[c] == self.routes@[i].push(k)
            }
        &&& forall|c: int|
            1 <= c < self.slots.len() ==> {
                let i = #[trigger] self.parents@[c];
                &&& 0 <= i < c
                &&& self.routes@[c].len() >= 1
                &&& self.kids(i).contains_key(self.routes@[c].last())
                &&& self.kids(i)[self.routes@[c].last()] == c
                &&& self.routes@[i] == self.routes@[c].drop_last()
            }
        &&& forall|i: int, j: int|
            0 <= i < j < self.slots.len() ==> #[trigger] self.routes@[i] != #[trigger] self.routes@[j]
        &&& forall|i: int|
            0 <= i < self.slots.len() ==> (#[trigger] self.slots[i] matches TreeSlot::Leaf {
                name,
                ..
            } ==> split_segments(name@) == self.routes@[i])
    }

    /// Every path of a node has each of its beginnings in the tree, as a
    /// namespace that holds the next segment.
    proof fn lemma_ancestor(&self, j: int, d: int)
        requires
            self.wf(),
            0 <= j < self.slots.len(),
            0 <= d <= self.routes@[j].len(),
        ensures
            exists|a: int|
                {
                    &&& 0 <= a <= j
                    &&& #[trigger] self.routes@[a] == self.routes@[j].take(d)
                    &&& d < self.routes@[j].len() ==> {
                        &&& self.slots[a] is Branch
                        &&& self.kids(a).contains_key(self.routes@[j][d])
                    }
                },
        decreases j,
    {
        let r = self.routes@[j];
        if d == r.len() {
            assert(r.take(d) =~= r);
            assert(self.routes@[j] == r.take(d));
        } else {
            assert(j >= 1);
            let i = self.parents@[j];
            assert(self.routes@[i] == r.drop_last());
            if d == r.len() - 1 {
                assert(r.take(d) =~= r.drop_last());
                assert(self.routes@[i] == r.take(d));
                assert(r.last() == r[d]);
            } else {
                self.lemma_ancestor(i, d);
                assert(r.drop_last().take(d) =~= r.take(d));
                assert(r.drop_last()[d] == r[d]);
            }
        }
    }

    /// The view, the positions and their routes describe the same tree.
    pub proof fn lemma_tree_model(&self)
        requires
            self.wf(),
        ensures
            self.positions() >= 1,
            self.route(0) == Seq::<Seq<char>>::empty(),
            self.shape(0) is Branch,
            forall|pos: int|
                0 <= pos < self.positions() ==> self@.contains_key(#[trigger] self.route(pos))
                    && self@[self.route(pos)] == self.shape(pos),
            forall|p: Seq<Seq<char>>| #[trigger]
                self@.contains_key(p) ==> exists|pos: int|
                    0 <= pos < self.positions() && #[trigger] self.route(pos) == p,
            forall|i: int, j: int|
                0 <= i < self.positions() && 0 <= j < self.positions() && #[trigger] self.route(i)
                    == #[trigger] self.route(j) ==> i == j,
            forall|pos: int|
                0 <= pos < self.positions() ==> (#[trigger] self.shape(pos) matches NodeShape::Leaf {
                    name,
                    ..
                } ==> split_segments(name) == self.route(pos)),
    {
        assert forall|pos: int| 0 <= pos < self.positions() implies self@.contains_key(
            #[trigger] self.route(pos),
        ) && self@[self.route(pos)] == self.shape(pos) by {
            self.lemma_position_of(pos);
        }
        assert forall|p: Seq<Seq<char>>| #[trigger] self@.contains_key(p) implies exists|pos: int|
            0 <= pos < self.positions() && #[trigger] self.route(pos) == p by {
            let pos = self.position_of(p);
            assert(self.route(pos) == p);
        }
        assert forall|pos: int| 0 <= pos < self.positions() implies (#[trigger] self.shape(
            pos,
        ) matches NodeShape::Leaf { name, .. } ==> split_segments(name) == self.route(pos)) by {
            let s = self.slots[pos];
            assert(self.shape(pos) == s.shape());
        }
    }

    /// The position that the view looks up for the route of `pos` is `pos`.
    proof fn lemma_position_of(&self, pos: int)
        requires
            self.wf(),
            0 <= pos < self.slots.len(),
        ensures
            self.holds(self.routes@[pos]),
            self.position_of(self.routes@[pos]) == pos,
            self@.contains_key(self.routes@[pos]),
            self@[self.routes@[pos]] == self.slots[pos].shape(),
    {
        let p = self.routes@[pos];
        assert(self.routes@[pos] == p);
        let q = self.position_of(p);
        assert(0 <= q < self.slots.len() && self.routes@[q] == p);
        if q < pos {
            assert(self.routes@[q] != self.routes@[pos]);
        } else if pos < q {
            assert(self.routes@[pos] != self.routes@[q]);
        }
    }

    /// The tree holds every beginning of each of its paths, and each proper
    /// beginning is a namespace.
    pub proof fn lemma_prefix_closed(&self, p: Seq<Seq<char>>, d: int)
        requires
            self.wf(),
            self@.contains_key(p),
            0 <= d <= p.len(),
        ensures
            self@.contains_key(p.take(d)),
            d < p.len() ==> self@[p.take(d)] is Branch,
    {
        let j = self.position_of(p);
        self.lemma_ancestor(j, d);
        let a = choose|a: int|
            {
                &&& 0 <= a <= j
                &&& #[trigger] self.routes@[a] == self.routes@[j].take(d)
                &&& d < self.routes@[j].len() ==> {
                    &&& self.slots[a] is Branch
                    &&& self.kids(a).contains_key(self.routes@[j][d])
                }
            };
        self.lemma_position_of(a);
    }

    /// A value's name splits into the path at which it stands.
    pub proof fn lemma_leaf_name(&self, p: Seq<Seq<char>>)
        requires
            self.wf(),
            self@.contains_key(p),
            self@[p] is Leaf,
        ensures
            split_segments(self@[p]->name) == p,
    {
        let j = self.position_of(p);
        assert(self.routes@[j] == p);
        let s = self.slots[j];
        assert(s is Leaf);
    }

    /// The children of a namespace are the nodes one segment below it.
    pub proof fn lemma_child_routes(&self, pos: int, c: int)
        requires
            self.wf(),
            0 <= pos < self.positions(),
            0 <= c < self.positions(),
            self.route(c).len() >= 1,
            self.route(c).drop_last() == self.route(pos),
        ensures
            self.shape(pos) is Branch,
            self.child(pos, self.route(c).last()) == Some(c),
    {
        assert(c >= 1) by {
            if c == 0 {
                assert(self.routes@[0].len() == 0);
            }
        }
        let i = self.parents@[c];
        assert(self.routes@[i] == self.routes@[pos]);
        if i < pos {
            assert(self.routes@[i] != self.routes@[pos]);
        } else if pos < i {
            assert(self.routes@[pos] != self.routes@[i]);
        }
    }

    /// The child of the node at `pos` under the segment `key`, if `pos` is a
    /// namespace that has one.
    pub closed spec fn child(&self, pos: int, key: Seq<char>) -> Option<int> {
        if self.kids(pos).contains_key(key) {
            Some(self.kids(pos)[key] as int)
        } else {
            None
        }
    }

    /// A child stands after its parent, one segment further down.
    pub proof fn lemma_child(&self, pos: int, key: Seq<char>)
        requires
            self.wf(),
            0 <= pos < self.positions(),
            self.child(pos, key) is Some,
        ensures
            self.shape(pos) is Branch,
            pos < self.child(pos, key).unwrap() < self.positions(),
            self.route(self.child(pos, key).unwrap()) == self.route(pos).push(key),
    {
        assert(self.kids(pos).contains_key(key));
    }

    /// An empty tree: the root namespace alone.
    pub fn new() -> (tree: CVarTreeNode)
        ensures
            tree.wf(),
            tree@ == inserted_root(),
    {
        let mut slots: Vec<TreeSlot> = Vec::new();
        slots.push(TreeSlot::Branch { descendants: segment_map_new() });
        let routes: Ghost<Seq<Seq<Seq<char>>>> = Ghost(Seq::empty().push(Seq::empty()));
        let parents: Ghost<Seq<int>> = Ghost(Seq::empty().push(0int));
        let tree = CVarTreeNode { slots, routes, parents };
        proof {
            assert(tree.routes@[0] == Seq::<Seq<char>>::empty());
            assert forall|p: Seq<Seq<char>>| tree.holds(p) <==> p == Seq::<Seq<char>>::empty() by {
                if p == Seq::<Seq<char>>::empty() {
                    assert(tree.routes@[0] == p);
                }
            }
            assert(tree.position_of(Seq::<Seq<char>>::empty()) == 0);
            assert(tree@ =~= inserted_root());
        }
        tree
    }

    /// The position of the root.
    pub fn root(&self) -> (pos: usize)
        requires
            self.wf(),
        ensures
            pos == 0,
            pos < self.positions(),
            self.route(pos as int) == Seq::<Seq<char>>::empty(),
    {
        0
    }

    /// Whether the node at `pos` is a value.
    pub fn is_leaf(&self, pos: usize) -> (r: bool)
        requires
            self.wf(),
            pos < self.positions(),
        ensures
            r == (self.shape(pos as int) is Leaf),
    {
        match &self.slots[pos] {
            TreeSlot::Leaf { .. } => true,
            TreeSlot::Branch { .. } => false,
        }
    }

    /// The name and the handle of the value at `pos`; `None` for a namespace.
    pub fn leaf(&self, pos: usize) -> (r: Option<(&String, ComponentId)>)
        requires
            self.wf(),
            pos < self.positions(),
        ensures
            match r {
                Some((name, reg)) => self.shape(pos as int) == (NodeShape::Leaf {
                    name: name@,
                    reg,
                }),
                None => self.shape(pos as int) is Branch,
            },
    {
        match &self.slots[pos] {
            TreeSlot::Leaf { name, reg } => Some((name, *reg)),
            TreeSlot::Branch { .. } => None,
        }
    }

    /// `entries` lists the children of the node at `pos`: each child once,
    /// with the segment under which it hangs.
    pub open spec fn lists_children(&self, pos: int, entries: Seq<(String, usize)>) -> bool {
        &&& forall|i: int, j: int|
            0 <= i < j < entries.len() ==> entries[i].0@ != entries[j].0@
        &&& forall|i: int|
            0 <= i < entries.len() ==> self.child(pos, #[trigger] entries[i].0@) == Some(
                entries[i].1 as int,
            )
        &&& forall|k: Seq<char>|
            self.child(pos, k) is Some ==> exists|i: int|
                0 <= i < entries.len() && #[trigger] entries[i].0@ == k
    }

    /// The children of the node at `pos`, in no particular order; `None` for
    /// a value.
    pub fn children(&self, pos: usize) -> (r: Option<Vec<(String, usize)>>)
        requires
            self.wf(),
            pos < self.positions(),
        ensures
            match r {
                Some(entries) => self.shape(pos as int) is Branch && self.lists_children(
                    pos as int,
                    entries@,
                ),
                None => self.shape(pos as int) is Leaf,
            },
    {
        match &self.slots[pos] {
            TreeSlot::Leaf { .. } => None,
            TreeSlot::Branch { descendants } => {
                let entries = segment_map_entries(descendants);
                proof {
                    assert(self.kids(pos as int) == segment_map(*descendants));
                }
                Some(entries)
            },
        }
    }

    /// Looks up the value registered under `name`.
    ///
    /// Returns its handle if the whole path leads to a value, and `None` if a
    /// segment is missing, if the path goes on below a value, or if it ends at
    /// a namespace.
    #[must_use]
    pub fn get(&self, name: &str) -> (r: Option<ComponentId>)
        requires
            self.wf(),
        ensures
            r == leaf_at(self@, split_segments(name@)),
    {
        let segments = split_path(name);
        let ghost path = split_segments(name@);
        let n = segments.len();
        let mut cur: usize = 0;
        let mut i: usize = 0;
        while i < n
            invariant
                self.wf(),
                n == segments.len(),
                path == segment_views(segments@),
                path == split_segments(name@),
                0 <= i <= n,
                cur < self.slots.len(),
                self.routes@[cur as int] == path.take(i as int),
            decreases n - i,
        {
            let next = match &self.slots[cur] {
                TreeSlot::Leaf { .. } => None,
                TreeSlot::Branch { descendants } => segment_map_get(
                    descendants,
                    segments[i].as_str(),
                ),
            };
            match next {
                None => {
                    proof {
                        assert(segments@[i as int]@ == path[i as int]);
                        assert(path.take(i as int).len() == i);
                        self.lemma_missing_child(cur as int, path);
                    }
                    return None;
                },
                Some(c) => {
                    proof {
                        assert(segments@[i as int]@ == path[i as int]);
                        assert(self.kids(cur as int).contains_key(path[i as int]));
                        assert(path.take(i as int).push(path[i as int]) =~= path.take(i + 1));
                    }
                    cur = c;
                },
            }
            i = i + 1;
        }
        proof {
            assert(path.take(n as int) =~= path);
            self.lemma_position_of(cur as int);
        }
        match &self.slots[cur] {
            TreeSlot::Leaf { reg, .. } => Some(*reg),
            TreeSlot::Branch { .. } => None,
        }
    }

    /// No node stands at a path that goes on from the node at `cur` through
    /// a segment under which `cur` has no child.
    proof fn lemma_missing_child(&self, cur: int, q: Seq<Seq<char>>)
        requires
            self.wf(),
            0 <= cur < self.slots.len(),
            self.routes@[cur].len() < q.len(),
            q.take(self.routes@[cur].len() as int) == self.routes@[cur],
            !self.kids(cur).contains_key(q[self.routes@[cur].len() as int]),
        ensures
            !self@.contains_key(q),
    {
        let d = self.routes@[cur].len() as int;
        if self.holds(q) {
            let j = self.position_of(q);
            self.lemma_ancestor(j, d);
            let a = choose|a: int|
                {
                    &&& 0 <= a <= j
                    &&& #[trigger] self.routes@[a] == self.routes@[j].take(d)
                    &&& d < self.routes@[j].len() ==> {
                        &&& self.slots[a] is Branch
                        &&& self.kids(a).contains_key(self.routes@[j][d])
                    }
                };
            if a < cur {
                assert(self.routes@[a] != self.routes@[cur]);
            } else if cur < a {
                assert(self.routes@[cur] != self.routes@[a]);
            }
            assert(false);
        }
        assert(!self@.contains_key(q));
    }

    /// Tells what stands in the way of registering `name`, if anything.
    pub fn conflict(&self, name: &str) -> (r: Option<TreeConflict>)
        requires
            self.wf(),
        ensures
            r == conflict_at(self@, split_segments(name@)),
    {
        let segments = split_path(name);
        let ghost path = split_segments(name@);
        let n = segments.len();
        let mut cur: usize = 0;
        let mut i: usize = 0;
        while i < n
            invariant
                self.wf(),
                n == segments.len(),
                path == segment_views(segments@),
                path == split_segments(name@),
                0 <= i <= n,
                cur < self.slots.len(),
                self.routes@[cur as int] == path.take(i as int),
                forall|d: int|
                    0 <= d < i ==> self@.contains_key(#[trigger] path.take(d)) && self@[path.take(
                        d,
                    )] is Branch,
            decreases n - i,
        {
            proof {
                self.lemma_position_of(cur as int);
                assert(segments@[i as int]@ == path[i as int]);
            }
            match &self.slots[cur] {
                TreeSlot::Leaf { .. } => {
                    return Some(TreeConflict::ParentIsLeaf);
                },
                TreeSlot::Branch { descendants } => {
                    match segment_map_get(descendants, segments[i].as_str()) {
                        None => {
                            proof {
                                assert forall|d: int| 0 <= d < path.len() implies !(
                                self@.contains_key(path.take(d)) && self@[path.take(d)] is Leaf) by {
                                    if d > i {
                                        assert(path.take(d).take(i as int) =~= path.take(i as int));
                                        self.lemma_missing_child(cur as int, path.take(d));
                                    }
                                }
                                assert(path.take(path.len() as int) =~= path);
                                self.lemma_missing_child(cur as int, path);
                            }
                            return None;
                        },
                        Some(c) => {
                            proof {
                                assert(self.kids(cur as int).contains_key(path[i as int]));
                                assert(path.take(i as int).push(path[i as int]) =~= path.take(
                                    i + 1,
                                ));
                            }
                            cur = c;
                        },
                    }
                },
            }
            i = i + 1;
        }
        proof {
            assert(path.take(n as int) =~= path);
            self.lemma_position_of(cur as int);
        }
        Some(TreeConflict::Duplicate)
    }

    /// Hangs a new node under the namespace at `cur`, below the segment `key`.
    fn attach(&mut self, cur: usize, key: String, slot: TreeSlot) -> (pos: usize)
        requires
            old(self).wf(),
            cur < old(self).slots.len(),
            old(self).slots[cur as int] is Branch,
            !old(self).kids(cur as int).contains_key(key@),
            slot.kids() == no_segments(),
            slot matches TreeSlot::Leaf { name, .. } ==> split_segments(name@) == old(
                self,
            ).routes@[cur as int].push(key@),
        ensures
            final(self).wf(),
            pos == old(self).slots.len(),
            final(self).slots.len() == old(self).slots.len() + 1,
            final(self).routes@ == old(self).routes@.push(
                old(self).routes@[cur as int].push(key@),
            ),
            final(self).slots[pos as int] == slot,
            final(self)@ == old(self)@.insert(
                old(self).routes@[cur as int].push(key@),
                slot.shape(),
            ),
            !old(self)@.contains_key(old(self).routes@[cur as int].push(key@)),
    {
        let pos = self.slots.len();
        let ghost before = *self;
        let ghost route = self.routes@[cur as int].push(key@);
        let ghost key_view = key@;
        self.slots.push(slot);
        match &mut self.slots[cur] {
            TreeSlot::Branch { descendants } => {
                let _ = segment_map_insert(descendants, key, pos);
            },
            TreeSlot::Leaf { .. } => {},
        }
        self.routes = Ghost(self.routes@.push(route));
        self.parents = Ghost(self.parents@.push(cur as int));
        proof {
            assert(self.slots.len() == pos + 1);
            assert(self.kids(cur as int) == before.kids(cur as int).insert(key_view, pos));
            assert forall|i: int| 0 <= i < pos && i != cur implies self.slots[i]
                == before.slots[i] by {}
            assert(self.slots[pos as int] == slot);
            assert forall|i: int| 0 <= i < pos implies #[trigger] self.slots[i].shape()
                == before.slots[i].shape() by {}
            // no node had the new route
            assert forall|j: int| 0 <= j < pos implies before.routes@[j] != route by {
                if before.routes@[j] == route {
                    assert(j >= 1) by {
                        if j == 0 {
                            assert(before.routes@[0].len() == 0);
                        }
                    }
                    let i = before.parents@[j];
                    assert(route.drop_last() =~= before.routes@[cur as int]);
                    assert(route.last() == key_view);
                    if i < cur {
                        assert(before.routes@[i] != before.routes@[cur as int]);
                    } else if cur < i {
                        assert(before.routes@[cur as int] != before.routes@[i]);
                    }
                    assert(false);
                }
            }
            assert forall|i: int, k: Seq<char>|
                0 <= i < self.slots.len() && #[trigger] self.kids(i).contains_key(k) implies {
                let c = self.kids(i)[k] as int;
                &&& i < c < self.slots.len()
                &&& self.routes@[c] == self.routes@[i].push(k)
            } by {
                if i == cur {
                    if k != key_view {
                        assert(before.kids(i).contains_key(k));
                    }
                } else if i < pos {
                    assert(before.kids(i).contains_key(k));
                }
            }
            assert forall|c: int| 1 <= c < self.slots.len() implies {
                let i = #[trigger] self.parents@[c];
                &&& 0 <= i < c
                &&& self.routes@[c].len() >= 1
                &&& self.kids(i).contains_key(self.routes@[c].last())
                &&& self.kids(i)[self.routes@[c].last()] == c
                &&& self.routes@[i] == self.routes@[c].drop_last()
            } by {
                if c < pos {
                    let i = before.parents@[c];
                    assert(before.kids(i).contains_key(before.routes@[c].last()));
                } else {
                    assert(route.drop_last() =~= before.routes@[cur as int]);
                }
            }
            assert forall|i: int, j: int| 0 <= i < j < self.slots.len() implies #[trigger]
                self.routes@[i] != #[trigger] self.routes@[j] by {
                if j < pos {
                    assert(before.routes@[i] != before.routes@[j]);
                }
            }
            assert forall|i: int| 0 <= i < self.slots.len() implies (#[trigger] self.slots[i]
                matches TreeSlot::Leaf { name, .. } ==> split_segments(name@)
                == self.routes@[i]) by {
                if i < pos {
                    assert(self.slots[i].shape() == before.slots[i].shape());
                    let s = before.slots[i];
                    if i != cur {
                        assert(self.slots[i] == s);
                    }
                }
            }
            assert(self.wf());
            assert forall|p: Seq<Seq<char>>| self.holds(p) <==> (before.holds(p) || p
                == route) by {
                if before.holds(p) {
                    let j = before.position_of(p);
                    assert(self.routes@[j] == p);
                }
                if p == route {
                    assert(self.routes@[pos as int] == p);
                }
                if self.holds(p) {
                    let j = self.position_of(p);
                    if j < pos {
                        assert(before.routes@[j] == p);
                    }
                }
            }
            assert forall|p: Seq<Seq<char>>| before.holds(p) implies self.slots[self.position_of(
                p,
            )].shape() == before.slots[before.position_of(p)].shape() by {
                let j = before.position_of(p);
                before.lemma_position_of(j);
                self.lemma_position_of(j);
            }
            self.lemma_position_of(pos as int);
            assert(!before.holds(route));
            assert(self@ =~= before@.insert(route, slot.shape()));
        }
        pos
    }

    /// The child of the namespace at `cur` under the segment `key`. Where
    /// there is none, a namespace is made there.
    #[must_use]
    fn get_or_insert_branch(&mut self, cur: usize, key: &str) -> (pos: usize)
        requires
            old(self).wf(),
            cur < old(self).slots.len(),
            old(self).slots[cur as int] is Branch,
        ensures
            final(self).wf(),
            pos < final(self).slots.len(),
            final(self).routes@[pos as int] == old(self).routes@[cur as int].push(key@),
            if old(self).kids(cur as int).contains_key(key@) {
                &&& *final(self) == *old(self)
                &&& pos == old(self).kids(cur as int)[key@]
            } else {
                &&& final(self)@ == old(self)@.insert(
                    old(self).routes@[cur as int].push(key@),
                    NodeShape::Branch,
                )
                &&& !old(self)@.contains_key(old(self).routes@[cur as int].push(key@))
                &&& final(self).slots[pos as int] is Branch
            },
    {
        let next = match &self.slots[cur] {
            TreeSlot::Leaf { .. } => None,
            TreeSlot::Branch { descendants } => segment_map_get(descendants, key),
        };
        match next {
            Some(child) => {
                proof {
                    assert(self.kids(cur as int).contains_key(key@));
                }
                child
            },
            None => self.attach(
                cur,
                key.to_owned(),
                TreeSlot::Branch { descendants: segment_map_new() },
            ),
        }
    }

    /// Hangs the value `name` under the namespace at `cur`, below the segment
    /// `key`, under which `cur` has nothing yet.
    fn insert_leaf(&mut self, cur: usize, key: String, name: String, reg: ComponentId) -> (pos:
        usize)
        requires
            old(self).wf(),
            cur < old(self).slots.len(),
            old(self).slots[cur as int] is Branch,
            !old(self).kids(cur as int).contains_key(key@),
            split_segments(name@) == old(self).routes@[cur as int].push(key@),
        ensures
            final(self).wf(),
            pos < final(self).positions(),
            final(self).route(pos as int) == old(self).routes@[cur as int].push(key@),
            final(self).shape(pos as int) == (NodeShape::Leaf { name: name@, reg }),
            final(self)@ == old(self)@.insert(
                old(self).routes@[cur as int].push(key@),
                NodeShape::Leaf { name: name@, reg },
            ),
            !old(self)@.contains_key(old(self).routes@[cur as int].push(key@)),
    {
        self.attach(cur, key, TreeSlot::Leaf { name, reg })
    }

    /// Registers the value `name` with the handle `id`.
    ///
    /// The segments before the last one become namespaces where they are not
    /// yet in the tree; the last one becomes the value. A name that is in the
    /// tree already, as a value or as a namespace, or that would hang below a
    /// value, must not be given: see [`CVarTreeNode::conflict`].
    pub fn insert(&mut self, name: &str, id: ComponentId)
        requires
            old(self).wf(),
            conflict_at(old(self)@, split_segments(name@)) is None,
        ensures
            final(self).wf(),
            final(self)@ == inserted(old(self)@, split_segments(name@), name@, id),
    {
        let segments = split_path(name);
        let ghost path = split_segments(name@);
        let ghost start = self@;
        let n = segments.len();
        let mut cur: usize = 0;
        let mut i: usize = 0;
        proof {
            self.lemma_position_of(0);
            assert(path.take(0) =~= Seq::<Seq<char>>::empty());
            assert(self@ =~= grown(start, path, 0)) by {
                assert forall|q: Seq<Seq<char>>|
                    is_prefix(q, path) && q.len() <= 0 implies start.contains_key(q) by {
                    assert(q =~= Seq::<Seq<char>>::empty());
                }
            }
        }
        while i + 1 < n
            invariant
                self.wf(),
                n == segments.len(),
                n >= 1,
                path == segment_views(segments@),
                path == split_segments(name@),
                conflict_at(start, path) is None,
                0 <= i < n,
                cur < self.slots.len(),
                self.routes@[cur as int] == path.take(i as int),
                self.slots[cur as int] is Branch,
                self@ == grown(start, path, i as int),
            decreases n - i,
        {
            let ghost had = self.kids(cur as int).contains_key(path[i as int]);
            let ghost q = path.take(i + 1);
            proof {
                assert(segments@[i as int]@ == path[i as int]);
                assert(path.take(i as int).push(path[i as int]) =~= q);
                assert(is_prefix(q, path)) by {
                    assert(path.take(q.len() as int) =~= q);
                }
            }
            let next = self.get_or_insert_branch(cur, segments[i].as_str());
            proof {
                if had {
                    self.lemma_position_of(next as int);
                    assert(grown(start, path, i as int).contains_key(q));
                    assert(start.contains_key(q));
                    assert(!(start[q] is Leaf));
                    assert(self.slots[next as int].shape() is Branch);
                }
                assert(self@ =~= grown(start, path, i + 1)) by {
                    assert forall|r: Seq<Seq<char>>|
                        is_prefix(r, path) && r.len() <= i + 1 implies (grown(
                        start,
                        path,
                        i as int,
                    ).contains_key(r) || r == q) by {
                        if r.len() == i + 1 {
                            assert(r =~= q);
                        }
                    }
                }
            }
            cur = next;
            i = i + 1;
        }
        let key = segments[i].clone();
        proof {
            assert(segments@[i as int]@ == path[i as int]);
            assert(path.take(i as int).push(path[i as int]) =~= path);
            assert(path.take(path.len() as int) =~= path);
            if self.kids(cur as int).contains_key(path[i as int]) {
                let c = self.kids(cur as int)[path[i as int]] as int;
                self.lemma_position_of(c);
                assert(grown(start, path, i as int).contains_key(path));
                assert(start.contains_key(path));
                assert(false);
            }
        }
        let _ = self.insert_leaf(cur, key, name.to_owned(), id);
        proof {
            assert(self@ =~= inserted(start, path, name@, id)) by {
                assert forall|r: Seq<Seq<char>>| is_prefix(r, path) implies (grown(
                    start,
                    path,
                    i as int,
                ).contains_key(r) || r == path) by {
                    if r.len() == n {
                        assert(r =~= path);
                    }
                }
                assert(is_prefix(path, path));
            }
        }
    }
}

impl Default for CVarTreeNode {
    /// An empty tree: the root namespace alone.
    fn default() -> (tree: CVarTreeNode)
        ensures
            tree.wf(),
            tree@ == inserted_root(),
    {
        CVarTreeNode::new()
    }
}

/// The tree `m` with the prefixes of `p` of up to `len` segments added as
/// namespaces where they were missing.
spec fn grown(m: Map<Seq<Seq<char>>, NodeShape>, p: Seq<Seq<char>>, len: int) -> Map<
    Seq<Seq<char>>,
    NodeShape,
> {
    Map::new(
        |q: Seq<Seq<char>>| m.contains_key(q) || (is_prefix(q, p) && q.len() <= len),
        |q: Seq<Seq<char>>|
            if m.contains_key(q) {
                m[q]
            } else {
                NodeShape::Branch
            },
    )
}

/// A value that has been registered is found under its path, and the same
/// path cannot be registered again.
pub proof fn lemma_registered_then_found(
    m: Map<Seq<Seq<char>>, NodeShape>,
    p: Seq<Seq<char>>,
    name: Seq<char>,
    reg: ComponentId,
)
    ensures
        leaf_at(inserted(m, p, name, reg), p) == Some(reg),
        conflict_at(inserted(m, p, name, reg), p) is Some,
{
    assert(is_prefix(p, p)) by {
        assert(p.take(p.len() as int) =~= p);
    }
}

/// Registering a value leaves every other value of the tree where it was.
pub proof fn lemma_registered_keeps_others(
    m: Map<Seq<Seq<char>>, NodeShape>,
    p: Seq<Seq<char>>,
    name: Seq<char>,
    reg: ComponentId,
    q: Seq<Seq<char>>,
)
    requires
        q != p,
        m.contains_key(q),
    ensures
        inserted(m, p, name, reg).contains_key(q),
        inserted(m, p, name, reg)[q] == m[q],
        leaf_at(inserted(m, p, name, reg), q) == leaf_at(m, q),
{
}

/// A path cannot be both a value and a namespace: once `p` is a value, no
/// path below it can be registered, and once a path below `p` is a value, `p`
/// itself cannot be registered. In both orders the first value stays.
pub proof fn lemma_leaf_and_branch_collide(
    m: Map<Seq<Seq<char>>, NodeShape>,
    p: Seq<Seq<char>>,
    q: Seq<Seq<char>>,
    name: Seq<char>,
    reg: ComponentId,
)
    requires
        is_prefix(p, q),
        p != q,
    ensures
        conflict_at(inserted(m, p, name, reg), q) == Some(TreeConflict::ParentIsLeaf),
        conflict_at(inserted(m, q, name, reg), p) is Some,
        leaf_at(inserted(m, p, name, reg), p) == Some(reg),
        leaf_at(inserted(m, q, name, reg), q) == Some(reg),
{
    assert(is_prefix(p, p)) by {
        assert(p.take(p.len() as int) =~= p);
    }
    assert(is_prefix(q, q)) by {
        assert(q.take(q.len() as int) =~= q);
    }
    let d = p.len() as int;
    assert(d < q.len()) by {
        if d == q.len() {
            assert(q.take(d) =~= q);
        }
    }
    let after = inserted(m, p, name, reg);
    assert(after.contains_key(q.take(d)) && after[q.take(d)] is Leaf);
}

/// The tree that holds the root namespace and nothing else.
pub open spec fn inserted_root() -> Map<Seq<Seq<char>>, NodeShape> {
    Map::empty().insert(Seq::<Seq<char>>::empty(), NodeShape::Branch)
}

} // verus!
