//! The scene graph: an arena of nodes addressed by stable indices, each node
//! either a pure grouping node or a drawable node carrying a vertex-array
//! handle and a triangle count. The render traversal walks the tree
//! depth-first and pre-order, children in insertion order, and emits one draw
//! command per drawable node visited.
//!
//! A child is always created after its parent and linked under exactly one
//! parent, which is what makes the arena a tree: traversal terminates and
//! reaches every linked node exactly once.

use vstd::prelude::*;

verus! {

/// What a node is: a pure grouping node, or a drawable node bound to an
/// uploaded vertex-array object and the number of triangles to draw from it.
#[derive(PartialEq, Eq, Structural, Clone, Copy, Debug)]
pub enum NodeKind {
    Group,
    Drawable { vao: u32, triangles: u32 },
}

struct SceneNode {
    kind: NodeKind,
    children: Vec<usize>,
    parent: Option<usize>,
}

/// One indexed draw call: bind `vao`, then draw `elements` indices worth of
/// triangles (three per triangle).
#[derive(PartialEq, Eq, Structural, Clone, Copy, Debug)]
pub struct DrawCmd {
    pub vao: u32,
    pub elements: u32,
}

/// The node arena. Node 0 is the root, a grouping node made at construction.
pub struct SceneGraph {
    nodes: Vec<SceneNode>,
}

impl SceneGraph {
    /// The number of nodes in the arena.
    pub closed spec fn len_spec(&self) -> nat {
        self.nodes@.len()
    }

    /// The kind of node `i`.
    pub closed spec fn kind_of(&self, i: int) -> NodeKind {
        self.nodes@[i].kind
    }

    /// The children of node `i`, in the order they were added.
    pub closed spec fn child_seq(&self, i: int) -> Seq<usize> {
        self.nodes@[i].children@
    }

    /// The parent under which node `i` has been linked, if any.
    pub closed spec fn parent_of(&self, i: int) -> Option<usize> {
        self.nodes@[i].parent
    }

    /// The arena invariant. Children come strictly after their parent in the
    /// arena, so parent links always point downwards and traversal
    /// terminates; every child entry is mirrored by the child's parent link,
    /// so no node hangs under two parents or twice under one; and drawable
    /// triangle counts are small enough that three indices per triangle still
    /// fit a `u32`.
    pub open spec fn wf(&self) -> bool {
        &&& 1 <= self.len_spec() <= usize::MAX
        &&& forall|i: int, k: int|
            0 <= i < self.len_spec() && 0 <= k < self.child_seq(i).len() ==> i < (
            #[trigger] self.child_seq(i)[k]) < self.len_spec()
        &&& forall|i: int, k: int|
            0 <= i < self.len_spec() && 0 <= k < self.child_seq(i).len() ==> self.parent_of(
                #[trigger] self.child_seq(i)[k] as int,
            ) == Some(i as usize)
        &&& forall|i: int|
            0 <= i < self.len_spec() ==> (#[trigger] self.child_seq(i)).no_duplicates()
        &&& forall|x: int|
            0 <= x < self.len_spec() ==> match #[trigger] self.parent_of(x) {
                Option::Some(p) => 0 <= p < x && self.child_seq(p as int).contains(x as usize),
                Option::None => true,
            }
        &&& forall|i: int|
            0 <= i < self.len_spec() ==> match #[trigger] self.kind_of(i) {
                NodeKind::Drawable { vao, triangles } => triangles <= 0x5555_5555u32,
                NodeKind::Group => true,
            }
    }

    /// A fresh graph holding only the root grouping node.
    pub fn new() -> (g: Self)
        ensures
            g.wf(),
            g.len_spec() == 1,
            g.kind_of(0) == NodeKind::Group,
            g.child_seq(0) == Seq::<usize>::empty(),
            g.parent_of(0) == None::<usize>,
    {
        let mut nodes: Vec<SceneNode> = Vec::new();
        nodes.push(SceneNode { kind: NodeKind::Group, children: Vec::new(), parent: None });
        SceneGraph { nodes }
    }

    fn add_node(&mut self, kind: NodeKind) -> (idx: usize)
        requires
            old(self).wf(),
            match kind {
                NodeKind::Drawable { vao, triangles } => triangles <= 0x5555_5555u32,
                NodeKind::Group => true,
            },
        ensures
            final(self).wf(),
            idx == old(self).len_spec(),
            final(self).len_spec() == old(self).len_spec() + 1,
            final(self).kind_of(idx as int) == kind,
            final(self).child_seq(idx as int) == Seq::<usize>::empty(),
            final(self).parent_of(idx as int) == None::<usize>,
            forall|i: int|
                0 <= i < old(self).len_spec() ==> #[trigger] final(self).kind_of(i) == old(
                    self,
                ).kind_of(i),
            forall|i: int|
                0 <= i < old(self).len_spec() ==> #[trigger] final(self).child_seq(i) == old(
                    self,
                ).child_seq(i),
            forall|i: int|
                0 <= i < old(self).len_spec() ==> #[trigger] final(self).parent_of(i) == old(
                    self,
                ).parent_of(i),
    {
        let idx = self.nodes.len();
        self.nodes.push(SceneNode { kind, children: Vec::new(), parent: None });
        let new_len = self.nodes.len();
        proof {
            assert(self.len_spec() == new_len);
            let n = old(self).len_spec() as int;
            assert(self.child_seq(n) =~= Seq::<usize>::empty());
            assert forall|i: int, k: int|
                0 <= i < self.len_spec() && 0 <= k < self.child_seq(i).len() implies i < (
            #[trigger] self.child_seq(i)[k]) < self.len_spec() by {
                assert(i < n);
                assert(self.child_seq(i) == old(self).child_seq(i));
                assert(i < old(self).child_seq(i)[k] < n);
            }
            assert forall|i: int, k: int|
                0 <= i < self.len_spec() && 0 <= k < self.child_seq(i).len() implies self.parent_of(
                #[trigger] self.child_seq(i)[k] as int,
            ) == Some(i as usize) by {
                assert(i < n);
                assert(self.child_seq(i) == old(self).child_seq(i));
                assert((self.child_seq(i)[k] as int) < n);
            }
            assert forall|x: int|
                0 <= x < self.len_spec() implies match #[trigger] self.parent_of(x) {
                Option::Some(p) => 0 <= p < x && self.child_seq(p as int).contains(x as usize),
                Option::None => true,
            } by {
                if x < n {
                    assert(self.parent_of(x) == old(self).parent_of(x));
                    match old(self).parent_of(x) {
                        Option::Some(p) => {
                            assert(self.child_seq(p as int) == old(self).child_seq(p as int));
                        },
                        Option::None => {},
                    }
                }
            }
            assert forall|i: int|
                0 <= i < self.len_spec() implies (#[trigger] self.child_seq(i)).no_duplicates() by {
                if i < n {
                    assert(self.child_seq(i) == old(self).child_seq(i));
                }
            }
            assert forall|i: int|
                0 <= i < self.len_spec() implies match #[trigger] self.kind_of(i) {
                NodeKind::Drawable { vao, triangles } => triangles <= 0x5555_5555u32,
                NodeKind::Group => true,
            } by {
                if i < n {
                    assert(self.kind_of(i) == old(self).kind_of(i));
                }
            }
        }
        idx
    }

    /// Append a new non-drawable grouping node and return its index.
    pub fn add_group(&mut self) -> (idx: usize)
        requires
            old(self).wf(),
        ensures
            final(self).wf(),
            idx == old(self).len_spec(),
            final(self).len_spec() == old(self).len_spec() + 1,
            final(self).kind_of(idx as int) == NodeKind::Group,
            final(self).child_seq(idx as int) == Seq::<usize>::empty(),
            final(self).parent_of(idx as int) == None::<usize>,
            forall|i: int|
                0 <= i < old(self).len_spec() ==> #[trigger] final(self).kind_of(i) == old(
                    self,
                ).kind_of(i),
            forall|i: int|
                0 <= i < old(self).len_spec() ==> #[trigger] final(self).child_seq(i) == old(
                    self,
                ).child_seq(i),
            forall|i: int|
                0 <= i < old(self).len_spec() ==> #[trigger] final(self).parent_of(i) == old(
                    self,
                ).parent_of(i),
    {
        self.add_node(NodeKind::Group)
    }

    /// Append a new drawable node bound to a vertex-array handle and a
    /// triangle count, and return its index. The count bound keeps the index
    /// count of the draw call inside a `u32`.
    pub fn add_drawable(&mut self, vao: u32, triangles: u32) -> (idx: usize)
        requires
            old(self).wf(),
            triangles <= 0x5555_5555u32,
        ensures
            final(self).wf(),
            idx == old(self).len_spec(),
            final(self).len_spec() == old(self).len_spec() + 1,
            final(self).kind_of(idx as int) == (NodeKind::Drawable { vao, triangles }),
            final(self).child_seq(idx as int) == Seq::<usize>::empty(),
            final(self).parent_of(idx as int) == None::<usize>,
            forall|i: int|
                0 <= i < old(self).len_spec() ==> #[trigger] final(self).kind_of(i) == old(
                    self,
                ).kind_of(i),
            forall|i: int|
                0 <= i < old(self).len_spec() ==> #[trigger] final(self).child_seq(i) == old(
                    self,
                ).child_seq(i),
            forall|i: int|
                0 <= i < old(self).len_spec() ==> #[trigger] final(self).parent_of(i) == old(
                    self,
                ).parent_of(i),
    {
        self.add_node(NodeKind::Drawable { vao, triangles })
    }

    /// Link `child` under `parent`, at the end of the parent's child list.
    /// A node made after its parent can be linked exactly once; this is what
    /// keeps the arena a tree.
    pub fn add_child(&mut self, parent: usize, child: usize)
        requires
            old(self).wf(),
            parent < child,
            (child as int) < old(self).len_spec(),
            old(self).parent_of(child as int) == None::<usize>,
        ensures
            final(self).wf(),
            final(self).len_spec() == old(self).len_spec(),
            final(self).child_seq(parent as int) == old(self).child_seq(parent as int).push(
                child,
            ),
            final(self).parent_of(child as int) == Some(parent),
            forall|i: int|
                0 <= i < old(self).len_spec() ==> #[trigger] final(self).kind_of(i) == old(
                    self,
                ).kind_of(i),
            forall|i: int|
                0 <= i < old(self).len_spec() && i != parent ==> #[trigger] final(self).child_seq(
                    i,
                ) == old(self).child_seq(i),
            forall|x: int|
                0 <= x < old(self).len_spec() && x != child ==> #[trigger] final(self).parent_of(
                    x,
                ) == old(self).parent_of(x),
    {
        proof {
            // A node without a parent link stands in no child list, so the
            // parent's list stays duplicate-free after the push.
            if old(self).child_seq(parent as int).contains(child) {
                let k = choose|k: int|
                    0 <= k < old(self).child_seq(parent as int).len() && old(self).child_seq(
                        parent as int,
                    )[k] == child;
                assert(old(self).parent_of(child as int) == Some(parent));
            }
        }
        self.nodes[parent].children.push(child);
        self.nodes[child].parent = Some(parent);
        proof {
            let n = old(self).len_spec() as int;
            let oldkids = old(self).child_seq(parent as int);
            assert(self.child_seq(parent as int) =~= oldkids.push(child));
            assert forall|i: int|
                0 <= i < self.len_spec() && i != parent implies #[trigger] self.child_seq(i) == old(
                self,
            ).child_seq(i) by {}
            assert forall|i: int, k: int|
                0 <= i < self.len_spec() && 0 <= k < self.child_seq(i).len() implies i < (
            #[trigger] self.child_seq(i)[k]) < self.len_spec() by {
                if i == parent as int && k == oldkids.len() {
                    assert(self.child_seq(i)[k] == child);
                } else {
                    assert(self.child_seq(i)[k] == old(self).child_seq(i)[k]);
                    assert(i < old(self).child_seq(i)[k] < n);
                }
            }
            assert forall|i: int, k: int|
                0 <= i < self.len_spec() && 0 <= k < self.child_seq(i).len() implies self.parent_of(
                #[trigger] self.child_seq(i)[k] as int,
            ) == Some(i as usize) by {
                if i == parent as int && k == oldkids.len() {
                    assert(self.child_seq(i)[k] == child);
                } else {
                    let c = old(self).child_seq(i)[k];
                    assert(self.child_seq(i)[k] == c);
                    assert(old(self).parent_of(c as int) == Some(i as usize));
                    assert((c as int) != child as int);
                }
            }
            assert forall|i: int|
                0 <= i < self.len_spec() implies (#[trigger] self.child_seq(i)).no_duplicates() by {
                if i == parent as int {
                    assert(forall|k: int|
                        0 <= k < oldkids.len() ==> old(self).parent_of(
                            #[trigger] oldkids[k] as int,
                        ) == Some(parent));
                    assert(forall|k: int| 0 <= k < oldkids.len() ==> oldkids[k] != child);
                }
            }
            assert forall|x: int|
                0 <= x < self.len_spec() implies match #[trigger] self.parent_of(x) {
                Option::Some(p) => 0 <= p < x && self.child_seq(p as int).contains(x as usize),
                Option::None => true,
            } by {
                if x == child as int {
                    assert(self.child_seq(parent as int)[oldkids.len() as int] == child);
                    assert(self.child_seq(parent as int).contains(child));
                } else {
                    assert(self.parent_of(x) == old(self).parent_of(x));
                    match old(self).parent_of(x) {
                        Option::Some(p) => {
                            assert(old(self).child_seq(p as int).contains(x as usize));
                            let k = choose|k: int|
                                0 <= k < old(self).child_seq(p as int).len() && old(
                                    self,
                                ).child_seq(p as int)[k] == x as usize;
                            assert(self.child_seq(p as int)[k] == x as usize);
                            assert(self.child_seq(p as int).contains(x as usize));
                        },
                        Option::None => {},
                    }
                }
            }
            assert forall|i: int|
                0 <= i < self.len_spec() implies match #[trigger] self.kind_of(i) {
                NodeKind::Drawable { vao, triangles } => triangles <= 0x5555_5555u32,
                NodeKind::Group => true,
            } by {
                assert(self.kind_of(i) == old(self).kind_of(i));
            }
        }
    }

    /// The number of nodes.
    pub fn node_count(&self) -> (n: usize)
        ensures
            n == self.len_spec(),
    {
        self.nodes.len()
    }

    fn traverse_into(&self, i: usize, out: &mut Vec<DrawCmd>)
        requires
            self.wf(),
            (i as int) < self.len_spec(),
        ensures
            final(out)@ == old(out)@ + draw_visit(*self, i as int),
        decreases self.len_spec() - i,
    {
        match self.nodes[i].kind {
            NodeKind::Drawable { vao, triangles } => {
                proof {
                    assert(self.kind_of(i as int) == (NodeKind::Drawable { vao, triangles }));
                }
                out.push(DrawCmd { vao, elements: 3 * triangles });
                proof {
                    assert(out@ =~= old(out)@ + node_draws(*self, i as int));
                }
            },
            NodeKind::Group => {
                proof {
                    assert(out@ =~= old(out)@ + node_draws(*self, i as int));
                }
            },
        }
        let n_children = self.nodes[i].children.len();
        let mut k: usize = 0;
        while k < n_children
            invariant
                self.wf(),
                (i as int) < self.len_spec(),
                n_children == self.child_seq(i as int).len(),
                k <= n_children,
                out@ == old(out)@ + node_draws(*self, i as int) + draw_prefix(
                    *self,
                    i as int,
                    k as int,
                ),
            decreases n_children - k,
        {
            let c = self.nodes[i].children[k];
            assert((i as int) < c < self.len_spec());
            self.traverse_into(c, out);
            proof {
                assert(out@ =~= old(out)@ + node_draws(*self, i as int) + draw_prefix(
                    *self,
                    i as int,
                    k as int + 1,
                ));
            }
            k += 1;
        }
        proof {
            assert(out@ =~= old(out)@ + draw_visit(*self, i as int));
        }
    }

    /// The per-frame render traversal: walk the tree from the root,
    /// depth-first and pre-order, and return the draw calls to issue, one per
    /// drawable node, in visit order.
    pub fn render_list(&self) -> (r: Vec<DrawCmd>)
        requires
            self.wf(),
        ensures
            r@ == draw_visit(*self, 0),
    {
        let mut out: Vec<DrawCmd> = Vec::new();
        self.traverse_into(0, &mut out);
        proof {
            assert(out@ =~= draw_visit(*self, 0));
        }
        out
    }
}

/// The pre-order visit sequence of the subtree rooted at node `i`: the node
/// itself, then each child's subtree, children in insertion order.
pub open spec fn visit(g: SceneGraph, i: int) -> Seq<int>
    decreases g.len_spec() - i, g.child_seq(i).len() + 1,
    when g.wf() && 0 <= i < g.len_spec()
{
    seq![i] + visit_prefix(g, i, g.child_seq(i).len() as int)
}

/// The concatenated visit sequences of the first `k` children of node `i`.
pub open spec fn visit_prefix(g: SceneGraph, i: int, k: int) -> Seq<int>
    decreases g.len_spec() - i, k,
    when g.wf() && 0 <= i < g.len_spec() && k <= g.child_seq(i).len()
{
    if k <= 0 {
        Seq::empty()
    } else {
        visit_prefix(g, i, k - 1) + visit(g, g.child_seq(i)[k - 1] as int)
    }
}

/// The draw calls node `i` itself contributes: one for a drawable node,
/// none for a grouping node.
pub open spec fn node_draws(g: SceneGraph, i: int) -> Seq<DrawCmd> {
    match g.kind_of(i) {
        NodeKind::Drawable { vao, triangles } => seq![
            DrawCmd { vao, elements: (3 * triangles) as u32 },
        ],
        NodeKind::Group => Seq::empty(),
    }
}

/// The draw calls issued over the subtree rooted at `i`, in visit order.
pub open spec fn draw_visit(g: SceneGraph, i: int) -> Seq<DrawCmd>
    decreases g.len_spec() - i, g.child_seq(i).len() + 1,
    when g.wf() && 0 <= i < g.len_spec()
{
    node_draws(g, i) + draw_prefix(g, i, g.child_seq(i).len() as int)
}

/// The concatenated draw calls of the first `k` children of node `i`.
pub open spec fn draw_prefix(g: SceneGraph, i: int, k: int) -> Seq<DrawCmd>
    decreases g.len_spec() - i, k,
    when g.wf() && 0 <= i < g.len_spec() && k <= g.child_seq(i).len()
{
    if k <= 0 {
        Seq::empty()
    } else {
        draw_prefix(g, i, k - 1) + draw_visit(g, g.child_seq(i)[k - 1] as int)
    }
}

/// How often `x` occurs in `s`.
pub open spec fn occurrences(s: Seq<int>, x: int) -> nat
    decreases s.len(),
{
    if s.len() == 0 {
        0
    } else {
        occurrences(s.drop_last(), x) + if s.last() == x {
            1nat
        } else {
            0nat
        }
    }
}

proof fn lemma_occurrences_concat(a: Seq<int>, b: Seq<int>, x: int)
    ensures
        occurrences(a + b, x) == occurrences(a, x) + occurrences(b, x),
    decreases b.len(),
{
    if b.len() == 0 {
        assert(a + b =~= a);
    } else {
        lemma_occurrences_concat(a, b.drop_last(), x);
        assert((a + b).drop_last() =~= a + b.drop_last());
        assert((a + b).last() == b.last());
    }
}

/// Whether node `a` lies on the parent chain of node `x` (including `x`
/// itself): the parent links are the one way up the tree, so this says that
/// `x` lies in the subtree under `a`.
pub open spec fn on_path(g: SceneGraph, a: int, x: int) -> bool
    decreases x,
    when g.wf() && 0 <= a < g.len_spec() && 0 <= x < g.len_spec()
{
    a == x || match g.parent_of(x) {
        Option::Some(p) => on_path(g, a, p as int),
        Option::None => false,
    }
}

proof fn lemma_on_path_le(g: SceneGraph, a: int, x: int)
    requires
        g.wf(),
        0 <= a < g.len_spec(),
        0 <= x < g.len_spec(),
        on_path(g, a, x),
    ensures
        a <= x,
    decreases x,
{
    if a != x {
        match g.parent_of(x) {
            Option::Some(p) => lemma_on_path_le(g, a, p as int),
            Option::None => {},
        }
    }
}

proof fn lemma_on_path_trans(g: SceneGraph, a: int, b: int, x: int)
    requires
        g.wf(),
        0 <= a < g.len_spec(),
        0 <= b < g.len_spec(),
        0 <= x < g.len_spec(),
        on_path(g, a, b),
        on_path(g, b, x),
    ensures
        on_path(g, a, x),
    decreases x,
{
    if b != x {
        match g.parent_of(x) {
            Option::Some(p) => lemma_on_path_trans(g, a, b, p as int),
            Option::None => {},
        }
    }
}

proof fn lemma_on_path_linear(g: SceneGraph, a: int, b: int, x: int)
    requires
        g.wf(),
        0 <= a < g.len_spec(),
        0 <= b < g.len_spec(),
        0 <= x < g.len_spec(),
        on_path(g, a, x),
        on_path(g, b, x),
    ensures
        on_path(g, a, b) || on_path(g, b, a),
    decreases x,
{
    if a != x && b != x {
        match g.parent_of(x) {
            Option::Some(p) => lemma_on_path_linear(g, a, b, p as int),
            Option::None => {},
        }
    }
}

proof fn lemma_on_path_step(g: SceneGraph, i: int, x: int)
    requires
        g.wf(),
        0 <= i < g.len_spec(),
        0 <= x < g.len_spec(),
        on_path(g, i, x),
        i != x,
    ensures
        exists|y: int|
            0 <= y < g.len_spec() && #[trigger] on_path(g, y, x) && g.parent_of(y) == Some(
                i as usize,
            ),
    decreases x,
{
    match g.parent_of(x) {
        Option::Some(p) => {
            if p as int == i {
                assert(on_path(g, x, x));
            } else {
                lemma_on_path_step(g, i, p as int);
                let y = choose|y: int|
                    0 <= y < g.len_spec() && #[trigger] on_path(g, y, p as int) && g.parent_of(y)
                        == Some(i as usize);
                assert(on_path(g, y, x));
            }
        },
        Option::None => {},
    }
}

proof fn lemma_visit_count(g: SceneGraph, i: int, x: int)
    requires
        g.wf(),
        0 <= i < g.len_spec(),
        0 <= x < g.len_spec(),
    ensures
        occurrences(visit(g, i), x) == if on_path(g, i, x) {
            1nat
        } else {
            0nat
        },
    decreases g.len_spec() - i, g.child_seq(i).len() + 1,
{
    let n = g.child_seq(i).len() as int;
    lemma_prefix_count(g, i, n, x);
    lemma_occurrences_concat(seq![i], visit_prefix(g, i, n), x);
    assert(seq![i].drop_last() =~= Seq::<int>::empty());
    assert(occurrences(Seq::<int>::empty(), x) == 0);
    assert(occurrences(seq![i], x) == if i == x {
        1nat
    } else {
        0nat
    });
    if i == x {
        assert forall|j: int| 0 <= j < n implies !on_path(
            g,
            #[trigger] g.child_seq(i)[j] as int,
            x,
        ) by {
            let c = g.child_seq(i)[j] as int;
            if on_path(g, c, x) {
                lemma_on_path_le(g, c, x);
            }
        }
        assert(on_path(g, i, x));
    } else {
        if on_path(g, i, x) {
            lemma_on_path_step(g, i, x);
            let y = choose|y: int|
                0 <= y < g.len_spec() && #[trigger] on_path(g, y, x) && g.parent_of(y) == Some(
                    i as usize,
                );
            assert(g.child_seq(i).contains(y as usize));
            let j = choose|j: int| 0 <= j < n && g.child_seq(i)[j] == y as usize;
            assert(on_path(g, g.child_seq(i)[j] as int, x));
        }
        if exists|j: int| 0 <= j < n && #[trigger] on_path(g, g.child_seq(i)[j] as int, x) {
            let j = choose|j: int| 0 <= j < n && #[trigger] on_path(g, g.child_seq(i)[j] as int, x);
            let c = g.child_seq(i)[j] as int;
            assert(g.parent_of(c) == Some(i as usize));
            assert(on_path(g, i, i));
            assert(on_path(g, i, c));
            lemma_on_path_trans(g, i, c, x);
        }
    }
}

proof fn lemma_prefix_count(g: SceneGraph, i: int, k: int, x: int)
    requires
        g.wf(),
        0 <= i < g.len_spec(),
        0 <= k <= g.child_seq(i).len(),
        0 <= x < g.len_spec(),
    ensures
        occurrences(visit_prefix(g, i, k), x) == if exists|j: int|
            0 <= j < k && #[trigger] on_path(g, g.child_seq(i)[j] as int, x) {
            1nat
        } else {
            0nat
        },
    decreases g.len_spec() - i, k,
{
    if k > 0 {
        let c = g.child_seq(i)[k - 1] as int;
        lemma_prefix_count(g, i, k - 1, x);
        lemma_visit_count(g, c, x);
        lemma_occurrences_concat(visit_prefix(g, i, k - 1), visit(g, c), x);
        let before = exists|j: int| 0 <= j < k - 1 && #[trigger] on_path(
            g,
            g.child_seq(i)[j] as int,
            x,
        );
        if before && on_path(g, c, x) {
            let j = choose|j: int|
                0 <= j < k - 1 && #[trigger] on_path(g, g.child_seq(i)[j] as int, x);
            let cj = g.child_seq(i)[j] as int;
            assert(cj != c);
            lemma_on_path_linear(g, cj, c, x);
            if on_path(g, cj, c) {
                assert(g.parent_of(c) == Some(i as usize));
                assert(on_path(g, cj, i));
                lemma_on_path_le(g, cj, i);
            } else {
                assert(g.parent_of(cj) == Some(i as usize));
                assert(on_path(g, c, i));
                lemma_on_path_le(g, c, i);
            }
        }
        if before {
            let j = choose|j: int|
                0 <= j < k - 1 && #[trigger] on_path(g, g.child_seq(i)[j] as int, x);
            assert(0 <= j < k && on_path(g, g.child_seq(i)[j] as int, x));
        }
        if !before && !on_path(g, c, x) {
            assert forall|j: int| 0 <= j < k implies !on_path(
                g,
                #[trigger] g.child_seq(i)[j] as int,
                x,
            ) by {
                if j < k - 1 {
                    assert(!on_path(g, g.child_seq(i)[j] as int, x));
                }
            }
        }
    }
}

/// Whether every node but the root has been linked under a parent, so that
/// the whole arena is one tree hanging off node 0.
pub open spec fn fully_linked(g: SceneGraph) -> bool {
    forall|x: int| 1 <= x < g.len_spec() ==> (#[trigger] g.parent_of(x)).is_some()
}

proof fn lemma_root_reaches_all(g: SceneGraph, x: int)
    requires
        g.wf(),
        fully_linked(g),
        0 <= x < g.len_spec(),
    ensures
        on_path(g, 0, x),
    decreases x,
{
    if x != 0 {
        match g.parent_of(x) {
            Option::Some(p) => lemma_root_reaches_all(g, p as int),
            Option::None => {},
        }
    }
}

/// A node with no children ends the recursion by itself: its subtree's visit
/// sequence is just the node, and its draw list just its own draw calls.
pub proof fn lemma_leaf_visit(g: SceneGraph, i: int)
    requires
        g.wf(),
        0 <= i < g.len_spec(),
        g.child_seq(i).len() == 0,
    ensures
        visit(g, i) == seq![i],
        draw_visit(g, i) == node_draws(g, i),
{
    assert(visit(g, i) =~= seq![i]);
    assert(draw_visit(g, i) =~= node_draws(g, i));
}

/// The render traversal of a fully linked scene graph visits every node of
/// the arena exactly once per frame.
pub proof fn lemma_traversal_visits_each_once(g: SceneGraph)
    requires
        g.wf(),
        fully_linked(g),
    ensures
        forall|x: int| 0 <= x < g.len_spec() ==> occurrences(visit(g, 0), x) == 1,
{
    assert forall|x: int| 0 <= x < g.len_spec() implies occurrences(visit(g, 0), x) == 1 by {
        lemma_root_reaches_all(g, x);
        lemma_visit_count(g, 0, x);
    }
}

/// The draw calls contributed by each node of a visit sequence, in order.
pub open spec fn draws_of_nodes(g: SceneGraph, vs: Seq<int>) -> Seq<DrawCmd>
    decreases vs.len(),
{
    if vs.len() == 0 {
        Seq::empty()
    } else {
        draws_of_nodes(g, vs.drop_last()) + node_draws(g, vs.last())
    }
}

proof fn lemma_draws_of_nodes_concat(g: SceneGraph, a: Seq<int>, b: Seq<int>)
    ensures
        draws_of_nodes(g, a + b) == draws_of_nodes(g, a) + draws_of_nodes(g, b),
    decreases b.len(),
{
    if b.len() == 0 {
        assert(a + b =~= a);
        assert(draws_of_nodes(g, a) + draws_of_nodes(g, b) =~= draws_of_nodes(g, a));
    } else {
        lemma_draws_of_nodes_concat(g, a, b.drop_last());
        assert((a + b).drop_last() =~= a + b.drop_last());
        assert((a + b).last() == b.last());
        assert(draws_of_nodes(g, a) + draws_of_nodes(g, b.drop_last()) + node_draws(g, b.last())
            =~= draws_of_nodes(g, a) + (draws_of_nodes(g, b.drop_last()) + node_draws(
            g,
            b.last(),
        )));
    }
}

/// The draw list of a subtree is exactly the visit sequence of that subtree
/// with every grouping node dropped and every drawable node replaced by its
/// draw call: only drawable nodes are drawn, in visit order.
pub proof fn lemma_draws_follow_visit(g: SceneGraph, i: int)
    requires
        g.wf(),
        0 <= i < g.len_spec(),
    ensures
        draw_visit(g, i) == draws_of_nodes(g, visit(g, i)),
    decreases g.len_spec() - i, g.child_seq(i).len() + 1,
{
    let n = g.child_seq(i).len() as int;
    lemma_draw_prefix_follows_visit(g, i, n);
    lemma_draws_of_nodes_concat(g, seq![i], visit_prefix(g, i, n));
    assert(seq![i].drop_last() =~= Seq::<int>::empty());
    assert(draws_of_nodes(g, Seq::<int>::empty()) =~= Seq::<DrawCmd>::empty());
    assert(draws_of_nodes(g, seq![i]) =~= Seq::<DrawCmd>::empty() + node_draws(g, i));
    assert(Seq::<DrawCmd>::empty() + node_draws(g, i) =~= node_draws(g, i));
}

proof fn lemma_draw_prefix_follows_visit(g: SceneGraph, i: int, k: int)
    requires
        g.wf(),
        0 <= i < g.len_spec(),
        0 <= k <= g.child_seq(i).len(),
    ensures
        draw_prefix(g, i, k) == draws_of_nodes(g, visit_prefix(g, i, k)),
    decreases g.len_spec() - i, k,
{
    if k > 0 {
        let c = g.child_seq(i)[k - 1] as int;
        lemma_draw_prefix_follows_visit(g, i, k - 1);
        lemma_draws_follow_visit(g, c);
        lemma_draws_of_nodes_concat(g, visit_prefix(g, i, k - 1), visit(g, c));
    }
}

} // verus!
