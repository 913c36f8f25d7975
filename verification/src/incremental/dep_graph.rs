//! The dependency graph between query results.

use vstd::prelude::*;
use crate::text::str_eq;
use super::fingerprint::Fingerprint;

verus! {

/// One query result: the query's name and the fingerprint of its key.
#[derive(Debug, Clone, Copy, PartialEq, Eq, Hash)]
pub struct DepNode {
    pub query: &'static str,
    pub key: Fingerprint,
}

/// A node as plain values: the query's name and the key's fingerprint.
pub ghost struct NodeView {
    pub query: Seq<char>,
    pub key: u64,
}

pub open spec fn node_view(n: DepNode) -> NodeView {
    NodeView { query: n.query@, key: n.key.0 }
}

pub open spec fn node_views(s: Seq<DepNode>) -> Seq<NodeView> {
    s.map_values(|n: DepNode| node_view(n))
}

pub open spec fn edge_view(e: (DepNode, DepNode)) -> (NodeView, NodeView) {
    (node_view(e.0), node_view(e.1))
}

pub open spec fn edge_seq_views(s: Seq<(DepNode, DepNode)>) -> Seq<(NodeView, NodeView)> {
    s.map_values(|e: (DepNode, DepNode)| edge_view(e))
}

impl DepNode {
    pub fn new(query: &'static str, key: Fingerprint) -> (n: Self)
        ensures
            n.query == query,
            n.key == key,
    {
        DepNode { query, key }
    }

    /// Whether two nodes name the same query result.
    pub fn same(&self, other: &DepNode) -> (r: bool)
        ensures
            r == (node_view(*self) == node_view(*other)),
    {
        self.key.0 == other.key.0 && str_eq(self.query, other.query)
    }
}

/// Whether the edge starts at `n`, or, when `both_ends`, ends at it.
pub open spec fn touches(x: (NodeView, NodeView), n: NodeView, both_ends: bool) -> bool {
    x.0 == n || (both_ends && x.1 == n)
}

/// Whether the sequence holds no two equal values.
pub open spec fn no_repeats<T>(s: Seq<T>) -> bool {
    forall|i: int, j: int| 0 <= i < s.len() && 0 <= j < s.len() && i != j ==> s[i] != s[j]
}

/// `path` leads from `root` along dependent edges: its first node depends on `root`, and
/// each later node depends on the one before it. An edge `(a, b)` says that `a` depends on `b`.
pub open spec fn dependent_path(edges: Set<(NodeView, NodeView)>, root: NodeView, path: Seq<NodeView>) -> bool {
    &&& path.len() >= 1
    &&& edges.contains((path[0], root))
    &&& forall|i: int| 0 <= i < path.len() - 1 ==> #[trigger] edges.contains((path[i + 1], path[i]))
}

/// The nodes that depend on `root`, directly or through other nodes.
pub open spec fn transitively_depends(edges: Set<(NodeView, NodeView)>, root: NodeView, n: NodeView) -> bool {
    exists|path: Seq<NodeView>| #[trigger] dependent_path(edges, root, path) && path.last() == n
}

/// A node that depends on a transitive dependent of `root` is one too.
proof fn lemma_depends_step(edges: Set<(NodeView, NodeView)>, root: NodeView, m: NodeView, n: NodeView)
    requires
        transitively_depends(edges, root, m),
        edges.contains((n, m)),
    ensures
        transitively_depends(edges, root, n),
{
    let p = choose|path: Seq<NodeView>| #[trigger] dependent_path(edges, root, path) && path.last() == m;
    let q = p.push(n);
    assert forall|i: int| 0 <= i < q.len() - 1 implies #[trigger] edges.contains((q[i + 1], q[i])) by {
        if i < p.len() - 1 {
            assert(edges.contains((p[i + 1], p[i])));
        }
    }
    assert(dependent_path(edges, root, q));
}

/// A direct dependent of `root` depends on it transitively.
proof fn lemma_depends_direct(edges: Set<(NodeView, NodeView)>, root: NodeView, n: NodeView)
    requires
        edges.contains((n, root)),
    ensures
        transitively_depends(edges, root, n),
{
    let q = seq![n];
    assert(dependent_path(edges, root, q));
}

/// A set of nodes that holds every direct dependent of `root` and every dependent of its
/// members holds every node of a path from `root`.
proof fn lemma_closed_contains(edges: Set<(NodeView, NodeView)>, root: NodeView, vis: Seq<NodeView>, path: Seq<NodeView>, k: int)
    requires
        dependent_path(edges, root, path),
        0 <= k < path.len(),
        forall|d: NodeView| #[trigger] edges.contains((d, root)) ==> vis.contains(d),
        forall|v: NodeView, d: NodeView| vis.contains(v) && #[trigger] edges.contains((d, v)) ==> vis.contains(d),
    ensures
        vis.contains(path[k]),
    decreases k,
{
    if k > 0 {
        lemma_closed_contains(edges, root, vis, path, k - 1);
        assert(edges.contains((path[(k - 1) + 1], path[k - 1])));
    }
}

/// Whether `v` holds a node equal to `n`.
pub fn contains_node(v: &Vec<DepNode>, n: &DepNode) -> (r: bool)
    ensures
        r == node_views(v@).contains(node_view(*n)),
{
    let mut i: usize = 0;
    while i < v.len()
        invariant
            i <= v@.len(),
            forall|j: int| 0 <= j < i ==> node_view(v@[j]) != node_view(*n),
        decreases v@.len() - i,
    {
        if v[i].same(n) {
            proof {
                assert(node_views(v@)[i as int] == node_view(*n));
            }
            return true;
        }
        i += 1;
    }
    proof {
        if node_views(v@).contains(node_view(*n)) {
            let k = choose|k: int| 0 <= k < node_views(v@).len() && node_views(v@)[k] == node_view(*n);
            assert(node_view(v@[k]) == node_view(*n));
        }
    }
    false
}

/// The edges between query results: `(a, b)` when `a` depends on `b`.
#[derive(Debug)]
pub struct DepGraph {
    edges: Vec<(DepNode, DepNode)>,
}

impl DepGraph {
    /// The set of edges, as plain values.
    pub closed spec fn view(&self) -> Set<(NodeView, NodeView)> {
        edge_seq_views(self.edges@).to_set()
    }

    spec fn edge_views(&self) -> Seq<(NodeView, NodeView)> {
        edge_seq_views(self.edges@)
    }

    #[verifier::type_invariant]
    spec fn inv(self) -> bool {
        no_repeats(self.edge_views())
    }

    proof fn lemma_view_contains(&self, e: (NodeView, NodeView))
        ensures
            self@.contains(e) <==> exists|i: int| 0 <= i < self.edges@.len() && edge_view(self.edges@[i]) == e,
    {
        if self@.contains(e) {
            let i = choose|i: int| 0 <= i < self.edge_views().len() && self.edge_views()[i] == e;
            assert(edge_view(self.edges@[i]) == e);
        }
        if exists|i: int| 0 <= i < self.edges@.len() && edge_view(self.edges@[i]) == e {
            let i = choose|i: int| 0 <= i < self.edges@.len() && edge_view(self.edges@[i]) == e;
            assert(self.edge_views()[i] == e);
        }
    }

    /// Records that `node` depends on `depends_on`.
    pub fn add_dependency(&mut self, node: DepNode, depends_on: DepNode)
        ensures
            final(self)@ == old(self)@.insert((node_view(node), node_view(depends_on))),
    {
        proof {
            use_type_invariant(&*self);
        }
        let ghost e = (node_view(node), node_view(depends_on));
        let mut i: usize = 0;
        while i < self.edges.len()
            invariant
                i <= self.edges@.len(),
                e == (node_view(node), node_view(depends_on)),
                forall|j: int| 0 <= j < i ==> edge_view(self.edges@[j]) != e,
            decreases self.edges@.len() - i,
        {
            if self.edges[i].0.same(&node) && self.edges[i].1.same(&depends_on) {
                proof {
                    self.lemma_view_contains(e);
                    assert(self@.insert(e) =~= self@);
                }
                return;
            }
            i += 1;
        }
        let ghost before = *self;
        proof {
            before.lemma_view_contains(e);
            let ext = before.edge_views().push(e);
            assert forall|a: int, b: int| 0 <= a < ext.len() && 0 <= b < ext.len() && a != b implies ext[a] != ext[b] by {
                if a < before.edges@.len() && b < before.edges@.len() {
                } else if a < before.edges@.len() {
                    assert(before.edge_views()[a] == edge_view(before.edges@[a]));
                } else {
                    assert(before.edge_views()[b] == edge_view(before.edges@[b]));
                }
            }
            assert(before.edges@.push((node, depends_on)).map_values(|x: (DepNode, DepNode)| edge_view(x)) =~= ext);
        }
        let mut edges: Vec<(DepNode, DepNode)> = Vec::new();
        std::mem::swap(&mut edges, &mut self.edges);
        edges.push((node, depends_on));
        self.edges = edges;
        proof {
            let now = self.edge_views();
            assert(now =~= before.edge_views().push(e));
            assert forall|x: (NodeView, NodeView)| #[trigger] self@.contains(x) <==> before@.insert(e).contains(x) by {
                if self@.contains(x) {
                    let k = choose|k: int| 0 <= k < now.len() && now[k] == x;
                    if k < before.edge_views().len() {
                        assert(before.edge_views()[k] == x);
                    }
                }
                if before@.contains(x) {
                    let k = choose|k: int| 0 <= k < before.edge_views().len() && before.edge_views()[k] == x;
                    assert(now[k] == x);
                }
                if x == e {
                    assert(now[now.len() - 1] == x);
                }
            }
            assert(self@ =~= before@.insert(e));
        }
    }

    /// The nodes `node` depends on, each once.
    pub fn dependencies_of(&self, node: DepNode) -> (r: Vec<DepNode>)
        ensures
            no_repeats(node_views(r@)),
            forall|d: NodeView| #[trigger] node_views(r@).contains(d) <==> self@.contains((node_view(node), d)),
    {
        proof {
            use_type_invariant(self);
        }
        let mut r: Vec<DepNode> = Vec::new();
        let mut i: usize = 0;
        while i < self.edges.len()
            invariant
                i <= self.edges@.len(),
                self.inv(),
                no_repeats(node_views(r@)),
                forall|d: NodeView| #[trigger] node_views(r@).contains(d) <==> exists|j: int|
                    0 <= j < i && edge_view(self.edges@[j]) == (node_view(node), d),
            decreases self.edges@.len() - i,
        {
            let ghost rv = node_views(r@);
            if self.edges[i].0.same(&node) {
                let d = self.edges[i].1;
                proof {
                    let dv = node_view(d);
                    assert(!rv.contains(dv)) by {
                        if rv.contains(dv) {
                            let j = choose|j: int| 0 <= j < i && edge_view(self.edges@[j]) == (node_view(node), dv);
                            assert(self.edge_views()[j] == self.edge_views()[i as int]);
                        }
                    }
                }
                r.push(d);
                proof {
                    let rv2 = node_views(r@);
                    assert(rv2 =~= rv.push(node_view(d)));
                    assert forall|dd: NodeView| #[trigger] rv2.contains(dd) <==> exists|j: int|
                        0 <= j < i + 1 && edge_view(self.edges@[j]) == (node_view(node), dd) by {
                        if rv2.contains(dd) && dd != node_view(d) {
                            let k = choose|k: int| 0 <= k < rv2.len() && rv2[k] == dd;
                            assert(rv.contains(dd)) by { assert(rv[k] == dd); }
                        }
                        if exists|j: int| 0 <= j < i + 1 && edge_view(self.edges@[j]) == (node_view(node), dd) {
                            let j = choose|j: int| 0 <= j < i + 1 && edge_view(self.edges@[j]) == (node_view(node), dd);
                            if j < i {
                                assert(rv.contains(dd));
                                let k = choose|k: int| 0 <= k < rv.len() && rv[k] == dd;
                                assert(rv2[k] == dd);
                            } else {
                                assert(rv2[rv.len() as int] == dd);
                            }
                        }
                    }
                }
            } else {
                proof {
                    assert forall|dd: NodeView| #[trigger] rv.contains(dd) <==> exists|j: int|
                        0 <= j < i + 1 && edge_view(self.edges@[j]) == (node_view(node), dd) by {
                        if exists|j: int| 0 <= j < i + 1 && edge_view(self.edges@[j]) == (node_view(node), dd) {
                            let j = choose|j: int| 0 <= j < i + 1 && edge_view(self.edges@[j]) == (node_view(node), dd);
                            assert(j < i);
                        }
                    }
                }
            }
            i += 1;
        }
        proof {
            assert forall|d: NodeView| #[trigger] node_views(r@).contains(d) <==> self@.contains((node_view(node), d)) by {
                self.lemma_view_contains((node_view(node), d));
            }
        }
        r
    }

    /// The nodes that depend on `node`, each once.
    pub fn dependents_of(&self, node: DepNode) -> (r: Vec<DepNode>)
        ensures
            no_repeats(node_views(r@)),
            forall|d: NodeView| #[trigger] node_views(r@).contains(d) <==> self@.contains((d, node_view(node))),
    {
        proof {
            use_type_invariant(self);
        }
        let mut r: Vec<DepNode> = Vec::new();
        let mut i: usize = 0;
        while i < self.edges.len()
            invariant
                i <= self.edges@.len(),
                self.inv(),
                no_repeats(node_views(r@)),
                forall|d: NodeView| #[trigger] node_views(r@).contains(d) <==> exists|j: int|
                    0 <= j < i && edge_view(self.edges@[j]) == (d, node_view(node)),
            decreases self.edges@.len() - i,
        {
            let ghost rv = node_views(r@);
            if self.edges[i].1.same(&node) {
                let d = self.edges[i].0;
                proof {
                    let dv = node_view(d);
                    assert(!rv.contains(dv)) by {
                        if rv.contains(dv) {
                            let j = choose|j: int| 0 <= j < i && edge_view(self.edges@[j]) == (dv, node_view(node));
                            assert(self.edge_views()[j] == self.edge_views()[i as int]);
                        }
                    }
                }
                r.push(d);
                proof {
                    let rv2 = node_views(r@);
                    assert(rv2 =~= rv.push(node_view(d)));
                    assert forall|dd: NodeView| #[trigger] rv2.contains(dd) <==> exists|j: int|
                        0 <= j < i + 1 && edge_view(self.edges@[j]) == (dd, node_view(node)) by {
                        if rv2.contains(dd) && dd != node_view(d) {
                            let k = choose|k: int| 0 <= k < rv2.len() && rv2[k] == dd;
                            assert(rv.contains(dd)) by { assert(rv[k] == dd); }
                        }
                        if exists|j: int| 0 <= j < i + 1 && edge_view(self.edges@[j]) == (dd, node_view(node)) {
                            let j = choose|j: int| 0 <= j < i + 1 && edge_view(self.edges@[j]) == (dd, node_view(node));
                            if j < i {
                                assert(rv.contains(dd));
                                let k = choose|k: int| 0 <= k < rv.len() && rv[k] == dd;
                                assert(rv2[k] == dd);
                            } else {
                                assert(rv2[rv.len() as int] == dd);
                            }
                        }
                    }
                }
            } else {
                proof {
                    assert forall|dd: NodeView| #[trigger] rv.contains(dd) <==> exists|j: int|
                        0 <= j < i + 1 && edge_view(self.edges@[j]) == (dd, node_view(node)) by {
                        if exists|j: int| 0 <= j < i + 1 && edge_view(self.edges@[j]) == (dd, node_view(node)) {
                            let j = choose|j: int| 0 <= j < i + 1 && edge_view(self.edges@[j]) == (dd, node_view(node));
                            assert(j < i);
                        }
                    }
                }
            }
            i += 1;
        }
        proof {
            assert forall|d: NodeView| #[trigger] node_views(r@).contains(d) <==> self@.contains((d, node_view(node))) by {
                self.lemma_view_contains((d, node_view(node)));
            }
        }
        r
    }

    /// Keeps the edges that neither start at `node` nor, when `both_ends`, end at it.
    fn retain_edges(&mut self, node: DepNode, both_ends: bool)
        ensures
            final(self)@ == old(self)@.filter(|x: (NodeView, NodeView)| !touches(x, node_view(node), both_ends)),
    {
        proof {
            use_type_invariant(&*self);
        }
        let ghost nv = node_view(node);
        let ghost before = *self;
        let ghost old_views = before.edge_views();
        let mut kept: Vec<(DepNode, DepNode)> = Vec::new();
        let mut i: usize = 0;
        while i < self.edges.len()
            invariant
                *self == before,
                old_views == before.edge_views(),
                nv == node_view(node),
                no_repeats(old_views),
                i <= self.edges@.len(),
                no_repeats(edge_seq_views(kept@)),
                forall|x: (NodeView, NodeView)| #[trigger] edge_seq_views(kept@).contains(x)
                    <==> (!touches(x, nv, both_ends) && exists|j: int| 0 <= j < i && old_views[j] == x),
            decreases self.edges@.len() - i,
        {
            let ghost kv = edge_seq_views(kept@);
            let e = self.edges[i];
            let from_node = e.0.same(&node);
            let to_node = e.1.same(&node);
            proof {
                assert(old_views[i as int] == edge_view(e));
            }
            if !(from_node || (both_ends && to_node)) {
                proof {
                    assert(!kv.contains(edge_view(e))) by {
                        if kv.contains(edge_view(e)) {
                            let j = choose|j: int| 0 <= j < i && old_views[j] == edge_view(e);
                            assert(old_views[j] == old_views[i as int]);
                        }
                    }
                }
                kept.push(e);
                proof {
                    let kv2 = edge_seq_views(kept@);
                    assert(kv2 =~= kv.push(edge_view(e)));
                    assert forall|x: (NodeView, NodeView)| #[trigger] kv2.contains(x)
                        <==> (!touches(x, nv, both_ends) && exists|j: int| 0 <= j < i + 1 && old_views[j] == x) by {
                        if kv2.contains(x) && x != edge_view(e) {
                            let k = choose|k: int| 0 <= k < kv2.len() && kv2[k] == x;
                            assert(kv[k] == x);
                        }
                        if !touches(x, nv, both_ends) && exists|j: int| 0 <= j < i + 1 && old_views[j] == x {
                            let j = choose|j: int| 0 <= j < i + 1 && old_views[j] == x;
                            if j < i {
                                assert(kv.contains(x));
                                let k = choose|k: int| 0 <= k < kv.len() && kv[k] == x;
                                assert(kv2[k] == x);
                            } else {
                                assert(kv2[kv.len() as int] == x);
                            }
                        }
                    }
                }
            } else {
                proof {
                    assert forall|x: (NodeView, NodeView)| #[trigger] kv.contains(x)
                        <==> (!touches(x, nv, both_ends) && exists|j: int| 0 <= j < i + 1 && old_views[j] == x) by {
                        if !touches(x, nv, both_ends) && exists|j: int| 0 <= j < i + 1 && old_views[j] == x {
                            let j = choose|j: int| 0 <= j < i + 1 && old_views[j] == x;
                            assert(j < i);
                        }
                    }
                }
            }
            i += 1;
        }
        self.edges = kept;
        proof {
            let now = self.edge_views();
            assert forall|x: (NodeView, NodeView)| #[trigger] self@.contains(x)
                <==> before@.filter(|x: (NodeView, NodeView)| !touches(x, nv, both_ends)).contains(x) by {
                if self@.contains(x) {
                    let k = choose|k: int| 0 <= k < now.len() && now[k] == x;
                    assert(now.contains(x));
                    let j = choose|j: int| 0 <= j < old_views.len() && old_views[j] == x;
                    assert(old_views.contains(x));
                }
                if before@.filter(|x: (NodeView, NodeView)| !touches(x, nv, both_ends)).contains(x) {
                    assert(old_views.contains(x));
                    let j = choose|j: int| 0 <= j < old_views.len() && old_views[j] == x;
                    assert(now.contains(x));
                }
            }
            assert(self@ =~= before@.filter(|x: (NodeView, NodeView)| !touches(x, nv, both_ends)));
        }
    }

    /// Forgets what `node` depends on.
    pub fn clear_dependencies(&mut self, node: DepNode)
        ensures
            final(self)@ == old(self)@.filter(|x: (NodeView, NodeView)| x.0 != node_view(node)),
    {
        self.retain_edges(node, false);
        proof {
            assert(final(self)@ =~= old(self)@.filter(|x: (NodeView, NodeView)| x.0 != node_view(node)));
        }
    }

    /// Forgets every edge that starts or ends at `node`.
    pub fn remove_node(&mut self, node: DepNode)
        ensures
            final(self)@ == old(self)@.filter(|x: (NodeView, NodeView)| x.0 != node_view(node) && x.1 != node_view(node)),
    {
        self.retain_edges(node, true);
        proof {
            assert(final(self)@ =~= old(self)@.filter(|x: (NodeView, NodeView)| x.0 != node_view(node) && x.1 != node_view(node)));
        }
    }


    /// A transitive dependent of `root` is the start of some edge.
    proof fn lemma_dependent_is_source(&self, root: NodeView, n: NodeView)
        requires
            transitively_depends(self@, root, n),
        ensures
            exists|i: int| 0 <= i < self.edges@.len() && #[trigger] node_view(self.edges@[i].0) == n,
    {
        let p = choose|path: Seq<NodeView>| #[trigger] dependent_path(self@, root, path) && path.last() == n;
        let y = if p.len() == 1 {
            root
        } else {
            assert(self@.contains((p[(p.len() - 2) + 1], p[p.len() - 2])));
            p[p.len() - 2]
        };
        assert(self@.contains((n, y)));
        self.lemma_view_contains((n, y));
        let i = choose|i: int| 0 <= i < self.edges@.len() && edge_view(self.edges@[i]) == (n, y);
        assert(node_view(self.edges@[i].0) == n);
    }

    /// The nodes that depend on `root`, directly or through other nodes, each once.
    pub fn transitive_dependents(&self, root: DepNode) -> (r: Vec<DepNode>)
        ensures
            no_repeats(node_views(r@)),
            forall|n: NodeView| #[trigger] node_views(r@).contains(n) <==> transitively_depends(self@, node_view(root), n),
    {
        proof {
            use_type_invariant(self);
        }
        let ghost rv = node_view(root);
        let ghost g = self@;
        let mut visited: Vec<DepNode> = Vec::new();
        let mut stack: Vec<DepNode> = self.dependents_of(root);
        proof {
            assert forall|n: NodeView| #[trigger] node_views(stack@).contains(n) implies transitively_depends(g, rv, n) by {
                lemma_depends_direct(g, rv, n);
            }
        }
        while stack.len() > 0
            invariant
                g == self@,
                rv == node_view(root),
                no_repeats(node_views(visited@)),
                forall|n: NodeView| #[trigger] node_views(visited@).contains(n) ==> transitively_depends(g, rv, n),
                forall|n: NodeView| #[trigger] node_views(stack@).contains(n) ==> transitively_depends(g, rv, n),
                forall|d: NodeView| #[trigger] g.contains((d, rv)) ==>
                    node_views(visited@).contains(d) || node_views(stack@).contains(d),
                forall|v: NodeView, d: NodeView| node_views(visited@).contains(v) && #[trigger] g.contains((d, v)) ==>
                    node_views(visited@).contains(d) || node_views(stack@).contains(d),
                visited@.len() <= self.edges@.len(),
            decreases self.edges@.len() - visited@.len(), stack@.len(),
        {
            let ghost vis0 = node_views(visited@);
            let ghost st0 = node_views(stack@);
            let node = stack.pop().unwrap();
            let ghost nv = node_view(node);
            let ghost st1 = node_views(stack@);
            proof {
                assert(st0 =~= st1.push(nv));
                assert forall|x: NodeView| #[trigger] st0.contains(x) implies st1.contains(x) || x == nv by {
                    let k = choose|k: int| 0 <= k < st0.len() && st0[k] == x;
                    if k < st1.len() {
                        assert(st1[k] == x);
                    }
                }
                assert(st0[st0.len() - 1] == nv);
                assert(st0.contains(nv));
                assert forall|x: NodeView| #[trigger] st1.contains(x) implies st0.contains(x) by {
                    let k = choose|k: int| 0 <= k < st1.len() && st1[k] == x;
                    assert(st0[k] == x);
                }
            }
            if !contains_node(&visited, &node) {
                visited.push(node);
                let ghost vis1 = node_views(visited@);
                proof {
                    assert(vis1 =~= vis0.push(nv));
                    assert forall|x: NodeView| #[trigger] vis1.contains(x) <==> vis0.contains(x) || x == nv by {
                        if vis1.contains(x) && x != nv {
                            let k = choose|k: int| 0 <= k < vis1.len() && vis1[k] == x;
                            assert(vis0[k] == x);
                        }
                        if vis0.contains(x) {
                            let k = choose|k: int| 0 <= k < vis0.len() && vis0[k] == x;
                            assert(vis1[k] == x);
                        }
                        if x == nv {
                            assert(vis1[vis0.len() as int] == x);
                        }
                    }
                    self.lemma_visited_bound(vis1, rv);
                }
                let mut deps = self.dependents_of(node);
                let ghost dv = node_views(deps@);
                stack.append(&mut deps);
                proof {
                    let st2 = node_views(stack@);
                    assert(st2 =~= st1 + dv);
                    assert forall|x: NodeView| #[trigger] st2.contains(x) <==> st1.contains(x) || dv.contains(x) by {
                        if st2.contains(x) {
                            let k = choose|k: int| 0 <= k < st2.len() && st2[k] == x;
                            if k < st1.len() {
                                assert(st1[k] == x);
                            } else {
                                assert(dv[k - st1.len()] == x);
                            }
                        }
                        if st1.contains(x) {
                            let k = choose|k: int| 0 <= k < st1.len() && st1[k] == x;
                            assert(st2[k] == x);
                        }
                        if dv.contains(x) {
                            let k = choose|k: int| 0 <= k < dv.len() && dv[k] == x;
                            assert(st2[st1.len() + k] == x);
                        }
                    }
                    assert forall|x: NodeView| #[trigger] dv.contains(x) implies transitively_depends(g, rv, x) by {
                        assert(g.contains((x, nv)));
                        lemma_depends_step(g, rv, nv, x);
                    }
                }
            }
        }
        proof {
            let vis = node_views(visited@);
            assert forall|n: NodeView| #[trigger] transitively_depends(g, rv, n) implies vis.contains(n) by {
                let p = choose|path: Seq<NodeView>| #[trigger] dependent_path(g, rv, path) && path.last() == n;
                lemma_closed_contains(g, rv, vis, p, p.len() - 1);
            }
        }
        visited
    }

    /// The nodes visited from `root` are distinct starts of edges, so there are no more of
    /// them than edges.
    proof fn lemma_visited_bound(&self, vis: Seq<NodeView>, root: NodeView)
        requires
            no_repeats(vis),
            forall|n: NodeView| #[trigger] vis.contains(n) ==> transitively_depends(self@, root, n),
        ensures
            vis.len() <= self.edges@.len(),
    {
        let sources = self.edges@.map_values(|e: (DepNode, DepNode)| node_view(e.0));
        assert forall|n: NodeView| #[trigger] vis.to_set().contains(n) implies sources.to_set().contains(n) by {
            assert(vis.contains(n));
            self.lemma_dependent_is_source(root, n);
            let i = choose|i: int| 0 <= i < self.edges@.len() && #[trigger] node_view(self.edges@[i].0) == n;
            assert(sources[i] == n);
        }
        vis.unique_seq_to_set();
        sources.lemma_cardinality_of_set();
        vstd::set_lib::lemma_len_subset(vis.to_set(), sources.to_set());
    }

}

impl Default for DepGraph {
    fn default() -> (g: Self)
        ensures
            g@ == Set::<(NodeView, NodeView)>::empty(),
    {
        let g = DepGraph { edges: Vec::new() };
        assert(g@ =~= Set::<(NodeView, NodeView)>::empty());
        g
    }
}

} // verus!
