//! The dependency graph of an installation: control paragraphs (or "no
//! dependency") as nodes, "depends on" as edges, kept in a `solvent`
//! dependency graph over the nodes' positions.

use vstd::prelude::*;

use solvent::DepGraph;

use crate::package::{ControlFile, ControlView, same_control};

verus! {

#[verifier::external_type_specification]
#[verifier::external_body]
#[verifier::reject_recursive_types(T)]
pub struct ExDepGraph<T: Eq>(DepGraph<T>);

/// The nodes registered in a `solvent` graph.
pub uninterp spec fn graph_nodes(g: DepGraph<usize>) -> Set<usize>;

/// The dependencies registered in a `solvent` graph: `(node, depends_on)`.
pub uninterp spec fn graph_edges(g: DepGraph<usize>) -> Set<(usize, usize)>;

/// Trusted: `DepGraph::new` creates a graph with no nodes and no
/// dependencies.
#[verifier::external_body]
fn graph_new() -> (g: DepGraph<usize>)
    ensures
        graph_nodes(g) == Set::<usize>::empty(),
        graph_edges(g) == Set::<(usize, usize)>::empty(),
{
    DepGraph::new()
}

/// Trusted: `DepGraph::register_dependency` registers both nodes (where they
/// are new) and adds the dependency of `node` on `dep`.
#[verifier::external_body]
fn graph_register_dependency(g: &mut DepGraph<usize>, node: usize, dep: usize)
    ensures
        graph_nodes(*final(g)) == graph_nodes(*old(g)).insert(node).insert(dep),
        graph_edges(*final(g)) == graph_edges(*old(g)).insert((node, dep)),
{
    g.register_dependency(node, dep);
}

/// Trusted: `DepGraph::dependencies_of` fails exactly for a node that was
/// never registered.
#[verifier::external_body]
fn graph_has_node(g: &DepGraph<usize>, node: usize) -> (r: bool)
    ensures
        r == graph_nodes(*g).contains(node),
{
    g.dependencies_of(&node).is_ok()
}

/// `p` is a walk along `edges`: at least one node, each joined to the next.
pub open spec fn is_walk<A>(edges: Set<(A, A)>, p: Seq<A>) -> bool {
    &&& p.len() >= 1
    &&& forall|i: int, j: int|
        0 <= i && j == i + 1 && j < p.len() ==> #[trigger] edges.contains((p[i], p[j]))
}

/// `b` can be reached from `a` along `edges` (in no steps where `a == b`).
pub open spec fn reaches<A>(edges: Set<(A, A)>, a: A, b: A) -> bool {
    exists|p: Seq<A>| #[trigger] is_walk(edges, p) && p[0] == a && p.last() == b
}

/// No cycle can be reached from `a`: every walk from `a` meets each node
/// at most once.
pub open spec fn acyclic_from<A>(edges: Set<(A, A)>, a: A) -> bool {
    forall|p: Seq<A>| #[trigger] is_walk(edges, p) && p[0] == a ==> p.no_duplicates()
}

/// Where the dependencies of `t` have none of their own and `t` is not its
/// own dependency, no cycle can be reached from `t`, and its dependencies
/// are reached from it.
pub proof fn lemma_depth_one<A>(edges: Set<(A, A)>, t: A)
    requires
        forall|d: A|
            #[trigger] edges.contains((t, d)) ==> d != t && forall|e: A| !edges.contains((d, e)),
    ensures
        acyclic_from(edges, t),
        forall|d: A| #[trigger] edges.contains((t, d)) ==> reaches(edges, t, d),
{
    assert forall|p: Seq<A>| #[trigger] is_walk(edges, p) && p[0] == t implies p.no_duplicates() by {
        if p.len() >= 2 {
            assert(edges.contains((p[0], p[1])));
            if p.len() >= 3 {
                assert(edges.contains((p[1], p[2])));
            }
        }
    }
    assert forall|d: A| #[trigger] edges.contains((t, d)) implies reaches(edges, t, d) by {
        let p = seq![t, d];
        assert(is_walk(edges, p));
    }
}

/// Trusted: the nodes that `DepGraph::dependencies_of(target)` yields, up to
/// a detected cycle. The crate's iterator walks down from the target along
/// dependencies not yet satisfied, yields the first node whose
/// dependencies are all satisfied and marks it satisfied; it stops after
/// the target, and at the first cycle on its walk. So every node comes
/// once, after all its dependencies, and can be reached from the target;
/// where no cycle can be reached from the target, every node that can be
/// reached comes, and the target last. Which order among independent
/// nodes it picks depends on the iteration order of hash sets and is not
/// stated. (The iterator also skips nodes marked satisfied in the graph;
/// this library never marks any.)
#[verifier::external_body]
fn graph_dependencies_of(g: &DepGraph<usize>, target: usize) -> (r: Vec<usize>)
    requires
        graph_nodes(*g).contains(target),
    ensures
        r@.no_duplicates(),
        forall|i: int| 0 <= i < r.len() ==> graph_nodes(*g).contains(#[trigger] r@[i]),
        forall|i: int, d: usize|
            0 <= i < r.len() && #[trigger] graph_edges(*g).contains((r@[i], d)) ==> r@.take(
                i,
            ).contains(d),
        forall|i: int| 0 <= i < r.len() ==> reaches(graph_edges(*g), target, #[trigger] r@[i]),
        acyclic_from(graph_edges(*g), target) ==> r.len() > 0 && r@.last() == target && forall|b: usize|
            #[trigger] reaches(graph_edges(*g), target, b) ==> r@.contains(b),
{
    let mut out: Vec<usize> = Vec::new();
    if let Ok(iter) = g.dependencies_of(&target) {
        for item in iter {
            match item {
                Ok(n) => out.push(*n),
                Err(_) => {},
            }
        }
    }
    out
}

/// The view of an optional paragraph.
pub open spec fn opt_control_view(o: Option<ControlFile>) -> Option<ControlView> {
    match o {
        Some(c) => Some(c@),
        None => None,
    }
}

/// A dependency graph over paragraphs.
pub struct DependencyGraph {
    graph: DepGraph<usize>,
    nodes: Vec<Option<ControlFile>>,
}

impl DependencyGraph {
    /// The nodes are distinct, and the graph's positions lie among them.
    pub closed spec fn wf(&self) -> bool {
        &&& forall|i: int, j: int|
            0 <= i < self.nodes.len() && 0 <= j < self.nodes.len() && i != j ==> opt_control_view(
                #[trigger] self.nodes@[i],
            ) != opt_control_view(#[trigger] self.nodes@[j])
        &&& forall|i: usize| #[trigger] graph_nodes(self.graph).contains(i) ==> i < self.nodes.len()
        &&& forall|i: usize, j: usize|
            #[trigger] graph_edges(self.graph).contains((i, j)) ==> graph_nodes(self.graph).contains(i)
                && graph_nodes(self.graph).contains(j)
    }

    /// The registered nodes.
    pub closed spec fn registered(&self) -> Set<Option<ControlView>> {
        Set::new(
            |v: Option<ControlView>|
                exists|i: usize|
                    #[trigger] graph_nodes(self.graph).contains(i) && i < self.nodes.len()
                        && opt_control_view(self.nodes@[i as int]) == v,
        )
    }

    /// The registered dependencies: `(node, depends_on)`.
    pub closed spec fn edges(&self) -> Set<(Option<ControlView>, Option<ControlView>)> {
        Set::new(
            |e: (Option<ControlView>, Option<ControlView>)|
                exists|i: usize, j: usize|
                    #[trigger] graph_edges(self.graph).contains((i, j)) && i < self.nodes.len() && j
                        < self.nodes.len() && opt_control_view(self.nodes@[i as int]) == e.0
                        && opt_control_view(self.nodes@[j as int]) == e.1,
        )
    }

    /// An empty graph.
    pub fn new() -> (g: Self)
        ensures
            g.wf(),
            g.registered() == Set::<Option<ControlView>>::empty(),
            g.edges() == Set::<(Option<ControlView>, Option<ControlView>)>::empty(),
    {
        let g = DependencyGraph { graph: graph_new(), nodes: Vec::new() };
        assert(g.registered() =~= Set::<Option<ControlView>>::empty());
        assert(g.edges() =~= Set::<(Option<ControlView>, Option<ControlView>)>::empty());
        g
    }

    /// The position of a node equal to `node`, where there is one.
    fn find(&self, node: &Option<ControlFile>) -> (r: Option<usize>)
        ensures
            match r {
                Some(i) => i < self.nodes.len() && opt_control_view(self.nodes@[i as int])
                    == opt_control_view(*node),
                None => forall|i: int|
                    0 <= i < self.nodes.len() ==> opt_control_view(#[trigger] self.nodes@[i])
                        != opt_control_view(*node),
            },
    {
        let mut i: usize = 0;
        while i < self.nodes.len()
            invariant
                i <= self.nodes.len(),
                forall|j: int|
                    0 <= j < i ==> opt_control_view(#[trigger] self.nodes@[j]) != opt_control_view(
                        *node,
                    ),
            decreases self.nodes.len() - i,
        {
            let same = match (&self.nodes[i], node) {
                (Some(a), Some(b)) => same_control(a, b),
                (None, None) => true,
                _ => false,
            };
            if same {
                return Some(i);
            }
            i = i + 1;
        }
        None
    }

    /// A copy of an optional paragraph.
    fn copy_node(node: &Option<ControlFile>) -> (r: Option<ControlFile>)
        ensures
            opt_control_view(r) == opt_control_view(*node),
    {
        match node {
            Some(c) => Some(c.duplicate()),
            None => None,
        }
    }

    /// The position of `node`, added to the list where it is new.
    fn id_of(&mut self, node: &Option<ControlFile>) -> (r: usize)
        requires
            old(self).wf(),
        ensures
            final(self).wf(),
            r < final(self).nodes.len(),
            opt_control_view(final(self).nodes@[r as int]) == opt_control_view(*node),
            final(self).graph == old(self).graph,
            final(self).nodes.len() >= old(self).nodes.len(),
            forall|i: int| 0 <= i < old(self).nodes.len() ==> #[trigger] final(self).nodes@[i] == old(self).nodes@[i],
    {
        match self.find(node) {
            Some(i) => i,
            None => {
                let ghost before = self.nodes@;
                self.nodes.push(Self::copy_node(node));
                let n = self.nodes.len() - 1;
                assert forall|i: int, j: int|
                    0 <= i < self.nodes.len() && 0 <= j < self.nodes.len() && i != j implies opt_control_view(
                    #[trigger] self.nodes@[i],
                ) != opt_control_view(#[trigger] self.nodes@[j]) by {
                    if i < n && j < n {
                        assert(self.nodes@[i] == before[i]);
                        assert(self.nodes@[j] == before[j]);
                    } else if i == n {
                        assert(self.nodes@[j] == before[j]);
                    } else {
                        assert(self.nodes@[i] == before[i]);
                    }
                }
                n
            },
        }
    }

    /// Registers that `node` depends on `dep`.
    pub fn register_dependency(&mut self, node: &Option<ControlFile>, dep: &Option<ControlFile>)
        requires
            old(self).wf(),
        ensures
            final(self).wf(),
            final(self).registered() == old(self).registered().insert(opt_control_view(*node)).insert(
                opt_control_view(*dep),
            ),
            final(self).edges() == old(self).edges().insert(
                (opt_control_view(*node), opt_control_view(*dep)),
            ),
    {
        let ghost g0 = *self;
        let a = self.id_of(node);
        let b = self.id_of(dep);
        let ghost g1 = *self;
        graph_register_dependency(&mut self.graph, a, b);
        assert(self.nodes@ == g1.nodes@);
        assert forall|i: usize| #[trigger] graph_nodes(self.graph).contains(i) implies i < self.nodes.len() by {
            if i != a && i != b {
                assert(graph_nodes(g0.graph).contains(i));
            }
        }
        assert forall|i: usize, j: usize| #[trigger] graph_edges(self.graph).contains((i, j)) implies graph_nodes(
            self.graph,
        ).contains(i) && graph_nodes(self.graph).contains(j) by {
            if (i, j) != (a, b) {
                assert(graph_edges(g0.graph).contains((i, j)));
            }
        }
        assert forall|i: int| 0 <= i < g0.nodes.len() implies #[trigger] self.nodes@[i] == g0.nodes@[i] by {
        }
        let ghost vn = opt_control_view(*node);
        let ghost vd = opt_control_view(*dep);
        assert(self.registered() =~= g0.registered().insert(vn).insert(vd)) by {
            assert forall|v: Option<ControlView>| self.registered().contains(v) implies g0.registered().insert(vn).insert(vd).contains(v) by {
                let i = choose|i: usize| #[trigger] graph_nodes(self.graph).contains(i) && i < self.nodes.len()
                    && opt_control_view(self.nodes@[i as int]) == v;
                if i != a && i != b {
                    assert(graph_nodes(g0.graph).contains(i));
                    assert(i < g0.nodes.len());
                    assert(self.nodes@[i as int] == g0.nodes@[i as int]);
                }
            }
            assert forall|v: Option<ControlView>| g0.registered().insert(vn).insert(vd).contains(v) implies self.registered().contains(v) by {
                if v == vn {
                    assert(graph_nodes(self.graph).contains(a));
                } else if v == vd {
                    assert(graph_nodes(self.graph).contains(b));
                } else {
                    let i = choose|i: usize| #[trigger] graph_nodes(g0.graph).contains(i) && i < g0.nodes.len()
                        && opt_control_view(g0.nodes@[i as int]) == v;
                    assert(self.nodes@[i as int] == g0.nodes@[i as int]);
                    assert(graph_nodes(self.graph).contains(i));
                }
            }
        }
        assert(self.edges() =~= g0.edges().insert((vn, vd))) by {
            assert forall|e: (Option<ControlView>, Option<ControlView>)| self.edges().contains(e) implies g0.edges().insert((vn, vd)).contains(e) by {
                let (i, j) = choose|i: usize, j: usize| #[trigger] graph_edges(self.graph).contains((i, j)) && i < self.nodes.len() && j
                    < self.nodes.len() && opt_control_view(self.nodes@[i as int]) == e.0
                    && opt_control_view(self.nodes@[j as int]) == e.1;
                if (i, j) != (a, b) {
                    assert(graph_edges(g0.graph).contains((i, j)));
                    assert(self.nodes@[i as int] == g0.nodes@[i as int]);
                    assert(self.nodes@[j as int] == g0.nodes@[j as int]);
                }
            }
            assert forall|e: (Option<ControlView>, Option<ControlView>)| g0.edges().insert((vn, vd)).contains(e) implies self.edges().contains(e) by {
                if e == (vn, vd) {
                    assert(graph_edges(self.graph).contains((a, b)));
                } else {
                    let (i, j) = choose|i: usize, j: usize| #[trigger] graph_edges(g0.graph).contains((i, j)) && i < g0.nodes.len() && j
                        < g0.nodes.len() && opt_control_view(g0.nodes@[i as int]) == e.0
                        && opt_control_view(g0.nodes@[j as int]) == e.1;
                    assert(self.nodes@[i as int] == g0.nodes@[i as int]);
                    assert(self.nodes@[j as int] == g0.nodes@[j as int]);
                    assert(graph_edges(self.graph).contains((i, j)));
                }
            }
        }
    }

    /// Whether `node` is registered.
    pub fn is_registered(&self, node: &Option<ControlFile>) -> (r: bool)
        requires
            self.wf(),
        ensures
            r == self.registered().contains(opt_control_view(*node)),
    {
        match self.find(node) {
            Some(i) => {
                let r = graph_has_node(&self.graph, i);
                proof {
                    if !r && self.registered().contains(opt_control_view(*node)) {
                        let j = choose|j: usize| #[trigger] graph_nodes(self.graph).contains(j) && j < self.nodes.len()
                            && opt_control_view(self.nodes@[j as int]) == opt_control_view(*node);
                        if j != i {
                            assert(opt_control_view(self.nodes@[j as int]) != opt_control_view(self.nodes@[i as int]));
                        }
                    }
                }
                r
            },
            None => {
                proof {
                    if self.registered().contains(opt_control_view(*node)) {
                        let j = choose|j: usize| #[trigger] graph_nodes(self.graph).contains(j) && j < self.nodes.len()
                            && opt_control_view(self.nodes@[j as int]) == opt_control_view(*node);
                        assert(opt_control_view(self.nodes@[j as int]) != opt_control_view(*node));
                    }
                }
                false
            },
        }
    }

    /// The views of the nodes at the positions `p`.
    spec fn views_of(&self, p: Seq<usize>) -> Seq<Option<ControlView>> {
        p.map_values(|x: usize| opt_control_view(self.nodes@[x as int]))
    }

    /// A walk over positions is a walk over the nodes they hold.
    proof fn lemma_walk_up(&self, p: Seq<usize>)
        requires
            self.wf(),
            is_walk(graph_edges(self.graph), p),
            p[0] < self.nodes.len(),
        ensures
            is_walk(self.edges(), self.views_of(p)),
            forall|i: int| 0 <= i < p.len() ==> #[trigger] p[i] < self.nodes.len(),
    {
        assert forall|i: int| 0 <= i < p.len() implies #[trigger] p[i] < self.nodes.len() by {
            if i > 0 {
                assert(graph_edges(self.graph).contains((p[i - 1], p[i])));
            }
        }
        let q = self.views_of(p);
        assert forall|i: int, j: int| 0 <= i && j == i + 1 && j < q.len() implies #[trigger] self.edges().contains(
            (q[i], q[j]),
        ) by {
            assert(graph_edges(self.graph).contains((p[i], p[j])));
            assert(p[i] < self.nodes.len() && p[j] < self.nodes.len());
        }
    }

    /// A walk over the nodes, starting at the node held at `ti`, is a walk
    /// over the positions that hold them.
    proof fn lemma_walk_down(&self, q: Seq<Option<ControlView>>, ti: usize) -> (p: Seq<usize>)
        requires
            self.wf(),
            is_walk(self.edges(), q),
            ti < self.nodes.len(),
            opt_control_view(self.nodes@[ti as int]) == q[0],
        ensures
            is_walk(graph_edges(self.graph), p),
            p.len() == q.len(),
            p[0] == ti,
            forall|i: int| 0 <= i < p.len() ==> #[trigger] p[i] < self.nodes.len()
                && opt_control_view(self.nodes@[p[i] as int]) == q[i],
    {
        let p = Seq::new(
            q.len(),
            |k: int|
                if k == 0 {
                    ti
                } else {
                    choose|x: usize| x < self.nodes.len() && opt_control_view(self.nodes@[x as int]) == q[k]
                },
        );
        assert forall|k: int| 0 <= k < p.len() implies #[trigger] p[k] < self.nodes.len()
            && opt_control_view(self.nodes@[p[k] as int]) == q[k] by {
            if k > 0 {
                assert(self.edges().contains((q[k - 1], q[k])));
                let (a, b) = choose|a: usize, b: usize|
                    #[trigger] graph_edges(self.graph).contains((a, b)) && a < self.nodes.len() && b
                        < self.nodes.len() && opt_control_view(self.nodes@[a as int]) == q[k - 1]
                        && opt_control_view(self.nodes@[b as int]) == q[k];
                assert(b < self.nodes.len() && opt_control_view(self.nodes@[b as int]) == q[k]);
            }
        }
        assert forall|i: int, j: int| 0 <= i && j == i + 1 && j < p.len() implies #[trigger] graph_edges(
            self.graph,
        ).contains((p[i], p[j])) by {
            assert(self.edges().contains((q[i], q[j])));
            let (a, b) = choose|a: usize, b: usize|
                #[trigger] graph_edges(self.graph).contains((a, b)) && a < self.nodes.len() && b
                    < self.nodes.len() && opt_control_view(self.nodes@[a as int]) == q[i]
                    && opt_control_view(self.nodes@[b as int]) == q[j];
            assert(p[i] < self.nodes.len() && opt_control_view(self.nodes@[p[i] as int]) == q[i]);
            assert(p[j] < self.nodes.len() && opt_control_view(self.nodes@[p[j] as int]) == q[j]);
            if a != p[i] {
                assert(opt_control_view(self.nodes@[a as int]) != opt_control_view(self.nodes@[p[i] as int]));
            }
            if b != p[j] {
                assert(opt_control_view(self.nodes@[b as int]) != opt_control_view(self.nodes@[p[j] as int]));
            }
        }
        p
    }

    /// The packages to install for `target`, each after the packages it
    /// depends on, as the graph yields them; the "no dependency" node is
    /// left out. Each can be reached from the target; where no cycle can be
    /// reached from it, every package that can be reached comes, and the
    /// target last.
    pub fn install_order(&self, target: &Option<ControlFile>) -> (r: Vec<ControlFile>)
        requires
            self.wf(),
            self.registered().contains(opt_control_view(*target)),
        ensures
            forall|i: int| 0 <= i < r.len() ==> self.registered().contains(Some(#[trigger] r@[i]@)),
            forall|i: int, j: int| 0 <= i < j < r.len() ==> (#[trigger] r@[i])@ != (#[trigger] r@[j])@,
            forall|i: int, d: ControlView|
                0 <= i < r.len() && #[trigger] self.edges().contains((Some(r@[i]@), Some(d))) ==> exists|j: int|
                    0 <= j < i && (#[trigger] r@[j])@ == d,
            forall|i: int| 0 <= i < r.len() ==> reaches(self.edges(), opt_control_view(*target), Some(#[trigger] r@[i]@)),
            target is Some && acyclic_from(self.edges(), opt_control_view(*target)) ==> r.len() > 0
                && r@.last()@ == target->Some_0@ && forall|d: ControlView|
                #[trigger] reaches(self.edges(), opt_control_view(*target), Some(d)) ==> exists|i: int|
                    0 <= i < r.len() && (#[trigger] r@[i])@ == d,
    {
        let ti = match self.find(target) {
            Some(i) => i,
            None => {
                proof {
                    let j = choose|j: usize| #[trigger] graph_nodes(self.graph).contains(j) && j < self.nodes.len()
                        && opt_control_view(self.nodes@[j as int]) == opt_control_view(*target);
                    assert(opt_control_view(self.nodes@[j as int]) != opt_control_view(*target));
                }
                return Vec::new();
            },
        };
        proof {
            let j = choose|j: usize| #[trigger] graph_nodes(self.graph).contains(j) && j < self.nodes.len()
                && opt_control_view(self.nodes@[j as int]) == opt_control_view(*target);
            if j != ti {
                assert(opt_control_view(self.nodes@[j as int]) != opt_control_view(self.nodes@[ti as int]));
            }
        }
        let ids = graph_dependencies_of(&self.graph, ti);
        let mut out: Vec<ControlFile> = Vec::new();
        let ghost mut src: Seq<int> = seq![];
        let mut k: usize = 0;
        while k < ids.len()
            invariant
                self.wf(),
                k <= ids.len(),
                ids@.no_duplicates(),
                forall|i: int| 0 <= i < ids.len() ==> graph_nodes(self.graph).contains(#[trigger] ids@[i]),
                src.len() == out.len(),
                forall|j: int| 0 <= j < src.len() ==> 0 <= #[trigger] src[j] < k,
                forall|j1: int, j2: int| 0 <= j1 < j2 < src.len() ==> #[trigger] src[j1] < #[trigger] src[j2],
                forall|j: int| 0 <= j < src.len() ==> opt_control_view(self.nodes@[ids@[#[trigger] src[j]] as int]) == Some(out@[j]@),
                forall|m: int| 0 <= m < k && #[trigger] self.nodes@[ids@[m] as int] is Some ==> exists|j: int| 0 <= j < src.len() && src[j] == m,
            decreases ids.len() - k,
        {
            let id = ids[k];
            assert(graph_nodes(self.graph).contains(ids@[k as int]));
            match &self.nodes[id] {
                Some(c) => {
                    out.push(c.duplicate());
                    let ghost old_src = src;
                    proof {
                        src = src.push(k as int);
                        assert forall|m: int| 0 <= m < k + 1 && #[trigger] self.nodes@[ids@[m] as int] is Some implies exists|j: int| 0 <= j < src.len() && src[j] == m by {
                            if m == k {
                                assert(src[src.len() - 1] == m);
                            } else {
                                let j = choose|j: int| 0 <= j < old_src.len() && old_src[j] == m;
                                assert(src[j] == m);
                            }
                        }
                    }
                },
                None => {},
            }
            k = k + 1;
        }
        proof {
            assert forall|i: int| 0 <= i < out.len() implies self.registered().contains(Some(#[trigger] out@[i]@)) by {
                let id = ids@[src[i]];
                assert(graph_nodes(self.graph).contains(id));
            }
            assert forall|i: int, j: int| 0 <= i < j < out.len() implies (#[trigger] out@[i])@ != (#[trigger] out@[j])@ by {
                let a = ids@[src[i]];
                let b = ids@[src[j]];
                assert(src[i] < src[j]);
                assert(a != b);
                assert(graph_nodes(self.graph).contains(a));
                assert(graph_nodes(self.graph).contains(b));
                assert(opt_control_view(self.nodes@[a as int]) != opt_control_view(self.nodes@[b as int]));
            }
            assert forall|i: int, d: ControlView|
                0 <= i < out.len() && #[trigger] self.edges().contains((Some(out@[i]@), Some(d))) implies exists|j: int|
                    0 <= j < i && (#[trigger] out@[j])@ == d by {
                let (a, b) = choose|a: usize, b: usize| #[trigger] graph_edges(self.graph).contains((a, b)) && a < self.nodes.len() && b
                    < self.nodes.len() && opt_control_view(self.nodes@[a as int]) == Some(out@[i]@)
                    && opt_control_view(self.nodes@[b as int]) == Some(d);
                let ki = src[i];
                let x = ids@[ki];
                assert(graph_nodes(self.graph).contains(x));
                if a != x {
                    assert(opt_control_view(self.nodes@[a as int]) != opt_control_view(self.nodes@[x as int]));
                }
                assert(graph_edges(self.graph).contains((ids@[ki], b)));
                assert(ids@.take(ki).contains(b));
                let m = choose|m: int| 0 <= m < ids@.take(ki).len() && ids@.take(ki)[m] == b;
                assert(ids@[m] == b);
                assert(self.nodes@[ids@[m] as int] is Some);
                let j = choose|j: int| 0 <= j < src.len() && src[j] == m;
                if j >= i {
                    if j > i {
                        assert(src[i] < src[j]);
                    }
                }
                assert(out@[j]@ == d);
            }
            let tv = opt_control_view(*target);
            assert forall|i: int| 0 <= i < out.len() implies reaches(self.edges(), tv, Some(#[trigger] out@[i]@)) by {
                let id = ids@[src[i]];
                assert(reaches(graph_edges(self.graph), ti, id));
                let p = choose|p: Seq<usize>| #[trigger] is_walk(graph_edges(self.graph), p) && p[0] == ti && p.last() == id;
                self.lemma_walk_up(p);
                let q = self.views_of(p);
                assert(q[0] == tv);
                assert(q.last() == Some(out@[i]@));
            }
            if target is Some && acyclic_from(self.edges(), tv) {
                assert forall|p: Seq<usize>| #[trigger] is_walk(graph_edges(self.graph), p) && p[0] == ti implies p.no_duplicates() by {
                    self.lemma_walk_up(p);
                    let q = self.views_of(p);
                    assert(q[0] == tv);
                    assert(q.no_duplicates());
                    assert forall|i: int, j: int| 0 <= i < p.len() && 0 <= j < p.len() && i != j implies p[i] != p[j] by {
                        if p[i] == p[j] {
                            assert(q[i] == q[j]);
                        }
                    }
                }
                assert(acyclic_from(graph_edges(self.graph), ti));
                let m = ids.len() - 1;
                assert(ids@[m] == ti);
                assert(self.nodes@[ids@[m] as int] is Some);
                let j = choose|j: int| 0 <= j < src.len() && src[j] == m;
                if j < src.len() - 1 {
                    assert(src[j] < src[src.len() - 1]);
                }
                assert(out@.last()@ == target->Some_0@);
                assert forall|d: ControlView| #[trigger] reaches(self.edges(), tv, Some(d)) implies exists|i: int|
                    0 <= i < out.len() && (#[trigger] out@[i])@ == d by {
                    let q = choose|q: Seq<Option<ControlView>>| #[trigger] is_walk(self.edges(), q) && q[0] == tv && q.last() == Some(d);
                    let p = self.lemma_walk_down(q, ti);
                    let x = p.last();
                    assert(p[p.len() - 1] < self.nodes.len() && opt_control_view(self.nodes@[x as int]) == Some(d));
                    assert(reaches(graph_edges(self.graph), ti, x));
                    assert(ids@.contains(x));
                    let m2 = choose|m2: int| 0 <= m2 < ids.len() && ids@[m2] == x;
                    assert(self.nodes@[ids@[m2] as int] is Some);
                    let j2 = choose|j2: int| 0 <= j2 < src.len() && src[j2] == m2;
                    assert(out@[j2]@ == d);
                }
            }
        }
        out
    }
}

} // verus!
