//! Directed graphs and their strongly connected components.
//!
//! The components come out so that a component stands after every component
//! that one of its vertices leads to: whoever works through them in order
//! meets what a vertex depends on before the vertex itself.
use crate::module::seq_view;
use vstd::prelude::*;

verus! {

pub type VertexIndex = usize;

/// A vertex: its value and the vertices that its edges lead to.
pub struct Vertex<T> {
    pub value: T,
    pub edges: Vec<VertexIndex>,
}

pub struct Graph<T> {
    pub vertices: Vec<Vertex<T>>,
}

/// Model of a graph: the values of the vertices, and for each vertex the
/// vertices that its edges lead to.
pub struct GraphModel<T> {
    pub values: Seq<T>,
    pub edges: Seq<Seq<usize>>,
}

impl<T> View for Graph<T> {
    type V = GraphModel<T>;

    open spec fn view(&self) -> GraphModel<T> {
        GraphModel {
            values: Seq::new(self.vertices@.len(), |u: int| self.vertices@[u].value),
            edges: Seq::new(self.vertices@.len(), |u: int| self.vertices@[u].edges@),
        }
    }
}

/// There is an edge from `u` to `v`.
pub open spec fn edge(g: Seq<Seq<usize>>, u: int, v: int) -> bool {
    0 <= u < g.len() && 0 <= v < g.len() && g[u].contains(
        v as usize,
    )
}

/// There is a path of `k` edges from `u` to `v`.
pub open spec fn path(g: Seq<Seq<usize>>, u: int, v: int, k: nat) -> bool
    decreases k,
{
    if k == 0 {
        u == v && 0 <= u < g.len()
    } else {
        exists|w: int| #[trigger] edge(g, u, w) && path(g, w, v, (k - 1) as nat)
    }
}

/// `v` can be reached from `u`.
pub open spec fn reach(g: Seq<Seq<usize>>, u: int, v: int) -> bool {
    exists|k: nat| path(g, u, v, k)
}

/// `u` and `v` can be reached from each other.
pub open spec fn connected(g: Seq<Seq<usize>>, u: int, v: int) -> bool {
    reach(g, u, v) && reach(g, v, u)
}

pub proof fn lemma_path_in_range(g: Seq<Seq<usize>>, u: int, v: int, k: nat)
    requires
        path(g, u, v, k),
    ensures
        0 <= u < g.len(),
        0 <= v < g.len(),
    decreases k,
{
    if k > 0 {
        let w = choose|w: int| #[trigger] edge(g, u, w) && path(g, w, v, (k - 1) as nat);
        lemma_path_in_range(g, w, v, (k - 1) as nat);
    }
}

pub proof fn lemma_path_append(g: Seq<Seq<usize>>, u: int, v: int, w: int, k1: nat, k2: nat)
    requires
        path(g, u, v, k1),
        path(g, v, w, k2),
    ensures
        path(g, u, w, k1 + k2),
    decreases k1,
{
    if k1 > 0 {
        let x = choose|x: int| #[trigger] edge(g, u, x) && path(g, x, v, (k1 - 1) as nat);
        lemma_path_append(g, x, v, w, (k1 - 1) as nat, k2);
        assert(path(g, x, w, (k1 + k2 - 1) as nat));
    }
}

/// Reachability is reflexive on the vertices and transitive, and follows every edge.
pub proof fn lemma_reach(g: Seq<Seq<usize>>)
    ensures
        forall|u: int| 0 <= u < g.len() ==> #[trigger] reach(g, u, u),
        forall|u: int, v: int| #[trigger] edge(g, u, v) ==> reach(g, u, v),
        forall|u: int, v: int, w: int|
            #[trigger] reach(g, u, v) && #[trigger] reach(g, v, w) ==> reach(g, u, w),
        forall|u: int, v: int|
            #[trigger] reach(g, u, v) ==> 0 <= u < g.len() && 0 <= v
                < g.len(),
{
    assert forall|u: int| 0 <= u < g.len() implies #[trigger] reach(g, u, u) by {
        assert(path(g, u, u, 0));
    }
    assert forall|u: int, v: int| #[trigger] edge(g, u, v) implies reach(g, u, v) by {
        assert(path(g, v, v, 0));
        assert(path(g, u, v, 1));
    }
    assert forall|u: int, v: int, w: int| #[trigger]
        reach(g, u, v) && #[trigger] reach(g, v, w) implies reach(g, u, w) by {
        let k1 = choose|k: nat| path(g, u, v, k);
        let k2 = choose|k: nat| path(g, v, w, k);
        lemma_path_append(g, u, v, w, k1, k2);
    }
    assert forall|u: int, v: int| #[trigger] reach(g, u, v) implies 0 <= u < g.len()
        && 0 <= v < g.len() by {
        let k = choose|k: nat| path(g, u, v, k);
        lemma_path_in_range(g, u, v, k);
    }
}

/// A set of vertices that holds `u` and, with a vertex, everything its edges
/// lead to, holds everything that can be reached from `u`.
proof fn lemma_closed(g: Seq<Seq<usize>>, marked: Seq<bool>, u: int, v: int, k: nat)
    requires
        marked.len() == g.len(),
        0 <= u < marked.len(),
        marked[u],
        forall|a: int, b: int| 0 <= a < marked.len() && marked[a] && #[trigger] edge(g, a, b) ==> marked[b],
        path(g, u, v, k),
    ensures
        0 <= v < marked.len() && marked[v],
    decreases k,
{
    if k > 0 {
        let w = choose|w: int| #[trigger] edge(g, u, w) && path(g, w, v, (k - 1) as nat);
        lemma_closed(g, marked, w, v, (k - 1) as nat);
    }
}

/// The list `pending` holds the vertex `a`.
pub open spec fn holds(pending: Seq<usize>, a: int) -> bool {
    exists|q: int| 0 <= q < pending.len() && pending[q] == a
}

/// The number of indices below `n` at which `marked` is false.
pub open spec fn unmarked(marked: Seq<bool>, n: nat) -> nat
    decreases n,
{
    if n == 0 {
        0
    } else {
        unmarked(marked, (n - 1) as nat) + if n <= marked.len() && !marked[n - 1] {
            1nat
        } else {
            0nat
        }
    }
}

proof fn lemma_mark(marked: Seq<bool>, i: int, n: nat)
    requires
        0 <= i < marked.len(),
        !marked[i],
        n <= marked.len(),
    ensures
        unmarked(marked.update(i, true), n) == unmarked(marked, n) - if i < n {
            1int
        } else {
            0int
        },
        i < n ==> unmarked(marked, n) > 0,
    decreases n,
{
    if n > 0 {
        lemma_mark(marked, i, (n - 1) as nat);
    }
}

impl<T> Graph<T> {
    /// The graph without vertices.
    pub fn new() -> (res: Graph<T>)
        ensures
            res.vertices@.len() == 0,
    {
        Graph { vertices: Vec::new() }
    }

    /// Adds a vertex without edges and returns its index.
    pub fn new_vertex(&mut self, value: T) -> (res: VertexIndex)
        ensures
            res == old(self).vertices@.len(),
            final(self).vertices@.len() == old(self).vertices@.len() + 1,
            final(self).vertices@.take(res as int) == old(self).vertices@,
            final(self).vertices@[res as int].value == value,
            final(self).vertices@[res as int].edges@.len() == 0,
            final(self)@.edges == old(self)@.edges.push(Seq::empty()),
            final(self)@.values == old(self)@.values.push(value),
    {
        let index = self.vertices.len();
        self.vertices.push(Vertex { value, edges: Vec::new() });
        proof {
            assert(self.vertices@.take(index as int) =~= old(self).vertices@);
            assert(self@.edges =~= old(self)@.edges.push(Seq::empty()));
            assert(self@.values =~= old(self)@.values.push(value));
        }
        index
    }

    /// Adds an edge from `from` to `to`. Where `from` is no vertex of the
    /// graph, nothing changes.
    pub fn connect(&mut self, from: VertexIndex, to: VertexIndex)
        ensures
            final(self).vertices@.len() == old(self).vertices@.len(),
            forall|u: int|
                0 <= u < old(self).vertices@.len() ==> (#[trigger] final(self).vertices@[u]).value
                    == old(self).vertices@[u].value,
            forall|u: int|
                0 <= u < old(self).vertices@.len() && u != from ==> (
                #[trigger] final(self).vertices@[u]).edges@ == old(self).vertices@[u].edges@,
            from < old(self).vertices@.len() ==> final(self).vertices@[from as int].edges@
                == old(self).vertices@[from as int].edges@.push(to),
            from < old(self)@.edges.len() ==> final(self)@.edges == old(self)@.edges.update(
                from as int,
                old(self)@.edges[from as int].push(to),
            ),
            from >= old(self)@.edges.len() ==> final(self)@.edges == old(self)@.edges,
            final(self)@.values == old(self)@.values,
    {
        if from < self.vertices.len() {
            self.vertices[from].edges.push(to);
            proof {
                assert(self@.edges =~= old(self)@.edges.update(
                    from as int,
                    old(self)@.edges[from as int].push(to),
                ));
                assert(self@.values =~= old(self)@.values);
            }
        } else {
            proof {
                assert(self@.edges =~= old(self)@.edges);
                assert(self@.values =~= old(self)@.values);
            }
        }
    }

    /// The vertex with the index `v`.
    pub fn get_vertex(&self, v: VertexIndex) -> (res: &Vertex<T>)
        requires
            v < self.vertices@.len(),
        ensures
            *res == self.vertices@[v as int],
    {
        &self.vertices[v]
    }

    /// For each vertex, whether it can be reached from `u`.
    pub fn reachable_from(&self, u: VertexIndex) -> (res: Vec<bool>)
        requires
            u < self.vertices@.len(),
        ensures
            res@.len() == self.vertices@.len(),
            forall|v: int| 0 <= v < res@.len() ==> res@[v] == reach(self@.edges, u as int, v),
    {
        let n = self.vertices.len();
        let mut marked: Vec<bool> = Vec::new();
        let mut i: usize = 0;
        while i < n
            invariant
                i <= n,
                marked@.len() == i,
                forall|v: int| 0 <= v < i ==> !marked@[v],
            decreases n - i,
        {
            marked.push(false);
            i += 1;
        }
        marked[u] = true;
        let mut pending: Vec<usize> = Vec::new();
        pending.push(u);
        proof {
            lemma_reach(self@.edges);
            assert(pending@[0] == u);
            assert forall|a: int| 0 <= a < n && marked@[a] implies holds(pending@, a) by {
                assert(a == u);
            }
        }
        while pending.len() > 0
            invariant
                n == self.vertices@.len(),
                marked@.len() == n,
                u < n,
                marked@[u as int],
                forall|v: int| 0 <= v < n && marked@[v] ==> reach(self@.edges, u as int, v),
                forall|p: int| 0 <= p < pending@.len() ==> pending@[p] < n && marked@[pending@[p] as int],
                forall|a: int, b: int|
                    0 <= a < n && marked@[a] && !holds(pending@, a) && #[trigger] edge(
                        self@.edges,
                        a,
                        b,
                    ) ==> marked@[b],
            decreases unmarked(marked@, n as nat), pending@.len(),
        {
            let ghost pending0 = pending@;
            let a = pending.pop().unwrap();
            let edges = &self.vertices[a].edges;
            let ghost marked0 = marked@;
            let ghost rest = pending@;
            proof {
                assert(rest =~= pending0.drop_last());
                assert forall|c: int| c != a && !holds(rest, c) implies !#[trigger] holds(
                    pending0,
                    c,
                ) by {
                    if holds(pending0, c) {
                        let q = choose|q: int| 0 <= q < pending0.len() && pending0[q] == c;
                        assert(rest[q] == c);
                    }
                }
            }
            let mut e: usize = 0;
            while e < edges.len()
                invariant
                    e <= edges.len(),
                    n == self.vertices@.len(),
                    marked@.len() == n,
                    a < n,
                    u < n,
                    marked@[u as int],
                    marked@[a as int],
                    *edges == self.vertices@[a as int].edges,
                    forall|v: int| 0 <= v < n && marked@[v] ==> reach(self@.edges, u as int, v),
                    forall|v: int| 0 <= v < n && marked0[v] ==> marked@[v],
                    forall|p: int|
                        0 <= p < pending@.len() ==> pending@[p] < n && marked@[pending@[p] as int],
                    forall|c: int| holds(rest, c) ==> #[trigger] holds(pending@, c),
                    forall|x: int| 0 <= x < e ==> edges@[x] < n ==> marked@[edges@[x] as int],
                    forall|c: int, b: int|
                        0 <= c < n && marked@[c] && c != a && !holds(pending@, c)
                            && #[trigger] edge(self@.edges, c, b) ==> marked@[b],
                    unmarked(marked@, n as nat) + pending@.len() <= unmarked(marked0, n as nat)
                        + rest.len(),
                    pending@.len() > rest.len() ==> unmarked(marked@, n as nat) < unmarked(
                        marked0,
                        n as nat,
                    ),
                    pending@.len() >= rest.len(),
                decreases edges.len() - e,
            {
                let b = edges[e];
                if b < n && !marked[b] {
                    proof {
                        lemma_mark(marked@, b as int, n as nat);
                        lemma_reach(self@.edges);
                        assert(edges@.contains(b));
                        assert(edge(self@.edges, a as int, b as int));
                    }
                    let ghost pending1 = pending@;
                    let ghost marked1 = marked@;
                    marked[b] = true;
                    pending.push(b);
                    proof {
                        assert forall|c: int| holds(rest, c) implies #[trigger] holds(
                            pending@,
                            c,
                        ) by {
                            assert(holds(pending1, c));
                            let q = choose|q: int| 0 <= q < pending1.len() && pending1[q] == c;
                            assert(pending@[q] == c);
                        }
                        assert(pending@[pending@.len() - 1] == b);
                        assert forall|c: int, d: int|
                            0 <= c < n && marked@[c] && c != a && !holds(pending@, c)
                                && #[trigger] edge(self@.edges, c, d) implies marked@[d] by {
                            if c == b {
                                assert(holds(pending@, b as int));
                            } else {
                                assert(marked1[c]);
                                if holds(pending1, c) {
                                    let q = choose|q: int|
                                        0 <= q < pending1.len() && pending1[q] == c;
                                    assert(pending@[q] == c);
                                }
                                assert(marked1[d]);
                            }
                        }
                    }
                }
                e += 1;
            }
            proof {
                assert forall|c: int, b: int|
                    0 <= c < n && marked@[c] && !holds(pending@, c) && #[trigger] edge(
                        self@.edges,
                        c,
                        b,
                    ) implies marked@[b] by {
                    if c == a {
                        let x = choose|x: int|
                            0 <= x < edges@.len() && edges@[x] == b as usize;
                        assert(edges@[x] < n);
                    }
                }
                assert(rest =~= pending0.drop_last());
            }
        }
        proof {
            assert forall|v: int| 0 <= v < n implies marked@[v] == reach(self@.edges, u as int, v) by {
                if reach(self@.edges, u as int, v) {
                    let k = choose|k: nat| path(self@.edges, u as int, v, k);
                    lemma_closed(self@.edges, marked@, u as int, v, k);
                }
            }
        }
        marked
    }
}

/// Everything that can be reached from `u` is marked in `emitted` or leads back to `u`.
pub open spec fn ready(g: Seq<Seq<usize>>, emitted: Seq<bool>, u: int) -> bool {
    forall|v: int| #[trigger]
        reach(g, u, v) ==> (0 <= v < emitted.len() && emitted[v]) || reach(g, v, u)
}

/// The first vertex from `from` on that is not marked and is ready.
pub open spec fn pick(g: Seq<Seq<usize>>, emitted: Seq<bool>, from: int) -> Option<int>
    decreases g.len() - from,
{
    if from < 0 || from >= g.len() || from >= emitted.len() {
        None
    } else if !emitted[from] && ready(g, emitted, from) {
        Some(from)
    } else {
        pick(g, emitted, from + 1)
    }
}

/// The vertices below `upto` that are connected with `u`, in ascending order.
pub open spec fn component(g: Seq<Seq<usize>>, u: int, upto: nat) -> Seq<usize>
    decreases upto,
{
    if upto == 0 {
        Seq::empty()
    } else {
        let rest = component(g, u, (upto - 1) as nat);
        if connected(g, u, upto - 1) {
            rest.push((upto - 1) as usize)
        } else {
            rest
        }
    }
}

/// The marks after the component of `u` has been marked.
pub open spec fn emit(g: Seq<Seq<usize>>, emitted: Seq<bool>, u: int) -> Seq<bool> {
    Seq::new(emitted.len(), |v: int| emitted[v] || connected(g, u, v))
}

/// The components of the vertices that are not marked, in at most `rounds`
/// rounds: each round takes the first vertex that is not marked and ready, and
/// marks its component.
pub open spec fn components(g: Seq<Seq<usize>>, emitted: Seq<bool>, rounds: nat) -> Seq<Seq<usize>>
    decreases rounds,
{
    if rounds == 0 {
        Seq::empty()
    } else {
        match pick(g, emitted, 0) {
            None => Seq::empty(),
            Some(u) => seq![component(g, u, g.len())] + components(
                g,
                emit(g, emitted, u),
                (rounds - 1) as nat,
            ),
        }
    }
}

/// The strongly connected components of the graph, each after those that it leads to.
pub open spec fn scc_spec(g: Seq<Seq<usize>>) -> Seq<Seq<usize>> {
    components(g, Seq::new(g.len(), |v: int| false), g.len())
}

/// Computes the strongly connected components of the graph. Each component
/// holds its vertices in ascending order, and stands after every component
/// that one of its vertices leads to.
pub fn strongly_connected_components<T>(graph: &Graph<T>) -> (res: Vec<Vec<VertexIndex>>)
    ensures
        seq_view(res@) == scc_spec(graph@.edges),
{
    let n = graph.vertices.len();
    let mut matrix: Vec<Vec<bool>> = Vec::new();
    let mut u: usize = 0;
    while u < n
        invariant
            u <= n,
            n == graph.vertices@.len(),
            matrix@.len() == u,
            forall|a: int|
                0 <= a < u ==> (#[trigger] matrix@[a])@.len() == n && forall|b: int|
                    0 <= b < n ==> matrix@[a]@[b] == reach(graph@.edges, a, b),
        decreases n - u,
    {
        matrix.push(graph.reachable_from(u));
        u += 1;
    }
    let mut emitted: Vec<bool> = Vec::new();
    let mut i: usize = 0;
    while i < n
        invariant
            i <= n,
            emitted@.len() == i,
            forall|v: int| 0 <= v < i ==> !emitted@[v],
        decreases n - i,
    {
        emitted.push(false);
        i += 1;
    }
    proof {
        assert(emitted@ =~= Seq::new(n as nat, |v: int| false));
    }
    let mut result: Vec<Vec<usize>> = Vec::new();
    let mut round: usize = 0;
    proof {
        assert(seq_view(result@) + components(graph@.edges, emitted@, n as nat) =~= scc_spec(graph@.edges));
    }
    while round < n
        invariant
            round <= n,
            n == graph.vertices@.len(),
            matrix@.len() == n,
            emitted@.len() == n,
            forall|a: int|
                0 <= a < n ==> (#[trigger] matrix@[a])@.len() == n && forall|b: int|
                    0 <= b < n ==> matrix@[a]@[b] == reach(graph@.edges, a, b),
            scc_spec(graph@.edges) == seq_view(result@) + components(
                graph@.edges,
                emitted@,
                (n - round) as nat,
            ),
        decreases n - round,
    {
        let picked = pick_ready(graph, &matrix, &emitted);
        match picked {
            None => {
                proof {
                    assert(seq_view(result@) + Seq::<Seq<usize>>::empty() =~= seq_view(result@));
                }
                return result;
            },
            Some(u) => {
                let mut group: Vec<usize> = Vec::new();
                let ghost before = emitted@;
                let mut v: usize = 0;
                while v < n
                    invariant
                        v <= n,
                        u < n,
                        n == graph.vertices@.len(),
                        matrix@.len() == n,
                        emitted@.len() == n,
                        before.len() == n,
                        forall|a: int|
                            0 <= a < n ==> (#[trigger] matrix@[a])@.len() == n && forall|b: int|
                                0 <= b < n ==> matrix@[a]@[b] == reach(graph@.edges, a, b),
                        group@ == component(graph@.edges, u as int, v as nat),
                        forall|x: int|
                            0 <= x < n ==> #[trigger] emitted@[x] == (if x < v {
                                before[x] || connected(graph@.edges, u as int, x)
                            } else {
                                before[x]
                            }),
                    decreases n - v,
                {
                    proof {
                        assert(matrix@[u as int]@[v as int] == reach(graph@.edges, u as int, v as int));
                        assert(matrix@[v as int]@[u as int] == reach(graph@.edges, v as int, u as int));
                    }
                    let ghost marks = emitted@;
                    if matrix[u][v] && matrix[v][u] {
                        group.push(v);
                        emitted[v] = true;
                    }
                    proof {
                        assert forall|x: int| 0 <= x < n implies #[trigger] emitted@[x] == (if x
                            < v + 1 {
                            before[x] || connected(graph@.edges, u as int, x)
                        } else {
                            before[x]
                        }) by {
                            if x != v {
                                assert(emitted@[x] == marks[x]);
                            }
                        }
                    }
                    v += 1;
                }
                proof {
                    assert(emitted@ =~= emit(graph@.edges, before, u as int));
                    assert(seq_view(result@.push(group)) =~= seq_view(result@).push(group@));
                    assert(seq_view(result@).push(group@) + components(
                        graph@.edges,
                        emitted@,
                        (n - round - 1) as nat,
                    ) =~= seq_view(result@) + (seq![group@] + components(
                        graph@.edges,
                        emitted@,
                        (n - round - 1) as nat,
                    )));
                }
                result.push(group);
            },
        }
        round += 1;
    }
    proof {
        assert(seq_view(result@) + Seq::<Seq<usize>>::empty() =~= seq_view(result@));
    }
    result
}

fn pick_ready<T>(graph: &Graph<T>, matrix: &Vec<Vec<bool>>, emitted: &Vec<bool>) -> (res: Option<
    usize,
>)
    requires
        matrix@.len() == graph.vertices@.len(),
        emitted@.len() == graph.vertices@.len(),
        forall|a: int|
            0 <= a < matrix@.len() ==> (#[trigger] matrix@[a])@.len() == matrix@.len()
                && forall|b: int| 0 <= b < matrix@.len() ==> matrix@[a]@[b] == reach(graph@.edges, a, b),
    ensures
        res is Some == pick(graph@.edges, emitted@, 0) is Some,
        res matches Some(r) ==> r < graph.vertices@.len() && pick(graph@.edges, emitted@, 0) == Some(
            r as int,
        ),
{
    let n = matrix.len();
    let mut u: usize = 0;
    while u < n
        invariant
            u <= n,
            n == matrix@.len(),
            n == graph.vertices@.len(),
            emitted@.len() == n,
            forall|a: int|
                0 <= a < n ==> (#[trigger] matrix@[a])@.len() == n && forall|b: int|
                    0 <= b < n ==> matrix@[a]@[b] == reach(graph@.edges, a, b),
            pick(graph@.edges, emitted@, 0) == pick(graph@.edges, emitted@, u as int),
        decreases n - u,
    {
        if !emitted[u] {
            let mut is_ready = true;
            let ghost mut bad: int = 0;
            let mut v: usize = 0;
            while v < n
                invariant
                    v <= n,
                    u < n,
                    n == matrix@.len(),
                    emitted@.len() == n,
                    forall|a: int|
                        0 <= a < n ==> (#[trigger] matrix@[a])@.len() == n && forall|b: int|
                            0 <= b < n ==> matrix@[a]@[b] == reach(graph@.edges, a, b),
                    is_ready ==> forall|x: int|
                        0 <= x < v ==> (#[trigger] reach(graph@.edges, u as int, x) ==> emitted@[x]
                            || reach(graph@.edges, x, u as int)),
                    !is_ready ==> 0 <= bad < n && reach(graph@.edges, u as int, bad) && !emitted@[bad]
                        && !reach(graph@.edges, bad, u as int),
                decreases n - v,
            {
                if matrix[u][v] && !emitted[v] && !matrix[v][u] {
                    is_ready = false;
                    proof {
                        bad = v as int;
                    }
                }
                v += 1;
            }
            proof {
                lemma_reach(graph@.edges);
                if is_ready {
                    assert(ready(graph@.edges, emitted@, u as int));
                } else {
                    assert(!ready(graph@.edges, emitted@, u as int));
                }
            }
            if is_ready {
                return Some(u);
            }
        }
        u += 1;
    }
    None
}

/// The vertex `v` is in the group `i` of `groups`.
pub open spec fn in_group(groups: Seq<Seq<usize>>, i: int, v: int) -> bool {
    0 <= i < groups.len() && holds(groups[i], v)
}

/// The vertex `v` is in one of the groups up to the group `i`.
pub open spec fn in_group_upto(groups: Seq<Seq<usize>>, i: int, v: int) -> bool {
    exists|j: int| 0 <= j <= i && #[trigger] in_group(groups, j, v)
}

/// What is marked leads only to what is marked.
pub open spec fn closed(g: Seq<Seq<usize>>, emitted: Seq<bool>) -> bool {
    forall|a: int, b: int|
        0 <= a < emitted.len() && emitted[a] && #[trigger] reach(g, a, b) ==> 0 <= b
            < emitted.len() && emitted[b]
}

proof fn lemma_component(g: Seq<Seq<usize>>, u: int, upto: nat, v: int)
    requires
        g.len() <= usize::MAX,
        upto <= g.len(),
    ensures
        holds(component(g, u, upto), v) <==> 0 <= v < upto && connected(g, u, v),
    decreases upto,
{
    if upto > 0 {
        lemma_component(g, u, (upto - 1) as nat, v);
        let rest = component(g, u, (upto - 1) as nat);
        let all = component(g, u, upto);
        if connected(g, u, upto - 1) {
            assert(all == rest.push((upto - 1) as usize));
            if holds(rest, v) {
                let q = choose|q: int| 0 <= q < rest.len() && rest[q] == v;
                assert(all[q] == v);
            }
            if v == upto - 1 {
                assert(all[all.len() - 1] == v);
            }
            if holds(all, v) {
                let q = choose|q: int| 0 <= q < all.len() && all[q] == v;
                if q < rest.len() {
                    assert(rest[q] == v);
                }
            }
        }
    }
}

proof fn lemma_pick(g: Seq<Seq<usize>>, emitted: Seq<bool>, from: int)
    requires
        0 <= from,
        emitted.len() == g.len(),
    ensures
        match pick(g, emitted, from) {
            Some(u) => from <= u < emitted.len() && !emitted[u] && ready(g, emitted, u),
            None => forall|u: int|
                from <= u < emitted.len() ==> #[trigger] emitted[u] || !ready(g, emitted, u),
        },
    decreases emitted.len() - from,
{
    if from < emitted.len() && !(!emitted[from] && ready(g, emitted, from)) {
        lemma_pick(g, emitted, from + 1);
    }
}

/// The number of vertices below `upto` that can be reached from `u` and are not marked.
spec fn waiting(g: Seq<Seq<usize>>, emitted: Seq<bool>, u: int, upto: nat) -> nat
    decreases upto,
{
    if upto == 0 {
        0
    } else {
        waiting(g, emitted, u, (upto - 1) as nat) + if reach(g, u, upto - 1) && upto
            <= emitted.len() && !emitted[upto - 1] {
            1nat
        } else {
            0nat
        }
    }
}

proof fn lemma_waiting_less(g: Seq<Seq<usize>>, emitted: Seq<bool>, v: int, u: int, upto: nat)
    requires
        g.len() <= usize::MAX,
        emitted.len() == g.len(),
        upto <= emitted.len(),
        0 <= u < emitted.len(),
        !emitted[u],
        reach(g, u, v),
        !reach(g, v, u),
    ensures
        waiting(g, emitted, v, upto) <= waiting(g, emitted, u, upto),
        u < upto ==> waiting(g, emitted, v, upto) < waiting(g, emitted, u, upto),
    decreases upto,
{
    lemma_reach(g);
    if upto > 0 {
        lemma_waiting_less(g, emitted, v, u, (upto - 1) as nat);
        if reach(g, v, upto - 1) {
            assert(reach(g, u, upto - 1));
        }
    }
}

/// While a vertex is not marked, some vertex is not marked and ready.
proof fn lemma_some_ready(g: Seq<Seq<usize>>, emitted: Seq<bool>, u: int) -> (w: int)
    requires
        g.len() <= usize::MAX,
        emitted.len() == g.len(),
        0 <= u < emitted.len(),
        !emitted[u],
    ensures
        0 <= w < emitted.len(),
        !emitted[w],
        ready(g, emitted, w),
    decreases waiting(g, emitted, u, emitted.len()),
{
    lemma_reach(g);
    if ready(g, emitted, u) {
        u
    } else {
        let v = choose|v: int| #[trigger]
            reach(g, u, v) && !((0 <= v < emitted.len() && emitted[v]) || reach(g, v, u));
        lemma_waiting_less(g, emitted, v, u, emitted.len());
        lemma_some_ready(g, emitted, v)
    }
}

proof fn lemma_unmarked_less(a: Seq<bool>, b: Seq<bool>, x: int, n: nat)
    requires
        a.len() == b.len(),
        n <= a.len(),
        forall|i: int| 0 <= i < a.len() && a[i] ==> b[i],
        0 <= x < a.len(),
        !a[x],
        b[x],
    ensures
        unmarked(b, n) <= unmarked(a, n),
        x < n ==> unmarked(b, n) < unmarked(a, n),
    decreases n,
{
    if n > 0 {
        lemma_unmarked_less(a, b, x, (n - 1) as nat);
    }
}

proof fn lemma_all_marked(a: Seq<bool>, n: nat, v: int)
    requires
        n <= a.len(),
        unmarked(a, n) == 0,
        0 <= v < n,
    ensures
        a[v],
    decreases n,
{
    if v < n - 1 {
        lemma_all_marked(a, (n - 1) as nat, v);
    }
}

/// Marking the component of a ready vertex keeps the marks closed.
proof fn lemma_emit(g: Seq<Seq<usize>>, emitted: Seq<bool>, u: int)
    requires
        g.len() <= usize::MAX,
        emitted.len() == g.len(),
        closed(g, emitted),
        0 <= u < emitted.len(),
        !emitted[u],
        ready(g, emitted, u),
    ensures
        closed(g, emit(g, emitted, u)),
        emit(g, emitted, u).len() == emitted.len(),
        unmarked(emit(g, emitted, u), emitted.len()) < unmarked(emitted, emitted.len()),
        forall|x: int| 0 <= x < emitted.len() ==> #[trigger] emit(g, emitted, u)[x] == (emitted[x]
            || connected(g, u, x)),
{
    lemma_reach(g);
    let marks = emit(g, emitted, u);
    assert forall|a: int, b: int| 0 <= a < marks.len() && marks[a] && #[trigger] reach(
        g,
        a,
        b,
    ) implies 0 <= b < marks.len() && marks[b] by {
        if !emitted[a] {
            assert(connected(g, u, a));
            assert(reach(g, u, b));
        }
    }
    lemma_unmarked_less(emitted, marks, u, emitted.len());
}

/// The groups of `components`, first group apart.
proof fn lemma_groups_step(g: Seq<Seq<usize>>, emitted: Seq<bool>, rounds: nat, i: int, v: int)
    requires
        g.len() <= usize::MAX,
        emitted.len() == g.len(),
        in_group(components(g, emitted, rounds), i, v),
    ensures
        rounds > 0,
        pick(g, emitted, 0) is Some,
        i == 0 ==> connected(g, pick(g, emitted, 0).unwrap(), v) && 0 <= v < emitted.len(),
        i > 0 ==> in_group(
            components(g, emit(g, emitted, pick(g, emitted, 0).unwrap()), (rounds - 1) as nat),
            i - 1,
            v,
        ),
{
    let u = pick(g, emitted, 0).unwrap();
    let groups = components(g, emitted, rounds);
    let rest = components(g, emit(g, emitted, u), (rounds - 1) as nat);
    assert(groups =~= seq![component(g, u, g.len())] + rest);
    if i == 0 {
        lemma_component(g, u, g.len(), v);
    } else {
        assert(groups[i] == rest[i - 1]);
    }
}

/// A vertex of a group is not marked.
proof fn lemma_group_unmarked(g: Seq<Seq<usize>>, emitted: Seq<bool>, rounds: nat, i: int, v: int)
    requires
        g.len() <= usize::MAX,
        emitted.len() == g.len(),
        closed(g, emitted),
        in_group(components(g, emitted, rounds), i, v),
    ensures
        0 <= v < emitted.len(),
        !emitted[v],
    decreases rounds,
{
    lemma_groups_step(g, emitted, rounds, i, v);
    lemma_pick(g, emitted, 0);
    lemma_reach(g);
    let u = pick(g, emitted, 0).unwrap();
    if i > 0 {
        lemma_emit(g, emitted, u);
        lemma_group_unmarked(g, emit(g, emitted, u), (rounds - 1) as nat, i - 1, v);
    }
}

proof fn lemma_group_is_component(
    g: Seq<Seq<usize>>,
    emitted: Seq<bool>,
    rounds: nat,
    i: int,
    u: int,
    v: int,
)
    requires
        g.len() <= usize::MAX,
        emitted.len() == g.len(),
        closed(g, emitted),
        in_group(components(g, emitted, rounds), i, u),
        in_group(components(g, emitted, rounds), i, v),
    ensures
        reach(g, u, v),
    decreases rounds,
{
    lemma_groups_step(g, emitted, rounds, i, u);
    lemma_groups_step(g, emitted, rounds, i, v);
    lemma_pick(g, emitted, 0);
    lemma_reach(g);
    let p = pick(g, emitted, 0).unwrap();
    if i > 0 {
        lemma_emit(g, emitted, p);
        lemma_group_is_component(g, emit(g, emitted, p), (rounds - 1) as nat, i - 1, u, v);
    }
}

proof fn lemma_group_order(
    g: Seq<Seq<usize>>,
    emitted: Seq<bool>,
    rounds: nat,
    i: int,
    u: int,
    v: int,
)
    requires
        g.len() <= usize::MAX,
        emitted.len() == g.len(),
        closed(g, emitted),
        in_group(components(g, emitted, rounds), i, u),
        reach(g, u, v),
    ensures
        (0 <= v < emitted.len() && emitted[v]) || in_group_upto(
            components(g, emitted, rounds),
            i,
            v,
        ),
    decreases rounds,
{
    lemma_groups_step(g, emitted, rounds, i, u);
    lemma_pick(g, emitted, 0);
    lemma_reach(g);
    let p = pick(g, emitted, 0).unwrap();
    let groups = components(g, emitted, rounds);
    let marks = emit(g, emitted, p);
    let rest = components(g, marks, (rounds - 1) as nat);
    assert(groups =~= seq![component(g, p, g.len())] + rest);
    lemma_component(g, p, g.len(), v);
    if i == 0 {
        assert(reach(g, p, v));
        if !(0 <= v < emitted.len() && emitted[v]) {
            assert(connected(g, p, v));
            assert(in_group(groups, 0, v));
        }
    } else {
        lemma_emit(g, emitted, p);
        lemma_group_order(g, marks, (rounds - 1) as nat, i - 1, u, v);
        if 0 <= v < emitted.len() && marks[v] {
            if !emitted[v] {
                assert(connected(g, p, v));
                assert(in_group(groups, 0, v));
            }
        } else {
            let j = choose|j: int| 0 <= j <= i - 1 && #[trigger] in_group(rest, j, v);
            assert(groups[j + 1] == rest[j]);
            assert(in_group(groups, j + 1, v));
        }
    }
}

proof fn lemma_group_once(
    g: Seq<Seq<usize>>,
    emitted: Seq<bool>,
    rounds: nat,
    i: int,
    j: int,
    v: int,
)
    requires
        g.len() <= usize::MAX,
        emitted.len() == g.len(),
        closed(g, emitted),
        in_group(components(g, emitted, rounds), i, v),
        in_group(components(g, emitted, rounds), j, v),
    ensures
        i == j,
    decreases rounds,
{
    lemma_groups_step(g, emitted, rounds, i, v);
    lemma_groups_step(g, emitted, rounds, j, v);
    lemma_pick(g, emitted, 0);
    let p = pick(g, emitted, 0).unwrap();
    lemma_emit(g, emitted, p);
    let marks = emit(g, emitted, p);
    if i > 0 && j > 0 {
        lemma_group_once(g, marks, (rounds - 1) as nat, i - 1, j - 1, v);
    } else if i > 0 {
        lemma_group_unmarked(g, marks, (rounds - 1) as nat, i - 1, v);
    } else if j > 0 {
        lemma_group_unmarked(g, marks, (rounds - 1) as nat, j - 1, v);
    }
}

proof fn lemma_group_exists(g: Seq<Seq<usize>>, emitted: Seq<bool>, rounds: nat, v: int) -> (i: int)
    requires
        g.len() <= usize::MAX,
        emitted.len() == g.len(),
        closed(g, emitted),
        unmarked(emitted, emitted.len()) <= rounds,
        0 <= v < emitted.len(),
        !emitted[v],
    ensures
        in_group(components(g, emitted, rounds), i, v),
    decreases rounds,
{
    if unmarked(emitted, emitted.len()) == 0 {
        lemma_all_marked(emitted, emitted.len(), v);
    }
    let w = lemma_some_ready(g, emitted, v);
    lemma_pick(g, emitted, 0);
    assert(pick(g, emitted, 0) is Some) by {
        if pick(g, emitted, 0) is None {
            assert(emitted[w] || !ready(g, emitted, w));
        }
    }
    let p = pick(g, emitted, 0).unwrap();
    let groups = components(g, emitted, rounds);
    let marks = emit(g, emitted, p);
    let rest = components(g, marks, (rounds - 1) as nat);
    assert(groups =~= seq![component(g, p, g.len())] + rest);
    lemma_emit(g, emitted, p);
    lemma_component(g, p, g.len(), v);
    if connected(g, p, v) {
        assert(in_group(groups, 0, v));
        0
    } else {
        assert(!marks[v]);
        let j = lemma_group_exists(g, marks, (rounds - 1) as nat, v);
        assert(groups[j + 1] == rest[j]);
        j + 1
    }
}

proof fn lemma_unmarked_bound(a: Seq<bool>, n: nat)
    ensures
        unmarked(a, n) <= n,
    decreases n,
{
    if n > 0 {
        lemma_unmarked_bound(a, (n - 1) as nat);
    }
}

proof fn lemma_start(g: Seq<Seq<usize>>)
    ensures
        closed(g, Seq::new(g.len(), |v: int| false)),
        unmarked(Seq::new(g.len(), |v: int| false), g.len())
            <= g.len(),
{
    lemma_unmarked_bound(Seq::new(g.len(), |v: int| false), g.len());
}

/// Every vertex is in exactly one component.
pub proof fn lemma_components_partition(g: Seq<Seq<usize>>, v: int) -> (i: int)
    requires
        g.len() <= usize::MAX,
        0 <= v < g.len(),
    ensures
        in_group(scc_spec(g), i, v),
        forall|j: int| in_group(scc_spec(g), j, v) ==> j == i,
{
    lemma_start(g);
    let start = Seq::new(g.len(), |v: int| false);
    let i = lemma_group_exists(g, start, g.len(), v);
    assert forall|j: int| in_group(scc_spec(g), j, v) implies j == i by {
        lemma_group_once(g, start, g.len(), i, j, v);
    }
    i
}

/// The vertices of a component can be reached from each other, and they are
/// vertices of the graph.
pub proof fn lemma_components_connected(g: Seq<Seq<usize>>, i: int, u: int, v: int)
    requires
        g.len() <= usize::MAX,
        in_group(scc_spec(g), i, u),
        in_group(scc_spec(g), i, v),
    ensures
        reach(g, u, v),
        0 <= u < g.len(),
{
    lemma_start(g);
    let start = Seq::new(g.len(), |v: int| false);
    lemma_group_is_component(g, start, g.len(), i, u, v);
    lemma_group_unmarked(g, start, g.len(), i, u);
}

/// The order of the components is sound: what can be reached from a vertex,
/// and so each vertex that one of its edges leads to, is in the component of
/// the vertex or in one that stands before it.
pub proof fn lemma_components_ordered(g: Seq<Seq<usize>>, i: int, u: int, v: int)
    requires
        g.len() <= usize::MAX,
        in_group(scc_spec(g), i, u),
        reach(g, u, v) || edge(g, u, v),
    ensures
        in_group_upto(scc_spec(g), i, v),
{
    lemma_start(g);
    lemma_reach(g);
    let start = Seq::new(g.len(), |v: int| false);
    lemma_group_order(g, start, g.len(), i, u, v);
}

/// Vertices that can be reached from each other are in the same component.
pub proof fn lemma_connected_share_component(g: Seq<Seq<usize>>, i: int, j: int, u: int, v: int)
    requires
        g.len() <= usize::MAX,
        in_group(scc_spec(g), i, u),
        in_group(scc_spec(g), j, v),
        connected(g, u, v),
    ensures
        i == j,
{
    lemma_components_ordered(g, i, u, v);
    lemma_components_ordered(g, j, v, u);
    lemma_reach(g);
    let a = choose|a: int| 0 <= a <= i && #[trigger] in_group(scc_spec(g), a, v);
    let b = choose|b: int| 0 <= b <= j && #[trigger] in_group(scc_spec(g), b, u);
    let k = lemma_components_partition(g, v);
    let l = lemma_components_partition(g, u);
}

} // verus!
