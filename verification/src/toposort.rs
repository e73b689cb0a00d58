//! Topological ordering by depth-first search with three marks. The
//! result lists every node before its dependencies; the pass fails
//! exactly when the graph, self-edges excluded, has a cycle.

use vstd::prelude::*;

verus! {

/// Why the ordering pass failed.
#[derive(Debug, Clone, Copy, PartialEq, Eq, Structural)]
pub enum SolverError {
    /// The dependency graph has a cycle (self-edges excluded).
    Cycle,
    /// A referenced object was missing from the input set.
    MissingObject,
}

/// The views of an adjacency-list graph.
pub open spec fn graph_view(g: Seq<Vec<usize>>) -> Seq<Seq<usize>> {
    Seq::new(
        g.len(),
        |i: int|
            if 0 <= i < g.len() {
                g[i]@
            } else {
                Seq::empty()
            },
    )
}

/// True when the graph names only nodes it contains.
pub open spec fn wf_graph(g: Seq<Seq<usize>>) -> bool {
    forall|u: int, k: int|
        0 <= u < g.len() && 0 <= k < g[u].len() ==> (#[trigger] g[u][k]) < g.len()
}

/// An edge from `u` to `v`.
pub open spec fn has_edge(g: Seq<Seq<usize>>, u: int, v: int) -> bool {
    &&& 0 <= u < g.len()
    &&& exists|k: int| 0 <= k < g[u].len() && (#[trigger] g[u][k]) == v
}

/// True when node `v` appears somewhere in the order.
pub open spec fn appears(order: Seq<usize>, v: int) -> bool {
    exists|i: int| 0 <= i < order.len() && (#[trigger] order[i]) as int == v
}

/// A cycle witness: a nonempty closed walk whose every step is an edge
/// between distinct nodes.
pub open spec fn is_cycle(g: Seq<Seq<usize>>, c: Seq<int>) -> bool {
    &&& c.len() >= 1
    &&& forall|i: int|
        0 <= i < c.len() ==> has_edge(g, #[trigger] c[i], c[(i + 1) % (c.len() as int)]) && c[i]
            != c[(i + 1) % (c.len() as int)]
}

/// The number of unvisited nodes.
pub open spec fn num_white(cs: Seq<u8>) -> nat
    decreases cs.len(),
{
    if cs.len() == 0 {
        0
    } else {
        num_white(cs.drop_last()) + (if cs.last() == 0u8 {
            1nat
        } else {
            0nat
        })
    }
}

/// Marking an unvisited node reduces the unvisited count by one.
proof fn lemma_num_white_update(cs: Seq<u8>, i: int, c: u8)
    requires
        0 <= i < cs.len(),
        cs[i] == 0,
        c != 0,
    ensures
        num_white(cs.update(i, c)) + 1 == num_white(cs),
    decreases cs.len(),
{
    if i == cs.len() - 1 {
        assert(cs.update(i, c).drop_last() =~= cs.drop_last());
    } else {
        lemma_num_white_update(cs.drop_last(), i, c);
        assert(cs.update(i, c).drop_last() =~= cs.drop_last().update(i, c));
        assert(cs.update(i, c).last() == cs.last());
    }
}

/// A pointwise-whiter coloring has at least as many unvisited nodes.
proof fn lemma_num_white_mono(a: Seq<u8>, b: Seq<u8>)
    requires
        a.len() == b.len(),
        forall|v: int| 0 <= v < b.len() ==> (#[trigger] b[v]) == 0 ==> a[v] == 0,
    ensures
        num_white(b) <= num_white(a),
    decreases a.len(),
{
    if a.len() > 0 {
        assert(forall|v: int|
            0 <= v < b.drop_last().len() ==> (#[trigger] b.drop_last()[v]) == 0
                ==> a.drop_last()[v] == 0) by {
            assert(forall|v: int|
                0 <= v < b.len() - 1 ==> (#[trigger] b[v]) == 0 ==> a[v] == 0);
        }
        lemma_num_white_mono(a.drop_last(), b.drop_last());
        assert(b.last() == 0 ==> a.last() == 0) by {
            assert(b[b.len() - 1] == 0 ==> a[a.len() - 1] == 0);
        }
    }
}

/// The standing facts of the search: colors in range, the finished
/// order holding exactly the black nodes, every listed node before its
/// dependencies, and the gray nodes being exactly the current path,
/// which is a chain of edges.
pub open spec fn search_inv(
    g: Seq<Seq<usize>>,
    colors: Seq<u8>,
    order: Seq<usize>,
    path: Seq<int>,
) -> bool {
    &&& colors.len() == g.len()
    &&& forall|v: int| 0 <= v < colors.len() ==> (#[trigger] colors[v]) <= 2
    &&& forall|i: int| 0 <= i < order.len() ==> (#[trigger] order[i]) < g.len()
    &&& forall|i: int| 0 <= i < order.len() ==> colors[#[trigger] order[i] as int] == 2
    &&& forall|i: int, j: int| 0 <= i < j < order.len() ==> order[i] != order[j]
    &&& forall|v: int|
        0 <= v < colors.len() && (#[trigger] colors[v]) == 2 ==> exists|i: int|
            0 <= i < order.len() && order[i] == v
    &&& forall|i: int, w: int|
        0 <= i < order.len() && #[trigger] has_edge(g, order[i] as int, w) && w != order[i]
            ==> exists|j: int| i < j < order.len() && #[trigger] order[j] == w
    &&& forall|p: int| 0 <= p < path.len() ==> 0 <= #[trigger] path[p] < g.len()
    &&& forall|v: int|
        0 <= v < colors.len() ==> ((#[trigger] colors[v]) == 1 <==> exists|p: int|
            0 <= p < path.len() && path[p] == v)
    &&& forall|p: int|
        0 <= p < path.len() - 1 ==> has_edge(g, #[trigger] path[p], path[p + 1]) && path[p]
            != path[p + 1]
}

/// A gray-on-gray edge closes the current path into a cycle.
proof fn lemma_cycle_witness(g: Seq<Seq<usize>>, path2: Seq<int>, p: int, w: int, node: int)
    requires
        forall|q: int|
            0 <= q < path2.len() - 1 ==> has_edge(g, #[trigger] path2[q], path2[q + 1])
                && path2[q] != path2[q + 1],
        0 <= p < path2.len(),
        path2[p] == w,
        path2.len() > 0,
        path2.last() == node,
        has_edge(g, node, w),
        node != w,
    ensures
        exists|c: Seq<int>| is_cycle(g, c),
{
    let c = path2.subrange(p, path2.len() as int);
    assert(c.len() >= 1);
    assert(c.last() == node);
    assert(c[0] == w);
    assert forall|i: int| 0 <= i < c.len() implies has_edge(
        g,
        #[trigger] c[i],
        c[(i + 1) % (c.len() as int)],
    ) && c[i] != c[(i + 1) % (c.len() as int)] by {
        if i < c.len() - 1 {
            assert(c[i] == path2[p + i]);
            assert(c[i + 1] == path2[p + i + 1]);
            assert((i + 1) % (c.len() as int) == i + 1) by (nonlinear_arith)
                requires
                    0 <= i + 1 < c.len(),
            ;
        } else {
            assert(c[i] == node);
            assert((i + 1) % (c.len() as int) == 0) by (nonlinear_arith)
                requires
                    i + 1 == c.len() && c.len() >= 1,
            ;
        }
    }
    assert(is_cycle(g, c));
}

/// Visits `node`, all its dependencies first, and prepends it to the
/// order; finding a gray dependency proves a cycle.
#[verifier::rlimit(100)]
pub fn visit_node(
    graph: &Vec<Vec<usize>>,
    node: usize,
    colors: &mut Vec<u8>,
    order: &mut Vec<usize>,
    path: Ghost<Seq<int>>,
) -> (r: Result<(), SolverError>)
    requires
        wf_graph(graph_view(graph@)),
        node < graph@.len(),
        old(colors)@[node as int] == 0,
        search_inv(graph_view(graph@), old(colors)@, old(order)@, path@),
        path@.len() > 0 ==> has_edge(graph_view(graph@), path@.last(), node as int)
            && path@.last() != node as int,
    ensures
        match r {
            Ok(()) => {
                &&& search_inv(graph_view(graph@), final(colors)@, final(order)@, path@)
                &&& final(colors)@.len() == old(colors)@.len()
                &&& final(colors)@[node as int] == 2
                &&& forall|v: int|
                    0 <= v < old(colors)@.len() && (#[trigger] old(colors)@[v]) != 0
                        ==> final(colors)@[v] == old(colors)@[v]
                &&& forall|v: int|
                    0 <= v < final(colors)@.len() ==> ((#[trigger] final(colors)@[v]) == 0
                        ==> old(colors)@[v] == 0)
                &&& final(order)@.len() >= old(order)@.len()
                &&& forall|i: int|
                    0 <= i < old(order)@.len() ==> #[trigger] old(order)@[i]
                        == final(order)@[i + (final(order)@.len() - old(order)@.len())]
            },
            Err(e) => e == SolverError::Cycle && exists|c: Seq<int>|
                is_cycle(graph_view(graph@), c),
        },
    decreases num_white(old(colors)@),
{
    let ghost g = graph_view(graph@);
    let ghost entry_colors = colors@;
    colors.set(node, 1);
    proof {
        lemma_num_white_update(entry_colors, node as int, 1);
    }
    let ghost path2 = path@.push(node as int);
    proof {
        assert(search_inv(g, colors@, order@, path2)) by {
            assert(forall|v: int|
                0 <= v < colors@.len() ==> ((#[trigger] colors@[v]) == 1 <==> exists|p: int|
                    0 <= p < path2.len() && path2[p] == v)) by {
                assert forall|v: int|
                    0 <= v < colors@.len() && (#[trigger] colors@[v]) == 1 implies exists|p: int|
                    0 <= p < path2.len() && path2[p] == v by {
                    if v == node as int {
                        assert(path2[path2.len() - 1] == v);
                    } else {
                        assert(entry_colors[v] == 1);
                        let p = choose|p: int| 0 <= p < path@.len() && path@[p] == v;
                        assert(path2[p] == v);
                    }
                }
                assert forall|v: int|
                    0 <= v < colors@.len() && (exists|p: int|
                        0 <= p < path2.len() && path2[p] == v) implies colors@[v] == 1 by {
                    let p = choose|p: int| 0 <= p < path2.len() && path2[p] == v;
                    if p < path@.len() {
                        assert(entry_colors[v] == 1);
                    }
                }
            }
        }
    }
    let ghost after_gray = colors@;
    let deps = &graph[node];
    let mut k: usize = 0;
    while k < deps.len()
        invariant
            wf_graph(g),
            g == graph_view(graph@),
            deps == &graph@[node as int],
            node < graph@.len(),
            k <= deps@.len(),
            entry_colors == old(colors)@,
            colors@.len() == entry_colors.len(),
            colors@[node as int] == 1,
            search_inv(g, colors@, order@, path2),
            path2 == path@.push(node as int),
            num_white(colors@) <= num_white(entry_colors) - 1,
            forall|v: int|
                0 <= v < entry_colors.len() && (#[trigger] entry_colors[v]) != 0 ==> colors@[v]
                    == entry_colors[v],
            forall|v: int|
                0 <= v < colors@.len() ==> ((#[trigger] colors@[v]) == 0 ==> entry_colors[v]
                    == 0),
            forall|t: int|
                0 <= t < k ==> (#[trigger] deps@[t]) == node || colors@[deps@[t] as int] == 2,
            order@.len() >= old(order)@.len(),
            forall|i: int|
                0 <= i < old(order)@.len() ==> #[trigger] old(order)@[i] == order@[i + (
                order@.len() - old(order)@.len())],
        decreases deps@.len() - k,
    {
        let w = deps[k];
        proof {
            assert(g[node as int][k as int] == w);
            assert((w as int) < g.len());
            assert(has_edge(g, node as int, w as int));
        }
        if w == node {
            k = k + 1;
            continue ;
        }
        let cw = colors[w as usize];
        if cw == 1 {
            proof {
                let p = choose|p: int| 0 <= p < path2.len() && path2[p] == w as int;
                assert(path2.last() == node as int);
                lemma_cycle_witness(g, path2, p, w as int, node as int);
            }
            return Err(SolverError::Cycle);
        }
        if cw == 0 {
            let ghost before = colors@;
            proof {
                assert(num_white(colors@) < num_white(entry_colors));
            }
            let res = visit_node(graph, w, colors, order, Ghost(path2));
            match res {
                Err(e) => {
                    return Err(e);
                },
                Ok(()) => {
                    proof {
                        lemma_num_white_mono(before, colors@);
                    }
                },
            }
        }
        k = k + 1;
    }
    let ghost colors_exit = colors@;
    let ghost order_exit = order@;
    colors.set(node, 2);
    order.insert(0, node);
    proof {
        assert(order@[0] == node);
        assert(order@.len() == order_exit.len() + 1);
        assert(forall|i: int|
            0 <= i < order_exit.len() ==> (#[trigger] order@[i + 1]) == order_exit[i]);
        assert(search_inv(g, colors@, order@, path@)) by {
            assert forall|v: int|
                0 <= v < colors@.len() && (#[trigger] colors@[v]) == 1 implies (exists|p: int|
                0 <= p < path@.len() && path@[p] == v) by {
                assert(v != node as int);
                assert(colors_exit[v] == 1);
                let p = choose|p: int| 0 <= p < path2.len() && path2[p] == v;
                assert(p < path@.len());
                assert(path@[p] == v);
            }
            assert forall|v: int|
                0 <= v < colors@.len() && (exists|p: int|
                    0 <= p < path@.len() && path@[p] == v) implies colors@[v] == 1 by {
                let p = choose|p: int| 0 <= p < path@.len() && path@[p] == v;
                assert(path2[p] == v);
                assert(colors_exit[v] == 1);
                assert(v != node as int);
            }
            assert forall|v: int|
                0 <= v < colors@.len() && (#[trigger] colors@[v]) == 2 implies exists|i: int|
                0 <= i < order@.len() && order@[i] == v by {
                if v == node as int {
                    assert(order@[0] == v);
                } else {
                    assert(colors_exit[v] == 2);
                    let i = choose|i: int| 0 <= i < order_exit.len() && order_exit[i] == v;
                    assert(order@[i + 1] == v);
                }
            }
            assert forall|i: int, w: int|
                0 <= i < order@.len() && #[trigger] has_edge(g, order@[i] as int, w) && w
                    != order@[i] implies exists|j: int|
                i < j < order@.len() && #[trigger] order@[j] == w by {
                if i == 0 {
                    let kk = choose|kk: int|
                        0 <= kk < g[node as int].len() && (#[trigger] g[node as int][kk]) == w;
                    assert(deps@[kk as int] == w);
                    assert(colors_exit[w] == 2);
                    let j = choose|j: int|
                        0 <= j < order_exit.len() && order_exit[j] == w;
                    assert(order@[j + 1] == w);
                } else {
                    assert(has_edge(g, order_exit[i - 1] as int, w));
                    assert(order_exit[i - 1] == order@[i]);
                    let j = choose|j: int|
                        (i - 1) < j < order_exit.len() && #[trigger] order_exit[j] == w;
                    assert(order@[j + 1] == w);
                }
            }
        }
    }
    Ok(())
}

/// Orders the nodes of a dependency graph so that every node comes
/// before its dependencies; fails exactly when the graph, self-edges
/// excluded, has a cycle.
#[verifier::rlimit(100)]
pub fn toposort(graph: &Vec<Vec<usize>>) -> (r: Result<Vec<usize>, SolverError>)
    requires
        wf_graph(graph_view(graph@)),
    ensures
        match r {
            Ok(order) => {
                &&& forall|i: int| 0 <= i < order@.len() ==> (#[trigger] order@[i])
                    < graph@.len()
                &&& forall|i: int, j: int|
                    0 <= i < j < order@.len() ==> order@[i] != order@[j]
                &&& forall|v: int| 0 <= v < graph@.len() ==> #[trigger] appears(order@, v)
                &&& forall|i: int, w: int|
                    0 <= i < order@.len() && #[trigger] has_edge(
                        graph_view(graph@),
                        order@[i] as int,
                        w,
                    ) && w != order@[i] ==> exists|j: int|
                        i < j < order@.len() && #[trigger] order@[j] == w
            },
            Err(e) => e == SolverError::Cycle && exists|c: Seq<int>|
                is_cycle(graph_view(graph@), c),
        },
{
    let ghost g = graph_view(graph@);
    let n = graph.len();
    let mut colors: Vec<u8> = Vec::new();
    let mut t: usize = 0;
    while t < n
        invariant
            t <= n,
            colors@.len() == t,
            forall|v: int| 0 <= v < t ==> (#[trigger] colors@[v]) == 0,
        decreases n - t,
    {
        colors.push(0);
        t = t + 1;
    }
    let mut order: Vec<usize> = Vec::new();
    proof {
        assert(search_inv(g, colors@, order@, Seq::<int>::empty()));
    }
    let mut v: usize = 0;
    while v < n
        invariant
            v <= n,
            n == graph@.len(),
            g == graph_view(graph@),
            wf_graph(g),
            colors@.len() == n,
            search_inv(g, colors@, order@, Seq::<int>::empty()),
            forall|u: int| 0 <= u < v ==> (#[trigger] colors@[u]) != 0,
        decreases n - v,
    {
        let cv = colors[v];
        if cv == 0 {
            match visit_node(graph, v, &mut colors, &mut order, Ghost(Seq::empty())) {
                Err(e) => {
                    return Err(e);
                },
                Ok(()) => {},
            }
        }
        proof {
            assert(colors@[v as int] != 0);
        }
        v = v + 1;
    }
    proof {
        assert forall|w: int| 0 <= w < graph@.len() implies #[trigger] appears(order@, w) by {
            assert(colors@[w] != 0);
            assert(colors@[w] != 1) by {
                if colors@[w] == 1 {
                    assert(exists|p: int|
                        0 <= p < Seq::<int>::empty().len() && Seq::<int>::empty()[p] == w);
                }
            }
            assert(colors@[w] == 2);
            let i = choose|i: int| 0 <= i < order@.len() && order@[i] == w;
            assert(order@[i] as int == w);
        }
    }
    Ok(order)
}

/// The position of node `v` in the order.
pub open spec fn pos_of(order: Seq<usize>, v: int) -> int {
    choose|i: int| 0 <= i < order.len() && (#[trigger] order[i]) as int == v
}

/// The facts a successful ordering gives: entries in range, no
/// repetition, every node present, every node before its dependencies.
pub open spec fn good_order(g: Seq<Seq<usize>>, order: Seq<usize>) -> bool {
    &&& forall|i: int| 0 <= i < order.len() ==> (#[trigger] order[i]) < g.len()
    &&& forall|i: int, j: int| 0 <= i < j < order.len() ==> order[i] != order[j]
    &&& forall|v: int| 0 <= v < g.len() ==> #[trigger] appears(order, v)
    &&& forall|i: int, w: int|
        0 <= i < order.len() && #[trigger] has_edge(g, order[i] as int, w) && w != order[i]
            ==> exists|j: int| i < j < order.len() && #[trigger] order[j] == w
}

/// Along an edge between distinct present nodes, position strictly
/// grows.
proof fn lemma_edge_pos(g: Seq<Seq<usize>>, order: Seq<usize>, u: int, w: int)
    requires
        good_order(g, order),
        has_edge(g, u, w),
        u != w,
        0 <= u < g.len(),
        0 <= w < g.len(),
        wf_graph(g),
    ensures
        0 <= pos_of(order, u) < order.len(),
        0 <= pos_of(order, w) < order.len(),
        pos_of(order, u) < pos_of(order, w),
{
    assert(appears(order, u));
    assert(appears(order, w));
    let i = pos_of(order, u);
    assert(0 <= i < order.len() && order[i] as int == u);
    let pw = pos_of(order, w);
    assert(0 <= pw < order.len() && order[pw] as int == w);
    assert(has_edge(g, order[i] as int, w));
    let j = choose|j: int| i < j < order.len() && #[trigger] order[j] == w;
    if pw != j {
        assert(order[pw] == order[j]);
        if pw < j {
            assert(order[pw] != order[j]);
        } else {
            assert(order[j] != order[pw]);
        }
    }
}

/// Position grows along every prefix of a cycle's walk.
proof fn lemma_walk_pos(g: Seq<Seq<usize>>, order: Seq<usize>, c: Seq<int>, t: int)
    requires
        wf_graph(g),
        good_order(g, order),
        is_cycle(g, c),
        c.len() >= 2,
        1 <= t < c.len(),
    ensures
        pos_of(order, c[0]) < pos_of(order, c[t]),
    decreases t,
{
    assert((t - 1 + 1) % (c.len() as int) == t) by (nonlinear_arith)
        requires
            1 <= t < c.len(),
    ;
    assert(has_edge(g, c[t - 1], c[t]) && c[t - 1] != c[t]);
    assert(0 <= c[t - 1] < g.len());
    assert(0 <= c[t] < g.len()) by {
        if t < c.len() - 1 {
            assert((t + 1) % (c.len() as int) == t + 1) by (nonlinear_arith)
                requires
                    1 <= t + 1 < c.len(),
            ;
            assert(has_edge(g, c[t], c[t + 1]));
        } else {
            assert((t + 1) % (c.len() as int) == 0) by (nonlinear_arith)
                requires
                    t + 1 == c.len() && c.len() >= 1,
            ;
            assert(has_edge(g, c[t], c[0]));
        }
    }
    lemma_edge_pos(g, order, c[t - 1], c[t]);
    if t > 1 {
        lemma_walk_pos(g, order, c, t - 1);
    }
}

/// Topological correctness, second half: a graph that admits an order
/// placing every node before its dependencies has no cycle (self-edges
/// excluded); so when the ordering pass succeeds, the dependency graph
/// is acyclic.
pub proof fn lemma_order_excludes_cycle(g: Seq<Seq<usize>>, order: Seq<usize>)
    requires
        wf_graph(g),
        good_order(g, order),
    ensures
        forall|c: Seq<int>| !#[trigger] is_cycle(g, c),
{
    assert forall|c: Seq<int>| !#[trigger] is_cycle(g, c) by {
        if is_cycle(g, c) {
            if c.len() == 1 {
                assert((0int + 1) % (c.len() as int) == 0) by (nonlinear_arith)
                    requires
                        c.len() == 1,
                ;
                assert(c[0] != c[(0int + 1) % (c.len() as int)]);
                assert(c[0] != c[0]);
            } else {
                let last = c.len() - 1;
                lemma_walk_pos(g, order, c, last);
                assert((last + 1) % (c.len() as int) == 0) by (nonlinear_arith)
                    requires
                        last + 1 == c.len() && c.len() >= 1,
                ;
                assert(has_edge(g, c[last], c[0]) && c[last] != c[0]);
                assert(0 <= c[last] < g.len());
                assert(0 <= c[0] < g.len()) by {
                    assert((0int + 1) % (c.len() as int) == 1) by (nonlinear_arith)
                        requires
                            c.len() >= 2,
                    ;
                    assert(has_edge(g, c[0], c[1]));
                }
                lemma_edge_pos(g, order, c[last], c[0]);
            }
        }
    }
}

} // verus!

