//! The road graph: a directed graph map of petgraph from node identifiers to
//! edge weights, its model as a map of edges, and paths through it.

use vstd::prelude::*;
use petgraph::graphmap::GraphMap;
use petgraph::Directed;

verus! {

#[verifier::external_type_specification]
#[verifier::external_body]
pub struct ExDirected(Directed);

#[verifier::external_type_specification]
#[verifier::external_body]
#[verifier::reject_recursive_types(N)]
#[verifier::reject_recursive_types(E)]
#[verifier::reject_recursive_types(Ty)]
pub struct ExGraphMap<N, E, Ty>(GraphMap<N, E, Ty>);

/// The road graph: a directed graph map of node identifiers with `u64` edge weights.
pub type RoadGraph = GraphMap<u64, u64, Directed>;

/// The edges that a directed graph map holds, each `(from, to)` pair mapped to its weight.
pub uninterp spec fn graph_edges(g: RoadGraph) -> Map<(u64, u64), u64>;

/// The map of a graph without edges.
pub open spec fn no_edges() -> Map<(u64, u64), u64> {
    Map::empty()
}

/// Largest edge weight for which a shortest-path search is run: with at most `EDGE_CAP`
/// edges, no sum the search forms (the cost of a path that visits no node twice, plus one
/// more edge) exceeds `u64::MAX`.
pub const WEIGHT_CAP: u64 = 0x800_0000_0000_0000;

/// Largest number of edges for which a shortest-path search is run.
pub const EDGE_CAP: u64 = 16;

/// The `i`-th hop of a node sequence.
pub open spec fn hop(p: Seq<u64>, i: int) -> (u64, u64) {
    (p[i], p[i + 1])
}

/// `p` leads from `from` to `to` over edges of `edges`.
pub open spec fn is_path(edges: Map<(u64, u64), u64>, p: Seq<u64>, from: u64, to: u64) -> bool {
    &&& p.len() >= 1
    &&& p[0] == from
    &&& p.last() == to
    &&& forall|i: int| 0 <= i < p.len() - 1 ==> edges.dom().contains(#[trigger] hop(p, i))
}

/// Every hop of `p` is an edge of `edges`.
pub open spec fn hops_in(edges: Map<(u64, u64), u64>, p: Seq<u64>) -> bool {
    forall|i: int| 0 <= i < p.len() - 1 ==> edges.dom().contains(#[trigger] hop(p, i))
}

/// The sum of the weights of the hops of `p`.
pub open spec fn path_cost(edges: Map<(u64, u64), u64>, p: Seq<u64>) -> nat
    decreases p.len(),
{
    if p.len() < 2 {
        0
    } else {
        edges[(p[0], p[1])] as nat + path_cost(edges, p.drop_first())
    }
}

/// `p` is a path from `from` to `to` that no other such path undercuts.
pub open spec fn is_shortest_path(
    edges: Map<(u64, u64), u64>,
    p: Seq<u64>,
    from: u64,
    to: u64,
) -> bool {
    &&& is_path(edges, p, from, to)
    &&& forall|q: Seq<u64>| #[trigger] is_path(edges, q, from, to) ==> path_cost(edges, p) <= path_cost(edges, q)
}

/// There is some path from `from` to `to`.
pub open spec fn reachable(edges: Map<(u64, u64), u64>, from: u64, to: u64) -> bool {
    exists|q: Seq<u64>| #[trigger] is_path(edges, q, from, to)
}

/// The bounds under which a search cannot overflow its running cost sums.
pub open spec fn searchable(edges: Map<(u64, u64), u64>) -> bool {
    &&& edges.dom().finite()
    &&& edges.dom().len() <= EDGE_CAP
    &&& forall|e: (u64, u64)| #[trigger] edges.dom().contains(e) ==> edges[e] <= WEIGHT_CAP
}

/// Goal test handed to the search: the node is the destination.
fn is_destination(node: u64, destination: u64) -> (r: bool)
    ensures
        r == (node == destination),
{
    node == destination
}

/// Cost estimate handed to the search: none, which makes it a plain shortest-path search.
fn no_estimate(node: u64) -> (r: u64)
    ensures
        r == 0,
{
    0
}

/// An empty graph map (`GraphMap::new`).
#[verifier::external_body]
pub(crate) fn graph_new() -> (r: RoadGraph)
    ensures
        graph_edges(r) == no_edges(),
{
    GraphMap::new()
}

/// `GraphMap::add_edge`: inserts the edge or replaces its weight, and returns the weight it replaced.
#[verifier::external_body]
pub(crate) fn graph_add_edge(g: &mut RoadGraph, a: u64, b: u64, w: u64) -> (r: Option<u64>)
    ensures
        graph_edges(*final(g)) == graph_edges(*old(g)).insert((a, b), w),
        r == (if graph_edges(*old(g)).dom().contains((a, b)) {
            Some(graph_edges(*old(g))[(a, b)])
        } else {
            None
        }),
{
    g.add_edge(a, b, w)
}

/// `GraphMap::edge_weight`: the weight of the edge from `a` to `b`, if there is one.
#[verifier::external_body]
pub(crate) fn graph_edge_weight(g: &RoadGraph, a: u64, b: u64) -> (r: Option<u64>)
    ensures
        r == (if graph_edges(*g).dom().contains((a, b)) {
            Some(graph_edges(*g)[(a, b)])
        } else {
            None
        }),
{
    g.edge_weight(a, b).map(|w| *w)
}

/// `GraphMap::edge_weight_mut`, through which the weight of the edge from `a` to `b`
/// is overwritten with `w`; false, and nothing changed, where there is no such edge.
#[verifier::external_body]
pub(crate) fn graph_set_edge_weight(g: &mut RoadGraph, a: u64, b: u64, w: u64) -> (r: bool)
    ensures
        r == graph_edges(*old(g)).dom().contains((a, b)),
        graph_edges(*final(g)) == (if r {
            graph_edges(*old(g)).insert((a, b), w)
        } else {
            graph_edges(*old(g))
        }),
{
    match g.edge_weight_mut(a, b) {
        Some(e) => {
            *e = w;
            true
        },
        None => false,
    }
}

/// `petgraph::algo::astar` with the edge weight as cost, no estimate and the destination as goal:
/// a shortest path from `start` to `destination` and its cost, or none where there is no path.
/// Under `searchable`, no running sum of the search exceeds the cost of a path that visits no
/// node twice plus one more edge, which fits in `u64`.
#[verifier::external_body]
pub(crate) fn shortest_path(g: &RoadGraph, start: u64, destination: u64) -> (r: Option<(u64, Vec<u64>)>)
    requires
        searchable(graph_edges(*g)),
    ensures
        match r {
            Some((cost, p)) => is_shortest_path(graph_edges(*g), p@, start, destination)
                && cost == path_cost(graph_edges(*g), p@),
            None => !reachable(graph_edges(*g), start, destination),
        },
{
    petgraph::algo::astar(
        g,
        start,
        |n: u64| is_destination(n, destination),
        |e: (u64, u64, &u64)| *e.2,
        |n: u64| no_estimate(n),
    )
}

/// Splitting a path at one of its nodes splits its cost.
pub proof fn lemma_cost_split(edges: Map<(u64, u64), u64>, p: Seq<u64>, k: int)
    requires
        0 <= k < p.len(),
    ensures
        path_cost(edges, p) == path_cost(edges, p.subrange(0, k + 1)) + path_cost(
            edges,
            p.subrange(k, p.len() as int),
        ),
    decreases k,
{
    if k == 0 {
        assert(p.subrange(0, p.len() as int) =~= p);
        assert(path_cost(edges, p.subrange(0, 1)) == 0);
    } else {
        let t = p.drop_first();
        lemma_cost_split(edges, t, k - 1);
        assert(t.subrange(k - 1, t.len() as int) =~= p.subrange(k, p.len() as int));
        let pre = p.subrange(0, k + 1);
        assert(pre.drop_first() =~= t.subrange(0, k));
        assert(pre[0] == p[0] && pre[1] == p[1]);
    }
}

/// A path whose hops all weigh at least one costs at least its number of hops.
pub proof fn lemma_cost_at_least_hops(edges: Map<(u64, u64), u64>, p: Seq<u64>)
    requires
        hops_in(edges, p),
        forall|e: (u64, u64)| #[trigger] edges.dom().contains(e) ==> edges[e] >= 1,
    ensures
        p.len() >= 1 ==> path_cost(edges, p) >= p.len() - 1,
    decreases p.len(),
{
    if p.len() >= 2 {
        let t = p.drop_first();
        assert forall|i: int| 0 <= i < t.len() - 1 implies edges.dom().contains(#[trigger] hop(t, i)) by {
            assert(hop(t, i) == hop(p, i + 1));
        }
        lemma_cost_at_least_hops(edges, t);
        assert(hop(p, 0) == (p[0], p[1]));
    }
}

/// A path whose hops each weigh at most `cap` costs at most `cap` per hop.
pub proof fn lemma_cost_at_most(edges: Map<(u64, u64), u64>, p: Seq<u64>, cap: nat)
    requires
        hops_in(edges, p),
        forall|e: (u64, u64)| #[trigger] edges.dom().contains(e) ==> edges[e] <= cap,
    ensures
        p.len() >= 1 ==> path_cost(edges, p) <= (p.len() - 1) * cap,
    decreases p.len(),
{
    if p.len() >= 2 {
        let t = p.drop_first();
        assert forall|i: int| 0 <= i < t.len() - 1 implies edges.dom().contains(#[trigger] hop(t, i)) by {
            assert(hop(t, i) == hop(p, i + 1));
        }
        lemma_cost_at_most(edges, t, cap);
        assert(hop(p, 0) == (p[0], p[1]));
        assert((p.len() - 1) * cap == (t.len() - 1) * cap + cap) by (nonlinear_arith)
            requires
                t.len() == p.len() - 1,
        ;
    }
}

/// With every weight at least one, a shortest path visits no node twice.
pub proof fn lemma_shortest_is_simple(edges: Map<(u64, u64), u64>, p: Seq<u64>, from: u64, to: u64)
    requires
        is_shortest_path(edges, p, from, to),
        forall|e: (u64, u64)| #[trigger] edges.dom().contains(e) ==> edges[e] >= 1,
    ensures
        p.no_duplicates(),
{
    assert forall|i: int, j: int| 0 <= i < p.len() && 0 <= j < p.len() && i != j implies p[i] != p[j] by {
        if p[i] == p[j] {
            let (a, b) = if i < j { (i, j) } else { (j, i) };
            let n = p.len() as int;
            let q = p.subrange(0, a + 1) + p.subrange(b + 1, n);
            // q skips the loop between the two visits
            assert(q.subrange(0, a + 1) =~= p.subrange(0, a + 1));
            assert(q.subrange(a, q.len() as int) =~= p.subrange(b, n));
            assert forall|k: int| 0 <= k < q.len() - 1 implies edges.dom().contains(#[trigger] hop(q, k)) by {
                if k < a {
                    assert(hop(q, k) == hop(p, k));
                } else {
                    assert(hop(q, k) == hop(p, k + b - a));
                }
            }
            assert(is_path(edges, q, from, to));
            lemma_cost_split(edges, q, a);
            lemma_cost_split(edges, p, a);
            let tail = p.subrange(a, n);
            lemma_cost_split(edges, tail, b - a);
            assert(tail.subrange(b - a, tail.len() as int) =~= p.subrange(b, n));
            let lp = tail.subrange(0, b - a + 1);
            assert forall|k: int| 0 <= k < lp.len() - 1 implies edges.dom().contains(#[trigger] hop(lp, k)) by {
                assert(hop(lp, k) == hop(p, k + a));
            }
            lemma_cost_at_least_hops(edges, lp);
            assert(path_cost(edges, q) < path_cost(edges, p));
        }
    }
}

/// A path that visits no node twice, over at most `count` edges of weight at most `cap`,
/// costs at most `count * cap`.
pub proof fn lemma_simple_cost_bound(edges: Map<(u64, u64), u64>, p: Seq<u64>, cap: nat)
    requires
        p.len() >= 1,
        p.no_duplicates(),
        hops_in(edges, p),
        edges.dom().finite(),
        forall|e: (u64, u64)| #[trigger] edges.dom().contains(e) ==> edges[e] <= cap,
    ensures
        path_cost(edges, p) <= edges.dom().len() * cap,
{
    let hs = Seq::new((p.len() - 1) as nat, |i: int| hop(p, i));
    assert forall|i: int, j: int| 0 <= i < hs.len() && 0 <= j < hs.len() && i != j implies hs[i] != hs[j] by {
        assert(hs[i].0 == p[i] && hs[j].0 == p[j]);
    }
    hs.unique_seq_to_set();
    assert forall|e: (u64, u64)| #[trigger] hs.to_set().contains(e) implies edges.dom().contains(e) by {
        let i = choose|i: int| 0 <= i < hs.len() && hs[i] == e;
        assert(hs[i] == hop(p, i));
    }
    vstd::set_lib::lemma_len_subset(hs.to_set(), edges.dom());
    lemma_cost_at_most(edges, p, cap);
    assert((p.len() - 1) * cap <= edges.dom().len() * cap) by (nonlinear_arith)
        requires
            p.len() - 1 <= edges.dom().len(),
    ;
}

/// A path costs no less over roads that each weigh at least as much.
pub proof fn lemma_cost_monotone(light: Map<(u64, u64), u64>, heavy: Map<(u64, u64), u64>, p: Seq<u64>)
    requires
        hops_in(light, p),
        forall|e: (u64, u64)| #[trigger] light.dom().contains(e) ==> heavy.dom().contains(e) && light[e] <= heavy[e],
    ensures
        path_cost(light, p) <= path_cost(heavy, p),
    decreases p.len(),
{
    if p.len() >= 2 {
        let t = p.drop_first();
        assert forall|i: int| 0 <= i < t.len() - 1 implies light.dom().contains(#[trigger] hop(t, i)) by {
            assert(hop(t, i) == hop(p, i + 1));
        }
        lemma_cost_monotone(light, heavy, t);
        assert(light.dom().contains(hop(p, 0)));
    }
}

/// Where every road weighs at least as much as before, no trip between two nodes gets
/// shorter than the shortest one was before.
pub proof fn lemma_heavier_roads_longer_trips(
    light: Map<(u64, u64), u64>,
    heavy: Map<(u64, u64), u64>,
    p: Seq<u64>,
    q: Seq<u64>,
    from: u64,
    to: u64,
)
    requires
        light.dom() == heavy.dom(),
        forall|e: (u64, u64)| #[trigger] light.dom().contains(e) ==> light[e] <= heavy[e],
        is_shortest_path(light, p, from, to),
        is_path(heavy, q, from, to),
    ensures
        path_cost(light, p) <= path_cost(heavy, q),
{
    assert(is_path(light, q, from, to));
    lemma_cost_monotone(light, heavy, q);
}

} // verus!
