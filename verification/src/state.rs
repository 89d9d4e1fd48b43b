//! The server's state: the road graph, whose weights carry the traffic of the
//! journeys under way, and those journeys.

use vstd::prelude::*;
use crate::city::City;
use crate::graph::{
    RoadGraph, graph_edges, graph_new, graph_add_edge, graph_edge_weight, graph_set_edge_weight, hop,
    hops_in, is_path, WEIGHT_CAP, shortest_path, is_shortest_path, reachable, path_cost, searchable,
    lemma_shortest_is_simple, lemma_simple_cost_bound,
};
use crate::time::{
    Timestamp, not_later, in_range, plus_seconds, checked_add_seconds, clock_now, LATEST_SECS, MAX_DELTA_SECS,
};

verus! {

/// How much each car adds to the weight of every edge it travels over.
pub const CAR: u64 = 1;

/// A journey under way: when it arrives, and the nodes it travels through.
#[derive(Debug)]
pub struct Journey {
    pub arrival: Timestamp,
    pub path: Vec<u64>,
}

/// The road graph and the journeys that load it.
pub struct State {
    paths: RoadGraph,
    journey: Vec<Journey>,
}

/// The roads between the known cities and their travel times when no car is on them.
pub open spec fn initial_edges() -> Map<(u64, u64), u64> {
    map![
        (0u64, 1u64) => 3u64,
        (0u64, 2u64) => 2u64,
        (2u64, 1u64) => 1u64,
        (2u64, 0u64) => 3u64,
        (1u64, 0u64) => 5u64,
        (1u64, 3u64) => 6u64,
        (1u64, 2u64) => 1u64,
        (3u64, 1u64) => 5u64,
    ]
}

/// How many hops of `p` travel over the edge `e`.
pub open spec fn hop_count(p: Seq<u64>, e: (u64, u64)) -> nat
    decreases p.len(),
{
    if p.len() < 2 {
        0
    } else {
        hop_count(p.drop_last(), e) + if hop(p, p.len() - 2) == e {
            1nat
        } else {
            0nat
        }
    }
}

/// How many hops of all the journeys `js` travel over the edge `e`.
pub open spec fn load(js: Seq<(Timestamp, Seq<u64>)>, e: (u64, u64)) -> nat
    decreases js.len(),
{
    if js.len() == 0 {
        0
    } else {
        load(js.drop_last(), e) + hop_count(js.last().1, e)
    }
}

/// A journey is complete once its arrival is not later than `now`.
pub open spec fn is_complete(j: (Timestamp, Seq<u64>), now: Timestamp) -> bool {
    not_later(j.0, now)
}

/// The journeys of `js` that are still under way at `now`, in their order.
pub open spec fn under_way(js: Seq<(Timestamp, Seq<u64>)>, now: Timestamp) -> Seq<(Timestamp, Seq<u64>)> {
    js.filter(|j: (Timestamp, Seq<u64>)| !is_complete(j, now))
}

impl State {
    /// The weighted edges of the road graph.
    pub closed spec fn edges(&self) -> Map<(u64, u64), u64> {
        graph_edges(self.paths)
    }

    /// The journeys under way, oldest first, each as its arrival and its nodes.
    pub closed spec fn journeys(&self) -> Seq<(Timestamp, Seq<u64>)> {
        self.journey@.map_values(|j: Journey| (j.arrival, j.path@))
    }

    /// The state is consistent: the roads are those between the known cities, each
    /// weighing its initial travel time plus `CAR` for every hop of a journey under way
    /// over it, and every journey under way travels over those roads.
    pub closed spec fn wf(&self) -> bool {
        &&& self.edges().dom() == initial_edges().dom()
        &&& forall|e: (u64, u64)| #[trigger] self.edges().dom().contains(e) ==>
            self.edges()[e] == initial_edges()[e] + CAR * load(self.journeys(), e)
        &&& forall|j: int| 0 <= j < self.journeys().len() ==> (#[trigger] self.journeys()[j]).1.len() >= 1
            && hops_in(initial_edges(), self.journeys()[j].1)
    }

    /// Every road weighs less than `WEIGHT_CAP`, so that a search and one more journey fit.
    pub closed spec fn below_cap(&self) -> bool {
        forall|e: (u64, u64)| #[trigger] self.edges().dom().contains(e) ==> self.edges()[e] < WEIGHT_CAP
    }
}

/// The edges between the known cities, as an executable list.
fn road_list() -> (r: Vec<(u64, u64)>)
    ensures
        r@.len() == 8,
        forall|i: int| 0 <= i < 8 ==> initial_edges().dom().contains(#[trigger] r@[i]),
        forall|e: (u64, u64)| #[trigger] initial_edges().dom().contains(e) ==> r@.contains(e),
{
    let r = vec![(0u64, 1u64), (0, 2), (2, 1), (2, 0), (1, 0), (1, 3), (1, 2), (3, 1)];
    assert forall|e: (u64, u64)| #[trigger] initial_edges().dom().contains(e) implies r@.contains(e) by {
        if e == (0u64, 1u64) {
            assert(r@[0] == e);
        } else if e == (0u64, 2u64) {
            assert(r@[1] == e);
        } else if e == (2u64, 1u64) {
            assert(r@[2] == e);
        } else if e == (2u64, 0u64) {
            assert(r@[3] == e);
        } else if e == (1u64, 0u64) {
            assert(r@[4] == e);
        } else if e == (1u64, 3u64) {
            assert(r@[5] == e);
        } else if e == (1u64, 2u64) {
            assert(r@[6] == e);
        } else {
            assert(r@[7] == e);
        }
    }
    r
}

/// The known roads are eight, each weighing at least one.
pub proof fn lemma_initial_edges()
    ensures
        initial_edges().dom().finite(),
        initial_edges().dom().len() == 8,
        forall|e: (u64, u64)| #[trigger] initial_edges().dom().contains(e) ==> 1 <= initial_edges()[e] <= 6,
{
    let m = initial_edges();
    assert(m.dom() =~= set![(0u64, 1u64), (0u64, 2u64), (2u64, 1u64), (2u64, 0u64), (1u64, 0u64), (1u64, 3u64), (1u64, 2u64), (3u64, 1u64)]);
}

/// Extending a node sequence by one node adds the count of its last hop.
pub proof fn lemma_hop_count_take(p: Seq<u64>, k: int, e: (u64, u64))
    requires
        0 <= k < p.len() - 1,
    ensures
        hop_count(p.take(k + 2), e) == hop_count(p.take(k + 1), e) + if hop(p, k) == e {
            1nat
        } else {
            0nat
        },
{
    assert(p.take(k + 2).drop_last() =~= p.take(k + 1));
    assert(hop(p.take(k + 2), k) == hop(p, k));
}

/// A prefix of a node sequence travels over an edge no more often than the whole.
pub proof fn lemma_hop_count_prefix(p: Seq<u64>, m: int, e: (u64, u64))
    requires
        0 <= m <= p.len(),
    ensures
        hop_count(p.take(m), e) <= hop_count(p, e),
    decreases p.len() - m,
{
    if m < p.len() {
        lemma_hop_count_prefix(p, m + 1, e);
        if m >= 1 {
            lemma_hop_count_take(p, m - 1, e);
        } else {
            assert(hop_count(p.take(0), e) == 0);
        }
    } else {
        assert(p.take(m) =~= p);
    }
}

/// A node sequence that visits no node twice travels over each edge at most once.
pub proof fn lemma_hop_count_simple(p: Seq<u64>, e: (u64, u64))
    requires
        p.no_duplicates(),
    ensures
        hop_count(p, e) <= 1,
        hop_count(p, e) == 0 || hop(p, p.len() - 2) == e || hop_count(p.drop_last(), e) == 1,
    decreases p.len(),
{
    if p.len() >= 2 {
        let q = p.drop_last();
        assert(q.no_duplicates());
        lemma_hop_count_simple(q, e);
        if hop_count(q, e) == 1 && hop(p, p.len() - 2) == e {
            // the edge is travelled both before and at the last hop
            lemma_hop_count_positive(q, e);
            let i = choose|i: int| 0 <= i < q.len() - 1 && hop(q, i) == e;
            assert(p[i] == p[p.len() - 2]);
        }
    }
}

/// A node sequence that travels over an edge has a hop equal to it.
pub proof fn lemma_hop_count_positive(p: Seq<u64>, e: (u64, u64))
    requires
        hop_count(p, e) > 0,
    ensures
        exists|i: int| 0 <= i < p.len() - 1 && hop(p, i) == e,
    decreases p.len(),
{
    let q = p.drop_last();
    if hop(p, p.len() - 2) == e {
        assert(hop(p, p.len() - 2) == e);
    } else {
        lemma_hop_count_positive(q, e);
        let i = choose|i: int| 0 <= i < q.len() - 1 && hop(q, i) == e;
        assert(hop(p, i) == hop(q, i));
    }
}

/// Adding the journeys one at a time adds up their load.
pub proof fn lemma_load_take(js: Seq<(Timestamp, Seq<u64>)>, i: int, e: (u64, u64))
    requires
        0 <= i < js.len(),
    ensures
        load(js.take(i + 1), e) == load(js.take(i), e) + hop_count(js[i].1, e),
{
    assert(js.take(i + 1).drop_last() =~= js.take(i));
}

/// The journeys of a prefix load an edge no more than all of them.
pub proof fn lemma_load_prefix(js: Seq<(Timestamp, Seq<u64>)>, m: int, e: (u64, u64))
    requires
        0 <= m <= js.len(),
    ensures
        load(js.take(m), e) <= load(js, e),
    decreases js.len() - m,
{
    if m < js.len() {
        lemma_load_prefix(js, m + 1, e);
        lemma_load_take(js, m, e);
    } else {
        assert(js.take(m) =~= js);
    }
}

impl State {
    /// The initial state: the roads between the known cities at their initial travel
    /// times, and no journey under way.
    pub fn new() -> (r: State)
        ensures
            r.wf(),
            r.edges() == initial_edges(),
            r.journeys().len() == 0,
            r.below_cap(),
    {
        let mut map = graph_new();
        let nyc: u64 = City::NewYorkCity.into();
        let bos: u64 = City::Boston.into();
        let prov: u64 = City::Providence.into();
        let bh: u64 = City::BarHarbor.into();
        graph_add_edge(&mut map, nyc, bos, 3);
        graph_add_edge(&mut map, nyc, prov, 2);
        graph_add_edge(&mut map, prov, bos, 1);
        graph_add_edge(&mut map, prov, nyc, 3);
        graph_add_edge(&mut map, bos, nyc, 5);
        graph_add_edge(&mut map, bos, bh, 6);
        graph_add_edge(&mut map, bos, prov, 1);
        graph_add_edge(&mut map, bh, bos, 5);
        let r = State { paths: map, journey: Vec::new() };
        assert(r.edges() =~= initial_edges());
        assert(r.journeys() =~= Seq::empty());
        r
    }

    /// The weight of the road from `a` to `b`, if there is one.
    pub fn edge_weight(&self, a: u64, b: u64) -> (r: Option<u64>)
        ensures
            r == (if self.edges().dom().contains((a, b)) {
                Some(self.edges()[(a, b)])
            } else {
                None
            }),
    {
        graph_edge_weight(&self.paths, a, b)
    }

    /// The number of journeys under way.
    pub fn journey_count(&self) -> (r: usize)
        ensures
            r == self.journeys().len(),
    {
        self.journey.len()
    }

    /// The `i`-th journey under way, oldest first.
    pub fn journey_at(&self, i: usize) -> (r: &Journey)
        requires
            i < self.journeys().len(),
        ensures
            (r.arrival, r.path@) == self.journeys()[i as int],
    {
        &self.journey[i]
    }

    /// Whether every road weighs less than `WEIGHT_CAP`.
    pub fn has_capacity(&self) -> (r: bool)
        requires
            self.wf(),
        ensures
            r == self.below_cap(),
    {
        let roads = road_list();
        let mut i: usize = 0;
        while i < roads.len()
            invariant
                self.wf(),
                roads@.len() == 8,
                forall|k: int| 0 <= k < 8 ==> initial_edges().dom().contains(#[trigger] roads@[k]),
                forall|e: (u64, u64)| #[trigger] initial_edges().dom().contains(e) ==> roads@.contains(e),
                0 <= i <= 8,
                forall|k: int| 0 <= k < i ==> self.edges()[#[trigger] roads@[k]] < WEIGHT_CAP,
            decreases 8 - i,
        {
            let (a, b) = roads[i];
            assert(self.edges().dom().contains(roads@[i as int]));
            match graph_edge_weight(&self.paths, a, b) {
                Some(w) => {
                    if w >= WEIGHT_CAP {
                        return false;
                    }
                },
                None => {
                    return false;
                },
            }
            i = i + 1;
        }
        assert forall|e: (u64, u64)| #[trigger] self.edges().dom().contains(e) implies self.edges()[e] < WEIGHT_CAP by {
            let k = choose|k: int| 0 <= k < roads@.len() && roads@[k] == e;
            assert(self.edges()[roads@[k]] < WEIGHT_CAP);
        }
        true
    }
}

impl State {
    /// Takes the travel time of one journey off the roads it travels over.
    fn unload_path(&mut self, p: &Vec<u64>, Ghost(base): Ghost<Map<(u64, u64), u64>>)
        requires
            old(self).edges().dom() == initial_edges().dom(),
            base.dom() == initial_edges().dom(),
            hops_in(initial_edges(), p@),
            forall|e: (u64, u64)| #[trigger] base.dom().contains(e) ==> old(self).edges()[e] == base[e] + CAR * hop_count(p@, e) && base[e] >= 1,
        ensures
            final(self).edges() == base,
            final(self).journey == old(self).journey,
    {
        let n = p.len();
        if n < 2 {
            assert(self.edges() =~= base);
            return;
        }
        let mut k: usize = 0;
        while k < n - 1
            invariant
                n == p@.len(),
                n >= 2,
                0 <= k <= n - 1,
                self.journey == old(self).journey,
                self.edges().dom() == initial_edges().dom(),
                base.dom() == initial_edges().dom(),
                hops_in(initial_edges(), p@),
                forall|e: (u64, u64)| #[trigger] base.dom().contains(e) ==> base[e] >= 1,
                forall|e: (u64, u64)| #[trigger] base.dom().contains(e) ==>
                    self.edges()[e] + CAR * hop_count(p@.take(k + 1), e) == base[e] + CAR * hop_count(p@, e),
            decreases n - 1 - k,
        {
            let a = p[k];
            let b = p[k + 1];
            assert(initial_edges().dom().contains(hop(p@, k as int)));
            proof {
                lemma_hop_count_take(p@, k as int, (a, b));
                lemma_hop_count_prefix(p@, k + 2, (a, b));
            }
            let w = graph_edge_weight(&self.paths, a, b).unwrap();
            graph_set_edge_weight(&mut self.paths, a, b, w - CAR);
            proof {
                assert forall|e: (u64, u64)| #[trigger] base.dom().contains(e) implies
                    self.edges()[e] + CAR * hop_count(p@.take(k + 2), e) == base[e] + CAR * hop_count(p@, e) by {
                    lemma_hop_count_take(p@, k as int, e);
                }
            }
            k = k + 1;
        }
        assert(p@.take(n as int) =~= p@);
        assert(self.edges() =~= base);
    }

    /// Removes the journeys that are complete at `now` (those arriving no later than `now`)
    /// and takes the traffic they added off the roads; the journeys still under way stay,
    /// in their order.
    pub fn release_completed(&mut self, now: Timestamp)
        requires
            old(self).wf(),
        ensures
            final(self).wf(),
            final(self).journeys() == under_way(old(self).journeys(), now),
    {
        let ghost js = self.journeys();
        let ghost pred = |j: (Timestamp, Seq<u64>)| !is_complete(j, now);
        let mut old_journeys: Vec<Journey> = Vec::new();
        std::mem::swap(&mut old_journeys, &mut self.journey);
        assert(old_journeys@.map_values(|j: Journey| (j.arrival, j.path@)) =~= js);
        let mut kept: Vec<Journey> = Vec::new();
        let n = old_journeys.len();
        let mut i: usize = 0;
        while i < n
            invariant
                n == old_journeys@.len(),
                0 <= i <= n,
                js == old_journeys@.map_values(|j: Journey| (j.arrival, j.path@)),
                pred == (|j: (Timestamp, Seq<u64>)| !is_complete(j, now)),
                forall|j: int| 0 <= j < js.len() ==> (#[trigger] js[j]).1.len() >= 1 && hops_in(initial_edges(), js[j].1),
                self.journey@ == Seq::<Journey>::empty(),
                kept@.map_values(|j: Journey| (j.arrival, j.path@)) == js.take(i as int).filter(pred),
                self.edges().dom() == initial_edges().dom(),
                forall|e: (u64, u64)| #[trigger] self.edges().dom().contains(e) ==>
                    self.edges()[e] + load(js.take(i as int), e) == initial_edges()[e] + CAR * load(kept@.map_values(|j: Journey| (j.arrival, j.path@)), e) + load(js, e),
            decreases n - i,
        {
            let ghost kv = kept@.map_values(|j: Journey| (j.arrival, j.path@));
            let journey = &old_journeys[i];
            assert(js[i as int] == (journey.arrival, journey.path@));
            assert(js.take(i + 1).drop_last() =~= js.take(i as int));
            assert(js.take(i + 1).last() == js[i as int]);
            proof {
                reveal(Seq::filter);
            }
            if journey.arrival.not_later_than(&now) {
                let ghost base = Map::new(
                    |e: (u64, u64)| initial_edges().dom().contains(e),
                    |e: (u64, u64)| (self.edges()[e] - CAR * hop_count(journey.path@, e)) as u64,
                );
                proof {
                    lemma_initial_edges();
                    assert forall|e: (u64, u64)| #[trigger] base.dom().contains(e) implies
                        self.edges()[e] == base[e] + CAR * hop_count(journey.path@, e) && base[e] >= 1 by {
                        lemma_load_take(js, i as int, e);
                        lemma_load_prefix(js, i + 1, e);
                    }
                    assert(base.dom() =~= initial_edges().dom());
                }
                self.unload_path(&journey.path, Ghost(base));
                proof {
                    assert(is_complete(js[i as int], now));
                    assert(!pred(js[i as int]));
                    assert(js.take(i + 1).filter(pred) == js.take(i as int).filter(pred));
                    assert forall|e: (u64, u64)| #[trigger] self.edges().dom().contains(e) implies
                        self.edges()[e] + load(js.take(i + 1), e) == initial_edges()[e] + CAR * load(kv, e) + load(js, e) by {
                        lemma_load_take(js, i as int, e);
                    }
                }
            } else {
                let path = journey.path.clone();
                kept.push(Journey { arrival: journey.arrival, path });
                proof {
                    let kv2 = kept@.map_values(|j: Journey| (j.arrival, j.path@));
                    assert(kv2 =~= kv.push(js[i as int]));
                    assert(pred(js[i as int]));
                    assert(js.take(i + 1).filter(pred) == js.take(i as int).filter(pred).push(js[i as int]));
                    assert(kv2.drop_last() =~= kv);
                    assert forall|e: (u64, u64)| #[trigger] self.edges().dom().contains(e) implies
                        self.edges()[e] + load(js.take(i + 1), e) == initial_edges()[e] + CAR * load(kv2, e) + load(js, e) by {
                        lemma_load_take(js, i as int, e);
                    }
                }
            }
            i = i + 1;
        }
        assert(js.take(n as int) =~= js);
        self.journey = kept;
        assert(self.journeys() =~= kept@.map_values(|j: Journey| (j.arrival, j.path@)));
        proof {
            let kv = self.journeys();
            assert(kv == js.filter(pred));
            assert forall|j: int| 0 <= j < kv.len() implies (#[trigger] kv[j]).1.len() >= 1 && hops_in(initial_edges(), kv[j].1) by {
                js.lemma_filter_contains_rev(pred, kv[j]);
                assert(kv.contains(kv[j]));
                let k = choose|k: int| 0 <= k < js.len() && js[k] == kv[j];
                assert(js[k] == kv[j]);
            }
        }
    }
}

/// Why a journey could not be planned.
#[derive(Debug, Clone, Copy, PartialEq, Eq)]
pub enum PlanError {
    /// The journey would arrive after the last instant that chrono represents.
    ArrivalOutOfRange,
}

impl State {
    /// Adds the travel time of one journey to the roads it travels over.
    fn load_path(&mut self, p: &Vec<u64>, Ghost(base): Ghost<Map<(u64, u64), u64>>)
        requires
            old(self).edges() == base,
            base.dom() == initial_edges().dom(),
            hops_in(initial_edges(), p@),
            forall|e: (u64, u64)| #[trigger] base.dom().contains(e) ==> base[e] + CAR * hop_count(p@, e) <= u64::MAX,
        ensures
            final(self).edges().dom() == base.dom(),
            forall|e: (u64, u64)| #[trigger] base.dom().contains(e) ==> final(self).edges()[e] == base[e] + CAR * hop_count(p@, e),
            final(self).journey == old(self).journey,
    {
        let n = p.len();
        if n < 2 {
            return;
        }
        let mut k: usize = 0;
        while k < n - 1
            invariant
                n == p@.len(),
                n >= 2,
                0 <= k <= n - 1,
                self.journey == old(self).journey,
                self.edges().dom() == base.dom(),
                base.dom() == initial_edges().dom(),
                hops_in(initial_edges(), p@),
                forall|e: (u64, u64)| #[trigger] base.dom().contains(e) ==> base[e] + CAR * hop_count(p@, e) <= u64::MAX,
                forall|e: (u64, u64)| #[trigger] base.dom().contains(e) ==>
                    self.edges()[e] == base[e] + CAR * hop_count(p@.take(k + 1), e),
            decreases n - 1 - k,
        {
            let a = p[k];
            let b = p[k + 1];
            assert(initial_edges().dom().contains(hop(p@, k as int)));
            proof {
                lemma_hop_count_take(p@, k as int, (a, b));
                lemma_hop_count_prefix(p@, k + 2, (a, b));
            }
            let w = graph_edge_weight(&self.paths, a, b).unwrap();
            graph_set_edge_weight(&mut self.paths, a, b, w + CAR);
            proof {
                assert forall|e: (u64, u64)| #[trigger] base.dom().contains(e) implies
                    self.edges()[e] == base[e] + CAR * hop_count(p@.take(k + 2), e) by {
                    lemma_hop_count_take(p@, k as int, e);
                }
            }
            k = k + 1;
        }
        assert(p@.take(n as int) =~= p@);
    }

    /// Plans a journey from `start` to `end` leaving at `now`: a shortest path over the roads
    /// as they are loaded now, which then becomes a journey under way that adds `CAR` to every
    /// road it travels over and arrives after the cost of the path in seconds. Nothing changes
    /// where no path leads from `start` to `end`, or where the journey would arrive after the
    /// last instant that chrono represents.
    pub fn plan_journey(&mut self, start: u64, end: u64, now: Timestamp) -> (r: Result<Option<(u64, Vec<u64>)>, PlanError>)
        requires
            old(self).wf(),
            old(self).below_cap(),
            in_range(now),
        ensures
            final(self).wf(),
            match r {
                Ok(Some((cost, p))) => {
                    &&& is_shortest_path(old(self).edges(), p@, start, end)
                    &&& cost == path_cost(old(self).edges(), p@)
                    &&& now.secs + cost <= LATEST_SECS
                    &&& final(self).journeys() == old(self).journeys().push((plus_seconds(now, cost as int), p@))
                },
                Ok(None) => {
                    &&& !reachable(old(self).edges(), start, end)
                    &&& final(self).edges() == old(self).edges()
                    &&& final(self).journeys() == old(self).journeys()
                },
                Err(_) => {
                    &&& reachable(old(self).edges(), start, end)
                    &&& forall|q: Seq<u64>| #[trigger] is_shortest_path(old(self).edges(), q, start, end)
                        ==> now.secs + path_cost(old(self).edges(), q) > LATEST_SECS
                    &&& final(self).edges() == old(self).edges()
                    &&& final(self).journeys() == old(self).journeys()
                },
            },
    {
        proof {
            lemma_initial_edges();
            assert forall|e: (u64, u64)| #[trigger] self.edges().dom().contains(e) implies self.edges()[e] <= WEIGHT_CAP by {}
            assert(searchable(self.edges()));
        }
        match shortest_path(&self.paths, start, end) {
            None => Ok(None),
            Some((cost, p)) => {
                let ghost before = self.edges();
                let ghost js = self.journeys();
                proof {
                    assert forall|e: (u64, u64)| #[trigger] before.dom().contains(e) implies before[e] >= 1 by {}
                    lemma_shortest_is_simple(before, p@, start, end);
                    lemma_simple_cost_bound(before, p@, WEIGHT_CAP as nat);
                    assert(cost <= 8 * WEIGHT_CAP);
                    assert(reachable(before, start, end));
                    assert forall|q: Seq<u64>| #[trigger] is_shortest_path(before, q, start, end)
                        implies path_cost(before, q) == cost by {
                        assert(is_path(before, p@, start, end));
                    }
                }
                let secs = cost as i64;
                if secs > MAX_DELTA_SECS {
                    return Err(PlanError::ArrivalOutOfRange);
                }
                let arrival = match checked_add_seconds(now, secs) {
                    Some(a) => a,
                    None => {
                        return Err(PlanError::ArrivalOutOfRange);
                    },
                };
                let path = p.clone();
                assert(path@ =~= p@);
                self.journey.push(Journey { arrival, path });
                proof {
                    assert(self.journeys() =~= js.push((arrival, p@)));
                    assert(self.journeys().drop_last() =~= js);
                    assert forall|e: (u64, u64)| #[trigger] before.dom().contains(e) implies
                        before[e] + CAR * hop_count(p@, e) <= u64::MAX by {
                        lemma_hop_count_simple(p@, e);
                    }
                    assert forall|i: int| 0 <= i < p@.len() - 1 implies initial_edges().dom().contains(#[trigger] hop(p@, i)) by {
                        assert(before.dom().contains(hop(p@, i)));
                    }
                }
                self.load_path(&p, Ghost(before));
                proof {
                    let js2 = self.journeys();
                    assert forall|j: int| 0 <= j < js2.len() implies (#[trigger] js2[j]).1.len() >= 1
                        && hops_in(initial_edges(), js2[j].1) by {
                        if j < js.len() {
                            assert(js2[j] == js[j]);
                        }
                    }
                }
                Ok(Some((cost, p)))
            },
        }
    }
}

impl State {
    /// Releases the journeys that are complete by the clock's current instant (see
    /// `release_completed`); where the clock cannot be read (before the epoch), releases
    /// nothing and says so.
    pub fn release_due(&mut self) -> (r: bool)
        requires
            old(self).wf(),
        ensures
            final(self).wf(),
            r ==> exists|now: Timestamp| #[trigger] under_way(old(self).journeys(), now) == final(self).journeys(),
            !r ==> final(self).journeys() == old(self).journeys() && final(self).edges() == old(self).edges(),
    {
        match clock_now() {
            Some(now) => {
                self.release_completed(now);
                true
            },
            None => false,
        }
    }
}

/// Every road weighs its initial travel time plus `CAR` for each hop of a journey under way
/// over it.
pub proof fn lemma_weights_follow_traffic(s: State)
    requires
        s.wf(),
    ensures
        s.edges().dom() == initial_edges().dom(),
        forall|e: (u64, u64)| #[trigger] s.edges().dom().contains(e) ==>
            s.edges()[e] == initial_edges()[e] + CAR * load(s.journeys(), e),
{
}

/// A state is below the cap exactly when every road, at its initial travel time plus
/// `CAR` for each hop of a journey under way over it, weighs less than `WEIGHT_CAP`: only
/// traffic can fill the roads.
pub proof fn lemma_room_is_load(s: State)
    requires
        s.wf(),
    ensures
        s.below_cap() == (forall|e: (u64, u64)| #[trigger] initial_edges().dom().contains(e) ==>
            initial_edges()[e] + CAR * load(s.journeys(), e) < WEIGHT_CAP),
{
}

/// With no journey under way, every road is back at its initial travel time.
pub proof fn lemma_idle_roads(s: State)
    requires
        s.wf(),
        s.journeys().len() == 0,
    ensures
        s.edges() == initial_edges(),
{
    assert(s.edges() =~= initial_edges());
}

/// The journeys under way decide the weights of the roads: two states with the same
/// journeys under way have the same roads. So planning a journey and releasing it once it
/// is complete leaves the roads as they were.
pub proof fn lemma_edges_follow_journeys(a: State, b: State)
    requires
        a.wf(),
        b.wf(),
        a.journeys() == b.journeys(),
    ensures
        a.edges() == b.edges(),
{
    assert(a.edges() =~= b.edges());
}

/// After a release at `now`, no journey that stays has arrived by `now`.
pub proof fn lemma_released_are_under_way(js: Seq<(Timestamp, Seq<u64>)>, now: Timestamp)
    ensures
        forall|i: int| 0 <= i < under_way(js, now).len() ==> !not_later((#[trigger] under_way(js, now)[i]).0, now),
        under_way(js, now).len() <= js.len(),
{
    broadcast use vstd::seq_lib::group_filter_ensures;
    let pred = |j: (Timestamp, Seq<u64>)| !is_complete(j, now);
    assert forall|i: int| 0 <= i < under_way(js, now).len() implies !not_later((#[trigger] under_way(js, now)[i]).0, now) by {
        assert(pred(js.filter(pred)[i]));
    }
}

/// A release at `now` keeps exactly the journeys that arrive after `now` on the time line:
/// none that stays arrived in an earlier second than `now`, and every journey arriving in a
/// later second stays.
pub proof fn lemma_release_keeps_later_arrivals(js: Seq<(Timestamp, Seq<u64>)>, now: Timestamp)
    ensures
        forall|i: int| 0 <= i < under_way(js, now).len() ==> (#[trigger] under_way(js, now)[i]).0.secs >= now.secs,
        forall|i: int| 0 <= i < js.len() && (#[trigger] js[i]).0.secs > now.secs ==> under_way(js, now).contains(js[i]),
        forall|i: int| 0 <= i < js.len() && (#[trigger] js[i]).0.secs < now.secs ==> !under_way(js, now).contains(js[i]),
{
    broadcast use vstd::seq_lib::group_filter_ensures;
    lemma_released_are_under_way(js, now);
    assert forall|i: int| 0 <= i < under_way(js, now).len() implies (#[trigger] under_way(js, now)[i]).0.secs >= now.secs by {
        crate::time::lemma_not_later_is_chronological(under_way(js, now)[i].0, now);
    }
    assert forall|i: int| 0 <= i < js.len() && (#[trigger] js[i]).0.secs > now.secs implies under_way(js, now).contains(js[i]) by {
        crate::time::lemma_not_later_is_chronological(js[i].0, now);
        assert(!is_complete(js[i], now));
    }
    assert forall|i: int| 0 <= i < js.len() && (#[trigger] js[i]).0.secs < now.secs implies !under_way(js, now).contains(js[i]) by {
        crate::time::lemma_not_later_is_chronological(js[i].0, now);
        assert(is_complete(js[i], now));
    }
}

/// The load of two lists of journeys together is the sum of their loads.
pub proof fn lemma_load_concat(js: Seq<(Timestamp, Seq<u64>)>, ks: Seq<(Timestamp, Seq<u64>)>, e: (u64, u64))
    ensures
        load(js + ks, e) == load(js, e) + load(ks, e),
    decreases ks.len(),
{
    if ks.len() == 0 {
        assert(js + ks =~= js);
    } else {
        lemma_load_concat(js, ks.drop_last(), e);
        assert((js + ks).drop_last() =~= js + ks.drop_last());
        assert((js + ks).last() == ks.last());
    }
}

/// Keeping some of the journeys loads an edge no more than keeping all of them.
pub proof fn lemma_load_filter(js: Seq<(Timestamp, Seq<u64>)>, pred: spec_fn((Timestamp, Seq<u64>)) -> bool, e: (u64, u64))
    ensures
        load(js.filter(pred), e) <= load(js, e),
    decreases js.len(),
{
    reveal(Seq::filter);
    if js.len() > 0 {
        lemma_load_filter(js.drop_last(), pred, e);
        let f = js.drop_last().filter(pred);
        if pred(js.last()) {
            assert(js.filter(pred) == f.push(js.last()));
            assert(f.push(js.last()).drop_last() =~= f);
        } else {
            assert(js.filter(pred) == f);
        }
    }
}

/// Journeys added under way load every road at least as much as before: with more
/// journeys under way, every road weighs at least what it did.
pub proof fn lemma_more_traffic_heavier_roads(a: State, b: State, extra: Seq<(Timestamp, Seq<u64>)>)
    requires
        a.wf(),
        b.wf(),
        b.journeys() == a.journeys() + extra,
    ensures
        a.edges().dom() == b.edges().dom(),
        forall|e: (u64, u64)| #[trigger] a.edges().dom().contains(e) ==> a.edges()[e] <= b.edges()[e],
{
    assert forall|e: (u64, u64)| #[trigger] a.edges().dom().contains(e) implies a.edges()[e] <= b.edges()[e] by {
        lemma_load_concat(a.journeys(), extra, e);
    }
}

/// Releasing complete journeys takes load off the roads: afterwards, every road weighs at
/// most what it did.
pub proof fn lemma_release_lightens_roads(a: State, b: State, now: Timestamp)
    requires
        a.wf(),
        b.wf(),
        b.journeys() == under_way(a.journeys(), now),
    ensures
        a.edges().dom() == b.edges().dom(),
        forall|e: (u64, u64)| #[trigger] b.edges().dom().contains(e) ==> b.edges()[e] <= a.edges()[e],
{
    assert forall|e: (u64, u64)| #[trigger] b.edges().dom().contains(e) implies b.edges()[e] <= a.edges()[e] by {
        lemma_load_filter(a.journeys(), |j: (Timestamp, Seq<u64>)| !is_complete(j, now), e);
    }
}

} // verus!
