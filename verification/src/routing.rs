//! The street network: nodes, edges, and the journeys planned along them.
//!
//! The nodes are numbered in the order in which their identifiers first
//! appear. The shortest path between two nodes is found by `fast_paths` on a
//! graph prepared once; the library turns the path into the legs of a
//! journey by walking the polyline of each edge on it.

use vstd::prelude::*;
use crate::error::Error;
use crate::geo::{Point, TileCode};
use crate::movement::{legs_distance_m, Journey, JourneyLeg, Transport};
use fast_paths::{FastGraph, InputGraph};
use indexmap::IndexSet;

verus! {

#[verifier::external_type_specification]
#[verifier::external_body]
pub struct ExInputGraph(InputGraph);

#[verifier::external_type_specification]
#[verifier::external_body]
pub struct ExFastGraph(FastGraph);

#[verifier::external_type_specification]
#[verifier::external_body]
#[verifier::reject_recursive_types(T)]
#[verifier::reject_recursive_types(S)]
pub struct ExIndexSet<T, S>(IndexSet<T, S>);

/// A directed connection between two numbered nodes, with its weight.
pub type Link = (usize, usize, usize);

/// The items of an `IndexSet`, in the order in which they were inserted.
pub uninterp spec fn index_set_items(set: IndexSet<u128>) -> Seq<u128>;

/// The links that an `InputGraph` was given and has kept, in the order in
/// which they were added.
pub uninterp spec fn input_graph_links(graph: InputGraph) -> Seq<Link>;

/// Whether an `InputGraph` is frozen, after which it takes no more links.
pub uninterp spec fn input_graph_frozen(graph: InputGraph) -> bool;

/// What `InputGraph::freeze` makes of the links `links`: the links in the
/// order of their ends and weights, and of several links between the same
/// two nodes only the lightest.
pub uninterp spec fn frozen_links(links: Seq<Link>) -> Seq<Link>;

/// The frozen links that a `FastGraph` was prepared from.
pub uninterp spec fn fast_graph_links(graph: FastGraph) -> Seq<Link>;

/// The nodes of the path that `fast_paths::calc_path` finds from `source` to
/// `target` in the graph prepared from the frozen links `links`, or `None`
/// if it finds none.
pub uninterp spec fn shortest_path_nodes(links: Seq<Link>, source: usize, target: usize) -> Option<
    Seq<usize>,
>;

/// The tiles that `CellIndex::grid_disk` gives for the distance one around
/// `tile`, or `None` if `tile` is not the number of a cell.
pub uninterp spec fn tile_disk(tile: TileCode) -> Option<Seq<TileCode>>;

/// The number of nodes of a graph with the links `links`: one more than the
/// largest node number among them.
pub open spec fn node_count(links: Seq<Link>) -> nat
    decreases links.len(),
{
    if links.len() == 0 {
        0
    } else {
        let rest = node_count(links.drop_last());
        let here = (if links.last().0 >= links.last().1 {
            links.last().0
        } else {
            links.last().1
        }) + 1;
        if rest >= here {
            rest
        } else {
            here as nat
        }
    }
}

/// The weights of `links` together.
pub open spec fn total_weight(links: Seq<Link>) -> nat
    decreases links.len(),
{
    if links.len() == 0 {
        0
    } else {
        total_weight(links.drop_last()) + links.last().2 as nat
    }
}

/// `IndexSet::new`: a set without items.
#[verifier::external_body]
fn node_set_new() -> (set: IndexSet<u128>)
    ensures
        index_set_items(set) == Seq::<u128>::empty(),
{
    IndexSet::new()
}

/// `IndexSet::insert`: an item that is not in the set yet is added behind
/// the others, and the call tells whether it was added.
#[verifier::external_body]
fn node_set_insert(set: &mut IndexSet<u128>, value: u128) -> (added: bool)
    ensures
        added == !index_set_items(*old(set)).contains(value),
        added ==> index_set_items(*final(set)) == index_set_items(*old(set)).push(value),
        !added ==> index_set_items(*final(set)) == index_set_items(*old(set)),
{
    set.insert(value)
}

/// `IndexSet::get_index_of`: the place of an item among the items, if it is
/// one of them.
#[verifier::external_body]
fn node_set_index_of(set: &IndexSet<u128>, value: u128) -> (place: Option<usize>)
    ensures
        place matches Some(i) ==> i < index_set_items(*set).len() && index_set_items(*set)[i as int]
            == value,
        place is None ==> !index_set_items(*set).contains(value),
{
    set.get_index_of(&value)
}

/// `InputGraph::new`: a graph without links that is not frozen.
#[verifier::external_body]
fn input_graph_new() -> (graph: InputGraph)
    ensures
        input_graph_links(graph) == Seq::<Link>::empty(),
        !input_graph_frozen(graph),
{
    InputGraph::new()
}

/// `InputGraph::add_edge` on a graph that is not frozen: the link is kept
/// unless it leads from a node to itself or weighs nothing, and the graph
/// stays unfrozen.
#[verifier::external_body]
fn input_graph_add_edge(graph: &mut InputGraph, from: usize, to: usize, weight: usize)
    requires
        !input_graph_frozen(*old(graph)),
        from < usize::MAX,
        to < usize::MAX,
    ensures
        !input_graph_frozen(*final(graph)),
        from != to && weight >= 1 ==> input_graph_links(*final(graph)) == input_graph_links(
            *old(graph),
        ).push((from, to, weight)),
        !(from != to && weight >= 1) ==> input_graph_links(*final(graph)) == input_graph_links(
            *old(graph),
        ),
{
    graph.add_edge(from, to, weight);
}

/// `InputGraph::freeze` and then `fast_paths::prepare`, on a graph that is
/// not frozen and whose weights together stay within half of `usize`: the
/// graph prepared from what freezing keeps of the links. Freezing drops
/// links only where a lighter one joins the same two nodes, so the prepared
/// graph has as many nodes as the links name and weighs no more.
#[verifier::external_body]
fn prepare_graph(graph: InputGraph) -> (prepared: FastGraph)
    requires
        !input_graph_frozen(graph),
        2 * total_weight(input_graph_links(graph)) < usize::MAX,
    ensures
        fast_graph_links(prepared) == frozen_links(input_graph_links(graph)),
        node_count(fast_graph_links(prepared)) == node_count(input_graph_links(graph)),
        total_weight(fast_graph_links(prepared)) <= total_weight(input_graph_links(graph)),
{
    let mut frozen = graph;
    frozen.freeze();
    fast_paths::prepare(&frozen)
}

/// `fast_paths::calc_path` and `ShortestPath::get_nodes`: the nodes of the
/// shortest path, which depend on the links and the two ends alone. The
/// weights along any path stay within `usize`.
#[verifier::external_body]
fn shortest_path(graph: &FastGraph, source: usize, target: usize) -> (path: Option<Vec<usize>>)
    requires
        source < node_count(fast_graph_links(*graph)),
        target < node_count(fast_graph_links(*graph)),
        2 * total_weight(fast_graph_links(*graph)) < usize::MAX,
    ensures
        path matches Some(nodes) ==> shortest_path_nodes(
            fast_graph_links(*graph),
            source,
            target,
        ) == Some(nodes@),
        path is None ==> shortest_path_nodes(fast_graph_links(*graph), source, target) is None,
{
    fast_paths::calc_path(graph, source, target).map(|found| found.get_nodes().clone())
}

/// `CellIndex::try_from` and then `CellIndex::grid_disk` for the distance
/// one: the cell itself and the cells around it, which depend on the cell
/// alone; `None` if the number is not that of a cell.
#[verifier::external_body]
fn tiles_around(tile: TileCode) -> (around: Option<Vec<TileCode>>)
    ensures
        around matches Some(tiles) ==> tile_disk(tile) == Some(tiles@),
        around is None ==> tile_disk(tile) is None,
{
    h3o::CellIndex::try_from(tile).ok().map(
        |cell| cell.grid_disk::<Vec<_>>(1).into_iter().map(u64::from).collect(),
    )
}

/// A node of the street network.
#[derive(Debug, Clone, Copy, PartialEq, Eq, Structural)]
pub struct StreetNode {
    /// The identifier of the node outside this library.
    pub id: u128,
    /// Where the node is.
    pub position: Point,
    /// The tile of `position` at the resolution at which nodes are looked
    /// up.
    pub tile: TileCode,
}

/// An edge of the street network, from one node to another.
#[derive(Debug)]
pub struct StreetEdge {
    /// The identifier of the node the edge leaves.
    pub source: u128,
    /// The identifier of the node the edge reaches.
    pub target: u128,
    /// The length of the edge, in metres.
    pub length_m: u64,
    /// The polyline of the edge, from its first vertex to its last.
    pub geometry: Vec<Point>,
    /// The length of each piece of the polyline, in metres: one for each
    /// pair of neighbouring vertices.
    pub segment_lengths_m: Vec<u64>,
}

/// An edge between numbered nodes.
#[derive(Debug, Clone, Copy, PartialEq, Eq, Structural)]
pub struct Hop {
    pub from: usize,
    pub to: usize,
    pub weight: usize,
}

/// Whether `hop` is kept by the graph: it joins two different nodes and has
/// a weight.
pub open spec fn is_kept(hop: Hop) -> bool {
    hop.from != hop.to && hop.weight >= 1
}

/// The links of the first `n` hops that the graph keeps.
pub open spec fn kept_links(hops: Seq<Hop>, n: int) -> Seq<Link>
    decreases n,
{
    if n <= 0 {
        Seq::empty()
    } else if is_kept(hops[n - 1]) {
        kept_links(hops, n - 1).push((hops[n - 1].from, hops[n - 1].to, hops[n - 1].weight))
    } else {
        kept_links(hops, n - 1)
    }
}

/// The weights of the first `n` hops together.
pub open spec fn hops_weight(hops: Seq<Hop>, n: int) -> nat
    decreases n,
{
    if n <= 0 {
        0
    } else {
        hops_weight(hops, n - 1) + hops[n - 1].weight as nat
    }
}

/// Whether no item occurs twice in `items`.
pub open spec fn no_duplicates(items: Seq<u128>) -> bool {
    forall|i: int, j: int| 0 <= i < j < items.len() ==> items[i] != items[j]
}

/// Whether the polyline of `edge` has one length for each of its pieces.
pub open spec fn edge_sound(edge: StreetEdge) -> bool {
    edge.geometry@.len() == 0 && edge.segment_lengths_m@.len() == 0 || edge.geometry@.len()
        == edge.segment_lengths_m@.len() + 1
}

/// Whether a node with the identifier `id` is among `nodes`.
pub open spec fn node_known(nodes: Seq<StreetNode>, id: u128) -> bool {
    exists|n: int| 0 <= n < nodes.len() && nodes[n].id == id
}

/// Whether `edge` has a sound polyline and joins two of `nodes`.
pub open spec fn edge_fits(nodes: Seq<StreetNode>, edge: StreetEdge) -> bool {
    edge_sound(edge) && node_known(nodes, edge.source) && node_known(nodes, edge.target)
}

/// The lengths of the first `n` edges together, in metres.
pub open spec fn edges_length(edges: Seq<StreetEdge>, n: int) -> nat
    decreases n,
{
    if n <= 0 {
        0
    } else {
        edges_length(edges, n - 1) + edges[n - 1].length_m as nat
    }
}

/// Whether a network can be made of `nodes` and `edges`: every edge has a
/// sound polyline and joins two of the nodes, and the lengths of the edges
/// together stay within half of `usize`.
pub open spec fn network_valid(nodes: Seq<StreetNode>, edges: Seq<StreetEdge>) -> bool {
    &&& nodes.len() < usize::MAX
    &&& nodes_on_globe(nodes, nodes.len() as int)
    &&& forall|e: int| 0 <= e < edges.len() ==> #[trigger] edge_fits(nodes, edges[e])
    &&& 2 * edges_length(edges, edges.len() as int) < usize::MAX
}

/// Whether hop `e` is edge `e` between numbered nodes.
pub open spec fn hop_matches(
    items: Seq<u128>,
    hops: Seq<Hop>,
    edges: Seq<StreetEdge>,
    e: int,
) -> bool {
    &&& hops[e].from < items.len()
    &&& hops[e].to < items.len()
    &&& items[hops[e].from as int] == edges[e].source
    &&& items[hops[e].to as int] == edges[e].target
    &&& hops[e].weight == edges[e].length_m
    &&& edge_sound(edges[e])
}

/// Whether the first `n` of `nodes` lie on the globe.
pub open spec fn nodes_on_globe(nodes: Seq<StreetNode>, n: int) -> bool {
    forall|k: int| 0 <= k < n ==> (#[trigger] nodes[k]).position.spec_on_globe()
}

/// Whether every one of `nodes` has its identifier among `items`.
pub open spec fn nodes_numbered(items: Seq<u128>, nodes: Seq<StreetNode>, n: int) -> bool {
    forall|k: int| 0 <= k < n ==> items.contains((#[trigger] nodes[k]).id)
}

/// Whether every one of `items` is the identifier of one of `nodes`.
pub open spec fn items_known(items: Seq<u128>, nodes: Seq<StreetNode>) -> bool {
    forall|w: int| 0 <= w < items.len() ==> node_known(nodes, #[trigger] items[w])
}

/// The first edges of a network together are no longer than more of them.
pub proof fn lemma_edges_length_grows(edges: Seq<StreetEdge>, n: int, m: int)
    requires
        0 <= n <= m,
    ensures
        edges_length(edges, n) <= edges_length(edges, m),
    decreases m,
{
    if n < m {
        lemma_edges_length_grows(edges, n, m - 1);
    }
}

/// The weight of the first hops depends on those hops only.
pub proof fn lemma_hops_weight_of_prefix(a: Seq<Hop>, b: Seq<Hop>, n: int)
    requires
        0 <= n <= a.len(),
        n <= b.len(),
        forall|i: int| 0 <= i < n ==> a[i] == b[i],
    ensures
        hops_weight(a, n) == hops_weight(b, n),
    decreases n,
{
    if n > 0 {
        lemma_hops_weight_of_prefix(a, b, n - 1);
    }
}

/// The links kept of the first hops depend on those hops only.
pub proof fn lemma_kept_links_of_prefix(a: Seq<Hop>, b: Seq<Hop>, n: int)
    requires
        0 <= n <= a.len(),
        n <= b.len(),
        forall|i: int| 0 <= i < n ==> a[i] == b[i],
    ensures
        kept_links(a, n) == kept_links(b, n),
    decreases n,
{
    if n > 0 {
        lemma_kept_links_of_prefix(a, b, n - 1);
    }
}

/// The street network of a site.
pub struct RoutingData {
    /// The nodes, as they were given.
    pub nodes: Vec<StreetNode>,
    /// The edges, as they were given.
    pub edges: Vec<StreetEdge>,
    /// The identifiers of the nodes; the place of an identifier is the
    /// number of its node.
    pub node_map: IndexSet<u128>,
    /// The edges between numbered nodes; `hops[e]` is `edges[e]`.
    pub hops: Vec<Hop>,
}

impl RoutingData {
    /// What holds of the network: every node has one number, every edge
    /// joins two numbered nodes and has a sound polyline, and the weights
    /// together stay within half of `usize`.
    pub open spec fn wf(&self) -> bool {
        &&& no_duplicates(index_set_items(self.node_map))
        &&& index_set_items(self.node_map).len() < usize::MAX
        &&& self.hops@.len() == self.edges@.len()
        &&& forall|e: int|
            0 <= e < self.hops@.len() ==> #[trigger] hop_matches(
                index_set_items(self.node_map),
                self.hops@,
                self.edges@,
                e,
            )
        &&& 2 * hops_weight(self.hops@, self.hops@.len() as int) < usize::MAX
        &&& nodes_numbered(index_set_items(self.node_map), self.nodes@, self.nodes@.len() as int)
        &&& items_known(index_set_items(self.node_map), self.nodes@)
        &&& nodes_on_globe(self.nodes@, self.nodes@.len() as int)
    }

    /// The network of `nodes` and `edges`; see [`network_valid`] for when
    /// they make one.
    pub fn try_new(nodes: Vec<StreetNode>, edges: Vec<StreetEdge>) -> (result: Result<
        RoutingData,
        Error,
    >)
        ensures
            result is Ok <==> network_valid(nodes@, edges@),
            result matches Ok(routing) ==> routing.wf() && routing.nodes == nodes && routing.edges
                == edges,
            result matches Err(e) ==> e is InvalidData,
    {
        if nodes.len() == usize::MAX {
            return Err(Error::invalid_data("too many nodes"));
        }
        let mut node_map = node_set_new();
        let mut n: usize = 0;
        while n < nodes.len()
            invariant
                n <= nodes.len(),
                no_duplicates(index_set_items(node_map)),
                index_set_items(node_map).len() <= n,
                nodes_numbered(index_set_items(node_map), nodes@, n as int),
                items_known(index_set_items(node_map), nodes@),
                nodes_on_globe(nodes@, n as int),
            decreases nodes.len() - n,
        {
            if !nodes[n].position.on_globe() {
                return Err(Error::invalid_data("node off the globe"));
            }
            let ghost before = index_set_items(node_map);
            let added = node_set_insert(&mut node_map, nodes[n].id);
            proof {
                let after = index_set_items(node_map);
                assert forall|k: int| 0 <= k < n + 1 implies after.contains(
                    (#[trigger] nodes@[k]).id,
                ) by {
                    if k < n {
                        assert(before.contains(nodes@[k].id));
                        let w = choose|w: int| 0 <= w < before.len() && before[w] == nodes@[k].id;
                        assert(after[w] == nodes@[k].id);
                    } else if added {
                        assert(after[before.len() as int] == nodes@[n as int].id);
                    }
                }
                assert forall|w: int| 0 <= w < after.len() implies node_known(
                    nodes@,
                    #[trigger] after[w],
                ) by {
                    if w < before.len() {
                        assert(after[w] == before[w]);
                        assert(node_known(nodes@, before[w]));
                    } else {
                        assert(nodes@[n as int].id == after[w]);
                    }
                }
            }
            n += 1;
        }
        let mut hops: Vec<Hop> = Vec::new();
        let mut total: usize = 0;
        let mut e: usize = 0;
        while e < edges.len()
            invariant
                e <= edges.len(),
                hops@.len() == e,
                total == hops_weight(hops@, e as int),
                total == edges_length(edges@, e as int),
                2 * total < usize::MAX,
                nodes@.len() < usize::MAX,
                nodes_on_globe(nodes@, nodes@.len() as int),
                no_duplicates(index_set_items(node_map)),
                index_set_items(node_map).len() <= nodes@.len(),
                nodes_numbered(index_set_items(node_map), nodes@, nodes@.len() as int),
                items_known(index_set_items(node_map), nodes@),
                forall|k: int|
                    0 <= k < e ==> #[trigger] hop_matches(
                        index_set_items(node_map),
                        hops@,
                        edges@,
                        k,
                    ),
                forall|k: int| 0 <= k < e ==> #[trigger] edge_fits(nodes@, edges@[k]),
            decreases edges.len() - e,
        {
            let edge = &edges[e];
            let sound = (edge.geometry.len() == 0 && edge.segment_lengths_m.len() == 0) || (
            edge.segment_lengths_m.len() < usize::MAX && edge.geometry.len()
                == edge.segment_lengths_m.len() + 1);
            if !sound {
                assert(!edge_fits(nodes@, edges@[e as int]));
                return Err(Error::invalid_data("polyline without lengths"));
            }
            let from = match node_set_index_of(&node_map, edge.source) {
                Some(i) => i,
                None => {
                    proof {
                        if node_known(nodes@, edge.source) {
                            let m = choose|m: int|
                                0 <= m < nodes@.len() && nodes@[m].id == edge.source;
                            assert(index_set_items(node_map).contains(nodes@[m].id));
                        }
                        assert(!edge_fits(nodes@, edges@[e as int]));
                    }
                    return Err(Error::invalid_data("edge leaves an unknown node"));
                },
            };
            let to = match node_set_index_of(&node_map, edge.target) {
                Some(i) => i,
                None => {
                    proof {
                        if node_known(nodes@, edge.target) {
                            let m = choose|m: int|
                                0 <= m < nodes@.len() && nodes@[m].id == edge.target;
                            assert(index_set_items(node_map).contains(nodes@[m].id));
                        }
                        assert(!edge_fits(nodes@, edges@[e as int]));
                    }
                    return Err(Error::invalid_data("edge reaches an unknown node"));
                },
            };
            let half: usize = (usize::MAX - 1) / 2;
            if edge.length_m > (half - total) as u64 {
                proof {
                    lemma_edges_length_grows(edges@, e + 1, edges@.len() as int);
                }
                return Err(Error::invalid_data("edges too long"));
            }
            let weight: usize = edge.length_m as usize;
            let ghost before = hops@;
            hops.push(Hop { from, to, weight });
            total = total + weight;
            proof {
                lemma_hops_weight_of_prefix(before, hops@, e as int);
                assert(node_known(nodes@, index_set_items(node_map)[from as int]));
                assert(node_known(nodes@, index_set_items(node_map)[to as int]));
                assert(edge_fits(nodes@, edges@[e as int]));
                assert forall|k: int| 0 <= k < e + 1 implies #[trigger] hop_matches(
                    index_set_items(node_map),
                    hops@,
                    edges@,
                    k,
                ) by {
                    if k < e {
                        assert(hop_matches(index_set_items(node_map), before, edges@, k));
                        assert(hops@[k] == before[k]);
                    }
                }
            }
            e += 1;
        }
        Ok(RoutingData { nodes, edges, node_map, hops })
    }
}

/// All the links that the graph keeps of `hops`.
pub open spec fn links_of(hops: Seq<Hop>) -> Seq<Link> {
    kept_links(hops, hops.len() as int)
}

/// Whether hop `e` is the one that leads from node `a` to node `b` in the
/// graph: of the kept hops between the two it weighs least, and of several
/// such it comes first.
pub open spec fn is_hop_edge(hops: Seq<Hop>, a: usize, b: usize, e: int) -> bool {
    &&& 0 <= e < hops.len()
    &&& joins(hops, a, b, e)
    &&& forall|j: int|
        0 <= j < hops.len() && joins(hops, a, b, j) ==> hops[e].weight < hops[j].weight || (
        hops[e].weight == hops[j].weight && e <= j)
}

/// Whether hop `e` is kept and leads from node `a` to node `b`.
pub open spec fn joins(hops: Seq<Hop>, a: usize, b: usize, e: int) -> bool {
    hops[e].from == a && hops[e].to == b && is_kept(hops[e])
}

/// The hop that leads from node `a` to node `b`, if one does.
pub open spec fn spec_hop_edge(hops: Seq<Hop>, a: usize, b: usize) -> Option<int> {
    if exists|e: int| is_hop_edge(hops, a, b, e) {
        Some(choose|e: int| is_hop_edge(hops, a, b, e))
    } else {
        None
    }
}

/// The legs along the polyline of `edge`: one for each piece, to the vertex
/// the piece ends at.
pub open spec fn edge_legs(edge: StreetEdge) -> Seq<JourneyLeg> {
    Seq::new(
        edge.segment_lengths_m@.len(),
        |s: int|
            JourneyLeg {
                destination: edge.geometry@[s + 1],
                distance_m: edge.segment_lengths_m@[s],
            },
    )
}

/// The legs along `path` from its `k`-th node on: the legs of the edge of
/// each hop, one edge after the other. `None` if two neighbouring nodes of
/// the path are joined by no edge.
pub open spec fn path_legs(edges: Seq<StreetEdge>, hops: Seq<Hop>, path: Seq<usize>, k: int) -> Option<
    Seq<JourneyLeg>,
>
    decreases path.len() - k,
{
    if k < 0 || k + 1 >= path.len() {
        Some(Seq::empty())
    } else {
        match spec_hop_edge(hops, path[k], path[k + 1]) {
            None => None,
            Some(e) => match path_legs(edges, hops, path, k + 1) {
                None => None,
                Some(rest) => Some(edge_legs(edges[e]) + rest),
            },
        }
    }
}

/// How a plan can end.
pub enum Plan {
    /// An end of the journey is not a node of the network.
    Unreachable,
    /// No path leads from one end to the other.
    NoRoute,
    /// The path found uses a connection that the network does not have.
    Broken,
    /// The legs of the journey.
    Legs(Seq<JourneyLeg>),
}

/// Whether `i` is the number of the node `id`.
pub open spec fn is_number_of(items: Seq<u128>, id: u128, i: int) -> bool {
    0 <= i < items.len() && items[i] == id
}

/// How the plan from the node `origin` to the node `destination` ends.
pub open spec fn spec_plan(
    items: Seq<u128>,
    edges: Seq<StreetEdge>,
    hops: Seq<Hop>,
    origin: u128,
    destination: u128,
) -> Plan {
    if !items.contains(origin) || !items.contains(destination) {
        Plan::Unreachable
    } else {
        let from = choose|i: int| is_number_of(items, origin, i);
        let to = choose|i: int| is_number_of(items, destination, i);
        if from == to {
            Plan::Legs(Seq::empty())
        } else if from >= node_count(links_of(hops)) || to >= node_count(links_of(hops)) {
            Plan::NoRoute
        } else {
            match shortest_path_nodes(frozen_links(links_of(hops)), from as usize, to as usize) {
                None => Plan::NoRoute,
                Some(path) => match path_legs(edges, hops, path, 0) {
                    None => Plan::Broken,
                    Some(legs) => Plan::Legs(legs),
                },
            }
        }
    }
}

/// Whether the legs can make a journey: each ends on the globe, and
/// together they are no longer than a `u64` counts metres.
pub open spec fn legs_fit(legs: Seq<JourneyLeg>) -> bool {
    (forall|i: int| 0 <= i < legs.len() ==> (#[trigger] legs[i]).destination.spec_on_globe())
        && legs_distance_m(legs, legs.len() as int) <= u64::MAX
}

/// Whether node `i` lies on one of `tiles`.
pub open spec fn lies_on(nodes: Seq<StreetNode>, tiles: Seq<TileCode>, i: int) -> bool {
    0 <= i < nodes.len() && tiles.contains(nodes[i].tile)
}

/// Whether node `i` is no farther from `point` than node `j`, and comes
/// first if both are as far.
pub open spec fn no_farther(nodes: Seq<StreetNode>, point: Point, i: int, j: int) -> bool {
    point.spec_distance_squared(nodes[i].position) < point.spec_distance_squared(
        nodes[j].position,
    ) || (point.spec_distance_squared(nodes[i].position) == point.spec_distance_squared(
        nodes[j].position,
    ) && i <= j)
}

/// Whether node `i` is the nearest to `point` of the nodes on `tiles`.
pub open spec fn is_nearest(
    nodes: Seq<StreetNode>,
    point: Point,
    tiles: Seq<TileCode>,
    i: int,
) -> bool {
    &&& lies_on(nodes, tiles, i)
    &&& forall|j: int| lies_on(nodes, tiles, j) ==> no_farther(nodes, point, i, j)
}

/// The nearest to `point` of the nodes on `tiles`, if a node lies on them.
pub open spec fn spec_nearest(nodes: Seq<StreetNode>, point: Point, tiles: Seq<TileCode>) -> Option<
    int,
> {
    if exists|i: int| is_nearest(nodes, point, tiles, i) {
        Some(choose|i: int| is_nearest(nodes, point, tiles, i))
    } else {
        None
    }
}

/// The node that a point on `tile` is resolved to: the nearest node on the
/// tile, or, if the tile has no node, the nearest node on the tiles around
/// it.
pub open spec fn spec_nearest_node(nodes: Seq<StreetNode>, point: Point, tile: TileCode) -> Option<
    int,
> {
    match spec_nearest(nodes, point, seq![tile]) {
        Some(i) => Some(i),
        None => match tile_disk(tile) {
            Some(around) => spec_nearest(nodes, point, around),
            None => None,
        },
    }
}

/// Whether `tile` is among `tiles`.
fn tile_among(tiles: &Vec<TileCode>, tile: TileCode) -> (found: bool)
    ensures
        found == tiles@.contains(tile),
{
    let mut i: usize = 0;
    while i < tiles.len()
        invariant
            i <= tiles.len(),
            forall|j: int| 0 <= j < i ==> tiles@[j] != tile,
        decreases tiles.len() - i,
    {
        if tiles[i] == tile {
            return true;
        }
        i += 1;
    }
    false
}

/// The nearest to `point` of the nodes on `tiles`, if a node lies on them.
fn nearest_among(nodes: &Vec<StreetNode>, point: &Point, tiles: &Vec<TileCode>) -> (found: Option<
    usize,
>)
    requires
        point.spec_on_globe(),
        nodes_on_globe(nodes@, nodes@.len() as int),
    ensures
        found matches Some(i) ==> is_nearest(nodes@, *point, tiles@, i as int) && spec_nearest(
            nodes@,
            *point,
            tiles@,
        ) == Some(i as int),
        found is None ==> spec_nearest(nodes@, *point, tiles@) is None && forall|j: int|
            !lies_on(nodes@, tiles@, j),
{
    let mut best: Option<(usize, u64)> = None;
    let mut i: usize = 0;
    while i < nodes.len()
        invariant
            i <= nodes.len(),
            point.spec_on_globe(),
            nodes_on_globe(nodes@, nodes@.len() as int),
            best is None ==> forall|j: int| 0 <= j < i ==> !lies_on(nodes@, tiles@, j),
            best matches Some((b, d)) ==> b < i && lies_on(nodes@, tiles@, b as int) && d
                == point.spec_distance_squared(nodes@[b as int].position) && forall|j: int|
                0 <= j < i && lies_on(nodes@, tiles@, j) ==> no_farther(
                    nodes@,
                    *point,
                    b as int,
                    j,
                ),
        decreases nodes.len() - i,
    {
        let node = nodes[i];
        if tile_among(tiles, node.tile) {
            let d = point.distance_squared(&node.position);
            match best {
                None => {
                    best = Some((i, d));
                },
                Some((_, least)) => {
                    if d < least {
                        best = Some((i, d));
                    }
                },
            }
        }
        i += 1;
    }
    match best {
        Some((b, _)) => {
            proof {
                assert(is_nearest(nodes@, *point, tiles@, b as int));
                let c = choose|c: int| is_nearest(nodes@, *point, tiles@, c);
                assert(no_farther(nodes@, *point, c, b as int));
                assert(no_farther(nodes@, *point, b as int, c));
            }
            Some(b)
        },
        None => None,
    }
}

/// The hop that leads from node `a` to node `b`, if one does.
fn find_hop(hops: &Vec<Hop>, a: usize, b: usize) -> (found: Option<usize>)
    ensures
        found matches Some(e) ==> is_hop_edge(hops@, a, b, e as int) && spec_hop_edge(hops@, a, b)
            == Some(e as int),
        found is None ==> spec_hop_edge(hops@, a, b) is None,
{
    let mut best: Option<usize> = None;
    let mut e: usize = 0;
    while e < hops.len()
        invariant
            e <= hops.len(),
            best is None ==> forall|j: int| 0 <= j < e ==> !joins(hops@, a, b, j),
            best matches Some(c) ==> c < e && joins(hops@, a, b, c as int) && forall|j: int|
                0 <= j < e && joins(hops@, a, b, j) ==> hops@[c as int].weight < hops@[j].weight
                    || (hops@[c as int].weight == hops@[j].weight && c <= j),
        decreases hops.len() - e,
    {
        let hop = hops[e];
        if hop.from == a && hop.to == b && hop.from != hop.to && hop.weight >= 1 {
            match best {
                None => {
                    best = Some(e);
                },
                Some(c) => {
                    if hop.weight < hops[c].weight {
                        best = Some(e);
                    }
                },
            }
        }
        e += 1;
    }
    match best {
        Some(c) => {
            proof {
                assert(is_hop_edge(hops@, a, b, c as int));
                let d = choose|d: int| is_hop_edge(hops@, a, b, d);
                assert(joins(hops@, a, b, d));
                assert(joins(hops@, a, b, c as int));
            }
            Some(c)
        },
        None => None,
    }
}

/// Whether `journey` is the journey along `legs` as it is planned: by
/// bicycle, and not begun.
pub open spec fn is_planned(journey: Journey, legs: Seq<JourneyLeg>) -> bool {
    journey.wf() && begins_along(journey, legs)
}

/// Whether `journey` leads along `legs`, by bicycle, and has not begun.
pub open spec fn begins_along(journey: Journey, legs: Seq<JourneyLeg>) -> bool {
    &&& journey.legs@ == legs
    &&& journey.transport == Transport::Bicycle
    &&& journey.current_leg_index == 0
    &&& journey.current_leg_offset == 0
}

/// Plans journeys along the street network of a site.
pub struct JourneyPlanner {
    /// The network.
    pub routing: RoutingData,
    /// The graph prepared from the edges of the network.
    pub graph: FastGraph,
}

impl JourneyPlanner {
    /// What holds of the planner: the network is sound, and the graph is
    /// the one prepared from its edges, with as many nodes as they name and
    /// no more weight.
    pub open spec fn wf(&self) -> bool {
        &&& self.routing.wf()
        &&& fast_graph_links(self.graph) == frozen_links(links_of(self.routing.hops@))
        &&& node_count(fast_graph_links(self.graph)) == node_count(links_of(self.routing.hops@))
        &&& total_weight(fast_graph_links(self.graph)) <= total_weight(
            links_of(self.routing.hops@),
        )
    }

    /// A planner for the network `routing`.
    pub fn new(routing: RoutingData) -> (planner: JourneyPlanner)
        requires
            routing.wf(),
        ensures
            planner.wf(),
            planner.routing == routing,
    {
        let mut input = input_graph_new();
        let mut e: usize = 0;
        while e < routing.hops.len()
            invariant
                routing.wf(),
                e <= routing.hops.len(),
                !input_graph_frozen(input),
                input_graph_links(input) == kept_links(routing.hops@, e as int),
            decreases routing.hops.len() - e,
        {
            let hop = routing.hops[e];
            assert(hop_matches(
                index_set_items(routing.node_map),
                routing.hops@,
                routing.edges@,
                e as int,
            ));
            input_graph_add_edge(&mut input, hop.from, hop.to, hop.weight);
            e += 1;
        }
        proof {
            lemma_kept_weight_bounded(routing.hops@, routing.hops@.len() as int);
        }
        let graph = prepare_graph(input);
        JourneyPlanner { routing, graph }
    }

    /// The node that the point `point` on the tile `tile` is resolved to.
    ///
    /// It is the nearest node on the tile, or, if no node lies on the tile,
    /// the nearest node on the tiles around it. A point off the globe is
    /// refused; a point with no node on or around its tile is unreachable.
    pub fn nearest_node(&self, point: &Point, tile: TileCode) -> (result: Result<u128, Error>)
        requires
            self.wf(),
        ensures
            !point.spec_on_globe() ==> (result matches Err(e) && e is InvalidGeometry),
            point.spec_on_globe() ==> match spec_nearest_node(self.routing.nodes@, *point, tile) {
                Some(i) => result == Ok::<u128, Error>(self.routing.nodes@[i].id),
                None => result matches Err(e) && e is NotFound,
            },
    {
        if !point.on_globe() {
            return Err(Error::invalid_geometry("point off the globe"));
        }
        let mut here: Vec<TileCode> = Vec::new();
        here.push(tile);
        assert(here@ =~= seq![tile]);
        match nearest_among(&self.routing.nodes, point, &here) {
            Some(i) => Ok(self.routing.nodes[i].id),
            None => match tiles_around(tile) {
                Some(around) => match nearest_among(&self.routing.nodes, point, &around) {
                    Some(i) => Ok(self.routing.nodes[i].id),
                    None => Err(Error::NotFound),
                },
                None => Err(Error::NotFound),
            },
        }
    }

    /// The legs along `path`; see [`path_legs`].
    fn legs_along(&self, path: &Vec<usize>) -> (legs: Option<Vec<JourneyLeg>>)
        requires
            self.wf(),
        ensures
            legs matches Some(found) ==> path_legs(
                self.routing.edges@,
                self.routing.hops@,
                path@,
                0,
            ) == Some(found@),
            legs is None ==> path_legs(self.routing.edges@, self.routing.hops@, path@, 0) is None,
    {
        let mut legs: Vec<JourneyLeg> = Vec::new();
        if path.len() < 2 {
            return Some(legs);
        }
        let last: usize = path.len() - 1;
        let mut k: usize = 0;
        while k < last
            invariant
                self.wf(),
                path@.len() >= 2,
                last == path@.len() - 1,
                k <= last,
                path_legs(self.routing.edges@, self.routing.hops@, path@, 0) == match path_legs(
                    self.routing.edges@,
                    self.routing.hops@,
                    path@,
                    k as int,
                ) {
                    Some(rest) => Some(legs@ + rest),
                    None => None,
                },
            decreases path@.len() - k,
        {
            let e = match find_hop(&self.routing.hops, path[k], path[k + 1]) {
                Some(e) => e,
                None => {
                    return None;
                },
            };
            let edge = &self.routing.edges[e];
            assert(hop_matches(
                index_set_items(self.routing.node_map),
                self.routing.hops@,
                self.routing.edges@,
                e as int,
            ));
            let ghost before = legs@;
            let mut s: usize = 0;
            while s < edge.segment_lengths_m.len()
                invariant
                    edge_sound(*edge),
                    s <= edge.segment_lengths_m@.len(),
                    legs@ == before + edge_legs(*edge).take(s as int),
                decreases edge.segment_lengths_m@.len() - s,
            {
                legs.push(
                    JourneyLeg {
                        destination: edge.geometry[s + 1],
                        distance_m: edge.segment_lengths_m[s],
                    },
                );
                proof {
                    assert(edge_legs(*edge).take(s + 1) =~= edge_legs(*edge).take(s as int).push(
                        edge_legs(*edge)[s as int],
                    ));
                    assert(legs@ =~= before + edge_legs(*edge).take(s + 1));
                }
                s += 1;
            }
            proof {
                assert(edge_legs(*edge).take(edge.segment_lengths_m@.len() as int) =~= edge_legs(
                    *edge,
                ));
                match path_legs(self.routing.edges@, self.routing.hops@, path@, k + 1) {
                    Some(rest) => {
                        assert(before + (edge_legs(*edge) + rest) =~= (before + edge_legs(*edge))
                            + rest);
                    },
                    None => {},
                }
            }
            k += 1;
        }
        proof {
            assert(legs@ + Seq::<JourneyLeg>::empty() =~= legs@);
        }
        Some(legs)
    }

    /// Plans the journey from the node `origin` to the node `destination`,
    /// along the shortest path that `fast_paths` finds between them.
    ///
    /// An end that is not a node of the network is unreachable. Where no
    /// path leads from one end to the other there is no route. The journey
    /// has the legs of the polylines of the edges along the path, is
    /// travelled by bicycle, and has not begun.
    pub fn plan(&self, origin: u128, destination: u128) -> (result: Result<Journey, Error>)
        requires
            self.wf(),
        ensures
            match spec_plan(
                index_set_items(self.routing.node_map),
                self.routing.edges@,
                self.routing.hops@,
                origin,
                destination,
            ) {
                Plan::Unreachable => result matches Err(e) && e is NotFound,
                Plan::NoRoute => result matches Err(e) && e is InvalidGeometry,
                Plan::Broken => result matches Err(e) && e is InternalError,
                Plan::Legs(legs) => if legs_fit(legs) {
                    result matches Ok(journey) && journey.wf() && journey.legs@ == legs
                        && journey.transport == Transport::Bicycle && journey.current_leg_index
                        == 0 && journey.current_leg_offset == 0
                } else {
                    result matches Err(e) && e is InvalidData
                },
            },
    {
        let ghost items = index_set_items(self.routing.node_map);
        let from = match node_set_index_of(&self.routing.node_map, origin) {
            Some(i) => i,
            None => {
                return Err(Error::NotFound);
            },
        };
        let to = match node_set_index_of(&self.routing.node_map, destination) {
            Some(i) => i,
            None => {
                return Err(Error::NotFound);
            },
        };
        proof {
            assert(is_number_of(items, origin, from as int));
            assert(is_number_of(items, destination, to as int));
            let f = choose|i: int| is_number_of(items, origin, i);
            let t = choose|i: int| is_number_of(items, destination, i);
            assert(f == from) by {
                if f < from {
                    assert(items[f] != items[from as int]);
                } else if from < f {
                    assert(items[from as int] != items[f]);
                }
            }
            assert(t == to) by {
                if t < to {
                    assert(items[t] != items[to as int]);
                } else if to < t {
                    assert(items[to as int] != items[t]);
                }
            }
            lemma_kept_weight_bounded(self.routing.hops@, self.routing.hops@.len() as int);
        }
        let legs = if from == to {
            Vec::new()
        } else {
            let count = self.node_count();
            if from >= count || to >= count {
                return Err(Error::invalid_geometry("no route"));
            }
            let path = match shortest_path(&self.graph, from, to) {
                Some(path) => path,
                None => {
                    return Err(Error::invalid_geometry("no route"));
                },
            };
            match self.legs_along(&path) {
                Some(legs) => legs,
                None => {
                    return Err(Error::internal("path along a missing edge"));
                },
            }
        };
        match Journey::from_legs(legs) {
            Some(journey) => Ok(journey),
            None => Err(Error::invalid_data("journey too long or off the globe")),
        }
    }

    /// The legs of the journey from the point `origin` on the tile
    /// `origin_tile` to the point `destination` on the tile
    /// `destination_tile`: both points are resolved to their nodes, and the
    /// journey is planned between the nodes. `None` where a point lies off
    /// the globe or resolves to no node, where no path joins the nodes, or
    /// where the legs make no journey.
    pub open spec fn spec_route(
        &self,
        origin: Point,
        origin_tile: TileCode,
        destination: Point,
        destination_tile: TileCode,
    ) -> Option<Seq<JourneyLeg>> {
        if !origin.spec_on_globe() || !destination.spec_on_globe() {
            None
        } else {
            match (
                spec_nearest_node(self.routing.nodes@, origin, origin_tile),
                spec_nearest_node(self.routing.nodes@, destination, destination_tile),
            ) {
                (Some(i), Some(j)) => match spec_plan(
                    index_set_items(self.routing.node_map),
                    self.routing.edges@,
                    self.routing.hops@,
                    self.routing.nodes@[i].id,
                    self.routing.nodes@[j].id,
                ) {
                    Plan::Legs(legs) => if legs_fit(legs) {
                        Some(legs)
                    } else {
                        None
                    },
                    _ => None,
                },
                _ => None,
            }
        }
    }

    /// The journey from the point `origin` on the tile `origin_tile` to the
    /// point `destination` on the tile `destination_tile`, if there is one;
    /// see [`JourneyPlanner::spec_route`].
    pub fn route(
        &self,
        origin: &Point,
        origin_tile: TileCode,
        destination: &Point,
        destination_tile: TileCode,
    ) -> (journey: Option<Journey>)
        requires
            self.wf(),
        ensures
            match self.spec_route(*origin, origin_tile, *destination, destination_tile) {
                Some(legs) => journey matches Some(found) && is_planned(found, legs),
                None => journey is None,
            },
    {
        let from = match self.nearest_node(origin, origin_tile) {
            Ok(from) => from,
            Err(_) => {
                return None;
            },
        };
        let to = match self.nearest_node(destination, destination_tile) {
            Ok(to) => to,
            Err(_) => {
                return None;
            },
        };
        match self.plan(from, to) {
            Ok(journey) => Some(journey),
            Err(_) => None,
        }
    }

    /// The number of nodes of the graph.
    fn node_count(&self) -> (count: usize)
        requires
            self.wf(),
        ensures
            count == node_count(links_of(self.routing.hops@)),
    {
        let mut count: usize = 0;
        let mut e: usize = 0;
        while e < self.routing.hops.len()
            invariant
                self.wf(),
                e <= self.routing.hops.len(),
                count == node_count(kept_links(self.routing.hops@, e as int)),
            decreases self.routing.hops.len() - e,
        {
            let hop = self.routing.hops[e];
            assert(hop_matches(
                index_set_items(self.routing.node_map),
                self.routing.hops@,
                self.routing.edges@,
                e as int,
            ));
            if hop.from != hop.to && hop.weight >= 1 {
                let larger = if hop.from >= hop.to {
                    hop.from
                } else {
                    hop.to
                };
                proof {
                    let links = kept_links(self.routing.hops@, e + 1);
                    assert(links.drop_last() =~= kept_links(self.routing.hops@, e as int));
                }
                if larger + 1 > count {
                    count = larger + 1;
                }
            }
            e += 1;
        }
        count
    }
}

/// The links kept of the hops weigh no more together than the hops.
pub proof fn lemma_kept_weight_bounded(hops: Seq<Hop>, n: int)
    requires
        0 <= n <= hops.len(),
    ensures
        total_weight(kept_links(hops, n)) <= hops_weight(hops, n),
    decreases n,
{
    if n > 0 {
        lemma_kept_weight_bounded(hops, n - 1);
        if is_kept(hops[n - 1]) {
            assert(kept_links(hops, n).drop_last() =~= kept_links(hops, n - 1));
        }
    }
}

} // verus!
