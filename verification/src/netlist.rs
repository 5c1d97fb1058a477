//! The netlist: typed nodes and the connections between them.
//!
//! The graph is kept as an arena: the nodes in a vector, and each edge as the
//! pair of the positions of its two endpoints.

use crate::fpga_layout::{macro_key, MacroType};
use crate::hashing::map_insert;
use crate::random::{choose_one, choose_several, lemma_selection_distinct, random_u32};
use rustc_hash::FxHashMap;
use vstd::prelude::*;

verus! {

/// An element to be placed: an identifier and the kind of site it needs.
#[derive(Clone, Copy, Debug, PartialEq, Eq, Hash, Structural)]
pub struct NetlistNode {
    pub id: u32,
    pub macro_type: MacroType,
}

/// A connection from the node at position `source` to the node at position
/// `target`.
#[derive(Clone, Copy, Debug, PartialEq, Eq, Hash, Structural)]
pub struct NetlistEdge {
    pub source: usize,
    pub target: usize,
}

/// The macro type that is counted under `k`, for `k` below 4.
pub open spec fn key_macro(k: u64) -> MacroType {
    if k == 0 {
        MacroType::CLB
    } else if k == 1 {
        MacroType::DSP
    } else if k == 2 {
        MacroType::BRAM
    } else {
        MacroType::IO
    }
}

/// The number under which a node is stored in a placement: its identifier
/// and, in the two lowest bits, the key of its type.
pub open spec fn node_key(n: NetlistNode) -> u64 {
    (n.id * 4 + macro_key(n.macro_type)) as u64
}

/// Whether some node is stored under `k`.
pub open spec fn is_node_key(k: u64) -> bool {
    k < 0x4_0000_0000
}

/// The node that is stored under `k`, for a `k` that is the key of a node.
pub open spec fn key_node(k: u64) -> NetlistNode {
    NetlistNode { id: (k / 4) as u32, macro_type: key_macro(k % 4) }
}

/// Storing a node and reading a node's key undo each other.
pub proof fn lemma_node_key_bijective()
    ensures
        forall|n: NetlistNode| is_node_key(#[trigger] node_key(n)) && key_node(node_key(n)) == n,
        forall|k: u64| is_node_key(k) ==> #[trigger] node_key(key_node(k)) == k,
{
}

/// The keys of `nodes`.
pub open spec fn key_set(nodes: Seq<NetlistNode>) -> Set<u64> {
    Set::new(|k: u64| exists|i: int| 0 <= i < nodes.len() && node_key(#[trigger] nodes[i]) == k)
}

/// Nodes have no more keys than there are nodes, and as many where no two
/// of the nodes are equal.
pub proof fn lemma_key_set_len(nodes: Seq<NetlistNode>)
    ensures
        key_set(nodes).finite(),
        key_set(nodes).len() <= nodes.len(),
        nodes.no_duplicates() ==> key_set(nodes).len() == nodes.len(),
    decreases nodes.len(),
{
    if nodes.len() == 0 {
        assert(key_set(nodes) =~= Set::empty());
    } else {
        let rest = nodes.drop_last();
        let last = nodes.last();
        lemma_key_set_len(rest);
        lemma_node_key_bijective();
        assert forall|k: u64| key_set(nodes).contains(k) <==> key_set(rest).insert(
            node_key(last),
        ).contains(k) by {
            if key_set(nodes).contains(k) {
                let i = choose|i: int| 0 <= i < nodes.len() && node_key(#[trigger] nodes[i]) == k;
                if i < rest.len() {
                    assert(node_key(rest[i]) == k);
                }
            }
            if key_set(rest).contains(k) {
                let i = choose|i: int| 0 <= i < rest.len() && node_key(#[trigger] rest[i]) == k;
                assert(node_key(nodes[i]) == k);
            }
            if k == node_key(last) {
                assert(node_key(nodes[nodes.len() - 1]) == k);
            }
        }
        assert(key_set(nodes) =~= key_set(rest).insert(node_key(last)));
        if nodes.no_duplicates() {
            assert(rest.no_duplicates());
            if key_set(rest).contains(node_key(last)) {
                let i = choose|i: int|
                    0 <= i < rest.len() && node_key(#[trigger] rest[i]) == node_key(last);
                assert(key_node(node_key(rest[i])) == key_node(node_key(last)));
                assert(nodes[i] == nodes[nodes.len() - 1]);
            }
        }
    }
}

/// How many of `nodes` need a site of type `t`.
pub open spec fn count_type(nodes: Seq<NetlistNode>, t: MacroType) -> nat
    decreases nodes.len(),
{
    if nodes.len() == 0 {
        0
    } else {
        count_type(nodes.drop_last(), t) + if nodes.last().macro_type == t {
            1nat
        } else {
            0nat
        }
    }
}

/// Whether an edge of `edges` starts or ends at node `i`.
pub open spec fn touched(edges: Seq<NetlistEdge>, i: int) -> bool {
    exists|e: int|
        0 <= e < edges.len() && ((#[trigger] edges[e]).source == i || edges[e].target == i)
}

/// Whether `i` is one of `positions`.
pub open spec fn holds(positions: Seq<usize>, i: int) -> bool {
    exists|k: int| 0 <= k < positions.len() && #[trigger] positions[k] == i
}

/// Counting one node more adds one where that node is of the type counted.
pub proof fn lemma_count_type_step(nodes: Seq<NetlistNode>, i: int, t: MacroType)
    requires
        0 <= i < nodes.len(),
    ensures
        count_type(nodes.take(i + 1), t) == count_type(nodes.take(i), t) + if nodes[i].macro_type
            == t {
            1nat
        } else {
            0nat
        },
        count_type(nodes.take(i), t) <= i,
    decreases i,
{
    assert(nodes.take(i + 1).drop_last() =~= nodes.take(i));
    if i > 0 {
        lemma_count_type_step(nodes, i - 1, t);
    }
}

/// No more nodes are of one type than there are nodes, and a list holds no
/// fewer of a type than any of its beginnings.
pub proof fn lemma_count_type_prefix(nodes: Seq<NetlistNode>, i: int, t: MacroType)
    requires
        0 <= i <= nodes.len(),
    ensures
        count_type(nodes.take(i), t) <= count_type(nodes, t),
        count_type(nodes, t) <= nodes.len(),
    decreases nodes.len() - i,
{
    if i < nodes.len() {
        lemma_count_type_step(nodes, i, t);
        lemma_count_type_prefix(nodes, i + 1, t);
    } else {
        assert(nodes.take(i) =~= nodes);
        if i > 0 {
            lemma_count_type_step(nodes, i - 1, t);
        }
    }
}

/// Changing the type of one node moves one count from its old type to its
/// new one.
pub proof fn lemma_count_type_update(
    nodes: Seq<NetlistNode>,
    i: int,
    node: NetlistNode,
    t: MacroType,
)
    requires
        0 <= i < nodes.len(),
    ensures
        count_type(nodes.update(i, node), t) + (if nodes[i].macro_type == t {
            1nat
        } else {
            0nat
        }) == count_type(nodes, t) + (if node.macro_type == t {
            1nat
        } else {
            0nat
        }),
    decreases nodes.len(),
{
    let changed = nodes.update(i, node);
    if i == nodes.len() - 1 {
        assert(changed.drop_last() =~= nodes.drop_last());
    } else {
        assert(changed.drop_last() =~= nodes.drop_last().update(i, node));
        lemma_count_type_update(nodes.drop_last(), i, node, t);
    }
}

impl NetlistNode {
    /// The number under which the node is stored in a placement.
    pub fn key(&self) -> (k: u64)
        ensures
            k == node_key(*self),
    {
        (self.id as u64) * 4 + self.macro_type.key()
    }

    /// The node that is stored under `k`, or `None` where no node is.
    pub fn from_key(k: u64) -> (r: Option<NetlistNode>)
        ensures
            r == (if is_node_key(k) {
                Some(key_node(k))
            } else {
                None
            }),
    {
        if k >= 0x4_0000_0000 {
            return None;
        }
        let code = k % 4;
        let macro_type = if code == 0 {
            MacroType::CLB
        } else if code == 1 {
            MacroType::DSP
        } else if code == 2 {
            MacroType::BRAM
        } else {
            MacroType::IO
        };
        Some(NetlistNode { id: (k / 4) as u32, macro_type })
    }
}

/// A directed graph of nodes.
#[derive(Debug)]
pub struct NetlistGraph {
    /// The nodes, in the order in which they were added.
    pub nodes: Vec<NetlistNode>,
    /// The edges, in the order in which they were added.
    pub edges: Vec<NetlistEdge>,
}

impl Clone for NetlistGraph {
    fn clone(&self) -> (r: Self)
        ensures
            r.nodes@ == self.nodes@,
            r.edges@ == self.edges@,
    {
        NetlistGraph { nodes: self.nodes.clone(), edges: self.edges.clone() }
    }
}

impl NetlistGraph {
    /// Whether every edge joins two nodes of the graph.
    pub open spec fn wf(&self) -> bool {
        forall|e: int|
            0 <= e < self.edges@.len() ==> (#[trigger] self.edges@[e]).source < self.nodes@.len()
                && self.edges@[e].target < self.nodes@.len()
    }

    /// Whether some node has the identifier `id`.
    pub open spec fn has_id(&self, id: u32) -> bool {
        exists|i: int| 0 <= i < self.nodes@.len() && (#[trigger] self.nodes@[i]).id == id
    }

    /// A graph without nodes.
    pub fn new() -> (g: NetlistGraph)
        ensures
            g.nodes@ == Seq::<NetlistNode>::empty(),
            g.edges@ == Seq::<NetlistEdge>::empty(),
            g.wf(),
    {
        NetlistGraph { nodes: Vec::new(), edges: Vec::new() }
    }

    /// Adds a node and returns its position.
    pub fn add_node(&mut self, node: NetlistNode) -> (index: usize)
        ensures
            index == old(self).nodes@.len(),
            final(self).nodes@ == old(self).nodes@.push(node),
            final(self).edges@ == old(self).edges@,
            old(self).wf() ==> final(self).wf(),
    {
        let index = self.nodes.len();
        self.nodes.push(node);
        index
    }

    /// Adds an edge from the node at `source` to the node at `target`.
    pub fn add_edge(&mut self, source: usize, target: usize)
        requires
            source < old(self).nodes@.len(),
            target < old(self).nodes@.len(),
        ensures
            final(self).nodes@ == old(self).nodes@,
            final(self).edges@ == old(self).edges@.push(NetlistEdge { source, target }),
            old(self).wf() ==> final(self).wf(),
    {
        self.edges.push(NetlistEdge { source, target });
    }

    /// Whether every edge joins two nodes of the graph.
    pub fn valid(&self) -> (b: bool)
        ensures
            b == self.wf(),
    {
        let n = self.nodes.len();
        let mut e: usize = 0;
        while e < self.edges.len()
            invariant
                e <= self.edges@.len(),
                n == self.nodes@.len(),
                forall|j: int|
                    0 <= j < e ==> (#[trigger] self.edges@[j]).source < n && self.edges@[j].target
                        < n,
            decreases self.edges@.len() - e,
        {
            if self.edges[e].source >= n || self.edges[e].target >= n {
                return false;
            }
            e += 1;
        }
        true
    }

    /// Whether some node has the identifier `id`.
    pub fn contains_id(&self, id: u32) -> (b: bool)
        ensures
            b == self.has_id(id),
    {
        let mut i: usize = 0;
        while i < self.nodes.len()
            invariant
                i <= self.nodes@.len(),
                forall|j: int| 0 <= j < i ==> (#[trigger] self.nodes@[j]).id != id,
            decreases self.nodes@.len() - i,
        {
            if self.nodes[i].id == id {
                return true;
            }
            i += 1;
        }
        false
    }

    pub fn all_nodes(&self) -> (nodes: Vec<NetlistNode>)
        ensures
            nodes@ == self.nodes@,
    {
        self.nodes.clone()
    }

    /// How many nodes need each type of site, under the type's key.
    pub fn count_summary(&self) -> (summary: FxHashMap<u64, u64>)
        ensures
            forall|t: MacroType|
                summary@.contains_key(#[trigger] macro_key(t)) && summary@[macro_key(t)]
                    == count_type(self.nodes@, t),
            forall|k: u64| #[trigger] summary@.contains_key(k) ==> k <= 3,
    {
        let mut clb_count: u64 = 0;
        let mut dsp_count: u64 = 0;
        let mut bram_count: u64 = 0;
        let mut io_count: u64 = 0;
        let mut i: usize = 0;
        while i < self.nodes.len()
            invariant
                i <= self.nodes@.len(),
                clb_count == count_type(self.nodes@.take(i as int), MacroType::CLB),
                dsp_count == count_type(self.nodes@.take(i as int), MacroType::DSP),
                bram_count == count_type(self.nodes@.take(i as int), MacroType::BRAM),
                io_count == count_type(self.nodes@.take(i as int), MacroType::IO),
            decreases self.nodes@.len() - i,
        {
            proof {
                lemma_count_type_step(self.nodes@, i as int, MacroType::CLB);
                lemma_count_type_step(self.nodes@, i as int, MacroType::DSP);
                lemma_count_type_step(self.nodes@, i as int, MacroType::BRAM);
                lemma_count_type_step(self.nodes@, i as int, MacroType::IO);
            }
            match self.nodes[i].macro_type {
                MacroType::CLB => clb_count += 1,
                MacroType::DSP => dsp_count += 1,
                MacroType::BRAM => bram_count += 1,
                MacroType::IO => io_count += 1,
            }
            i += 1;
        }
        proof {
            assert(self.nodes@.take(i as int) =~= self.nodes@);
        }
        let mut summary: FxHashMap<u64, u64> = FxHashMap::default();
        map_insert(&mut summary, MacroType::CLB.key(), clb_count);
        map_insert(&mut summary, MacroType::DSP.key(), dsp_count);
        map_insert(&mut summary, MacroType::BRAM.key(), bram_count);
        map_insert(&mut summary, MacroType::IO.key(), io_count);
        summary
    }
}

/// The positions of the nodes that need a logic site, in increasing order.
pub fn clb_node_indices(netlist: &NetlistGraph) -> (indices: Vec<usize>)
    ensures
        indices@.len() == count_type(netlist.nodes@, MacroType::CLB),
        forall|j: int, k: int|
            0 <= j < k < indices@.len() ==> #[trigger] indices@[j] < #[trigger] indices@[k],
        forall|j: int|
            0 <= j < indices@.len() ==> (#[trigger] indices@[j]) < netlist.nodes@.len()
                && netlist.nodes@[indices@[j] as int].macro_type == MacroType::CLB,
        forall|i: int|
            0 <= i < netlist.nodes@.len() && (#[trigger] netlist.nodes@[i]).macro_type
                == MacroType::CLB ==> holds(indices@, i),
{
    let mut indices: Vec<usize> = Vec::new();
    let mut i: usize = 0;
    while i < netlist.nodes.len()
        invariant
            i <= netlist.nodes@.len(),
            indices@.len() == count_type(netlist.nodes@.take(i as int), MacroType::CLB),
            forall|j: int, k: int|
                0 <= j < k < indices@.len() ==> #[trigger] indices@[j] < #[trigger] indices@[k],
            forall|j: int|
                0 <= j < indices@.len() ==> (#[trigger] indices@[j]) < i
                    && netlist.nodes@[indices@[j] as int].macro_type == MacroType::CLB,
            forall|k: int|
                0 <= k < i && (#[trigger] netlist.nodes@[k]).macro_type == MacroType::CLB ==> holds(
                    indices@,
                    k,
                ),
        decreases netlist.nodes@.len() - i,
    {
        proof {
            lemma_count_type_step(netlist.nodes@, i as int, MacroType::CLB);
        }
        if netlist.nodes[i].macro_type == MacroType::CLB {
            let ghost earlier = indices@;
            indices.push(i);
            proof {
                assert forall|k: int|
                    0 <= k < i + 1 && (#[trigger] netlist.nodes@[k]).macro_type
                        == MacroType::CLB implies holds(indices@, k) by {
                    if k < i {
                        let j = choose|j: int| 0 <= j < earlier.len() && #[trigger] earlier[j] == k;
                        assert(indices@[j] == k);
                    } else {
                        assert(indices@[earlier.len() as int] == k);
                    }
                }
            }
        }
        i += 1;
    }
    proof {
        assert(netlist.nodes@.take(i as int) =~= netlist.nodes@);
    }
    indices
}

/// Gives each of the logic nodes at `picks` the type `macro_type`.
pub fn relabel(netlist: &mut NetlistGraph, picks: &Vec<usize>, macro_type: MacroType)
    requires
        macro_type != MacroType::CLB,
        picks@.no_duplicates(),
        forall|j: int|
            0 <= j < picks@.len() ==> (#[trigger] picks@[j]) < old(netlist).nodes@.len() && old(
                netlist,
            ).nodes@[picks@[j] as int].macro_type == MacroType::CLB,
    ensures
        final(netlist).edges@ == old(netlist).edges@,
        final(netlist).nodes@.len() == old(netlist).nodes@.len(),
        forall|i: int|
            0 <= i < old(netlist).nodes@.len() ==> (#[trigger] final(netlist).nodes@[i]).id == old(
                netlist,
            ).nodes@[i].id && final(netlist).nodes@[i].macro_type == (if holds(picks@, i) {
                macro_type
            } else {
                old(netlist).nodes@[i].macro_type
            }),
        forall|t: MacroType|
            t != macro_type && t != MacroType::CLB ==> #[trigger] count_type(
                final(netlist).nodes@,
                t,
            ) == count_type(old(netlist).nodes@, t),
        count_type(final(netlist).nodes@, macro_type) == count_type(
            old(netlist).nodes@,
            macro_type,
        ) + picks@.len(),
        count_type(final(netlist).nodes@, MacroType::CLB) + picks@.len() == count_type(
            old(netlist).nodes@,
            MacroType::CLB,
        ),
{
    let mut j: usize = 0;
    while j < picks.len()
        invariant
            j <= picks@.len(),
            macro_type != MacroType::CLB,
            picks@.no_duplicates(),
            netlist.edges@ == old(netlist).edges@,
            netlist.nodes@.len() == old(netlist).nodes@.len(),
            forall|k: int|
                0 <= k < picks@.len() ==> (#[trigger] picks@[k]) < old(netlist).nodes@.len()
                    && old(netlist).nodes@[picks@[k] as int].macro_type == MacroType::CLB,
            forall|i: int|
                0 <= i < netlist.nodes@.len() ==> (#[trigger] netlist.nodes@[i]).id == old(
                    netlist,
                ).nodes@[i].id && netlist.nodes@[i].macro_type == (if holds(
                    picks@.take(j as int),
                    i,
                ) {
                    macro_type
                } else {
                    old(netlist).nodes@[i].macro_type
                }),
            forall|t: MacroType|
                t != macro_type && t != MacroType::CLB ==> #[trigger] count_type(netlist.nodes@, t)
                    == count_type(old(netlist).nodes@, t),
            count_type(netlist.nodes@, macro_type) == count_type(old(netlist).nodes@, macro_type)
                + j,
            count_type(netlist.nodes@, MacroType::CLB) + j == count_type(
                old(netlist).nodes@,
                MacroType::CLB,
            ),
        decreases picks@.len() - j,
    {
        let at = picks[j];
        let ghost earlier = netlist.nodes@;
        let changed = NetlistNode { id: netlist.nodes[at].id, macro_type };
        proof {
            let done = picks@.take(j as int);
            assert(!holds(done, at as int)) by {
                if holds(done, at as int) {
                    let k = choose|k: int| 0 <= k < done.len() && #[trigger] done[k] == at;
                    assert(picks@[k] == picks@[j as int]);
                }
            }
            assert(earlier[at as int].macro_type == MacroType::CLB);
        }
        netlist.nodes.set(at, changed);
        proof {
            let done = picks@.take(j as int);
            let next = picks@.take(j + 1);
            assert(next =~= done.push(at));
            assert forall|i: int| 0 <= i < netlist.nodes@.len() implies (#[trigger] netlist.nodes@[i]).id
                == old(netlist).nodes@[i].id && netlist.nodes@[i].macro_type == (if holds(next, i) {
                macro_type
            } else {
                old(netlist).nodes@[i].macro_type
            }) by {
                assert(earlier[i].id == old(netlist).nodes@[i].id);
                if i == at {
                    assert(next[j as int] == at);
                } else if holds(done, i) {
                    let k = choose|k: int| 0 <= k < done.len() && #[trigger] done[k] == i;
                    assert(next[k] == i);
                } else if holds(next, i) {
                    let k = choose|k: int| 0 <= k < next.len() && #[trigger] next[k] == i;
                    assert(done[k] == i);
                }
            }
            assert forall|t: MacroType| t != macro_type && t != MacroType::CLB implies #[trigger] count_type(
                netlist.nodes@,
                t,
            ) == count_type(old(netlist).nodes@, t) by {
                lemma_count_type_update(earlier, at as int, changed, t);
            }
            lemma_count_type_update(earlier, at as int, changed, macro_type);
            lemma_count_type_update(earlier, at as int, changed, MacroType::CLB);
        }
        j += 1;
    }
    proof {
        assert(picks@.take(j as int) =~= picks@);
    }
}

/// For each of the first `n` positions, whether an edge of `edges` starts or
/// ends there.
pub fn touched_flags(n: usize, edges: &Vec<NetlistEdge>) -> (flags: Vec<bool>)
    requires
        forall|e: int|
            0 <= e < edges@.len() ==> (#[trigger] edges@[e]).source < n && edges@[e].target < n,
    ensures
        flags@.len() == n,
        forall|i: int| 0 <= i < n ==> #[trigger] flags@[i] == touched(edges@, i),
{
    let mut flags: Vec<bool> = Vec::new();
    let mut i: usize = 0;
    while i < n
        invariant
            i <= n,
            flags@.len() == i,
            forall|k: int| 0 <= k < i ==> !#[trigger] flags@[k],
        decreases n - i,
    {
        flags.push(false);
        i += 1;
    }
    let mut e: usize = 0;
    while e < edges.len()
        invariant
            e <= edges@.len(),
            flags@.len() == n,
            forall|k: int|
                0 <= k < edges@.len() ==> (#[trigger] edges@[k]).source < n && edges@[k].target
                    < n,
            forall|k: int| 0 <= k < n ==> #[trigger] flags@[k] == touched(edges@.take(e as int), k),
        decreases edges@.len() - e,
    {
        let edge = edges[e];
        let ghost earlier = flags@;
        flags.set(edge.source, true);
        flags.set(edge.target, true);
        proof {
            let before = edges@.take(e as int);
            let after = edges@.take(e + 1);
            assert forall|k: int| 0 <= k < n implies #[trigger] flags@[k] == touched(after, k) by {
                assert(earlier[k] == touched(before, k));
                if touched(before, k) {
                    let w = choose|w: int|
                        0 <= w < before.len() && ((#[trigger] before[w]).source == k
                            || before[w].target == k);
                    assert(after[w] == before[w]);
                }
                if edge.source == k || edge.target == k {
                    assert(after[e as int] == edge);
                }
                if touched(after, k) {
                    let w = choose|w: int|
                        0 <= w < after.len() && ((#[trigger] after[w]).source == k
                            || after[w].target == k);
                    if w < e {
                        assert(before[w] == after[w]);
                    }
                }
            }
        }
        e += 1;
    }
    proof {
        assert(edges@.take(e as int) =~= edges@);
    }
    flags
}

/// A netlist of `n_nodes` nodes with random identifiers, joined by
/// `random_edges`.  Of the nodes, `n_io` chosen at random need an I/O site
/// and `n_bram` others, chosen at random, a block memory (fewer where there
/// are not that many nodes); the rest need a logic site.  Each node that no
/// edge of `random_edges` touches gets an edge from a node, chosen at random,
/// that one does touch.
pub fn build_simple_netlist(
    n_nodes: u32,
    n_io: u32,
    n_bram: u32,
    random_edges: &Vec<NetlistEdge>,
) -> (netlist: NetlistGraph)
    requires
        forall|e: int|
            0 <= e < random_edges@.len() ==> (#[trigger] random_edges@[e]).source < n_nodes
                && random_edges@[e].target < n_nodes,
        n_nodes > 0 ==> random_edges@.len() > 0,
    ensures
        netlist.wf(),
        netlist.nodes@.len() == n_nodes,
        count_type(netlist.nodes@, MacroType::IO) == (if n_io <= n_nodes {
            n_io
        } else {
            n_nodes
        }),
        count_type(netlist.nodes@, MacroType::BRAM) == (if n_bram <= n_nodes - count_type(
            netlist.nodes@,
            MacroType::IO,
        ) {
            n_bram as int
        } else {
            n_nodes - count_type(netlist.nodes@, MacroType::IO)
        }),
        count_type(netlist.nodes@, MacroType::DSP) == 0,
        count_type(netlist.nodes@, MacroType::CLB) == n_nodes - count_type(
            netlist.nodes@,
            MacroType::IO,
        ) - count_type(netlist.nodes@, MacroType::BRAM),
        netlist.edges@.len() >= random_edges@.len(),
        forall|k: int|
            0 <= k < random_edges@.len() ==> #[trigger] netlist.edges@[k] == random_edges@[k],
        forall|k: int|
            random_edges@.len() <= k < netlist.edges@.len() ==> touched(
                random_edges@,
                (#[trigger] netlist.edges@[k]).source as int,
            ) && !touched(random_edges@, netlist.edges@[k].target as int),
        forall|j: int, k: int|
            random_edges@.len() <= j < k < netlist.edges@.len() ==> (#[trigger] netlist.edges@[j]).target
                < (#[trigger] netlist.edges@[k]).target,
        forall|i: int|
            0 <= i < n_nodes && !#[trigger] touched(random_edges@, i) ==> exists|k: int|
                random_edges@.len() <= k < netlist.edges@.len() && (#[trigger] netlist.edges@[k]).target
                    == i,
{
    let n = n_nodes as usize;
    let mut netlist = NetlistGraph::new();
    let mut i: usize = 0;
    while i < n
        invariant
            i <= n,
            netlist.nodes@.len() == i,
            netlist.edges@.len() == 0,
            count_type(netlist.nodes@, MacroType::CLB) == i,
            count_type(netlist.nodes@, MacroType::DSP) == 0,
            count_type(netlist.nodes@, MacroType::BRAM) == 0,
            count_type(netlist.nodes@, MacroType::IO) == 0,
        decreases n - i,
    {
        let ghost earlier = netlist.nodes@;
        let node = NetlistNode { id: random_u32(), macro_type: MacroType::CLB };
        netlist.add_node(node);
        proof {
            assert(netlist.nodes@.drop_last() =~= earlier);
        }
        i += 1;
    }
    let mut e: usize = 0;
    while e < random_edges.len()
        invariant
            e <= random_edges@.len(),
            n == n_nodes,
            netlist.nodes@.len() == n,
            netlist.edges@ == random_edges@.take(e as int),
            forall|k: int|
                0 <= k < random_edges@.len() ==> (#[trigger] random_edges@[k]).source < n_nodes
                    && random_edges@[k].target < n_nodes,
            count_type(netlist.nodes@, MacroType::CLB) == n,
            count_type(netlist.nodes@, MacroType::DSP) == 0,
            count_type(netlist.nodes@, MacroType::BRAM) == 0,
            count_type(netlist.nodes@, MacroType::IO) == 0,
        decreases random_edges@.len() - e,
    {
        let edge = random_edges[e];
        netlist.add_edge(edge.source, edge.target);
        proof {
            assert(netlist.edges@ =~= random_edges@.take(e + 1));
        }
        e += 1;
    }
    proof {
        assert(random_edges@.take(e as int) =~= random_edges@);
    }

    let logic_nodes = clb_node_indices(&netlist);
    let io_nodes = choose_several(&logic_nodes, n_io as usize);
    proof {
        lemma_selection_distinct(io_nodes@, logic_nodes@);
        assert forall|j: int| 0 <= j < io_nodes@.len() implies (#[trigger] io_nodes@[j])
            < netlist.nodes@.len() && netlist.nodes@[io_nodes@[j] as int].macro_type
            == MacroType::CLB by {
            let k = choose|k: int|
                0 <= k < logic_nodes@.len() && #[trigger] logic_nodes@[k] == io_nodes@[j];
            assert(logic_nodes@[k] < netlist.nodes@.len());
        }
    }
    relabel(&mut netlist, &io_nodes, MacroType::IO);

    let logic_nodes = clb_node_indices(&netlist);
    let bram_nodes = choose_several(&logic_nodes, n_bram as usize);
    proof {
        lemma_selection_distinct(bram_nodes@, logic_nodes@);
        assert forall|j: int| 0 <= j < bram_nodes@.len() implies (#[trigger] bram_nodes@[j])
            < netlist.nodes@.len() && netlist.nodes@[bram_nodes@[j] as int].macro_type
            == MacroType::CLB by {
            let k = choose|k: int|
                0 <= k < logic_nodes@.len() && #[trigger] logic_nodes@[k] == bram_nodes@[j];
            assert(logic_nodes@[k] < netlist.nodes@.len());
        }
    }
    relabel(&mut netlist, &bram_nodes, MacroType::BRAM);

    let flags = touched_flags(n, random_edges);
    let mut connected: Vec<usize> = Vec::new();
    let mut i: usize = 0;
    while i < n
        invariant
            i <= n,
            flags@.len() == n,
            forall|j: int|
                0 <= j < connected@.len() ==> (#[trigger] connected@[j]) < n && flags@[connected@[j] as int],
            forall|k: int| 0 <= k < i && #[trigger] flags@[k] ==> holds(connected@, k),
        decreases n - i,
    {
        if flags[i] {
            let ghost earlier = connected@;
            connected.push(i);
            proof {
                assert forall|k: int| 0 <= k < i + 1 && #[trigger] flags@[k] implies holds(
                    connected@,
                    k,
                ) by {
                    if k < i {
                        let j = choose|j: int| 0 <= j < earlier.len() && #[trigger] earlier[j] == k;
                        assert(connected@[j] == k);
                    } else {
                        assert(connected@[earlier.len() as int] == k);
                    }
                }
            }
        }
        i += 1;
    }
    let ghost given = random_edges@.len();
    let mut i: usize = 0;
    while i < n
        invariant
            i <= n,
            n == n_nodes,
            flags@.len() == n,
            given == random_edges@.len(),
            n_nodes > 0 ==> random_edges@.len() > 0,
            forall|k: int|
                0 <= k < random_edges@.len() ==> (#[trigger] random_edges@[k]).source < n_nodes
                    && random_edges@[k].target < n_nodes,
            forall|k: int| 0 <= k < n ==> #[trigger] flags@[k] == touched(random_edges@, k),
            forall|j: int|
                0 <= j < connected@.len() ==> (#[trigger] connected@[j]) < n && flags@[connected@[j] as int],
            forall|k: int| 0 <= k < n && #[trigger] flags@[k] ==> holds(connected@, k),
            netlist.wf(),
            netlist.nodes@.len() == n,
            netlist.edges@.len() >= given,
            forall|k: int| 0 <= k < given ==> #[trigger] netlist.edges@[k] == random_edges@[k],
            forall|k: int|
                given <= k < netlist.edges@.len() ==> touched(
                    random_edges@,
                    (#[trigger] netlist.edges@[k]).source as int,
                ) && !touched(random_edges@, netlist.edges@[k].target as int)
                    && netlist.edges@[k].target < i,
            forall|j: int, k: int|
                given <= j < k < netlist.edges@.len() ==> (#[trigger] netlist.edges@[j]).target
                    < (#[trigger] netlist.edges@[k]).target,
            forall|k: int|
                0 <= k < i && !#[trigger] touched(random_edges@, k) ==> exists|j: int|
                    given <= j < netlist.edges@.len() && (#[trigger] netlist.edges@[j]).target == k,
            count_type(netlist.nodes@, MacroType::IO) == (if n_io <= n_nodes {
                n_io
            } else {
                n_nodes
            }),
            count_type(netlist.nodes@, MacroType::BRAM) == (if n_bram <= n_nodes - count_type(
                netlist.nodes@,
                MacroType::IO,
            ) {
                n_bram as int
            } else {
                n_nodes - count_type(netlist.nodes@, MacroType::IO)
            }),
            count_type(netlist.nodes@, MacroType::DSP) == 0,
            count_type(netlist.nodes@, MacroType::CLB) == n_nodes - count_type(
                netlist.nodes@,
                MacroType::IO,
            ) - count_type(netlist.nodes@, MacroType::BRAM),
        decreases n - i,
    {
        if !flags[i] {
            proof {
                let first = random_edges@[0];
                assert(touched(random_edges@, first.source as int));
                assert(flags@[first.source as int]);
                assert(holds(connected@, first.source as int));
                assert(connected@.len() > 0);
            }
            let ghost earlier = netlist.edges@;
            match choose_one(&connected) {
                Some(source) => {
                    proof {
                        let j = choose|j: int| 0 <= j < connected@.len() && connected@[j] == source;
                        assert(connected@[j] < n && flags@[connected@[j] as int]);
                    }
                    netlist.add_edge(source, i);
                    proof {
                        assert forall|k: int|
                            0 <= k < i + 1 && !#[trigger] touched(
                                random_edges@,
                                k,
                            ) implies exists|j: int|
                            given <= j < netlist.edges@.len() && (#[trigger] netlist.edges@[j]).target
                                == k by {
                            if k < i {
                                let j = choose|j: int|
                                    given <= j < earlier.len() && (#[trigger] earlier[j]).target == k;
                                assert(netlist.edges@[j].target == k);
                            } else {
                                assert(netlist.edges@[earlier.len() as int].target == k);
                            }
                        }
                    }
                },
                None => {},
            }
        }
        i += 1;
    }
    netlist
}

} // verus!
