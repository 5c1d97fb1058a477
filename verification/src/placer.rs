//! A placement of the nodes of a netlist on the sites of a layout, what it
//! costs, and when it is valid.
//!
//! The placement stores, under the key of each placed node, the coordinate of
//! the site that the node occupies.

use crate::fpga_layout::{
    coord_key, key_coord, lemma_coord_key_bijective, scan_before, FPGALayout, FPGALayoutCoordinate,
    FPGALayoutType, MacroType,
};
use crate::hashing::{lists_entries, map_entries, map_get, map_insert, set_contains, set_insert};
use crate::netlist::{is_node_key, key_node, node_key, NetlistEdge, NetlistGraph, NetlistNode};
use rustc_hash::{FxHashMap, FxHashSet};
use vstd::prelude::*;

verus! {

/// The Manhattan distance between two sites.
pub open spec fn manhattan(a: FPGALayoutCoordinate, b: FPGALayoutCoordinate) -> int {
    (if a.x >= b.x {
        a.x - b.x
    } else {
        b.x - a.x
    }) + (if a.y >= b.y {
        a.y - b.y
    } else {
        b.y - a.y
    })
}

/// The summed Manhattan length of the first `k` of `edges`, each measured
/// between the sites at which `placed` holds its two nodes.
pub open spec fn wirelength(
    nodes: Seq<NetlistNode>,
    edges: Seq<NetlistEdge>,
    placed: Map<u64, FPGALayoutCoordinate>,
    k: nat,
) -> nat
    decreases k,
{
    if k == 0 {
        0
    } else {
        let edge = edges[k - 1];
        let length = manhattan(
            placed[node_key(nodes[edge.source as int])],
            placed[node_key(nodes[edge.target as int])],
        );
        wirelength(nodes, edges, placed, (k - 1) as nat) + length as nat
    }
}

/// Whether `placed` holds a node at `c`.
pub open spec fn site_taken(placed: Map<u64, FPGALayoutCoordinate>, c: FPGALayoutCoordinate) -> bool {
    exists|k: u64| #[trigger] placed.contains_key(k) && placed[k] == c
}

/// Whether `c` is a site of `layout` that holds `t` and at which `placed`
/// holds no node.
pub open spec fn site_free(
    layout: &FPGALayout,
    placed: Map<u64, FPGALayoutCoordinate>,
    c: FPGALayoutCoordinate,
    t: MacroType,
) -> bool {
    &&& layout.in_bounds(c)
    &&& layout.site(c) == FPGALayoutType::MacroType(t)
    &&& !site_taken(placed, c)
}

/// The Manhattan distance between two sites.
pub fn manhattan_distance(a: &FPGALayoutCoordinate, b: &FPGALayoutCoordinate) -> (d: u64)
    ensures
        d == manhattan(*a, *b),
        d <= 0x1_ffff_fffe,
{
    let dx: u32 = if a.x >= b.x {
        a.x - b.x
    } else {
        b.x - a.x
    };
    let dy: u32 = if a.y >= b.y {
        a.y - b.y
    } else {
        b.y - a.y
    };
    dx as u64 + dy as u64
}

/// An assignment of nodes of `netlist` to sites of `layout`.
#[derive(Debug)]
pub struct PlacementSolution<'a> {
    pub layout: &'a FPGALayout,
    pub netlist: &'a NetlistGraph,
    /// The site of each placed node, under the node's key.
    pub solution_map: FxHashMap<u64, FPGALayoutCoordinate>,
}

impl<'a> Clone for PlacementSolution<'a> {
    fn clone(&self) -> (copy: Self)
        ensures
            copy.same_as(self),
    {
        PlacementSolution {
            layout: self.layout,
            netlist: self.netlist,
            solution_map: self.solution_map.clone(),
        }
    }
}

impl<'a> PlacementSolution<'a> {
    /// Whether the two placements are for the same layout and netlist and
    /// place the same nodes on the same sites.
    pub open spec fn same_as(&self, other: &PlacementSolution<'a>) -> bool {
        &&& self.layout == other.layout
        &&& self.netlist == other.netlist
        &&& self.solution_map@ == other.solution_map@
    }

    /// Whether `node` is placed.
    pub open spec fn is_placed(&self, node: NetlistNode) -> bool {
        self.solution_map@.contains_key(node_key(node))
    }

    /// The site that `node` occupies, for a node that is placed.
    pub open spec fn location(&self, node: NetlistNode) -> FPGALayoutCoordinate {
        self.solution_map@[node_key(node)]
    }

    /// Whether some node occupies the site at `c`.
    pub open spec fn occupied(&self, c: FPGALayoutCoordinate) -> bool {
        site_taken(self.solution_map@, c)
    }

    /// Whether `c` is a site of the layout that holds `t` and that no node
    /// occupies.
    pub open spec fn free_site(&self, c: FPGALayoutCoordinate, t: MacroType) -> bool {
        site_free(self.layout, self.solution_map@, c, t)
    }

    /// Whether `sites` lists, column by column, exactly the free sites that
    /// hold `t`.
    pub open spec fn lists_free_sites(&self, sites: Seq<FPGALayoutCoordinate>, t: MacroType) -> bool {
        &&& forall|i: int| 0 <= i < sites.len() ==> self.free_site(#[trigger] sites[i], t)
        &&& forall|c: FPGALayoutCoordinate| #[trigger] self.free_site(c, t) ==> sites.contains(c)
        &&& forall|i: int, j: int|
            0 <= i < j < sites.len() ==> scan_before(#[trigger] sites[i], #[trigger] sites[j])
    }

    /// Whether every node of the netlist is placed.
    pub open spec fn total(&self) -> bool {
        forall|i: int|
            0 <= i < self.netlist.nodes@.len() ==> self.is_placed(#[trigger] self.netlist.nodes@[i])
    }

    /// Whether both ends of every edge of the netlist are placed.
    pub open spec fn edges_placed(&self) -> bool {
        forall|e: int|
            0 <= e < self.netlist.edges@.len() ==> self.is_placed(
                self.netlist.nodes@[(#[trigger] self.netlist.edges@[e]).source as int],
            ) && self.is_placed(self.netlist.nodes@[self.netlist.edges@[e].target as int])
    }

    /// Whether every key of the placement is that of a node whose identifier
    /// occurs in the netlist.
    pub open spec fn keys_known(&self) -> bool {
        forall|k: u64| #[trigger]
            self.solution_map@.contains_key(k) ==> is_node_key(k) && self.netlist.has_id(
                key_node(k).id,
            )
    }

    /// Whether no two nodes occupy the same site.
    pub open spec fn injective(&self) -> bool {
        forall|j: u64, k: u64|
            #![trigger self.solution_map@.contains_key(j), self.solution_map@.contains_key(k)]
            self.solution_map@.contains_key(j) && self.solution_map@.contains_key(k) && j != k
                ==> self.solution_map@[j] != self.solution_map@[k]
    }

    /// Whether every placed node occupies a site of the layout that holds
    /// the type it needs.
    pub open spec fn type_compatible(&self) -> bool {
        forall|k: u64| #[trigger]
            self.solution_map@.contains_key(k) ==> self.layout.spec_get(self.solution_map@[k])
                == Some(FPGALayoutType::MacroType(key_node(k).macro_type))
    }

    /// Whether the nodes placed so far are nodes known to the netlist, each
    /// on a site of its own that holds the type it needs.
    pub open spec fn consistent(&self) -> bool {
        &&& self.keys_known()
        &&& self.injective()
        &&& self.type_compatible()
    }

    /// Whether the placement is complete and consistent.
    pub open spec fn spec_valid(&self) -> bool {
        &&& self.total()
        &&& self.consistent()
    }

    /// The summed Manhattan length of all edges of the netlist.
    pub open spec fn spec_cost(&self) -> nat {
        wirelength(
            self.netlist.nodes@,
            self.netlist.edges@,
            self.solution_map@,
            self.netlist.edges@.len(),
        )
    }

    /// Two placements for the same layout and netlist that place the same
    /// nodes on the same sites cost the same, and the one is complete,
    /// consistent or valid exactly where the other is.
    pub proof fn lemma_same_placement(&self, other: &PlacementSolution<'a>)
        requires
            self.same_as(other),
        ensures
            self.spec_cost() == other.spec_cost(),
            self.edges_placed() == other.edges_placed(),
            self.total() == other.total(),
            self.consistent() == other.consistent(),
            self.spec_valid() == other.spec_valid(),
    {
        if self.total() {
            assert forall|i: int| 0 <= i < other.netlist.nodes@.len() implies other.is_placed(
                #[trigger] other.netlist.nodes@[i],
            ) by {
                assert(self.is_placed(self.netlist.nodes@[i]));
            }
        }
        if other.total() {
            assert forall|i: int| 0 <= i < self.netlist.nodes@.len() implies self.is_placed(
                #[trigger] self.netlist.nodes@[i],
            ) by {
                assert(other.is_placed(other.netlist.nodes@[i]));
            }
        }
    }

    /// In a complete placement both ends of every edge are placed.
    pub proof fn lemma_total_places_edges(&self)
        requires
            self.netlist.wf(),
            self.total(),
        ensures
            self.edges_placed(),
    {
        assert forall|e: int| 0 <= e < self.netlist.edges@.len() implies self.is_placed(
            self.netlist.nodes@[(#[trigger] self.netlist.edges@[e]).source as int],
        ) && self.is_placed(self.netlist.nodes@[self.netlist.edges@[e].target as int]) by {
            let edge = self.netlist.edges@[e];
            assert(self.is_placed(self.netlist.nodes@[edge.source as int]));
            assert(self.is_placed(self.netlist.nodes@[edge.target as int]));
        }
    }

    /// A placement in which no node is placed yet.
    pub fn new(layout: &'a FPGALayout, netlist: &'a NetlistGraph) -> (solution: Self)
        ensures
            solution.layout == layout,
            solution.netlist == netlist,
            solution.solution_map@ == Map::<u64, FPGALayoutCoordinate>::empty(),
    {
        PlacementSolution { layout, netlist, solution_map: FxHashMap::default() }
    }

    /// Places `node` at `location`, wherever it was before.  Nothing is
    /// checked: the site may be taken or of another type.
    pub fn place_node(&mut self, node: NetlistNode, location: FPGALayoutCoordinate)
        ensures
            final(self).layout == old(self).layout,
            final(self).netlist == old(self).netlist,
            final(self).solution_map@ == old(self).solution_map@.insert(node_key(node), location),
    {
        map_insert(&mut self.solution_map, node.key(), location);
    }

    /// The site that `node` occupies, or `None` where it is not placed.
    pub fn get_location(&self, node: &NetlistNode) -> (r: Option<FPGALayoutCoordinate>)
        ensures
            r == (if self.is_placed(*node) {
                Some(self.location(*node))
            } else {
                None
            }),
    {
        map_get(&self.solution_map, node.key())
    }

    /// The nodes of the netlist that are not placed, in the netlist's order.
    pub fn get_unplaced_nodes(&self) -> (unplaced: Vec<NetlistNode>)
        ensures
            unplaced@ == self.netlist.nodes@.filter(|n: NetlistNode| !self.is_placed(n)),
    {
        let ghost missing = |n: NetlistNode| !self.is_placed(n);
        let mut unplaced: Vec<NetlistNode> = Vec::new();
        let mut i: usize = 0;
        proof {
            assert(self.netlist.nodes@.take(0) =~= Seq::<NetlistNode>::empty());
            reveal_with_fuel(Seq::<_>::filter, 1);
            assert(self.netlist.nodes@.take(0).filter(missing) =~= Seq::<NetlistNode>::empty());
        }
        while i < self.netlist.nodes.len()
            invariant
                i <= self.netlist.nodes@.len(),
                missing == |n: NetlistNode| !self.is_placed(n),
                unplaced@ == self.netlist.nodes@.take(i as int).filter(missing),
            decreases self.netlist.nodes@.len() - i,
        {
            let node = self.netlist.nodes[i];
            proof {
                let done = self.netlist.nodes@.take(i as int);
                assert(self.netlist.nodes@.take(i + 1) =~= done.push(node));
                done.lemma_filter_push(node, missing);
            }
            if self.get_location(&node).is_none() {
                unplaced.push(node);
            }
            i += 1;
        }
        proof {
            assert(self.netlist.nodes@.take(i as int) =~= self.netlist.nodes@);
        }
        unplaced
    }

    /// Whether the placement is complete and consistent: every node of the
    /// netlist is placed, every placed node is known to the netlist, no site
    /// is used twice, and every node sits on a site of the type it needs.
    pub fn valid(&self) -> (b: bool)
        ensures
            b == self.spec_valid(),
    {
        let mut i: usize = 0;
        while i < self.netlist.nodes.len()
            invariant
                i <= self.netlist.nodes@.len(),
                forall|j: int| 0 <= j < i ==> self.is_placed(#[trigger] self.netlist.nodes@[j]),
            decreases self.netlist.nodes@.len() - i,
        {
            let node = self.netlist.nodes[i];
            if self.get_location(&node).is_none() {
                return false;
            }
            i += 1;
        }
        let entries = map_entries(&self.solution_map);
        let mut used: FxHashSet<u64> = FxHashSet::default();
        let mut j: usize = 0;
        while j < entries.len()
            invariant
                j <= entries@.len(),
                self.total(),
                lists_entries(entries@, self.solution_map@),
                forall|m: int|
                    0 <= m < j ==> is_node_key((#[trigger] entries@[m]).0) && self.netlist.has_id(
                        key_node(entries@[m].0).id,
                    ) && self.layout.spec_get(entries@[m].1) == Some(
                        FPGALayoutType::MacroType(key_node(entries@[m].0).macro_type),
                    ),
                forall|m: int, n: int|
                    0 <= m < n < j ==> (#[trigger] entries@[m]).1 != (#[trigger] entries@[n]).1,
                forall|k: u64| #[trigger]
                    used@.contains(k) <==> exists|m: int|
                        0 <= m < j && coord_key((#[trigger] entries@[m]).1) == k,
            decreases entries@.len() - j,
        {
            let key = entries[j].0;
            let location = entries[j].1;
            proof {
                lemma_coord_key_bijective();
                assert(self.solution_map@.contains_key(key) && self.solution_map@[key]
                    == location);
            }
            let node = match NetlistNode::from_key(key) {
                Some(node) => node,
                None => {
                    return false;
                },
            };
            if !self.netlist.contains_id(node.id) {
                return false;
            }
            if set_contains(&used, location.key()) {
                proof {
                    let m = choose|m: int|
                        0 <= m < j && coord_key((#[trigger] entries@[m]).1) == coord_key(location);
                    assert(key_coord(coord_key(entries@[m].1)) == key_coord(coord_key(location)));
                    assert(self.solution_map@.contains_key(entries@[m].0));
                    assert(entries@[m].0 != entries@[j as int].0);
                }
                return false;
            }
            let fits = match self.layout.get(&location) {
                Some(FPGALayoutType::MacroType(found)) => found == node.macro_type,
                _ => false,
            };
            if !fits {
                return false;
            }
            let ghost earlier = used@;
            set_insert(&mut used, location.key());
            proof {
                assert forall|k: u64| #[trigger] used@.contains(k) <==> exists|m: int|
                    0 <= m < j + 1 && coord_key((#[trigger] entries@[m]).1) == k by {
                    if earlier.contains(k) {
                        let m = choose|m: int|
                            0 <= m < j && coord_key((#[trigger] entries@[m]).1) == k;
                        assert(0 <= m < j + 1 && coord_key(entries@[m].1) == k);
                    }
                    if k == coord_key(location) {
                        assert(0 <= j < j + 1 && coord_key(entries@[j as int].1) == k);
                    }
                }
                assert forall|m: int, n: int| 0 <= m < n < j + 1 implies (#[trigger] entries@[m]).1
                    != (#[trigger] entries@[n]).1 by {
                    if n == j && entries@[m].1 == location {
                        assert(earlier.contains(coord_key(location)));
                    }
                }
            }
            j += 1;
        }
        proof {
            assert forall|k: u64| #[trigger] self.solution_map@.contains_key(k) implies is_node_key(
                k,
            ) && self.netlist.has_id(key_node(k).id) && self.layout.spec_get(self.solution_map@[k])
                == Some(FPGALayoutType::MacroType(key_node(k).macro_type)) by {
                let m = choose|m: int| 0 <= m < entries@.len() && (#[trigger] entries@[m]).0 == k;
                assert(is_node_key(entries@[m].0));
            }
            assert forall|a: u64, b: u64|
                #![trigger self.solution_map@.contains_key(a), self.solution_map@.contains_key(b)]
                self.solution_map@.contains_key(a) && self.solution_map@.contains_key(b) && a
                    != b implies self.solution_map@[a] != self.solution_map@[b] by {
                let m = choose|m: int| 0 <= m < entries@.len() && (#[trigger] entries@[m]).0 == a;
                let n = choose|n: int| 0 <= n < entries@.len() && (#[trigger] entries@[n]).0 == b;
                if m < n {
                    assert(entries@[m].1 != entries@[n].1);
                } else {
                    assert(entries@[n].1 != entries@[m].1);
                }
            }
        }
        true
    }

    /// The summed Manhattan length of all edges of the netlist.  Both ends of
    /// every edge must be placed.
    pub fn cost_bb(&self) -> (cost: u128)
        requires
            self.netlist.wf(),
            self.edges_placed(),
        ensures
            cost == self.spec_cost(),
    {
        let mut cost: u128 = 0;
        let mut e: usize = 0;
        while e < self.netlist.edges.len()
            invariant
                e <= self.netlist.edges@.len(),
                self.netlist.wf(),
                self.edges_placed(),
                cost == wirelength(
                    self.netlist.nodes@,
                    self.netlist.edges@,
                    self.solution_map@,
                    e as nat,
                ),
                cost <= e * 0x2_0000_0000,
            decreases self.netlist.edges@.len() - e,
        {
            let edge = self.netlist.edges[e];
            let source = self.netlist.nodes[edge.source];
            let target = self.netlist.nodes[edge.target];
            assert(self.netlist.edges@[e as int] == edge);
            let from = self.get_location(&source).unwrap();
            let to = self.get_location(&target).unwrap();
            cost += manhattan_distance(&from, &to) as u128;
            e += 1;
        }
        cost
    }

    /// The keys of the sites that nodes occupy.
    fn occupied_sites(&self) -> (taken: FxHashSet<u64>)
        ensures
            forall|c: FPGALayoutCoordinate| #[trigger]
                taken@.contains(coord_key(c)) <==> self.occupied(c),
    {
        let entries = map_entries(&self.solution_map);
        let mut taken: FxHashSet<u64> = FxHashSet::default();
        let mut i: usize = 0;
        while i < entries.len()
            invariant
                i <= entries@.len(),
                lists_entries(entries@, self.solution_map@),
                forall|k: u64| #[trigger]
                    taken@.contains(k) <==> exists|j: int|
                        0 <= j < i && coord_key((#[trigger] entries@[j]).1) == k,
            decreases entries@.len() - i,
        {
            let ghost earlier = taken@;
            set_insert(&mut taken, entries[i].1.key());
            proof {
                assert forall|k: u64| #[trigger] taken@.contains(k) <==> exists|j: int|
                    0 <= j < i + 1 && coord_key((#[trigger] entries@[j]).1) == k by {
                    if earlier.contains(k) {
                        let j = choose|j: int|
                            0 <= j < i && coord_key((#[trigger] entries@[j]).1) == k;
                        assert(0 <= j < i + 1 && coord_key(entries@[j].1) == k);
                    }
                    if k == coord_key(entries@[i as int].1) {
                        assert(0 <= i < i + 1 && coord_key(entries@[i as int].1) == k);
                    }
                }
            }
            i += 1;
        }
        proof {
            lemma_coord_key_bijective();
            assert forall|c: FPGALayoutCoordinate| #[trigger]
                taken@.contains(coord_key(c)) <==> self.occupied(c) by {
                if taken@.contains(coord_key(c)) {
                    let j = choose|j: int|
                        0 <= j < i && coord_key((#[trigger] entries@[j]).1) == coord_key(c);
                    assert(key_coord(coord_key(entries@[j].1)) == key_coord(coord_key(c)));
                    assert(self.solution_map@.contains_key(entries@[j].0));
                }
                if self.occupied(c) {
                    let k = choose|k: u64| #[trigger]
                        self.solution_map@.contains_key(k) && self.solution_map@[k] == c;
                    let j = choose|j: int| 0 <= j < entries@.len() && (#[trigger] entries@[j]).0 == k;
                    assert(coord_key(entries@[j].1) == coord_key(c));
                }
            }
        }
        taken
    }

    /// The sites of the layout that hold `macro_type` and that no node
    /// occupies, column by column.
    pub fn get_possible_sites(&self, macro_type: MacroType) -> (sites: Vec<FPGALayoutCoordinate>)
        ensures
            self.lists_free_sites(sites@, macro_type),
    {
        let taken = self.occupied_sites();
        let mut sites: Vec<FPGALayoutCoordinate> = Vec::new();
        let width = self.layout.width;
        let height = self.layout.height;
        let mut x: u32 = 0;
        while x < width
            invariant
                x <= width,
                width == self.layout.width,
                height == self.layout.height,
                forall|c: FPGALayoutCoordinate| #[trigger]
                    taken@.contains(coord_key(c)) <==> self.occupied(c),
                forall|i: int| 0 <= i < sites@.len() ==> self.free_site(#[trigger] sites@[i], macro_type) && sites@[i].x < x,
                forall|c: FPGALayoutCoordinate| #[trigger] self.free_site(c, macro_type) && c.x < x ==> sites@.contains(c),
                forall|i: int, j: int|
                    0 <= i < j < sites@.len() ==> scan_before(
                        #[trigger] sites@[i],
                        #[trigger] sites@[j],
                    ),
            decreases width - x,
        {
            let mut y: u32 = 0;
            while y < height
                invariant
                    x < width,
                    y <= height,
                    width == self.layout.width,
                    height == self.layout.height,
                        forall|c: FPGALayoutCoordinate| #[trigger]
                        taken@.contains(coord_key(c)) <==> self.occupied(c),
                    forall|i: int|
                        0 <= i < sites@.len() ==> self.free_site(#[trigger] sites@[i], macro_type) && (sites@[i].x < x
                            || (sites@[i].x == x && sites@[i].y < y)),
                    forall|c: FPGALayoutCoordinate| #[trigger]
                        self.free_site(c, macro_type) && (c.x < x || (c.x == x && c.y < y))
                            ==> sites@.contains(c),
                    forall|i: int, j: int|
                        0 <= i < j < sites@.len() ==> scan_before(
                            #[trigger] sites@[i],
                            #[trigger] sites@[j],
                        ),
                decreases height - y,
            {
                let here = FPGALayoutCoordinate::new(x, y);
                let ghost earlier = sites@;
                let is_taken = set_contains(&taken, here.key());
                assert(is_taken == self.occupied(here)) by {
                    assert(taken@.contains(coord_key(here)) <==> self.occupied(here));
                }
                let mut fits = false;
                if !is_taken {
                    match self.layout.get(&here) {
                        Some(FPGALayoutType::MacroType(found)) => {
                            if found == macro_type {
                                fits = true;
                            }
                        },
                        _ => {},
                    }
                }
                assert(fits == self.free_site(here, macro_type));
                if fits {
                    sites.push(here);
                }
                proof {
                    assert forall|c: FPGALayoutCoordinate| #[trigger]
                        self.free_site(c, macro_type) && (c.x < x || (c.x == x && c.y < y + 1)) implies sites@.contains(
                        c,
                    ) by {
                        if c.x < x || (c.x == x && c.y < y) {
                            assert(earlier.contains(c));
                            let i = choose|i: int| 0 <= i < earlier.len() && earlier[i] == c;
                            assert(sites@[i] == c);
                        } else {
                            assert(c == here);
                            assert(sites@[earlier.len() as int] == c);
                        }
                    }
                }
                y += 1;
            }
            x += 1;
        }
        sites
    }
}

} // verus!
