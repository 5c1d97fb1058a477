//! The first placement: every node on a free site of its type.
//!
//! A placement can be made exactly when the layout has, of every type, at
//! least as many sites as the netlist has nodes.  The sites that nodes of
//! one type occupy are then always fewer than the sites of that type, so
//! that one of them is free when the next node of the type comes.

use crate::fpga_layout::{
    layout_type_key, macro_key, FPGALayout, FPGALayoutCoordinate, FPGALayoutType, MacroType,
};
use crate::hashing::map_get;
use crate::moves::{
    closest_site, lemma_first_closest_is_nearest, lemma_nearest_free_unique, nearest_free,
};
use crate::netlist::{
    count_type, key_node, key_set, lemma_key_set_len, lemma_count_type_prefix, lemma_count_type_step, lemma_node_key_bijective,
    node_key, NetlistGraph, NetlistNode,
};
use crate::placer::{site_free, PlacementSolution};
use crate::random::random_index;
use rustc_hash::FxHashMap;
use vstd::prelude::*;
use vstd::set_lib::lemma_len_subset;

verus! {

/// How the first placement chooses among the free sites.
#[derive(Debug, Clone, Copy, PartialEq, Eq, Structural)]
pub enum InitialPlacerMethod {
    /// Any free site, drawn at random.
    Random,
    /// The free site nearest to the origin.
    Greedy,
}

/// Why no placement can be made.
#[derive(Debug, Clone, Copy, PartialEq, Eq, Structural)]
pub enum PlacementError {
    /// The layout has fewer sites of this type than the netlist has nodes
    /// that need one.
    InsufficientSites(MacroType),
}

/// The top left corner of the grid.
pub open spec fn origin() -> FPGALayoutCoordinate {
    FPGALayoutCoordinate { x: 0, y: 0 }
}

/// Whether `layout` has as many sites holding `t` as `netlist` has nodes
/// that need one.
pub open spec fn enough_sites(layout: &FPGALayout, netlist: &NetlistGraph, t: MacroType) -> bool {
    count_type(netlist.nodes@, t) <= layout.site_count(FPGALayoutType::MacroType(t))
}

/// The first type, in the order logic, arithmetic, memory, I/O, of which
/// `layout` has too few sites for `netlist`.
pub open spec fn first_shortage(layout: &FPGALayout, netlist: &NetlistGraph) -> Option<MacroType> {
    if !enough_sites(layout, netlist, MacroType::CLB) {
        Some(MacroType::CLB)
    } else if !enough_sites(layout, netlist, MacroType::DSP) {
        Some(MacroType::DSP)
    } else if !enough_sites(layout, netlist, MacroType::BRAM) {
        Some(MacroType::BRAM)
    } else if !enough_sites(layout, netlist, MacroType::IO) {
        Some(MacroType::IO)
    } else {
        None
    }
}

/// The sites at which `placed` holds a node of type `t`.
pub open spec fn sites_taken_by(placed: Map<u64, FPGALayoutCoordinate>, t: MacroType) -> Set<
    FPGALayoutCoordinate,
> {
    Set::new(
        |c: FPGALayoutCoordinate|
            exists|k: u64|
                #[trigger] placed.contains_key(k) && key_node(k).macro_type == t && placed[k] == c,
    )
}

/// The site that the greedy placement gives to a node of type `t` when
/// `placed` holds the nodes before it.
pub open spec fn greedy_site(
    layout: &FPGALayout,
    placed: Map<u64, FPGALayoutCoordinate>,
    t: MacroType,
) -> FPGALayoutCoordinate {
    choose|c: FPGALayoutCoordinate| nearest_free(layout, placed, c, t, origin())
}

/// The greedy placement of the first `k` of `nodes`: each node in turn on
/// the free site of its type nearest to the origin.
pub open spec fn greedy_placement(layout: &FPGALayout, nodes: Seq<NetlistNode>, k: nat) -> Map<
    u64,
    FPGALayoutCoordinate,
>
    decreases k,
{
    if k == 0 {
        Map::empty()
    } else {
        let before = greedy_placement(layout, nodes, (k - 1) as nat);
        before.insert(
            node_key(nodes[k - 1]),
            greedy_site(layout, before, nodes[k - 1].macro_type),
        )
    }
}

/// Where fewer sites are taken by nodes of type `t` than the layout has
/// sites of that type, one of these is free.
pub proof fn lemma_free_site_exists(
    layout: &FPGALayout,
    placed: Map<u64, FPGALayoutCoordinate>,
    t: MacroType,
)
    requires
        forall|k: u64| #[trigger]
            placed.contains_key(k) ==> layout.spec_get(placed[k]) == Some(
                FPGALayoutType::MacroType(key_node(k).macro_type),
            ),
        sites_taken_by(placed, t).finite(),
        sites_taken_by(placed, t).len() < layout.site_count(FPGALayoutType::MacroType(t)),
    ensures
        exists|c: FPGALayoutCoordinate| #[trigger] site_free(layout, placed, c, t),
{
    let sites = layout.sites_of_type(FPGALayoutType::MacroType(t));
    let taken = sites_taken_by(placed, t);
    if forall|c: FPGALayoutCoordinate| !#[trigger] site_free(layout, placed, c, t) {
        assert forall|c: FPGALayoutCoordinate| sites.contains(c) implies taken.contains(c) by {
            assert(!site_free(layout, placed, c, t));
            let k = choose|k: u64| #[trigger] placed.contains_key(k) && placed[k] == c;
            assert(placed.contains_key(k) && key_node(k).macro_type == t && placed[k] == c);
        }
        lemma_len_subset(sites, taken);
    }
}

/// Placing one more node takes at most one more site, and only of the
/// node's type.
pub proof fn lemma_taken_after_placing(
    placed: Map<u64, FPGALayoutCoordinate>,
    node: NetlistNode,
    c: FPGALayoutCoordinate,
    t: MacroType,
)
    requires
        sites_taken_by(placed, t).finite(),
    ensures
        sites_taken_by(placed.insert(node_key(node), c), t).finite(),
        sites_taken_by(placed.insert(node_key(node), c), t).len() <= sites_taken_by(placed, t).len()
            + (if node.macro_type == t {
            1nat
        } else {
            0nat
        }),
{
    lemma_node_key_bijective();
    let before = sites_taken_by(placed, t);
    let changed = placed.insert(node_key(node), c);
    let after = sites_taken_by(changed, t);
    let bound = if node.macro_type == t {
        before.insert(c)
    } else {
        before
    };
    assert forall|d: FPGALayoutCoordinate| after.contains(d) implies bound.contains(d) by {
        let k = choose|k: u64|
            #[trigger] changed.contains_key(k) && key_node(k).macro_type == t && changed[k] == d;
        if k != node_key(node) {
            assert(placed.contains_key(k) && key_node(k).macro_type == t && placed[k] == d);
        }
    }
    lemma_len_subset(after, bound);
}

/// Whether `sites` counts fewer sites of type `t` than `nodes` counts nodes.
fn is_short(sites: &FxHashMap<u64, u64>, nodes: &FxHashMap<u64, u64>, t: MacroType) -> (short: bool)
    requires
        sites@.contains_key(layout_type_key(FPGALayoutType::MacroType(t))),
        nodes@.contains_key(macro_key(t)),
    ensures
        short == (sites@[layout_type_key(FPGALayoutType::MacroType(t))] < nodes@[macro_key(t)]),
{
    let available = map_get(sites, FPGALayoutType::MacroType(t).key()).unwrap();
    let needed = map_get(nodes, t.key()).unwrap();
    available < needed
}

/// Whether `layout` has, of every type, as many sites as `netlist` has nodes
/// that need one; else the first type of which it has too few.
pub fn check_capacity(layout: &FPGALayout, netlist: &NetlistGraph) -> (r: Result<
    (),
    PlacementError,
>)
    ensures
        r == (match first_shortage(layout, netlist) {
            Some(t) => Err::<(), PlacementError>(PlacementError::InsufficientSites(t)),
            None => Ok::<(), PlacementError>(()),
        }),
{
    let sites = layout.count_summary();
    let nodes = netlist.count_summary();
    proof {
        assert forall|t: MacroType|
            sites@.contains_key(layout_type_key(FPGALayoutType::MacroType(t)))
                && nodes@.contains_key(macro_key(t)) && (sites@[layout_type_key(
                FPGALayoutType::MacroType(t),
            )] < nodes@[macro_key(t)]) == !#[trigger] enough_sites(layout, netlist, t) by {
            assert(sites@.contains_key(layout_type_key(FPGALayoutType::MacroType(t))));
            assert(nodes@.contains_key(macro_key(t)));
        }
    }
    if is_short(&sites, &nodes, MacroType::CLB) {
        Err(PlacementError::InsufficientSites(MacroType::CLB))
    } else if is_short(&sites, &nodes, MacroType::DSP) {
        Err(PlacementError::InsufficientSites(MacroType::DSP))
    } else if is_short(&sites, &nodes, MacroType::BRAM) {
        Err(PlacementError::InsufficientSites(MacroType::BRAM))
    } else if is_short(&sites, &nodes, MacroType::IO) {
        Err(PlacementError::InsufficientSites(MacroType::IO))
    } else {
        Ok(())
    }
}

impl<'a> PlacementSolution<'a> {
    /// Whether the placed nodes are exactly those of the netlist, so that
    /// the placement has as many entries as the netlist has nodes where no
    /// two of the nodes are equal.
    pub open spec fn places_each_node_once(&self) -> bool {
        &&& self.solution_map@.dom() == key_set(self.netlist.nodes@)
        &&& self.solution_map@.dom().finite()
        &&& self.solution_map@.dom().len() <= self.netlist.nodes@.len()
        &&& self.netlist.nodes@.no_duplicates() ==> self.solution_map@.dom().len()
            == self.netlist.nodes@.len()
    }

    /// Whether exactly the nodes of the netlist are placed.
    pub open spec fn holds_only_nodes(&self) -> bool {
        forall|k: u64| #[trigger]
            self.solution_map@.contains_key(k) ==> exists|i: int|
                0 <= i < self.netlist.nodes@.len() && node_key(#[trigger] self.netlist.nodes@[i])
                    == k
    }
}

/// Places every node of `netlist`, in turn, on a free site of its type:
/// one drawn at random, or the one nearest to the origin.
fn place_each_node<'a>(
    layout: &'a FPGALayout,
    netlist: &'a NetlistGraph,
    method: InitialPlacerMethod,
) -> (solution: PlacementSolution<'a>)
    requires
        first_shortage(layout, netlist) is None,
    ensures
        solution.layout == layout,
        solution.netlist == netlist,
        solution.spec_valid(),
        solution.holds_only_nodes(),
        solution.places_each_node_once(),
        method == InitialPlacerMethod::Greedy ==> solution.solution_map@ == greedy_placement(
            layout,
            netlist.nodes@,
            netlist.nodes@.len(),
        ),
{
    let mut solution = PlacementSolution::new(layout, netlist);
    let corner = FPGALayoutCoordinate::new(0, 0);
    let n = netlist.nodes.len();
    proof {
        assert forall|t: MacroType|
            (#[trigger] sites_taken_by(solution.solution_map@, t)).finite() && sites_taken_by(
                solution.solution_map@,
                t,
            ).len() == 0 by {
            assert(sites_taken_by(solution.solution_map@, t) =~= Set::empty());
        }
        assert forall|t: MacroType| #[trigger] count_type(netlist.nodes@.take(0), t) == 0 by {}
    }
    let mut i: usize = 0;
    while i < n
        invariant
            i <= n,
            n == netlist.nodes@.len(),
            corner == origin(),
            first_shortage(layout, netlist) is None,
            solution.layout == layout,
            solution.netlist == netlist,
            solution.consistent(),
            forall|j: int| 0 <= j < i ==> solution.is_placed(#[trigger] netlist.nodes@[j]),
            forall|k: u64| #[trigger]
                solution.solution_map@.contains_key(k) ==> exists|j: int|
                    0 <= j < i && node_key(#[trigger] netlist.nodes@[j]) == k,
            forall|t: MacroType|
                (#[trigger] sites_taken_by(solution.solution_map@, t)).finite() && sites_taken_by(
                    solution.solution_map@,
                    t,
                ).len() <= count_type(netlist.nodes@.take(i as int), t),
            method == InitialPlacerMethod::Greedy ==> solution.solution_map@ == greedy_placement(
                layout,
                netlist.nodes@,
                i as nat,
            ),
        decreases n - i,
    {
        let node = netlist.nodes[i];
        let ghost before = solution;
        let ghost placed = solution.solution_map@;
        let possible_sites = solution.get_possible_sites(node.macro_type);
        proof {
            let t = node.macro_type;
            lemma_count_type_step(netlist.nodes@, i as int, t);
            lemma_count_type_prefix(netlist.nodes@, i + 1, t);
            assert(enough_sites(layout, netlist, t));
            assert(sites_taken_by(placed, t).finite() && sites_taken_by(placed, t).len()
                <= count_type(netlist.nodes@.take(i as int), t));
            lemma_free_site_exists(layout, placed, t);
            let c = choose|c: FPGALayoutCoordinate| #[trigger] site_free(layout, placed, c, t);
            assert(solution.free_site(c, t));
            assert(possible_sites@.contains(c));
        }
        let at = match method {
            InitialPlacerMethod::Random => random_index(possible_sites.len()),
            InitialPlacerMethod::Greedy => closest_site(&possible_sites, &corner),
        };
        let location = possible_sites[at];
        assert(solution.free_site(location, node.macro_type));
        solution.place_node(node, location);
        proof {
            assert(netlist.has_id(node.id)) by {
                assert(netlist.nodes@[i as int].id == node.id);
            }
            solution.lemma_relocation_keeps_consistency(&before, node, location);
            assert forall|j: int| 0 <= j < i + 1 implies solution.is_placed(
                #[trigger] netlist.nodes@[j],
            ) by {
                if j < i {
                    assert(before.is_placed(netlist.nodes@[j]));
                }
            }
            assert forall|k: u64| #[trigger]
                solution.solution_map@.contains_key(k) implies exists|j: int|
                0 <= j < i + 1 && node_key(#[trigger] netlist.nodes@[j]) == k by {
                if k == node_key(node) {
                    assert(node_key(netlist.nodes@[i as int]) == k);
                } else {
                    assert(placed.contains_key(k));
                    let j = choose|j: int| 0 <= j < i && node_key(#[trigger] netlist.nodes@[j]) == k;
                    assert(0 <= j < i + 1 && node_key(netlist.nodes@[j]) == k);
                }
            }
            assert forall|t: MacroType|
                (#[trigger] sites_taken_by(solution.solution_map@, t)).finite() && sites_taken_by(
                    solution.solution_map@,
                    t,
                ).len() <= count_type(netlist.nodes@.take(i + 1), t) by {
                assert(sites_taken_by(placed, t).finite() && sites_taken_by(placed, t).len()
                    <= count_type(netlist.nodes@.take(i as int), t));
                lemma_taken_after_placing(placed, node, location, t);
                lemma_count_type_step(netlist.nodes@, i as int, t);
            }
            if method == InitialPlacerMethod::Greedy {
                let t = node.macro_type;
                assert forall|j: int| 0 <= j < possible_sites@.len() implies site_free(
                    layout,
                    placed,
                    #[trigger] possible_sites@[j],
                    t,
                ) by {
                    assert(before.free_site(possible_sites@[j], t));
                }
                assert forall|c: FPGALayoutCoordinate| #[trigger]
                    site_free(layout, placed, c, t) implies possible_sites@.contains(c) by {
                    assert(before.free_site(c, t));
                }
                lemma_first_closest_is_nearest(
                    layout,
                    placed,
                    t,
                    origin(),
                    possible_sites@,
                    at as int,
                );
                lemma_nearest_free_unique(
                    layout,
                    placed,
                    t,
                    origin(),
                    greedy_site(layout, placed, t),
                    location,
                );
            }
        }
        i += 1;
    }
    proof {
        assert forall|k: u64| #[trigger]
            solution.solution_map@.contains_key(k) implies exists|j: int|
            0 <= j < netlist.nodes@.len() && node_key(#[trigger] netlist.nodes@[j]) == k by {
            let j = choose|j: int| 0 <= j < i && node_key(#[trigger] netlist.nodes@[j]) == k;
            assert(0 <= j < netlist.nodes@.len() && node_key(netlist.nodes@[j]) == k);
        }
        assert forall|k: u64| key_set(netlist.nodes@).contains(k) implies #[trigger] solution.solution_map@.contains_key(
            k,
        ) by {
            let j = choose|j: int|
                0 <= j < netlist.nodes@.len() && node_key(#[trigger] netlist.nodes@[j]) == k;
            assert(solution.is_placed(netlist.nodes@[j]));
        }
        assert(solution.solution_map@.dom() =~= key_set(netlist.nodes@));
        lemma_key_set_len(netlist.nodes@);
    }
    solution
}

/// A placement of every node of `netlist` on a site of `layout` of its
/// type, each drawn at random among the sites that are free when the node's
/// turn comes.  Fails exactly where the layout has too few sites of some
/// type.
pub fn gen_random_placement<'a>(layout: &'a FPGALayout, netlist: &'a NetlistGraph) -> (r: Result<
    PlacementSolution<'a>,
    PlacementError,
>)
    ensures
        match r {
            Ok(solution) => {
                &&& first_shortage(layout, netlist) is None
                &&& solution.layout == layout
                &&& solution.netlist == netlist
                &&& solution.spec_valid()
                &&& solution.holds_only_nodes()
                &&& solution.places_each_node_once()
            },
            Err(e) => first_shortage(layout, netlist) == Some(e->0),
        },
{
    match check_capacity(layout, netlist) {
        Err(e) => Err(e),
        Ok(_) => Ok(place_each_node(layout, netlist, InitialPlacerMethod::Random)),
    }
}

/// The placement of every node of `netlist`, in the netlist's order, on the
/// free site of its type nearest to the origin.  Fails exactly where the
/// layout has too few sites of some type.
pub fn gen_greedy_placement<'a>(layout: &'a FPGALayout, netlist: &'a NetlistGraph) -> (r: Result<
    PlacementSolution<'a>,
    PlacementError,
>)
    ensures
        match r {
            Ok(solution) => {
                &&& first_shortage(layout, netlist) is None
                &&& solution.layout == layout
                &&& solution.netlist == netlist
                &&& solution.spec_valid()
                &&& solution.holds_only_nodes()
                &&& solution.places_each_node_once()
                &&& solution.solution_map@ == greedy_placement(
                    layout,
                    netlist.nodes@,
                    netlist.nodes@.len(),
                )
            },
            Err(e) => first_shortage(layout, netlist) == Some(e->0),
        },
{
    match check_capacity(layout, netlist) {
        Err(e) => Err(e),
        Ok(_) => Ok(place_each_node(layout, netlist, InitialPlacerMethod::Greedy)),
    }
}

/// The first placement by the given method.
pub fn gen_initial_placement<'a>(
    layout: &'a FPGALayout,
    netlist: &'a NetlistGraph,
    method: InitialPlacerMethod,
) -> (r: Result<PlacementSolution<'a>, PlacementError>)
    ensures
        match r {
            Ok(solution) => {
                &&& first_shortage(layout, netlist) is None
                &&& solution.layout == layout
                &&& solution.netlist == netlist
                &&& solution.spec_valid()
                &&& solution.holds_only_nodes()
                &&& solution.places_each_node_once()
                &&& method == InitialPlacerMethod::Greedy ==> solution.solution_map@
                    == greedy_placement(layout, netlist.nodes@, netlist.nodes@.len())
            },
            Err(e) => first_shortage(layout, netlist) == Some(e->0),
        },
{
    match method {
        InitialPlacerMethod::Random => gen_random_placement(layout, netlist),
        InitialPlacerMethod::Greedy => gen_greedy_placement(layout, netlist),
    }
}

} // verus!
