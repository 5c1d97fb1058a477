//! The three operators that turn a placement into a neighbouring one.
//!
//! Each operator draws at random which node it works on.  What the operator
//! then does with the node it drew is a function of its own, with a contract
//! that holds for every node: `move_node`, `swap_nodes` and `move_toward`.

use crate::fpga_layout::{
    scan_before, FPGALayout, FPGALayoutCoordinate, FPGALayoutType, MacroType,
};
use crate::netlist::{is_node_key, key_node, lemma_node_key_bijective, node_key, NetlistNode};
use crate::placer::{manhattan, manhattan_distance, site_free, PlacementSolution};
use crate::random::{choose_one, random_index};
use vstd::arithmetic::div_mod::{lemma_div_is_ordered, lemma_div_multiples_vanish};
use vstd::prelude::*;

verus! {

/// The kinds of operator.
#[derive(Debug, Clone, Copy, PartialEq, Eq, Structural)]
pub enum PlacementAction {
    Move,
    Swap,
    MoveDirected,
}

/// The sum of the `x` coordinates of the sites of the first `k` of `nodes`.
pub open spec fn sum_x(
    nodes: Seq<NetlistNode>,
    placed: Map<u64, FPGALayoutCoordinate>,
    k: nat,
) -> nat
    decreases k,
{
    if k == 0 {
        0
    } else {
        sum_x(nodes, placed, (k - 1) as nat) + placed[node_key(nodes[k - 1])].x as nat
    }
}

/// The sum of the `y` coordinates of the sites of the first `k` of `nodes`.
pub open spec fn sum_y(
    nodes: Seq<NetlistNode>,
    placed: Map<u64, FPGALayoutCoordinate>,
    k: nat,
) -> nat
    decreases k,
{
    if k == 0 {
        0
    } else {
        sum_y(nodes, placed, (k - 1) as nat) + placed[node_key(nodes[k - 1])].y as nat
    }
}

/// The mean of the sites at which `placed` holds the `nodes`, each
/// coordinate rounded down.
pub open spec fn centroid_of(
    nodes: Seq<NetlistNode>,
    placed: Map<u64, FPGALayoutCoordinate>,
) -> FPGALayoutCoordinate {
    FPGALayoutCoordinate {
        x: (sum_x(nodes, placed, nodes.len()) / nodes.len()) as u32,
        y: (sum_y(nodes, placed, nodes.len()) / nodes.len()) as u32,
    }
}

/// Whether `c` is nearer to `target` than `d` is or, at the same distance,
/// does not come after `d` when the grid is walked column by column.
pub open spec fn nearer_or_first(
    c: FPGALayoutCoordinate,
    d: FPGALayoutCoordinate,
    target: FPGALayoutCoordinate,
) -> bool {
    manhattan(c, target) < manhattan(d, target) || (manhattan(c, target) == manhattan(d, target)
        && (c == d || scan_before(c, d)))
}

/// Whether `c` is, among the sites of `layout` that hold `t` and at which
/// `placed` holds no node, the one nearest to `target`: the first of them,
/// where several are equally near.
pub open spec fn nearest_free(
    layout: &FPGALayout,
    placed: Map<u64, FPGALayoutCoordinate>,
    c: FPGALayoutCoordinate,
    t: MacroType,
    target: FPGALayoutCoordinate,
) -> bool {
    &&& site_free(layout, placed, c, t)
    &&& forall|d: FPGALayoutCoordinate| #[trigger]
        site_free(layout, placed, d, t) ==> nearer_or_first(c, d, target)
}

/// Whether `layout` has a site that holds `t` and at which `placed` holds no
/// node.
pub open spec fn has_free(
    layout: &FPGALayout,
    placed: Map<u64, FPGALayoutCoordinate>,
    t: MacroType,
) -> bool {
    exists|c: FPGALayoutCoordinate| #[trigger] site_free(layout, placed, c, t)
}

/// Whether `after` is what moving `node` makes of `placed`: `node` is on
/// some site that was free and holds the type it needs or, where there was no
/// such site, nothing has changed.
pub open spec fn move_result(
    layout: &FPGALayout,
    placed: Map<u64, FPGALayoutCoordinate>,
    after: Map<u64, FPGALayoutCoordinate>,
    node: NetlistNode,
) -> bool {
    if has_free(layout, placed, node.macro_type) {
        exists|c: FPGALayoutCoordinate| #[trigger]
            site_free(layout, placed, c, node.macro_type) && after == placed.insert(
                node_key(node),
                c,
            )
    } else {
        after == placed
    }
}

/// Whether `after` is what swapping `a` and `b` makes of `placed`: the two
/// nodes have exchanged their sites or, where one of them was not placed,
/// nothing has changed.
pub open spec fn swap_result(
    placed: Map<u64, FPGALayoutCoordinate>,
    after: Map<u64, FPGALayoutCoordinate>,
    a: NetlistNode,
    b: NetlistNode,
) -> bool {
    if placed.contains_key(node_key(a)) && placed.contains_key(node_key(b)) {
        after == placed.insert(node_key(a), placed[node_key(b)]).insert(
            node_key(b),
            placed[node_key(a)],
        )
    } else {
        after == placed
    }
}

/// Whether `after` is what moving `node` toward `target` makes of `placed`:
/// `node` is on the free site of its type nearest to `target`, where that
/// site is nearer to `target` than the site the node had; else nothing has
/// changed.
pub open spec fn directed_result(
    layout: &FPGALayout,
    placed: Map<u64, FPGALayoutCoordinate>,
    after: Map<u64, FPGALayoutCoordinate>,
    node: NetlistNode,
    target: FPGALayoutCoordinate,
) -> bool {
    &&& !has_free(layout, placed, node.macro_type) ==> after == placed
    &&& forall|c: FPGALayoutCoordinate| #[trigger]
        nearest_free(layout, placed, c, node.macro_type, target) ==> after == (if manhattan(
            c,
            target,
        ) < manhattan(placed[node_key(node)], target) {
            placed.insert(node_key(node), c)
        } else {
            placed
        })
}

/// Whether `after` is what the operator `action` makes of `placed`,
/// whichever of the `nodes` it draws.
pub open spec fn action_result(
    layout: &FPGALayout,
    nodes: Seq<NetlistNode>,
    placed: Map<u64, FPGALayoutCoordinate>,
    after: Map<u64, FPGALayoutCoordinate>,
    action: PlacementAction,
) -> bool {
    if nodes.len() == 0 {
        after == placed
    } else {
        match action {
            PlacementAction::Move => exists|i: int|
                0 <= i < nodes.len() && move_result(layout, placed, after, #[trigger] nodes[i]),
            PlacementAction::Swap => exists|i: int, j: int|
                0 <= i < nodes.len() && 0 <= j < nodes.len() && nodes[i].macro_type
                    == nodes[j].macro_type && swap_result(
                    placed,
                    after,
                    #[trigger] nodes[i],
                    #[trigger] nodes[j],
                ),
            PlacementAction::MoveDirected => exists|i: int|
                0 <= i < nodes.len() && directed_result(
                    layout,
                    placed,
                    after,
                    #[trigger] nodes[i],
                    centroid_of(nodes, placed),
                ),
        }
    }
}

/// A number for the place of `c` in the order by distance to `target` and,
/// at the same distance, by the walk column by column.
pub open spec fn rank(c: FPGALayoutCoordinate, target: FPGALayoutCoordinate) -> nat {
    (manhattan(c, target) * 0x1_0000_0000_0000_0000 + c.x * 0x1_0000_0000 + c.y) as nat
}

/// Where a site is free, one of the free sites is the nearest to `target`.
pub proof fn lemma_nearest_free_exists(
    layout: &FPGALayout,
    placed: Map<u64, FPGALayoutCoordinate>,
    t: MacroType,
    target: FPGALayoutCoordinate,
)
    requires
        exists|c: FPGALayoutCoordinate| #[trigger] site_free(layout, placed, c, t),
    ensures
        exists|c: FPGALayoutCoordinate| nearest_free(layout, placed, c, t, target),
{
    let c = choose|c: FPGALayoutCoordinate| #[trigger] site_free(layout, placed, c, t);
    lemma_nearest_free_below(layout, placed, t, target, rank(c, target));
}

/// Where a free site has a rank of at most `bound`, one of the free sites
/// is the nearest to `target`.
proof fn lemma_nearest_free_below(
    layout: &FPGALayout,
    placed: Map<u64, FPGALayoutCoordinate>,
    t: MacroType,
    target: FPGALayoutCoordinate,
    bound: nat,
)
    requires
        exists|c: FPGALayoutCoordinate| #[trigger]
            site_free(layout, placed, c, t) && rank(c, target) <= bound,
    ensures
        exists|c: FPGALayoutCoordinate| nearest_free(layout, placed, c, t, target),
    decreases bound,
{
    let c = choose|c: FPGALayoutCoordinate| #[trigger]
        site_free(layout, placed, c, t) && rank(c, target) <= bound;
    if forall|d: FPGALayoutCoordinate| #[trigger]
        site_free(layout, placed, d, t) ==> rank(c, target) <= rank(d, target) {
        assert forall|d: FPGALayoutCoordinate| #[trigger]
            site_free(layout, placed, d, t) implies nearer_or_first(c, d, target) by {
            assert(rank(c, target) <= rank(d, target));
        }
        assert(nearest_free(layout, placed, c, t, target));
    } else {
        let d = choose|d: FPGALayoutCoordinate| #[trigger]
            site_free(layout, placed, d, t) && rank(d, target) < rank(c, target);
        assert(site_free(layout, placed, d, t) && rank(d, target) <= (rank(c, target) - 1) as nat);
        lemma_nearest_free_below(layout, placed, t, target, (rank(c, target) - 1) as nat);
    }
}

/// No two free sites are both the nearest to `target`.
pub proof fn lemma_nearest_free_unique(
    layout: &FPGALayout,
    placed: Map<u64, FPGALayoutCoordinate>,
    t: MacroType,
    target: FPGALayoutCoordinate,
    c: FPGALayoutCoordinate,
    d: FPGALayoutCoordinate,
)
    requires
        nearest_free(layout, placed, c, t, target),
        nearest_free(layout, placed, d, t, target),
    ensures
        c == d,
{
    assert(nearer_or_first(c, d, target));
    assert(nearer_or_first(d, c, target));
}

/// Moving a node toward a target has one outcome only.
pub proof fn lemma_directed_result_unique(
    layout: &FPGALayout,
    placed: Map<u64, FPGALayoutCoordinate>,
    first: Map<u64, FPGALayoutCoordinate>,
    second: Map<u64, FPGALayoutCoordinate>,
    node: NetlistNode,
    target: FPGALayoutCoordinate,
)
    requires
        directed_result(layout, placed, first, node, target),
        directed_result(layout, placed, second, node, target),
    ensures
        first == second,
{
    if has_free(layout, placed, node.macro_type) {
        lemma_nearest_free_exists(layout, placed, node.macro_type, target);
        let c = choose|c: FPGALayoutCoordinate|
            nearest_free(layout, placed, c, node.macro_type, target);
        assert(nearest_free(layout, placed, c, node.macro_type, target));
    }
}

/// In a list of the free sites of a type, column by column, the first of
/// those nearest to `target` is the nearest free site.
pub proof fn lemma_first_closest_is_nearest(
    layout: &FPGALayout,
    placed: Map<u64, FPGALayoutCoordinate>,
    t: MacroType,
    target: FPGALayoutCoordinate,
    sites: Seq<FPGALayoutCoordinate>,
    best: int,
)
    requires
        0 <= best < sites.len(),
        forall|i: int| 0 <= i < sites.len() ==> site_free(layout, placed, #[trigger] sites[i], t),
        forall|c: FPGALayoutCoordinate| #[trigger]
            site_free(layout, placed, c, t) ==> sites.contains(c),
        forall|i: int, j: int|
            0 <= i < j < sites.len() ==> scan_before(#[trigger] sites[i], #[trigger] sites[j]),
        forall|j: int|
            0 <= j < sites.len() ==> manhattan(sites[best], target) <= manhattan(
                #[trigger] sites[j],
                target,
            ),
        forall|j: int|
            0 <= j < best ==> manhattan(sites[best], target) < manhattan(
                #[trigger] sites[j],
                target,
            ),
    ensures
        nearest_free(layout, placed, sites[best], t, target),
{
    assert forall|d: FPGALayoutCoordinate| #[trigger]
        site_free(layout, placed, d, t) implies nearer_or_first(sites[best], d, target) by {
        assert(sites.contains(d));
        let j = choose|j: int| 0 <= j < sites.len() && sites[j] == d;
        assert(manhattan(sites[best], target) <= manhattan(sites[j], target));
        if j < best {
            assert(manhattan(sites[best], target) < manhattan(sites[j], target));
        } else if j > best {
            assert(scan_before(sites[best], sites[j]));
        }
    }
}

/// The position in `sites` of the first site among those nearest to `target`.
pub fn closest_site(sites: &Vec<FPGALayoutCoordinate>, target: &FPGALayoutCoordinate) -> (best:
    usize)
    requires
        sites@.len() > 0,
    ensures
        best < sites@.len(),
        forall|j: int|
            0 <= j < sites@.len() ==> manhattan(sites@[best as int], *target) <= manhattan(
                #[trigger] sites@[j],
                *target,
            ),
        forall|j: int|
            0 <= j < best ==> manhattan(sites@[best as int], *target) < manhattan(
                #[trigger] sites@[j],
                *target,
            ),
{
    let mut best: usize = 0;
    let mut best_distance = manhattan_distance(&sites[0], target);
    let mut j: usize = 1;
    while j < sites.len()
        invariant
            1 <= j <= sites@.len(),
            best < j,
            best_distance == manhattan(sites@[best as int], *target),
            forall|m: int|
                0 <= m < j ==> manhattan(sites@[best as int], *target) <= manhattan(
                    #[trigger] sites@[m],
                    *target,
                ),
            forall|m: int|
                0 <= m < best ==> manhattan(sites@[best as int], *target) < manhattan(
                    #[trigger] sites@[m],
                    *target,
                ),
        decreases sites@.len() - j,
    {
        let distance = manhattan_distance(&sites[j], target);
        if distance < best_distance {
            best = j;
            best_distance = distance;
        }
        j += 1;
    }
    best
}

/// The nodes among `nodes` that need a site of type `macro_type`, in the
/// same order.
pub fn nodes_of_type(nodes: &Vec<NetlistNode>, macro_type: MacroType) -> (same: Vec<NetlistNode>)
    ensures
        same@ == nodes@.filter(|n: NetlistNode| n.macro_type == macro_type),
{
    let ghost wanted = |n: NetlistNode| n.macro_type == macro_type;
    let mut same: Vec<NetlistNode> = Vec::new();
    let mut i: usize = 0;
    proof {
        reveal_with_fuel(Seq::<_>::filter, 1);
        assert(nodes@.take(0).filter(wanted) =~= Seq::<NetlistNode>::empty());
    }
    while i < nodes.len()
        invariant
            i <= nodes@.len(),
            wanted == |n: NetlistNode| n.macro_type == macro_type,
            same@ == nodes@.take(i as int).filter(wanted),
        decreases nodes@.len() - i,
    {
        let node = nodes[i];
        proof {
            let done = nodes@.take(i as int);
            assert(nodes@.take(i + 1) =~= done.push(node));
            done.lemma_filter_push(node, wanted);
        }
        if node.macro_type == macro_type {
            same.push(node);
        }
        i += 1;
    }
    proof {
        assert(nodes@.take(i as int) =~= nodes@);
    }
    same
}

impl<'a> PlacementSolution<'a> {
    /// Whether the placement is for the layout and the netlist of `before`.
    pub open spec fn same_problem(&self, before: &PlacementSolution<'a>) -> bool {
        self.layout == before.layout && self.netlist == before.netlist
    }

    /// Whether the placement is `before` with `node` placed at `c`.
    pub open spec fn relocated(
        &self,
        before: &PlacementSolution<'a>,
        node: NetlistNode,
        c: FPGALayoutCoordinate,
    ) -> bool {
        self.same_problem(before) && self.solution_map@ == before.solution_map@.insert(
            node_key(node),
            c,
        )
    }

    /// Whether the layout has a free site that holds `t`.
    pub open spec fn has_free_site(&self, t: MacroType) -> bool {
        has_free(self.layout, self.solution_map@, t)
    }

    /// Whether `c` is, among the free sites that hold `t`, the one nearest to
    /// `target`: the first of them, where several are equally near.
    pub open spec fn nearest_free_site(
        &self,
        c: FPGALayoutCoordinate,
        t: MacroType,
        target: FPGALayoutCoordinate,
    ) -> bool {
        nearest_free(self.layout, self.solution_map@, c, t, target)
    }

    /// What `move_node` makes of `before`: `node` is on some site that was
    /// free and holds the type it needs or, where there was no such site,
    /// nothing has changed.
    pub open spec fn moved(&self, before: &PlacementSolution<'a>, node: NetlistNode) -> bool {
        self.same_problem(before) && move_result(
            before.layout,
            before.solution_map@,
            self.solution_map@,
            node,
        )
    }

    /// What `swap_nodes` makes of `before`: the two nodes have exchanged
    /// their sites or, where one of them was not placed, nothing has changed.
    pub open spec fn swapped(
        &self,
        before: &PlacementSolution<'a>,
        a: NetlistNode,
        b: NetlistNode,
    ) -> bool {
        self.same_problem(before) && swap_result(before.solution_map@, self.solution_map@, a, b)
    }

    /// What `move_toward` makes of `before`: `node` is on the free site of
    /// its type nearest to `target`, where that site is nearer to `target`
    /// than the site the node had; else nothing has changed.
    pub open spec fn moved_toward(
        &self,
        before: &PlacementSolution<'a>,
        node: NetlistNode,
        target: FPGALayoutCoordinate,
    ) -> bool {
        self.same_problem(before) && directed_result(
            before.layout,
            before.solution_map@,
            self.solution_map@,
            node,
            target,
        )
    }

    /// The mean of the sites of all nodes, each coordinate rounded down.
    pub open spec fn spec_centroid(&self) -> FPGALayoutCoordinate {
        centroid_of(self.netlist.nodes@, self.solution_map@)
    }

    /// What the operator `action` makes of `before`, whichever nodes it
    /// draws.
    pub open spec fn action_outcome(
        &self,
        before: &PlacementSolution<'a>,
        action: PlacementAction,
    ) -> bool {
        self.same_problem(before) && action_result(
            before.layout,
            before.netlist.nodes@,
            before.solution_map@,
            self.solution_map@,
            action,
        )
    }

    /// Placing a node of the netlist on a free site of its type keeps the
    /// placement consistent, and complete where it was.
    pub proof fn lemma_relocation_keeps_consistency(
        &self,
        before: &PlacementSolution<'a>,
        node: NetlistNode,
        c: FPGALayoutCoordinate,
    )
        requires
            before.consistent(),
            before.netlist.has_id(node.id),
            before.free_site(c, node.macro_type),
            self.relocated(before, node, c),
        ensures
            self.consistent(),
            before.total() ==> self.total(),
    {
        lemma_node_key_bijective();
        let key = node_key(node);
        assert forall|j: u64, k: u64|
            #![trigger self.solution_map@.contains_key(j), self.solution_map@.contains_key(k)]
            self.solution_map@.contains_key(j) && self.solution_map@.contains_key(k) && j
                != k implies self.solution_map@[j] != self.solution_map@[k] by {
            if j != key {
                assert(before.solution_map@.contains_key(j));
            }
            if k != key {
                assert(before.solution_map@.contains_key(k));
            }
        }
        assert forall|k: u64| #[trigger] self.solution_map@.contains_key(k) implies is_node_key(
            k,
        ) && self.netlist.has_id(key_node(k).id) && self.layout.spec_get(
            self.solution_map@[k],
        ) == Some(
            FPGALayoutType::MacroType(key_node(k).macro_type),
        ) by {
            if k != key {
                assert(before.solution_map@.contains_key(k));
            }
        }
        if before.total() {
            assert forall|i: int| 0 <= i < self.netlist.nodes@.len() implies self.is_placed(
                #[trigger] self.netlist.nodes@[i],
            ) by {
                assert(before.is_placed(before.netlist.nodes@[i]));
            }
        }
    }

    /// Exchanging the sites of two placed nodes of the same type keeps the
    /// placement consistent, and complete where it was.
    pub proof fn lemma_swap_keeps_consistency(
        &self,
        before: &PlacementSolution<'a>,
        a: NetlistNode,
        b: NetlistNode,
    )
        requires
            before.consistent(),
            a.macro_type == b.macro_type,
            self.swapped(before, a, b),
        ensures
            self.consistent(),
            before.total() ==> self.total(),
    {
        lemma_node_key_bijective();
        let ka = node_key(a);
        let kb = node_key(b);
        if before.is_placed(a) && before.is_placed(b) {
            assert forall|k: u64| #[trigger]
                self.solution_map@.contains_key(k) <==> before.solution_map@.contains_key(k) by {}
            assert forall|j: u64, k: u64|
                #![trigger self.solution_map@.contains_key(j), self.solution_map@.contains_key(k)]
                self.solution_map@.contains_key(j) && self.solution_map@.contains_key(k) && j
                    != k implies self.solution_map@[j] != self.solution_map@[k] by {
                assert(before.solution_map@.contains_key(j));
                assert(before.solution_map@.contains_key(k));
                assert(before.solution_map@.contains_key(ka));
                assert(before.solution_map@.contains_key(kb));
            }
            assert forall|k: u64| #[trigger] self.solution_map@.contains_key(k) implies is_node_key(
                k,
            ) && self.netlist.has_id(key_node(k).id) && self.layout.spec_get(
                self.solution_map@[k],
            ) == Some(
                FPGALayoutType::MacroType(
                    key_node(k).macro_type,
                ),
            ) by {
                assert(before.solution_map@.contains_key(k));
                assert(before.solution_map@.contains_key(ka));
                assert(before.solution_map@.contains_key(kb));
            }
        }
        if before.total() {
            assert forall|i: int| 0 <= i < self.netlist.nodes@.len() implies self.is_placed(
                #[trigger] self.netlist.nodes@[i],
            ) by {
                assert(before.is_placed(before.netlist.nodes@[i]));
            }
        }
    }

    /// Moves `node` to a free site of its type, drawn at random, or does
    /// nothing where there is no such site.
    pub fn move_node(&mut self, node: NetlistNode)
        ensures
            final(self).moved(old(self), node),
            !old(self).has_free_site(node.macro_type) ==> final(self).same_as(old(self)),
            !old(self).has_free_site(node.macro_type) && old(self).spec_valid()
                ==> final(self).spec_valid(),
            old(self).consistent() && old(self).netlist.has_id(node.id)
                ==> final(self).consistent(),
            old(self).total() ==> final(self).total(),
    {
        let possible_sites = self.get_possible_sites(node.macro_type);
        if possible_sites.len() == 0 {
            proof {
                assert forall|c: FPGALayoutCoordinate| !#[trigger] site_free(
                    self.layout,
                    self.solution_map@,
                    c,
                    node.macro_type,
                ) by {
                    if self.free_site(c, node.macro_type) {
                        assert(possible_sites@.contains(c));
                    }
                }
            }
            return ;
        }
        let location = possible_sites[random_index(possible_sites.len())];
        assert(self.free_site(location, node.macro_type));
        self.place_node(node, location);
        proof {
            assert(old(self).free_site(location, node.macro_type) && self.relocated(
                old(self),
                node,
                location,
            ));
            if old(self).consistent() && old(self).netlist.has_id(node.id) {
                self.lemma_relocation_keeps_consistency(old(self), node, location);
            }
            assert forall|i: int|
                old(self).total() && 0 <= i < self.netlist.nodes@.len() implies self.is_placed(
                #[trigger] self.netlist.nodes@[i],
            ) by {
                assert(old(self).is_placed(old(self).netlist.nodes@[i]));
            }
        }
    }

    /// Exchanges the sites of `a` and `b`, or does nothing where one of them
    /// is not placed.
    pub fn swap_nodes(&mut self, a: NetlistNode, b: NetlistNode)
        ensures
            final(self).swapped(old(self), a, b),
            old(self).consistent() && a.macro_type == b.macro_type ==> final(self).consistent(),
            old(self).total() ==> final(self).total(),
    {
        let location_a = self.get_location(&a);
        let location_b = self.get_location(&b);
        match (location_a, location_b) {
            (Some(location_a), Some(location_b)) => {
                self.place_node(a, location_b);
                self.place_node(b, location_a);
            },
            _ => {},
        }
        proof {
            if old(self).consistent() && a.macro_type == b.macro_type {
                self.lemma_swap_keeps_consistency(old(self), a, b);
            }
            assert forall|i: int|
                old(self).total() && 0 <= i < self.netlist.nodes@.len() implies self.is_placed(
                #[trigger] self.netlist.nodes@[i],
            ) by {
                assert(old(self).is_placed(old(self).netlist.nodes@[i]));
            }
        }
    }

    /// The mean of the sites of all nodes, each coordinate rounded down.
    pub fn centroid(&self) -> (c: FPGALayoutCoordinate)
        requires
            self.total(),
            self.netlist.nodes@.len() > 0,
        ensures
            c == self.spec_centroid(),
    {
        let n = self.netlist.nodes.len();
        let mut total_x: u128 = 0;
        let mut total_y: u128 = 0;
        let mut i: usize = 0;
        while i < n
            invariant
                i <= n,
                n == self.netlist.nodes@.len(),
                self.total(),
                total_x == sum_x(self.netlist.nodes@, self.solution_map@, i as nat),
                total_y == sum_y(self.netlist.nodes@, self.solution_map@, i as nat),
                total_x <= i * 0xffff_ffff,
                total_y <= i * 0xffff_ffff,
            decreases n - i,
        {
            let node = self.netlist.nodes[i];
            assert(self.is_placed(node));
            let location = self.get_location(&node).unwrap();
            total_x += location.x as u128;
            total_y += location.y as u128;
            i += 1;
        }
        proof {
            lemma_div_multiples_vanish(0xffff_ffff, n as int);
            lemma_div_is_ordered(total_x as int, n * 0xffff_ffff, n as int);
            lemma_div_is_ordered(total_y as int, n * 0xffff_ffff, n as int);
        }
        FPGALayoutCoordinate::new((total_x / (n as u128)) as u32, (total_y / (n as u128)) as u32)
    }

    /// Moves `node` to the free site of its type that is nearest to `target`,
    /// provided that site is nearer to `target` than the site the node has.
    /// Of several sites equally near, the first in the walk column by column
    /// counts as the nearest.
    pub fn move_toward(&mut self, node: NetlistNode, target: FPGALayoutCoordinate)
        requires
            old(self).is_placed(node),
        ensures
            final(self).moved_toward(old(self), node, target),
            old(self).consistent() && old(self).netlist.has_id(node.id)
                ==> final(self).consistent(),
            old(self).total() ==> final(self).total(),
    {
        let possible_sites = self.get_possible_sites(node.macro_type);
        if possible_sites.len() == 0 {
            proof {
                assert forall|c: FPGALayoutCoordinate| !#[trigger] site_free(
                    self.layout,
                    self.solution_map@,
                    c,
                    node.macro_type,
                ) by {
                    if self.free_site(c, node.macro_type) {
                        assert(possible_sites@.contains(c));
                    }
                }
            }
            return ;
        }
        let at = closest_site(&possible_sites, &target);
        let best = possible_sites[at];
        let current = self.get_location(&node).unwrap();
        proof {
            assert(self.free_site(possible_sites@[0], node.macro_type));
            assert forall|i: int| 0 <= i < possible_sites@.len() implies site_free(
                self.layout,
                self.solution_map@,
                #[trigger] possible_sites@[i],
                node.macro_type,
            ) by {
                assert(self.free_site(possible_sites@[i], node.macro_type));
            }
            assert forall|c: FPGALayoutCoordinate| #[trigger]
                site_free(
                    self.layout,
                    self.solution_map@,
                    c,
                    node.macro_type,
                ) implies possible_sites@.contains(c) by {
                assert(self.free_site(c, node.macro_type));
            }
            lemma_first_closest_is_nearest(
                self.layout,
                self.solution_map@,
                node.macro_type,
                target,
                possible_sites@,
                at as int,
            );
            assert forall|c: FPGALayoutCoordinate| #[trigger]
                self.nearest_free_site(c, node.macro_type, target) implies c == best by {
                lemma_nearest_free_unique(
                    self.layout,
                    self.solution_map@,
                    node.macro_type,
                    target,
                    c,
                    best,
                );
            }
        }
        if manhattan_distance(&best, &target) < manhattan_distance(&current, &target) {
            self.place_node(node, best);
            proof {
                assert(self.relocated(old(self), node, best));
                if old(self).consistent() && old(self).netlist.has_id(node.id) {
                    self.lemma_relocation_keeps_consistency(old(self), node, best);
                }
                assert forall|i: int|
                    old(self).total() && 0 <= i < self.netlist.nodes@.len() implies self.is_placed(
                    #[trigger] self.netlist.nodes@[i],
                ) by {
                    assert(old(self).is_placed(old(self).netlist.nodes@[i]));
                }
            }
        }
    }

    /// Moves a node drawn at random to a free site of its type drawn at
    /// random.  Nothing changes where the netlist is empty or no such site is
    /// free.
    pub fn action_move(&mut self)
        ensures
            final(self).action_outcome(old(self), PlacementAction::Move),
            old(self).total() ==> final(self).total(),
            old(self).spec_valid() ==> final(self).spec_valid(),
    {
        let nodes = self.netlist.all_nodes();
        match choose_one(&nodes) {
            Some(node) => {
                proof {
                    let i = choose|i: int| 0 <= i < nodes@.len() && nodes@[i] == node;
                    assert(self.netlist.nodes@[i] == node);
                }
                self.move_node(node);
            },
            None => {},
        }
    }

    /// Exchanges the sites of a node drawn at random and of a node drawn at
    /// random among those of the same type, which may be the same node.
    pub fn action_swap(&mut self)
        ensures
            final(self).action_outcome(old(self), PlacementAction::Swap),
            old(self).total() ==> final(self).total(),
            old(self).spec_valid() ==> final(self).spec_valid(),
    {
        let nodes = self.netlist.all_nodes();
        let node_a = match choose_one(&nodes) {
            Some(node) => node,
            None => {
                return ;
            },
        };
        let ghost i = choose|i: int| 0 <= i < nodes@.len() && nodes@[i] == node_a;
        let ghost same_type = |n: NetlistNode| n.macro_type == node_a.macro_type;
        let nodes_same_type = nodes_of_type(&nodes, node_a.macro_type);
        proof {
            nodes@.lemma_filter_contains(same_type, i);
        }
        let node_b = match choose_one(&nodes_same_type) {
            Some(node) => node,
            None => {
                return ;
            },
        };
        proof {
            let m = choose|m: int| 0 <= m < nodes_same_type@.len() && nodes_same_type@[m] == node_b;
            nodes@.lemma_filter_pred(same_type, m);
            nodes@.lemma_filter_contains_rev(same_type, node_b);
        }
        let ghost j = choose|j: int| 0 <= j < nodes@.len() && nodes@[j] == node_b;
        self.swap_nodes(node_a, node_b);
        proof {
            assert(self.swapped(old(self), old(self).netlist.nodes@[i], old(self).netlist.nodes@[j]));
        }
    }

    /// Moves a node drawn at random toward the centroid of all nodes: to the
    /// free site of its type nearest to the centroid, provided that site is
    /// nearer to the centroid than the site the node has.  Nothing changes
    /// where the netlist is empty.
    pub fn action_move_directed(&mut self)
        requires
            old(self).total(),
        ensures
            final(self).action_outcome(old(self), PlacementAction::MoveDirected),
            old(self).total() ==> final(self).total(),
            old(self).spec_valid() ==> final(self).spec_valid(),
    {
        let node_count = self.netlist.nodes.len();
        if node_count == 0 {
            return ;
        }
        let target = self.centroid();
        let at = random_index(node_count);
        let node = self.netlist.nodes[at];
        assert(self.is_placed(self.netlist.nodes@[at as int]));
        self.move_toward(node, target);
        proof {
            assert(self.moved_toward(
                old(self),
                old(self).netlist.nodes@[at as int],
                old(self).spec_centroid(),
            ));
        }
    }

    /// Applies the operator `action`.
    pub fn action(&mut self, action: PlacementAction)
        requires
            action == PlacementAction::MoveDirected ==> old(self).total(),
        ensures
            final(self).action_outcome(old(self), action),
            old(self).total() ==> final(self).total(),
            old(self).spec_valid() ==> final(self).spec_valid(),
    {
        match action {
            PlacementAction::Move => self.action_move(),
            PlacementAction::Swap => self.action_swap(),
            PlacementAction::MoveDirected => self.action_move_directed(),
        }
    }
}

} // verus!
