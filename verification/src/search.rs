//! The search: step by step, try a few neighbours of the current placement
//! and keep the cheapest of them if it is cheaper than the current one.
//!
//! A worse or equally good neighbour is never taken: the search is a strict
//! descent, without a temperature.

use crate::fpga_layout::FPGALayoutCoordinate;
use crate::moves::{
    centroid_of, directed_result, has_free, lemma_nearest_free_exists, move_result, nearest_free,
    swap_result, PlacementAction,
};
use crate::netlist::node_key;
use crate::placer::{site_free, PlacementSolution};
use crate::random::{choose_several, lemma_selection_distinct};
use rayon::iter::{IntoParallelRefIterator, ParallelIterator};
use vstd::prelude::*;

verus! {

/// What a search returns.
#[derive(Debug)]
pub struct PlacerOutput<'a> {
    /// The placement that the search started from.
    pub initial_solution: PlacementSolution<'a>,
    /// The placement that the search ended with.
    pub final_solution: PlacementSolution<'a>,
    /// The number of each step, from 0.
    pub x_steps: Vec<u32>,
    /// The cost of the placement at the start of each step.
    pub y_cost: Vec<u128>,
    /// Where asked for: the placement at the start of each step and, last,
    /// the placement that the search ended with.
    pub snapshots: Option<Vec<PlacementSolution<'a>>>,
}

/// How many operators a step draws: `n_neighbors`, and at most all three.
pub open spec fn drawn_count(n_neighbors: usize) -> int {
    if n_neighbors <= 3 {
        n_neighbors as int
    } else {
        3
    }
}

/// Whether `best` is the position of the first of the `candidates` among
/// those of least cost.
pub open spec fn is_first_cheapest<'a>(candidates: Seq<PlacementSolution<'a>>, best: int) -> bool {
    &&& 0 <= best < candidates.len()
    &&& forall|j: int|
        0 <= j < candidates.len() ==> candidates[best].spec_cost() <= (#[trigger] candidates[j]).spec_cost()
    &&& forall|j: int|
        0 <= j < best ==> candidates[best].spec_cost() < (#[trigger] candidates[j]).spec_cost()
}

/// Whether `next` is what a step of the search makes of `current` when it
/// draws the operators `actions` and these make the `candidates`: the first
/// of the cheapest candidates if it is cheaper than `current`, and else
/// `current`.
pub open spec fn is_step_with<'a>(
    current: &PlacementSolution<'a>,
    next: &PlacementSolution<'a>,
    n_neighbors: usize,
    actions: Seq<PlacementAction>,
    candidates: Seq<PlacementSolution<'a>>,
) -> bool {
    &&& actions.len() == drawn_count(n_neighbors)
    &&& actions.no_duplicates()
    &&& candidates.len() == actions.len()
    &&& forall|i: int|
        0 <= i < candidates.len() ==> (#[trigger] candidates[i]).is_neighbor(current, actions[i])
    &&& candidates.len() == 0 ==> next.same_as(current)
    &&& forall|best: int| #[trigger]
        is_first_cheapest(candidates, best) ==> (if candidates[best].spec_cost()
            < current.spec_cost() {
            next.same_as(&candidates[best])
        } else {
            next.same_as(current)
        })
}

/// Whether `next` is what a step of the search that draws up to
/// `n_neighbors` operators can make of `current`.
pub open spec fn is_step<'a>(
    current: &PlacementSolution<'a>,
    next: &PlacementSolution<'a>,
    n_neighbors: usize,
) -> bool {
    exists|actions: Seq<PlacementAction>, candidates: Seq<PlacementSolution<'a>>| #[trigger]
        is_step_with(current, next, n_neighbors, actions, candidates)
}

/// Whether the placement after the one at `i` is made from it by a step of
/// the search.
pub open spec fn steps_on<'a>(
    trace: Seq<PlacementSolution<'a>>,
    i: int,
    n_neighbors: usize,
) -> bool {
    is_step(&trace[i], &trace[i + 1], n_neighbors)
}

/// Whether `trace` lists the placements of a search whose costs at the start
/// of each step were `costs`: one placement for each step and one more for
/// the end, each made from the one before by a step of the search.
pub open spec fn is_search<'a>(
    trace: Seq<PlacementSolution<'a>>,
    costs: Seq<u128>,
    n_neighbors: usize,
) -> bool {
    &&& trace.len() == costs.len() + 1
    &&& forall|i: int| 0 <= i < costs.len() ==> (#[trigger] trace[i]).spec_cost() == costs[i]
    &&& forall|i: int| 0 <= i < costs.len() ==> #[trigger] steps_on(trace, i, n_neighbors)
}

/// Whether `trace` lists the placements that the search went through which
/// started from `initial` and returned `output`.
pub open spec fn is_search_of<'a>(
    trace: Seq<PlacementSolution<'a>>,
    initial: &PlacementSolution<'a>,
    output: &PlacerOutput<'a>,
    n_neighbors: usize,
) -> bool {
    &&& is_search(trace, output.y_cost@, n_neighbors)
    &&& trace[0].same_as(initial)
    &&& trace[trace.len() - 1] == output.final_solution
    &&& output.snapshots matches Some(snapshots) ==> {
        &&& snapshots@.len() == trace.len()
        &&& forall|i: int|
            0 <= i < trace.len() ==> (#[trigger] snapshots@[i]).same_as(&trace[i])
    }
}

impl<'a> PlacementSolution<'a> {
    /// Whether the placement is one that the operator `action` makes of
    /// `current`: it is complete where `current` is, and valid where
    /// `current` is.
    pub open spec fn is_neighbor(
        &self,
        current: &PlacementSolution<'a>,
        action: PlacementAction,
    ) -> bool {
        &&& self.action_outcome(current, action)
        &&& current.total() ==> self.total()
        &&& current.spec_valid() ==> self.spec_valid()
    }

    /// A copy of the placement to which the operator `action` was applied.
    pub fn neighbor(&self, action: PlacementAction) -> (next: PlacementSolution<'a>)
        requires
            action == PlacementAction::MoveDirected ==> self.total(),
        ensures
            next.is_neighbor(self, action),
    {
        let mut next = self.clone();
        let ghost copy = next;
        next.action(action);
        proof {
            copy.lemma_same_placement(self);
        }
        next
    }
}

/// The operators of one step: `n_neighbors` of the three, or all three
/// where more are asked for, drawn at random, each at most once.
pub fn draw_actions(n_neighbors: usize) -> (actions: Vec<PlacementAction>)
    ensures
        actions@.len() == drawn_count(n_neighbors),
        actions@.no_duplicates(),
{
    let mut all: Vec<PlacementAction> = Vec::new();
    all.push(PlacementAction::Move);
    all.push(PlacementAction::Swap);
    all.push(PlacementAction::MoveDirected);
    let actions = choose_several(&all, n_neighbors);
    proof {
        lemma_selection_distinct(actions@, all@);
    }
    actions
}

/// `par_iter`, `map` and `collect` of `rayon`: for each of `actions`, in
/// order, a placement that `neighbor` returned for it.  The placements are
/// made on the threads of rayon's pool, each from `current`.
#[verifier::external_body]
fn neighbors_in_parallel<'a>(current: &PlacementSolution<'a>, actions: &Vec<PlacementAction>) -> (r:
    Vec<PlacementSolution<'a>>)
    requires
        current.total(),
    ensures
        r@.len() == actions@.len(),
        forall|i: int| 0 <= i < r@.len() ==> (#[trigger] r@[i]).is_neighbor(current, actions@[i]),
{
    actions.par_iter().map(|action| current.neighbor(*action)).collect()
}

/// The position of the first of the `candidates` among those of least cost.
pub fn best_candidate<'a>(candidates: &Vec<PlacementSolution<'a>>) -> (best: usize)
    requires
        candidates@.len() > 0,
        forall|i: int|
            0 <= i < candidates@.len() ==> (#[trigger] candidates@[i]).edges_placed()
                && candidates@[i].netlist.wf(),
    ensures
        is_first_cheapest(candidates@, best as int),
{
    let mut best: usize = 0;
    let mut best_cost = candidates[0].cost_bb();
    let mut j: usize = 1;
    while j < candidates.len()
        invariant
            1 <= j <= candidates@.len(),
            best < j,
            best_cost == candidates@[best as int].spec_cost(),
            forall|i: int|
                0 <= i < candidates@.len() ==> (#[trigger] candidates@[i]).edges_placed()
                    && candidates@[i].netlist.wf(),
            forall|m: int|
                0 <= m < j ==> candidates@[best as int].spec_cost() <= (#[trigger] candidates@[m]).spec_cost(),
            forall|m: int|
                0 <= m < best ==> candidates@[best as int].spec_cost() < (#[trigger] candidates@[m]).spec_cost(),
        decreases candidates@.len() - j,
    {
        let cost = candidates[j].cost_bb();
        if cost < best_cost {
            best = j;
            best_cost = cost;
        }
        j += 1;
    }
    best
}

/// The placement with which the search goes on: the first of the
/// `candidates` among those of least cost, if it costs less than `current`,
/// and else `current`.
pub fn accept_best<'a>(
    current: PlacementSolution<'a>,
    candidates: &Vec<PlacementSolution<'a>>,
) -> (next: PlacementSolution<'a>)
    requires
        current.edges_placed(),
        current.netlist.wf(),
        candidates@.len() > 0,
        forall|i: int|
            0 <= i < candidates@.len() ==> (#[trigger] candidates@[i]).edges_placed()
                && candidates@[i].netlist.wf(),
    ensures
        exists|best: int| #[trigger] is_first_cheapest(candidates@, best),
        forall|best: int| #[trigger]
            is_first_cheapest(candidates@, best) ==> (if candidates@[best].spec_cost()
                < current.spec_cost() {
                next.same_as(&candidates@[best])
            } else {
                next == current
            }),
{
    let best = best_candidate(candidates);
    proof {
        assert forall|other: int| is_first_cheapest(candidates@, other) implies other == best by {
            if other < best {
                assert(candidates@[best as int].spec_cost() < candidates@[other].spec_cost());
                assert(candidates@[other].spec_cost() <= candidates@[best as int].spec_cost());
            } else if best < other {
                assert(candidates@[other].spec_cost() < candidates@[best as int].spec_cost());
                assert(candidates@[best as int].spec_cost() <= candidates@[other].spec_cost());
            }
        }
    }
    if candidates[best].cost_bb() < current.cost_bb() {
        candidates[best].clone()
    } else {
        current
    }
}

/// Of candidates, one is the first of the cheapest.
pub proof fn lemma_first_cheapest_exists<'a>(candidates: Seq<PlacementSolution<'a>>) -> (best: int)
    requires
        candidates.len() > 0,
    ensures
        is_first_cheapest(candidates, best),
    decreases candidates.len(),
{
    if candidates.len() == 1 {
        0
    } else {
        let rest = candidates.drop_last();
        let among_rest = lemma_first_cheapest_exists(rest);
        let last = candidates.len() - 1;
        assert forall|j: int| 0 <= j < last implies rest[j] == candidates[j] by {}
        if candidates[last].spec_cost() < candidates[among_rest].spec_cost() {
            assert forall|j: int| 0 <= j < candidates.len() implies candidates[last].spec_cost()
                <= (#[trigger] candidates[j]).spec_cost() by {
                if j < last {
                    assert(rest[among_rest].spec_cost() <= rest[j].spec_cost());
                }
            }
            assert forall|j: int| 0 <= j < last implies candidates[last].spec_cost()
                < (#[trigger] candidates[j]).spec_cost() by {
                assert(rest[among_rest].spec_cost() <= rest[j].spec_cost());
            }
            last
        } else {
            assert forall|j: int| 0 <= j < candidates.len() implies candidates[among_rest].spec_cost()
                <= (#[trigger] candidates[j]).spec_cost() by {
                if j < last {
                    assert(rest[among_rest].spec_cost() <= rest[j].spec_cost());
                }
            }
            assert forall|j: int| 0 <= j < among_rest implies candidates[among_rest].spec_cost()
                < (#[trigger] candidates[j]).spec_cost() by {
                assert(rest[among_rest].spec_cost() < rest[j].spec_cost());
            }
            among_rest
        }
    }
}

/// What an operator makes of a complete placement has the same nodes
/// placed.
pub proof fn lemma_neighbor_keeps_keys<'a>(
    current: &PlacementSolution<'a>,
    next: &PlacementSolution<'a>,
    action: PlacementAction,
)
    requires
        current.total(),
        next.is_neighbor(current, action),
    ensures
        next.solution_map@.dom() == current.solution_map@.dom(),
{
    let nodes = current.netlist.nodes@;
    let placed = current.solution_map@;
    let after = next.solution_map@;
    if nodes.len() > 0 {
        match action {
            PlacementAction::Move => {
                let i = choose|i: int|
                    0 <= i < nodes.len() && move_result(
                        current.layout,
                        placed,
                        after,
                        #[trigger] nodes[i],
                    );
                assert(current.is_placed(nodes[i]));
                if has_free(current.layout, placed, nodes[i].macro_type) {
                    let c = choose|c: FPGALayoutCoordinate| #[trigger]
                        site_free(current.layout, placed, c, nodes[i].macro_type) && after
                            == placed.insert(node_key(nodes[i]), c);
                    assert(after.dom() =~= placed.dom());
                }
            },
            PlacementAction::Swap => {
                let (i, j) = choose|i: int, j: int|
                    0 <= i < nodes.len() && 0 <= j < nodes.len() && nodes[i].macro_type
                        == nodes[j].macro_type && swap_result(
                        placed,
                        after,
                        #[trigger] nodes[i],
                        #[trigger] nodes[j],
                    );
                assert(current.is_placed(nodes[i]) && current.is_placed(nodes[j]));
                assert(after.dom() =~= placed.dom());
            },
            PlacementAction::MoveDirected => {
                let target = centroid_of(nodes, placed);
                let i = choose|i: int|
                    0 <= i < nodes.len() && directed_result(
                        current.layout,
                        placed,
                        after,
                        #[trigger] nodes[i],
                        target,
                    );
                assert(current.is_placed(nodes[i]));
                if has_free(current.layout, placed, nodes[i].macro_type) {
                    lemma_nearest_free_exists(current.layout, placed, nodes[i].macro_type, target);
                    let c = choose|c: FPGALayoutCoordinate|
                        nearest_free(current.layout, placed, c, nodes[i].macro_type, target);
                    assert(nearest_free(current.layout, placed, c, nodes[i].macro_type, target));
                    assert(after.dom() =~= placed.dom());
                }
            },
        }
    }
}

/// A step of the search never raises the cost, and it changes the
/// placement only for one that costs less.  The next placement is for the
/// same layout and netlist, is valid where the current one is and, where the
/// current one is complete, is complete and has the same nodes placed.
pub proof fn lemma_step<'a>(
    current: &PlacementSolution<'a>,
    next: &PlacementSolution<'a>,
    n_neighbors: usize,
)
    requires
        is_step(current, next, n_neighbors),
    ensures
        next.layout == current.layout,
        next.netlist == current.netlist,
        next.spec_cost() <= current.spec_cost(),
        next.solution_map@ == current.solution_map@ || next.spec_cost() < current.spec_cost(),
        n_neighbors == 0 ==> next.same_as(current),
        current.spec_valid() ==> next.spec_valid(),
        current.total() ==> next.total() && next.solution_map@.dom()
            == current.solution_map@.dom(),
{
    let (actions, candidates) = choose|
        actions: Seq<PlacementAction>,
        candidates: Seq<PlacementSolution<'a>>,
    | #[trigger] is_step_with(current, next, n_neighbors, actions, candidates);
    if candidates.len() == 0 {
        next.lemma_same_placement(current);
    } else {
        let best = lemma_first_cheapest_exists(candidates);
        let candidate = candidates[best];
        assert(candidate.is_neighbor(current, actions[best]));
        if candidate.spec_cost() < current.spec_cost() {
            next.lemma_same_placement(&candidate);
            if current.total() {
                lemma_neighbor_keeps_keys(current, &candidate, actions[best]);
            }
        } else {
            next.lemma_same_placement(current);
        }
    }
}

/// Over a whole search the cost never rises, and the placement changes
/// only for one that costs less.  Every placement that the search goes
/// through is valid if the first is and, if the first is complete, is
/// complete and has the same nodes placed.
pub proof fn lemma_search_descends<'a>(
    trace: Seq<PlacementSolution<'a>>,
    costs: Seq<u128>,
    n_neighbors: usize,
    i: int,
    j: int,
)
    requires
        is_search(trace, costs, n_neighbors),
        0 <= i <= j <= costs.len(),
    ensures
        trace[j].layout == trace[i].layout,
        trace[j].netlist == trace[i].netlist,
        trace[j].spec_cost() <= trace[i].spec_cost(),
        trace[j].solution_map@ == trace[i].solution_map@ || trace[j].spec_cost()
            < trace[i].spec_cost(),
        n_neighbors == 0 ==> trace[j].same_as(&trace[i]),
        trace[i].spec_valid() ==> trace[j].spec_valid(),
        trace[i].total() ==> trace[j].total() && trace[j].solution_map@.dom()
            == trace[i].solution_map@.dom(),
        j < costs.len() ==> costs[j] <= costs[i],
    decreases j - i,
{
    if i < j {
        lemma_search_descends(trace, costs, n_neighbors, i, j - 1);
        assert(steps_on(trace, j - 1, n_neighbors));
        lemma_step(&trace[j - 1], &trace[j], n_neighbors);
    }
}

/// Searches for a cheaper placement, for `n_steps` steps.  Each step draws
/// up to `n_neighbors` of the three operators, applies each of them to a copy
/// of the current placement, in parallel, and goes on with the cheapest of
/// the copies if it is cheaper than the current placement.  Where no
/// operator is drawn the placement stays.  With `render`, copies of the
/// placements that the search went through are returned as well.
pub fn fast_sa_placer<'a>(
    initial_solution: PlacementSolution<'a>,
    n_steps: u32,
    n_neighbors: usize,
    render: bool,
) -> (output: PlacerOutput<'a>)
    requires
        n_steps > 0 ==> initial_solution.total() && initial_solution.netlist.wf(),
    ensures
        exists|trace: Seq<PlacementSolution<'a>>| #[trigger]
            is_search_of(trace, &initial_solution, &output, n_neighbors),
        output.initial_solution == initial_solution,
        output.x_steps@ == Seq::new(n_steps as nat, |i: int| i as u32),
        output.y_cost@.len() == n_steps,
        render == (output.snapshots is Some),
        render ==> {
            let snapshots = output.snapshots->0@;
            &&& snapshots.len() == n_steps + 1
            &&& snapshots[0].same_as(&initial_solution)
            &&& snapshots[n_steps as int].same_as(&output.final_solution)
            &&& forall|i: int|
                0 <= i < n_steps ==> (#[trigger] snapshots[i]).spec_cost() == output.y_cost@[i]
            &&& forall|i: int|
                0 <= i <= n_steps ==> (initial_solution.total() ==> (#[trigger] snapshots[i]).total())
                    && (initial_solution.spec_valid() ==> snapshots[i].spec_valid())
        },
        n_steps > 0 ==> output.y_cost@[0] == initial_solution.spec_cost(),
        forall|i: int, j: int|
            0 <= i <= j < n_steps ==> #[trigger] output.y_cost@[j] <= #[trigger] output.y_cost@[i],
        forall|i: int|
            0 <= i < n_steps ==> output.final_solution.spec_cost() <= #[trigger] output.y_cost@[i],
        output.final_solution.layout == initial_solution.layout,
        output.final_solution.netlist == initial_solution.netlist,
        output.final_solution.spec_cost() <= initial_solution.spec_cost(),
        output.final_solution.solution_map@ == initial_solution.solution_map@
            || output.final_solution.spec_cost() < initial_solution.spec_cost(),
        output.final_solution.solution_map@.dom() == initial_solution.solution_map@.dom(),
        n_steps == 0 || n_neighbors == 0 ==> output.final_solution.same_as(&initial_solution),
        n_neighbors == 0 ==> forall|i: int|
            0 <= i < n_steps ==> #[trigger] output.y_cost@[i] == initial_solution.spec_cost(),
        initial_solution.total() ==> output.final_solution.total(),
        initial_solution.spec_valid() ==> output.final_solution.spec_valid(),
{
    let mut current = initial_solution.clone();
    let mut x_steps: Vec<u32> = Vec::new();
    let mut y_cost: Vec<u128> = Vec::new();
    let mut snapshots: Vec<PlacementSolution<'a>> = Vec::new();
    let ghost mut trace: Seq<PlacementSolution<'a>> = seq![current];
    let mut step: u32 = 0;
    while step < n_steps
        invariant
            step <= n_steps,
            n_steps > 0 ==> current.total() && current.netlist.wf(),
            trace.len() == step + 1,
            trace[step as int] == current,
            trace[0].same_as(&initial_solution),
            x_steps@ == Seq::new(step as nat, |i: int| i as u32),
            y_cost@.len() == step,
            forall|i: int| 0 <= i < step ==> (#[trigger] trace[i]).spec_cost() == y_cost@[i],
            forall|i: int| 0 <= i < step ==> #[trigger] steps_on(trace, i, n_neighbors),
            snapshots@.len() == (if render {
                step as int
            } else {
                0
            }),
            forall|i: int| 0 <= i < snapshots@.len() ==> (#[trigger] snapshots@[i]).same_as(&trace[i]),
        decreases n_steps - step,
    {
        let ghost before = current;
        let ghost earlier = trace;
        proof {
            current.lemma_total_places_edges();
        }
        x_steps.push(step);
        y_cost.push(current.cost_bb());
        if render {
            snapshots.push(current.clone());
        }
        let actions = draw_actions(n_neighbors);
        let ghost mut made: Seq<PlacementSolution<'a>> = Seq::empty();
        if actions.len() > 0 {
            let candidates = neighbors_in_parallel(&current, &actions);
            proof {
                made = candidates@;
                assert forall|i: int| 0 <= i < candidates@.len() implies (#[trigger] candidates@[i]).edges_placed()
                    && candidates@[i].netlist.wf() by {
                    assert(candidates@[i].is_neighbor(&before, actions@[i]));
                    candidates@[i].lemma_total_places_edges();
                }
            }
            current = accept_best(current, &candidates);
        }
        proof {
            assert(is_step_with(&before, &current, n_neighbors, actions@, made));
            lemma_step(&before, &current, n_neighbors);
            trace = trace.push(current);
            assert(x_steps@ =~= Seq::new((step + 1) as nat, |i: int| i as u32));
            assert forall|i: int| 0 <= i < step + 1 implies #[trigger] steps_on(
                trace,
                i,
                n_neighbors,
            ) by {
                if i < step {
                    assert(steps_on(earlier, i, n_neighbors));
                }
            }
            assert forall|i: int| 0 <= i < step + 1 implies (#[trigger] trace[i]).spec_cost()
                == y_cost@[i] by {
                if i < step {
                    assert(earlier[i].spec_cost() == y_cost@[i]);
                }
            }
            assert forall|i: int| 0 <= i < snapshots@.len() implies (#[trigger] snapshots@[i]).same_as(
                &trace[i],
            ) by {
                assert(snapshots@[i].same_as(&earlier[i]));
            }
        }
        step += 1;
    }
    let snapshots = if render {
        snapshots.push(current.clone());
        Some(snapshots)
    } else {
        None
    };
    let output = PlacerOutput { initial_solution, final_solution: current, x_steps, y_cost, snapshots };
    proof {
        assert(is_search(trace, output.y_cost@, n_neighbors));
        assert(is_search_of(trace, &initial_solution, &output, n_neighbors));
        lemma_search_descends(trace, output.y_cost@, n_neighbors, 0, n_steps as int);
        trace[0].lemma_same_placement(&initial_solution);
        assert forall|i: int, j: int| 0 <= i <= j < n_steps implies #[trigger] output.y_cost@[j]
            <= #[trigger] output.y_cost@[i] by {
            lemma_search_descends(trace, output.y_cost@, n_neighbors, i, j);
        }
        assert forall|i: int| 0 <= i < n_steps implies output.final_solution.spec_cost()
            <= #[trigger] output.y_cost@[i] by {
            lemma_search_descends(trace, output.y_cost@, n_neighbors, i, n_steps as int);
        }
        if render {
            let snapshots = output.snapshots->0@;
            assert forall|i: int| 0 <= i <= n_steps implies (#[trigger] snapshots[i]).same_as(
                &trace[i],
            ) && (i < n_steps ==> snapshots[i].spec_cost() == output.y_cost@[i]) && (
            initial_solution.total() ==> snapshots[i].total()) && (initial_solution.spec_valid()
                ==> snapshots[i].spec_valid()) by {
                lemma_search_descends(trace, output.y_cost@, n_neighbors, 0, i);
                snapshots[i].lemma_same_placement(&trace[i]);
            }
        }
        assert forall|i: int| n_neighbors == 0 && 0 <= i < n_steps implies #[trigger] output.y_cost@[i]
            == initial_solution.spec_cost() by {
            lemma_search_descends(trace, output.y_cost@, n_neighbors, 0, i);
            trace[i].lemma_same_placement(&trace[0]);
        }
    }
    output
}

} // verus!
