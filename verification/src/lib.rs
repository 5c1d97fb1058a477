//! Placement of a typed netlist onto a typed FPGA fabric by greedy local search.
//!
//! A [`FPGALayout`] is a grid of typed sites, a [`NetlistGraph`] a set of typed
//! nodes with connections between them, and a [`PlacementSolution`] assigns
//! nodes to sites.  The search in [`fast_sa_placer`] lowers the total
//! wirelength of a placement step by step.

pub mod fpga_layout;
pub mod hashing;
pub mod initial;
pub mod moves;
pub mod netlist;
pub mod placer;
pub mod random;
pub mod render;
pub mod search;

pub use fpga_layout::{
    build_simple_fpga_layout, FPGALayout, FPGALayoutCoordinate, FPGALayoutType, MacroType,
};
pub use initial::{
    check_capacity, gen_greedy_placement, gen_initial_placement, gen_random_placement,
    InitialPlacerMethod, PlacementError,
};
pub use moves::PlacementAction;
pub use netlist::{build_simple_netlist, NetlistEdge, NetlistGraph, NetlistNode};
pub use placer::PlacementSolution;
pub use render::{decimal_string, select_frames, Renderer};
pub use search::{accept_best, best_candidate, draw_actions, fast_sa_placer, PlacerOutput};
