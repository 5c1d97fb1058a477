use sa_placer::{
    build_simple_fpga_layout, check_capacity, gen_greedy_placement, gen_initial_placement,
    gen_random_placement, FPGALayout, FPGALayoutCoordinate, FPGALayoutType, InitialPlacerMethod,
    MacroType, NetlistGraph, NetlistNode, PlacementError,
};

const CLB: FPGALayoutType = FPGALayoutType::MacroType(MacroType::CLB);
const DSP: FPGALayoutType = FPGALayoutType::MacroType(MacroType::DSP);
const BRAM: FPGALayoutType = FPGALayoutType::MacroType(MacroType::BRAM);
const IO: FPGALayoutType = FPGALayoutType::MacroType(MacroType::IO);

fn at(x: u32, y: u32) -> FPGALayoutCoordinate {
    FPGALayoutCoordinate::new(x, y)
}

/// A netlist with the given number of nodes of each type and no edges.
fn netlist_of(clb: u32, dsp: u32, bram: u32, io: u32) -> NetlistGraph {
    let mut netlist = NetlistGraph::new();
    let mut id = 0;
    for (n, t) in
        [(clb, MacroType::CLB), (dsp, MacroType::DSP), (bram, MacroType::BRAM), (io, MacroType::IO)]
    {
        for _ in 0..n {
            netlist.add_node(NetlistNode { id, macro_type: t });
            id += 1;
        }
    }
    netlist
}

/// A row of ten logic sites.
fn ten_logic_sites() -> FPGALayout {
    let mut layout = FPGALayout::new(10, 1);
    layout.config_repeat(0, 0, 10, 1, 1, 1, CLB);
    layout
}

/// A 4 by 4 grid with one row each of logic, arithmetic, memory and I/O.
fn striped() -> FPGALayout {
    let mut layout = FPGALayout::new(4, 4);
    layout.config_repeat(0, 0, 4, 1, 1, 1, CLB);
    layout.config_repeat(0, 1, 4, 1, 1, 1, DSP);
    layout.config_repeat(0, 2, 4, 1, 1, 1, BRAM);
    layout.config_repeat(0, 3, 4, 1, 1, 1, IO);
    layout
}

#[test]
fn eleven_nodes_do_not_fit_on_ten_sites() {
    let layout = ten_logic_sites();
    let netlist = netlist_of(11, 0, 0, 0);
    let expected = PlacementError::InsufficientSites(MacroType::CLB);
    assert_eq!(check_capacity(&layout, &netlist), Err(expected));
    assert_eq!(gen_random_placement(&layout, &netlist).err(), Some(expected));
    assert_eq!(gen_greedy_placement(&layout, &netlist).err(), Some(expected));
    for method in [InitialPlacerMethod::Random, InitialPlacerMethod::Greedy] {
        assert_eq!(gen_initial_placement(&layout, &netlist, method).err(), Some(expected));
    }
}

#[test]
fn ten_nodes_fit_on_ten_sites() {
    let layout = ten_logic_sites();
    let netlist = netlist_of(10, 0, 0, 0);
    assert_eq!(check_capacity(&layout, &netlist), Ok(()));
    let random = gen_random_placement(&layout, &netlist).unwrap();
    assert!(random.valid());
    assert_eq!(random.solution_map.len(), 10);
    let greedy = gen_greedy_placement(&layout, &netlist).unwrap();
    assert!(greedy.valid());
    assert_eq!(greedy.solution_map.len(), 10);
}

#[test]
fn capacity_is_checked_for_every_type() {
    let layout = striped();
    assert_eq!(check_capacity(&layout, &netlist_of(4, 4, 4, 4)), Ok(()));
    for (netlist, short) in [
        (netlist_of(5, 0, 0, 0), MacroType::CLB),
        (netlist_of(0, 5, 0, 0), MacroType::DSP),
        (netlist_of(0, 0, 5, 0), MacroType::BRAM),
        (netlist_of(0, 0, 0, 5), MacroType::IO),
    ] {
        let expected = PlacementError::InsufficientSites(short);
        assert_eq!(check_capacity(&layout, &netlist), Err(expected));
        assert_eq!(gen_random_placement(&layout, &netlist).err(), Some(expected));
        assert_eq!(gen_greedy_placement(&layout, &netlist).err(), Some(expected));
    }
}

#[test]
fn the_first_type_that_is_short_is_reported() {
    let layout = striped();
    let short = |clb, dsp, bram, io| check_capacity(&layout, &netlist_of(clb, dsp, bram, io));
    assert_eq!(short(5, 5, 5, 5), Err(PlacementError::InsufficientSites(MacroType::CLB)));
    assert_eq!(short(4, 5, 5, 5), Err(PlacementError::InsufficientSites(MacroType::DSP)));
    assert_eq!(short(4, 4, 5, 5), Err(PlacementError::InsufficientSites(MacroType::BRAM)));
    assert_eq!(short(0, 0, 0, 9), Err(PlacementError::InsufficientSites(MacroType::IO)));
}

#[test]
fn empty_sites_hold_no_node() {
    let layout = FPGALayout::new(5, 5);
    let netlist = netlist_of(1, 0, 0, 0);
    assert_eq!(
        gen_greedy_placement(&layout, &netlist).err(),
        Some(PlacementError::InsufficientSites(MacroType::CLB))
    );
}

#[test]
fn an_empty_netlist_fits_on_any_layout() {
    let layout = FPGALayout::new(0, 0);
    let netlist = NetlistGraph::new();
    let solution = gen_random_placement(&layout, &netlist).unwrap();
    assert!(solution.solution_map.is_empty());
    assert!(solution.valid());
    assert!(gen_greedy_placement(&layout, &netlist).unwrap().valid());
}

#[test]
fn greedy_puts_each_node_on_the_free_site_nearest_to_the_origin() {
    let mut layout = FPGALayout::new(4, 4);
    layout.config_repeat(0, 0, 4, 4, 1, 1, CLB);
    let netlist = netlist_of(7, 0, 0, 0);
    let solution = gen_greedy_placement(&layout, &netlist).unwrap();
    let expected = [at(0, 0), at(0, 1), at(1, 0), at(0, 2), at(1, 1), at(2, 0), at(0, 3)];
    for (node, site) in netlist.nodes.iter().zip(expected) {
        assert_eq!(solution.get_location(node), Some(site));
    }
    assert!(solution.valid());
}

#[test]
fn greedy_places_each_type_on_its_own_sites() {
    let layout = striped();
    let netlist = netlist_of(2, 1, 1, 2);
    let solution = gen_greedy_placement(&layout, &netlist).unwrap();
    let expected = [at(0, 0), at(1, 0), at(0, 1), at(0, 2), at(0, 3), at(1, 3)];
    for (node, site) in netlist.nodes.iter().zip(expected) {
        assert_eq!(solution.get_location(node), Some(site));
    }
    assert!(solution.valid());
}

#[test]
fn greedy_on_the_simple_layout_starts_beside_the_corner() {
    let layout = build_simple_fpga_layout(6, 6);
    let netlist = netlist_of(3, 0, 0, 2);
    let solution = gen_greedy_placement(&layout, &netlist).unwrap();
    let expected = [at(1, 1), at(1, 2), at(2, 1), at(0, 1), at(1, 0)];
    for (node, site) in netlist.nodes.iter().zip(expected) {
        assert_eq!(solution.get_location(node), Some(site));
    }
}

#[test]
fn greedy_gives_the_same_placement_every_time() {
    let layout = build_simple_fpga_layout(12, 12);
    let netlist = netlist_of(20, 0, 3, 5);
    let first = gen_greedy_placement(&layout, &netlist).unwrap();
    let second = gen_initial_placement(&layout, &netlist, InitialPlacerMethod::Greedy).unwrap();
    assert_eq!(first.solution_map, second.solution_map);
}

#[test]
fn random_placement_is_valid_and_places_only_the_nodes() {
    let layout = build_simple_fpga_layout(12, 12);
    let netlist = netlist_of(30, 0, 4, 10);
    for _ in 0..20 {
        let solution = gen_random_placement(&layout, &netlist).unwrap();
        assert!(solution.valid());
        assert_eq!(solution.solution_map.len(), 44);
        for node in &netlist.nodes {
            let site = solution.get_location(node).unwrap();
            assert_eq!(layout.get(&site), Some(FPGALayoutType::MacroType(node.macro_type)));
        }
    }
}

#[test]
fn random_placement_fills_a_layout_that_is_just_large_enough() {
    let layout = striped();
    let netlist = netlist_of(4, 4, 4, 4);
    for _ in 0..20 {
        let solution = gen_random_placement(&layout, &netlist).unwrap();
        assert!(solution.valid());
        assert_eq!(solution.solution_map.len(), 16);
    }
}

#[test]
fn random_placement_differs_over_many_runs() {
    let layout = striped();
    let netlist = netlist_of(1, 0, 0, 0);
    let mut seen = std::collections::HashSet::new();
    for _ in 0..200 {
        let solution = gen_initial_placement(&layout, &netlist, InitialPlacerMethod::Random).unwrap();
        seen.insert(solution.get_location(&netlist.nodes[0]).unwrap());
    }
    assert!(seen.len() > 1);
}

#[test]
fn a_placement_is_for_the_layout_and_netlist_it_was_made_from() {
    let layout = striped();
    let netlist = netlist_of(1, 1, 1, 1);
    let solution = gen_greedy_placement(&layout, &netlist).unwrap();
    assert!(std::ptr::eq(solution.layout, &layout));
    assert!(std::ptr::eq(solution.netlist, &netlist));
}

#[test]
fn a_placement_has_one_entry_for_each_node() {
    let layout = striped();
    let netlist = netlist_of(3, 2, 4, 1);
    for method in [InitialPlacerMethod::Random, InitialPlacerMethod::Greedy] {
        let solution = gen_initial_placement(&layout, &netlist, method).unwrap();
        assert_eq!(solution.solution_map.len(), netlist.nodes.len());
        assert!(solution.get_unplaced_nodes().is_empty());
        assert!(solution.valid());
    }
}

#[test]
fn equal_nodes_share_one_entry() {
    let layout = ten_logic_sites();
    let mut netlist = netlist_of(3, 0, 0, 0);
    netlist.add_node(netlist.nodes[1]);
    let solution = gen_greedy_placement(&layout, &netlist).unwrap();
    assert_eq!(solution.solution_map.len(), 3);
    assert!(solution.valid());
    assert_eq!(solution.get_location(&netlist.nodes[1]), Some(at(3, 0)));
}
