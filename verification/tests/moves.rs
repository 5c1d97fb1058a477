use sa_placer::moves::{closest_site, nodes_of_type};
use sa_placer::{
    FPGALayout, FPGALayoutCoordinate, FPGALayoutType, MacroType, NetlistEdge, NetlistGraph,
    NetlistNode, PlacementAction, PlacementSolution,
};

const CLB: FPGALayoutType = FPGALayoutType::MacroType(MacroType::CLB);
const IO: FPGALayoutType = FPGALayoutType::MacroType(MacroType::IO);

fn at(x: u32, y: u32) -> FPGALayoutCoordinate {
    FPGALayoutCoordinate::new(x, y)
}

fn node(id: u32, macro_type: MacroType) -> NetlistNode {
    NetlistNode { id, macro_type }
}

/// A grid of logic sites, `width` by `height`.
fn logic_grid(width: u32, height: u32) -> FPGALayout {
    let mut layout = FPGALayout::new(width, height);
    layout.config_repeat(0, 0, width, height, 1, 1, CLB);
    layout
}

/// `n` logic nodes in a chain.
fn chain(n: u32) -> NetlistGraph {
    let mut netlist = NetlistGraph::new();
    for id in 0..n {
        netlist.add_node(node(100 + id, MacroType::CLB));
    }
    for i in 1..n as usize {
        netlist.add_edge(i - 1, i);
    }
    netlist
}

/// The nodes of `netlist` on the sites of `layout`, column by column.
fn packed<'a>(layout: &'a FPGALayout, netlist: &'a NetlistGraph) -> PlacementSolution<'a> {
    let mut solution = PlacementSolution::new(layout, netlist);
    for node in netlist.all_nodes() {
        let site = solution.get_possible_sites(node.macro_type)[0];
        solution.place_node(node, site);
    }
    solution
}

#[test]
fn closest_site_is_the_first_of_the_nearest() {
    let sites = vec![at(5, 5), at(1, 2), at(2, 1), at(0, 3), at(9, 9)];
    assert_eq!(closest_site(&sites, &at(0, 0)), 1);
    assert_eq!(closest_site(&sites, &at(9, 8)), 4);
    assert_eq!(closest_site(&sites, &at(5, 5)), 0);
    assert_eq!(closest_site(&vec![at(3, 3)], &at(0, 0)), 0);
    assert_eq!(closest_site(&vec![at(1, 0), at(0, 1)], &at(0, 0)), 0);
}

#[test]
fn nodes_of_type_keeps_the_order() {
    let nodes = vec![
        node(1, MacroType::CLB),
        node(2, MacroType::IO),
        node(3, MacroType::CLB),
        node(4, MacroType::BRAM),
    ];
    assert_eq!(nodes_of_type(&nodes, MacroType::CLB), vec![nodes[0], nodes[2]]);
    assert_eq!(nodes_of_type(&nodes, MacroType::IO), vec![nodes[1]]);
    assert!(nodes_of_type(&nodes, MacroType::DSP).is_empty());
    assert!(nodes_of_type(&vec![], MacroType::CLB).is_empty());
}

#[test]
fn move_node_without_a_free_site_changes_nothing() {
    let layout = logic_grid(2, 2);
    let netlist = chain(4);
    let mut solution = packed(&layout, &netlist);
    assert!(solution.valid());
    let before = solution.clone();
    for node in netlist.all_nodes() {
        solution.move_node(node);
        assert_eq!(solution.solution_map, before.solution_map);
        assert!(solution.valid());
    }
}

#[test]
fn move_node_of_a_type_without_sites_changes_nothing() {
    let layout = logic_grid(3, 3);
    let mut netlist = chain(2);
    netlist.add_node(node(7, MacroType::IO));
    let mut solution = packed_with(&layout, &netlist, &[at(0, 0), at(0, 1), at(2, 2)]);
    let before = solution.clone();
    solution.move_node(netlist.nodes[2]);
    assert_eq!(solution.solution_map, before.solution_map);
}

fn packed_with<'a>(
    layout: &'a FPGALayout,
    netlist: &'a NetlistGraph,
    sites: &[FPGALayoutCoordinate],
) -> PlacementSolution<'a> {
    let mut solution = PlacementSolution::new(layout, netlist);
    for (node, site) in netlist.all_nodes().into_iter().zip(sites) {
        solution.place_node(node, *site);
    }
    solution
}

#[test]
fn move_node_puts_the_node_on_a_site_that_was_free() {
    let layout = logic_grid(3, 3);
    let netlist = chain(3);
    for _ in 0..50 {
        let mut solution = packed(&layout, &netlist);
        let before = solution.clone();
        let free = before.get_possible_sites(MacroType::CLB);
        solution.move_node(netlist.nodes[1]);
        let now = solution.get_location(&netlist.nodes[1]).unwrap();
        assert!(free.contains(&now));
        assert_eq!(solution.get_location(&netlist.nodes[0]), before.get_location(&netlist.nodes[0]));
        assert_eq!(solution.get_location(&netlist.nodes[2]), before.get_location(&netlist.nodes[2]));
        assert_eq!(solution.solution_map.len(), 3);
        assert!(solution.valid());
    }
}

#[test]
fn move_node_with_one_free_site_takes_it() {
    let layout = logic_grid(2, 2);
    let netlist = chain(3);
    let mut solution = packed(&layout, &netlist);
    solution.move_node(netlist.nodes[0]);
    assert_eq!(solution.get_location(&netlist.nodes[0]), Some(at(1, 1)));
    assert!(solution.valid());
}

#[test]
fn move_node_reaches_different_sites_over_many_runs() {
    let layout = logic_grid(3, 3);
    let netlist = chain(1);
    let mut seen = std::collections::HashSet::new();
    for _ in 0..200 {
        let mut solution = packed(&layout, &netlist);
        solution.move_node(netlist.nodes[0]);
        seen.insert(solution.get_location(&netlist.nodes[0]).unwrap());
    }
    assert!(seen.len() > 1);
    assert!(!seen.contains(&at(0, 0)));
}

#[test]
fn swap_nodes_exchanges_the_sites() {
    let layout = logic_grid(3, 3);
    let netlist = chain(3);
    let mut solution = packed(&layout, &netlist);
    solution.swap_nodes(netlist.nodes[0], netlist.nodes[2]);
    assert_eq!(solution.get_location(&netlist.nodes[0]), Some(at(0, 2)));
    assert_eq!(solution.get_location(&netlist.nodes[1]), Some(at(0, 1)));
    assert_eq!(solution.get_location(&netlist.nodes[2]), Some(at(0, 0)));
    assert!(solution.valid());
}

#[test]
fn swap_nodes_of_a_node_with_itself_changes_nothing() {
    let layout = logic_grid(3, 3);
    let netlist = chain(3);
    let mut solution = packed(&layout, &netlist);
    let before = solution.clone();
    solution.swap_nodes(netlist.nodes[1], netlist.nodes[1]);
    assert_eq!(solution.solution_map, before.solution_map);
}

#[test]
fn swap_nodes_with_a_node_that_is_not_placed_changes_nothing() {
    let layout = logic_grid(3, 3);
    let netlist = chain(3);
    let mut solution = PlacementSolution::new(&layout, &netlist);
    solution.place_node(netlist.nodes[0], at(1, 1));
    let before = solution.clone();
    solution.swap_nodes(netlist.nodes[0], netlist.nodes[1]);
    assert_eq!(solution.solution_map, before.solution_map);
    solution.swap_nodes(netlist.nodes[1], netlist.nodes[0]);
    assert_eq!(solution.solution_map, before.solution_map);
}

#[test]
fn centroid_is_the_mean_rounded_down() {
    let layout = logic_grid(8, 8);
    let netlist = chain(3);
    let solution = packed_with(&layout, &netlist, &[at(0, 0), at(1, 7), at(4, 7)]);
    assert_eq!(solution.centroid(), at(1, 4));
    let netlist = chain(1);
    let solution = packed_with(&layout, &netlist, &[at(5, 6)]);
    assert_eq!(solution.centroid(), at(5, 6));
}

#[test]
fn centroid_of_far_sites_does_not_overflow() {
    let layout = logic_grid(2, 2);
    let netlist = chain(3);
    let far = at(u32::MAX, u32::MAX);
    let mut solution = PlacementSolution::new(&layout, &netlist);
    for node in netlist.all_nodes() {
        solution.place_node(node, far);
    }
    assert_eq!(solution.centroid(), far);
}

#[test]
fn move_toward_takes_the_nearest_free_site() {
    let layout = logic_grid(5, 5);
    let netlist = chain(2);
    let mut solution = packed_with(&layout, &netlist, &[at(4, 4), at(2, 2)]);
    solution.move_toward(netlist.nodes[0], at(2, 2));
    assert_eq!(solution.get_location(&netlist.nodes[0]), Some(at(1, 2)));
    assert_eq!(solution.get_location(&netlist.nodes[1]), Some(at(2, 2)));
    assert!(solution.valid());
}

#[test]
fn move_toward_takes_the_target_when_it_is_free() {
    let layout = logic_grid(5, 5);
    let netlist = chain(1);
    let mut solution = packed_with(&layout, &netlist, &[at(4, 0)]);
    solution.move_toward(netlist.nodes[0], at(1, 3));
    assert_eq!(solution.get_location(&netlist.nodes[0]), Some(at(1, 3)));
}

#[test]
fn move_toward_stays_when_no_free_site_is_nearer() {
    let layout = logic_grid(5, 5);
    let netlist = chain(2);
    let mut solution = packed_with(&layout, &netlist, &[at(2, 3), at(2, 2)]);
    let before = solution.clone();
    solution.move_toward(netlist.nodes[0], at(2, 2));
    assert_eq!(solution.solution_map, before.solution_map);
    solution.move_toward(netlist.nodes[1], at(2, 2));
    assert_eq!(solution.solution_map, before.solution_map);
}

#[test]
fn move_toward_stays_when_there_is_no_free_site() {
    let layout = logic_grid(2, 1);
    let netlist = chain(2);
    let mut solution = packed(&layout, &netlist);
    let before = solution.clone();
    solution.move_toward(netlist.nodes[1], at(0, 0));
    assert_eq!(solution.solution_map, before.solution_map);
}

#[test]
fn move_toward_goes_only_to_sites_of_the_type() {
    let mut layout = logic_grid(5, 1);
    layout.config_repeat(1, 0, 3, 1, 1, 1, IO);
    let netlist = chain(1);
    let mut solution = packed_with(&layout, &netlist, &[at(4, 0)]);
    solution.move_toward(netlist.nodes[0], at(1, 0));
    assert_eq!(solution.get_location(&netlist.nodes[0]), Some(at(0, 0)));
}

#[test]
fn action_move_keeps_a_placement_valid() {
    let layout = logic_grid(4, 4);
    let netlist = chain(6);
    let mut solution = packed(&layout, &netlist);
    for _ in 0..100 {
        let before = solution.clone();
        solution.action_move();
        assert!(solution.valid());
        let moved = netlist
            .nodes
            .iter()
            .filter(|n| solution.get_location(n) != before.get_location(n))
            .count();
        assert_eq!(moved, 1);
    }
}

#[test]
fn action_move_on_a_full_layout_changes_nothing() {
    let layout = logic_grid(3, 2);
    let netlist = chain(6);
    let mut solution = packed(&layout, &netlist);
    let before = solution.clone();
    for _ in 0..20 {
        solution.action_move();
        assert_eq!(solution.solution_map, before.solution_map);
    }
    assert!(solution.valid());
}

#[test]
fn action_swap_permutes_the_sites() {
    let layout = logic_grid(4, 4);
    let netlist = chain(6);
    let mut solution = packed(&layout, &netlist);
    let mut sites: Vec<_> = solution.solution_map.values().map(|c| c.key()).collect();
    sites.sort();
    for _ in 0..100 {
        let before = solution.clone();
        solution.action_swap();
        assert!(solution.valid());
        let mut now: Vec<_> = solution.solution_map.values().map(|c| c.key()).collect();
        now.sort();
        assert_eq!(now, sites);
        let moved = netlist
            .nodes
            .iter()
            .filter(|n| solution.get_location(n) != before.get_location(n))
            .count();
        assert!(moved == 0 || moved == 2);
    }
}

#[test]
fn action_swap_exchanges_only_nodes_of_one_type() {
    let mut layout = logic_grid(4, 4);
    layout.config_repeat(0, 0, 4, 1, 1, 1, IO);
    let mut netlist = chain(3);
    netlist.add_node(node(1, MacroType::IO));
    netlist.add_node(node(2, MacroType::IO));
    let mut solution = packed(&layout, &netlist);
    for _ in 0..100 {
        solution.action_swap();
        assert!(solution.valid());
    }
}

#[test]
fn action_move_directed_never_moves_a_node_away_from_the_centroid() {
    let layout = logic_grid(6, 6);
    let netlist = chain(5);
    let sites = [at(0, 0), at(5, 5), at(0, 5), at(5, 0), at(3, 3)];
    let mut solution = packed_with(&layout, &netlist, &sites);
    for _ in 0..100 {
        let before = solution.clone();
        let centroid = before.centroid();
        solution.action_move_directed();
        assert!(solution.valid());
        for n in &netlist.nodes {
            let was = before.get_location(n).unwrap();
            let now = solution.get_location(n).unwrap();
            if was != now {
                let far = |c: FPGALayoutCoordinate| {
                    (c.x as i64 - centroid.x as i64).abs() + (c.y as i64 - centroid.y as i64).abs()
                };
                assert!(far(now) < far(was));
            }
        }
    }
}

#[test]
fn actions_on_an_empty_netlist_change_nothing() {
    let layout = logic_grid(2, 2);
    let netlist = NetlistGraph::new();
    let mut solution = PlacementSolution::new(&layout, &netlist);
    solution.action_move();
    solution.action_swap();
    solution.action_move_directed();
    for action in [PlacementAction::Move, PlacementAction::Swap, PlacementAction::MoveDirected] {
        solution.action(action);
    }
    assert!(solution.solution_map.is_empty());
    assert!(solution.valid());
}

#[test]
fn action_applies_the_named_operator() {
    let layout = logic_grid(3, 3);
    let netlist = chain(9);
    let mut solution = packed(&layout, &netlist);
    let before = solution.clone();
    solution.action(PlacementAction::Move);
    assert_eq!(solution.solution_map, before.solution_map);
    solution.action(PlacementAction::MoveDirected);
    assert_eq!(solution.solution_map, before.solution_map);
    let mut swapped = false;
    for _ in 0..100 {
        solution.action(PlacementAction::Swap);
        swapped |= solution.solution_map != before.solution_map;
        assert!(solution.valid());
    }
    assert!(swapped);
}

#[test]
fn operators_keep_a_netlist_with_edges_valid() {
    let layout = logic_grid(5, 5);
    let mut netlist = chain(8);
    netlist.edges.push(NetlistEdge { source: 0, target: 7 });
    let mut solution = packed(&layout, &netlist);
    for round in 0..300 {
        let action = match round % 3 {
            0 => PlacementAction::Move,
            1 => PlacementAction::Swap,
            _ => PlacementAction::MoveDirected,
        };
        solution.action(action);
        assert!(solution.valid());
    }
}

#[test]
fn action_swap_of_the_only_node_of_its_type_changes_nothing() {
    let mut layout = logic_grid(3, 3);
    layout.config_repeat(2, 2, 1, 1, 1, 1, IO);
    let mut netlist = NetlistGraph::new();
    netlist.add_node(node(1, MacroType::IO));
    let mut solution = packed_with(&layout, &netlist, &[at(2, 2)]);
    let before = solution.clone();
    for _ in 0..20 {
        solution.action_swap();
        assert_eq!(solution.solution_map, before.solution_map);
    }
    assert!(solution.valid());
}

#[test]
fn action_move_directed_leaves_a_node_that_is_as_near_as_any_free_site() {
    let layout = logic_grid(3, 1);
    let netlist = chain(2);
    let mut solution = packed_with(&layout, &netlist, &[at(0, 0), at(1, 0)]);
    let before = solution.clone();
    assert_eq!(solution.centroid(), at(0, 0));
    for _ in 0..20 {
        solution.action_move_directed();
        assert_eq!(solution.solution_map, before.solution_map);
    }
}
