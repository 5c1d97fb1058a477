use sa_placer::{
    build_simple_fpga_layout, decimal_string, select_frames, FPGALayout, FPGALayoutCoordinate, FPGALayoutType,
    MacroType, NetlistEdge, NetlistGraph, NetlistNode, PlacementSolution, Renderer,
};

const CLB: FPGALayoutType = FPGALayoutType::MacroType(MacroType::CLB);
const DSP: FPGALayoutType = FPGALayoutType::MacroType(MacroType::DSP);
const BRAM: FPGALayoutType = FPGALayoutType::MacroType(MacroType::BRAM);
const IO: FPGALayoutType = FPGALayoutType::MacroType(MacroType::IO);

fn at(x: u32, y: u32) -> FPGALayoutCoordinate {
    FPGALayoutCoordinate::new(x, y)
}

#[test]
fn decimal_string_writes_the_digits() {
    assert_eq!(decimal_string(0), "0");
    assert_eq!(decimal_string(7), "7");
    assert_eq!(decimal_string(9), "9");
    assert_eq!(decimal_string(10), "10");
    assert_eq!(decimal_string(409), "409");
    assert_eq!(decimal_string(1234567890), "1234567890");
    assert_eq!(decimal_string(u64::MAX), "18446744073709551615");
    for n in [11u64, 99, 100, 101, 4095, 65536, 999_999_999_999] {
        assert_eq!(decimal_string(n), n.to_string());
    }
}

#[test]
fn summary_lists_size_and_counts() {
    let mut layout = build_simple_fpga_layout(12, 4);
    assert_eq!(
        layout.render_summary(),
        "FPGA Layout Summary\nWidth: 12\nHeight: 4\nCLB Count: 18\nDSP Count: 0\n\
         BRAM Count: 2\nIO Count: 24\nEmpty Count: 4\n"
    );
}

#[test]
fn summary_of_an_unconfigured_layout() {
    let mut layout = FPGALayout::new(3, 5);
    assert_eq!(
        layout.render_summary(),
        "FPGA Layout Summary\nWidth: 3\nHeight: 5\nCLB Count: 0\nDSP Count: 0\n\
         BRAM Count: 0\nIO Count: 0\nEmpty Count: 15\n"
    );
}

#[test]
fn summary_leaves_the_layout_as_it_was() {
    let mut layout = build_simple_fpga_layout(5, 5);
    let before = layout.clone();
    layout.render_summary();
    assert_eq!(layout.map, before.map);
}

#[test]
fn drawing_shows_a_box_for_each_site() {
    let mut layout = FPGALayout::new(2, 2);
    layout.config_repeat(0, 0, 1, 1, 1, 1, CLB);
    layout.config_repeat(1, 0, 1, 1, 1, 1, IO);
    layout.config_repeat(1, 1, 1, 1, 1, 1, BRAM);
    let expected = "┌───┬───┐\n\
                    │ C │ I │\n\
                    ├───┼───┤\n\
                    │   │ B │\n\
                    └───┴───┘\n";
    assert_eq!(layout.render_ascii(), expected);
}

#[test]
fn drawing_of_one_row() {
    let mut layout = FPGALayout::new(3, 1);
    layout.config_repeat(0, 0, 3, 1, 2, 1, DSP);
    assert_eq!(layout.render_ascii(), "┌───┬───┬───┐\n│ D │   │ D │\n└───┴───┴───┘\n");
}

#[test]
fn drawing_of_one_column() {
    let mut layout = FPGALayout::new(1, 3);
    layout.config_repeat(0, 1, 1, 1, 1, 1, CLB);
    assert_eq!(layout.render_ascii(), "┌───┐\n│   │\n├───┤\n│ C │\n├───┤\n│   │\n└───┘\n");
}

#[test]
fn drawing_of_an_empty_grid_is_two_corners() {
    assert_eq!(FPGALayout::new(0, 0).render_ascii(), "┐\n┘\n");
    assert_eq!(FPGALayout::new(2, 0).render_ascii(), "┌───┬───┐\n└───┴───┘\n");
    assert_eq!(FPGALayout::new(0, 2).render_ascii(), "┐\n│\n┤\n│\n┘\n");
}

#[test]
fn drawing_of_the_simple_layout() {
    let layout = build_simple_fpga_layout(4, 3);
    let expected = "┌───┬───┬───┬───┐\n\
                    │   │ I │ I │   │\n\
                    ├───┼───┼───┼───┤\n\
                    │ I │ C │ C │ I │\n\
                    ├───┼───┼───┼───┤\n\
                    │   │ I │ I │   │\n\
                    └───┴───┴───┴───┘\n";
    assert_eq!(layout.render_ascii(), expected);
}

#[test]
fn image_shows_sites_nodes_and_edges() {
    let mut layout = FPGALayout::new(2, 1);
    layout.config_repeat(0, 0, 1, 1, 1, 1, CLB);
    layout.config_repeat(1, 0, 1, 1, 1, 1, IO);
    let netlist = NetlistGraph {
        nodes: vec![
            NetlistNode { id: 7, macro_type: MacroType::IO },
            NetlistNode { id: 42, macro_type: MacroType::CLB },
        ],
        edges: vec![NetlistEdge { source: 1, target: 0 }],
    };
    let mut solution = PlacementSolution::new(&layout, &netlist);
    solution.place_node(netlist.nodes[0], at(1, 0));
    solution.place_node(netlist.nodes[1], at(0, 0));
    let expected = [
        "<svg width=\"200\" height=\"100\" xmlns=\"http://www.w3.org/2000/svg\" ",
        "style=\"background-color:white\">\n",
        "\t<rect x=\"0\" y=\"0\" width=\"200\" height=\"100\" fill=\"white\"/>\n",
        "\t<rect x=\"0\" y=\"0\" width=\"100\" height=\"100\" fill=\"red\" ",
        "fill-opacity=\"0.25\" stroke=\"black\" stroke-width=\"2\"/>\n",
        "\t<rect x=\"100\" y=\"0\" width=\"100\" height=\"100\" fill=\"yellow\" ",
        "fill-opacity=\"0.25\" stroke=\"black\" stroke-width=\"2\"/>\n",
        "\t<rect x=\"100\" y=\"0\" width=\"100\" height=\"100\" fill=\"yellow\"/>\n",
        "\t<text x=\"110\" y=\"70\" fill=\"black\" font-size=\"50\">7</text>\n",
        "\t<rect x=\"0\" y=\"0\" width=\"100\" height=\"100\" fill=\"red\"/>\n",
        "\t<text x=\"10\" y=\"70\" fill=\"black\" font-size=\"50\">42</text>\n",
        "\t<line x1=\"50\" y1=\"50\" x2=\"150\" y2=\"50\" ",
        "style=\"stroke:rgb(0,0,0);stroke-width:4\" />\n",
        "</svg>\n",
    ]
    .concat();
    assert_eq!(solution.render_svg(), expected);
}

#[test]
fn image_colours_each_type() {
    let mut layout = FPGALayout::new(1, 5);
    layout.config_repeat(0, 0, 1, 1, 1, 1, CLB);
    layout.config_repeat(0, 1, 1, 1, 1, 1, DSP);
    layout.config_repeat(0, 2, 1, 1, 1, 1, BRAM);
    layout.config_repeat(0, 3, 1, 1, 1, 1, IO);
    let netlist = NetlistGraph::new();
    let svg = PlacementSolution::new(&layout, &netlist).render_svg();
    let fills: Vec<&str> = svg
        .lines()
        .filter(|line| line.contains("fill-opacity"))
        .map(|line| line.split("fill=\"").nth(1).unwrap().split('"').next().unwrap())
        .collect();
    assert_eq!(fills, vec!["red", "blue", "green", "yellow", "gray"]);
    assert!(svg.contains("<rect x=\"0\" y=\"400\" width=\"100\" height=\"100\" fill=\"gray\""));
    assert!(svg.starts_with("<svg width=\"100\" height=\"500\" "));
    assert!(svg.ends_with("</svg>\n"));
}

#[test]
fn image_of_an_empty_layout() {
    let layout = FPGALayout::new(0, 0);
    let netlist = NetlistGraph::new();
    let expected = [
        "<svg width=\"0\" height=\"0\" xmlns=\"http://www.w3.org/2000/svg\" ",
        "style=\"background-color:white\">\n",
        "\t<rect x=\"0\" y=\"0\" width=\"0\" height=\"0\" fill=\"white\"/>\n",
        "</svg>\n",
    ]
    .concat();
    assert_eq!(PlacementSolution::new(&layout, &netlist).render_svg(), expected);
}

#[test]
fn renderer_keeps_the_frames_in_order() {
    let mut renderer = Renderer::new();
    assert!(renderer.svg_renders.is_empty());
    renderer.add_frame(String::from("first"));
    renderer.add_frame(String::from("second"));
    assert_eq!(renderer.svg_renders, vec!["first", "second"]);
    let copy = renderer.clone();
    assert_eq!(copy.svg_renders, renderer.svg_renders);
}

#[test]
fn image_of_a_placement_with_a_node_left_out() {
    let mut layout = FPGALayout::new(1, 1);
    layout.config_repeat(0, 0, 1, 1, 1, 1, CLB);
    let netlist = NetlistGraph {
        nodes: vec![
            NetlistNode { id: 3, macro_type: MacroType::CLB },
            NetlistNode { id: 4, macro_type: MacroType::CLB },
        ],
        edges: vec![NetlistEdge { source: 1, target: 1 }],
    };
    let mut solution = PlacementSolution::new(&layout, &netlist);
    solution.place_node(netlist.nodes[1], at(0, 0));
    let svg = solution.render_svg();
    assert!(svg.contains(">4</text>"));
    assert!(!svg.contains(">3</text>"));
    assert_eq!(svg.matches("<line ").count(), 1);
}

#[test]
fn select_frames_takes_every_nth_frame_from_the_first() {
    assert_eq!(select_frames(0, 0), Vec::<usize>::new());
    assert_eq!(select_frames(0, 5), Vec::<usize>::new());
    assert_eq!(select_frames(1, 1), vec![0]);
    assert_eq!(select_frames(1, 20), vec![0]);
    assert_eq!(select_frames(5, 1), vec![0, 1, 2, 3, 4]);
    assert_eq!(select_frames(5, 2), vec![0, 2, 4]);
    assert_eq!(select_frames(6, 2), vec![0, 2, 4]);
    assert_eq!(select_frames(7, 2), vec![0, 2, 4, 6]);
    assert_eq!(select_frames(20, 20), vec![0]);
    assert_eq!(select_frames(21, 20), vec![0, 20]);
    assert_eq!(select_frames(1001, 20).len(), 51);
    assert_eq!(select_frames(usize::MAX, usize::MAX), vec![0]);
    assert_eq!(select_frames(usize::MAX, usize::MAX - 1), vec![0, usize::MAX - 1]);
}
