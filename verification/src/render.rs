//! Text renderings: a layout as a summary and as a character drawing, a
//! placement as an SVG image.
//!
//! Each rendering is specified as the sequence of characters that it
//! produces.

use crate::fpga_layout::{
    layout_type_key, FPGALayout, FPGALayoutCoordinate, FPGALayoutType, MacroType,
};
use crate::hashing::map_get;
use crate::netlist::{node_key, NetlistEdge, NetlistNode};
use crate::placer::PlacementSolution;
use vstd::prelude::*;
use vstd::string::StringExecFns;

verus! {

/// The character of the digit `d`.
pub open spec fn digit_char(d: nat) -> char {
    if d == 0 {
        '0'
    } else if d == 1 {
        '1'
    } else if d == 2 {
        '2'
    } else if d == 3 {
        '3'
    } else if d == 4 {
        '4'
    } else if d == 5 {
        '5'
    } else if d == 6 {
        '6'
    } else if d == 7 {
        '7'
    } else if d == 8 {
        '8'
    } else {
        '9'
    }
}

/// `n` in decimal digits, without leading zeros.
pub open spec fn decimal(n: nat) -> Seq<char>
    decreases n,
{
    if n < 10 {
        seq![digit_char(n)]
    } else {
        decimal(n / 10).push(digit_char(n % 10))
    }
}

/// The digit `d` as a string.
fn digit_str(d: u64) -> (s: &'static str)
    requires
        d < 10,
    ensures
        s@ == seq![digit_char(d as nat)],
{
    proof {
        reveal_strlit("0");
        reveal_strlit("1");
        reveal_strlit("2");
        reveal_strlit("3");
        reveal_strlit("4");
        reveal_strlit("5");
        reveal_strlit("6");
        reveal_strlit("7");
        reveal_strlit("8");
        reveal_strlit("9");
    }
    let s = if d == 0 {
        "0"
    } else if d == 1 {
        "1"
    } else if d == 2 {
        "2"
    } else if d == 3 {
        "3"
    } else if d == 4 {
        "4"
    } else if d == 5 {
        "5"
    } else if d == 6 {
        "6"
    } else if d == 7 {
        "7"
    } else if d == 8 {
        "8"
    } else {
        "9"
    };
    assert(s@ =~= seq![digit_char(d as nat)]);
    s
}

/// `n` in decimal digits, without leading zeros.
pub fn decimal_string(n: u64) -> (s: String)
    ensures
        s@ == decimal(n as nat),
    decreases n,
{
    if n < 10 {
        String::from_str(digit_str(n))
    } else {
        let mut s = decimal_string(n / 10);
        s.append(digit_str(n % 10));
        assert(s@ =~= decimal((n / 10) as nat).push(digit_char((n % 10) as nat)));
        s
    }
}

/// The first `k` cells of a horizontal rule of the drawing: `first`, then
/// `inner` again and again.
pub open spec fn rule_cells(k: nat, first: Seq<char>, inner: Seq<char>) -> Seq<char>
    decreases k,
{
    if k == 0 {
        Seq::empty()
    } else {
        rule_cells((k - 1) as nat, first, inner) + (if k == 1 {
            first
        } else {
            inner
        })
    }
}

/// The cell of the drawing for a site that holds `t`.
pub open spec fn site_text(t: FPGALayoutType) -> Seq<char> {
    match t {
        FPGALayoutType::MacroType(MacroType::CLB) => "│ C "@,
        FPGALayoutType::MacroType(MacroType::DSP) => "│ D "@,
        FPGALayoutType::MacroType(MacroType::BRAM) => "│ B "@,
        FPGALayoutType::MacroType(MacroType::IO) => "│ I "@,
        FPGALayoutType::EMPTY => "│   "@,
    }
}

/// The name of the colour in which a site that holds `t` is drawn.
pub open spec fn color(t: FPGALayoutType) -> Seq<char> {
    match t {
        FPGALayoutType::MacroType(MacroType::CLB) => "red"@,
        FPGALayoutType::MacroType(MacroType::DSP) => "blue"@,
        FPGALayoutType::MacroType(MacroType::BRAM) => "green"@,
        FPGALayoutType::MacroType(MacroType::IO) => "yellow"@,
        FPGALayoutType::EMPTY => "gray"@,
    }
}

/// The opening tag of the image of a `width` by `height` layout.
pub open spec fn svg_open(width: nat, height: nat) -> Seq<char> {
    "<svg width=\""@ + decimal(width * 100) + "\" height=\""@ + decimal(height * 100)
        + "\" xmlns=\"http://www.w3.org/2000/svg\" style=\"background-color:white\">\n"@
}

/// The white rectangle behind the image of a `width` by `height` layout.
pub open spec fn svg_background(width: nat, height: nat) -> Seq<char> {
    "\t<rect x=\""@ + decimal(0) + "\" y=\""@ + decimal(0) + "\" width=\""@ + decimal(width * 100)
        + "\" height=\""@ + decimal(height * 100) + "\" fill=\"white\"/>\n"@
}

/// The pale square of the site at `(x, y)` that holds `t`.
pub open spec fn svg_site(x: nat, y: nat, t: FPGALayoutType) -> Seq<char> {
    "\t<rect x=\""@ + decimal(x * 100) + "\" y=\""@ + decimal(y * 100)
        + "\" width=\"100\" height=\"100\" fill=\""@ + color(t)
        + "\" fill-opacity=\"0.25\" stroke=\"black\" stroke-width=\"2\"/>\n"@
}

/// The square and the label of `node`, placed at `c`.
pub open spec fn svg_node(node: NetlistNode, c: FPGALayoutCoordinate) -> Seq<char> {
    "\t<rect x=\""@ + decimal((c.x * 100) as nat) + "\" y=\""@ + decimal((c.y * 100) as nat)
        + "\" width=\"100\" height=\"100\" fill=\""@ + color(
        FPGALayoutType::MacroType(node.macro_type),
    ) + "\"/>\n"@ + "\t<text x=\""@ + decimal((c.x * 100 + 10) as nat) + "\" y=\""@ + decimal(
        (c.y * 100 + 70) as nat,
    ) + "\" fill=\"black\" font-size=\"50\">"@ + decimal(node.id as nat) + "</text>\n"@
}

/// The line of an edge between nodes placed at `a` and `b`.
pub open spec fn svg_edge(a: FPGALayoutCoordinate, b: FPGALayoutCoordinate) -> Seq<char> {
    "\t<line x1=\""@ + decimal((a.x * 100 + 50) as nat) + "\" y1=\""@ + decimal(
        (a.y * 100 + 50) as nat,
    ) + "\" x2=\""@ + decimal((b.x * 100 + 50) as nat) + "\" y2=\""@ + decimal(
        (b.y * 100 + 50) as nat,
    ) + "\" style=\"stroke:rgb(0,0,0);stroke-width:4\" />\n"@
}

/// The squares and labels of the first `k` of `nodes`, as far as they are
/// placed.
pub open spec fn svg_nodes(
    nodes: Seq<NetlistNode>,
    placed: Map<u64, FPGALayoutCoordinate>,
    k: nat,
) -> Seq<char>
    decreases k,
{
    if k == 0 {
        Seq::empty()
    } else {
        let node = nodes[k - 1];
        svg_nodes(nodes, placed, (k - 1) as nat) + (if placed.contains_key(node_key(node)) {
            svg_node(node, placed[node_key(node)])
        } else {
            Seq::empty()
        })
    }
}

/// The lines of the first `k` of `edges`.
pub open spec fn svg_edges(
    nodes: Seq<NetlistNode>,
    edges: Seq<NetlistEdge>,
    placed: Map<u64, FPGALayoutCoordinate>,
    k: nat,
) -> Seq<char>
    decreases k,
{
    if k == 0 {
        Seq::empty()
    } else {
        let edge = edges[k - 1];
        svg_edges(nodes, edges, placed, (k - 1) as nat) + svg_edge(
            placed[node_key(nodes[edge.source as int])],
            placed[node_key(nodes[edge.target as int])],
        )
    }
}

/// Appends a horizontal rule of `width` cells to `out`.
fn append_rule(out: &mut String, width: u32, first: &str, inner: &str, end: &str)
    ensures
        final(out)@ == old(out)@ + rule_cells(width as nat, first@, inner@) + end@,
{
    let mut x: u32 = 0;
    assert(out@ =~= old(out)@ + rule_cells(0, first@, inner@));
    while x < width
        invariant
            x <= width,
            out@ == old(out)@ + rule_cells(x as nat, first@, inner@),
        decreases width - x,
    {
        if x == 0 {
            out.append(first);
        } else {
            out.append(inner);
        }
        x += 1;
        assert(out@ =~= old(out)@ + rule_cells(x as nat, first@, inner@));
    }
    out.append(end);
}

/// The string that names the colour of `t`.
fn color_name(t: FPGALayoutType) -> (name: &'static str)
    ensures
        name@ == color(t),
{
    match t {
        FPGALayoutType::MacroType(MacroType::CLB) => "red",
        FPGALayoutType::MacroType(MacroType::DSP) => "blue",
        FPGALayoutType::MacroType(MacroType::BRAM) => "green",
        FPGALayoutType::MacroType(MacroType::IO) => "yellow",
        FPGALayoutType::EMPTY => "gray",
    }
}

/// The numbers of the frames that go into a video of `frame_count` frames
/// when every `every_n_frames`-th is taken: 0, `every_n_frames`, twice that,
/// and so on below `frame_count`.  The position of a number in the list is
/// the number under which the frame is encoded.
pub fn select_frames(frame_count: usize, every_n_frames: usize) -> (chosen: Vec<usize>)
    requires
        frame_count > 0 ==> every_n_frames > 0,
    ensures
        forall|k: int|
            0 <= k < chosen@.len() ==> #[trigger] chosen@[k] == k * every_n_frames && chosen@[k]
                < frame_count,
        chosen@.len() * every_n_frames >= frame_count,
{
    let mut chosen: Vec<usize> = Vec::new();
    let mut next: usize = 0;
    let mut done = frame_count == 0;
    while !done
        invariant
            frame_count > 0 ==> every_n_frames > 0,
            !done ==> next < frame_count && next == chosen@.len() * every_n_frames,
            forall|k: int|
                0 <= k < chosen@.len() ==> #[trigger] chosen@[k] == k * every_n_frames
                    && chosen@[k] < frame_count,
            done ==> chosen@.len() * every_n_frames >= frame_count,
        decreases
                (if done {
                    0
                } else {
                    frame_count - next
                }),
    {
        let ghost taken = chosen@.len();
        chosen.push(next);
        proof {
            assert((taken + 1) * every_n_frames == taken * every_n_frames + every_n_frames)
                by (nonlinear_arith);
        }
        if every_n_frames >= frame_count - next {
            done = true;
        } else {
            next += every_n_frames;
        }
    }
    chosen
}

/// The frames of an animation, each an SVG image.
#[derive(Debug)]
pub struct Renderer {
    pub svg_renders: Vec<String>,
}

impl Clone for Renderer {
    fn clone(&self) -> (copy: Self)
        ensures
            copy.svg_renders@.len() == self.svg_renders@.len(),
            forall|i: int|
                0 <= i < self.svg_renders@.len() ==> (#[trigger] copy.svg_renders@[i])@
                    == self.svg_renders@[i]@,
    {
        let mut frames: Vec<String> = Vec::new();
        let mut i: usize = 0;
        while i < self.svg_renders.len()
            invariant
                i <= self.svg_renders@.len(),
                frames@.len() == i,
                forall|j: int|
                    0 <= j < i ==> (#[trigger] frames@[j])@ == self.svg_renders@[j]@,
            decreases self.svg_renders@.len() - i,
        {
            frames.push(self.svg_renders[i].clone());
            i += 1;
        }
        Renderer { svg_renders: frames }
    }
}

impl Renderer {
    /// An animation without frames.
    pub fn new() -> (renderer: Renderer)
        ensures
            renderer.svg_renders@.len() == 0,
    {
        Renderer { svg_renders: Vec::new() }
    }

    /// Adds `svg` as the last frame.
    pub fn add_frame(&mut self, svg: String)
        ensures
            final(self).svg_renders@ == old(self).svg_renders@.push(svg),
    {
        self.svg_renders.push(svg);
    }
}

impl FPGALayout {
    /// The summary of the layout: its size and how many sites hold each
    /// type, one line each.
    pub open spec fn summary_text(&self) -> Seq<char> {
        "FPGA Layout Summary\n"@ + "Width: "@ + decimal(self.width as nat) + "\n"@ + "Height: "@
            + decimal(self.height as nat) + "\n"@ + "CLB Count: "@ + decimal(
            self.site_count(FPGALayoutType::MacroType(MacroType::CLB)),
        ) + "\n"@ + "DSP Count: "@ + decimal(
            self.site_count(FPGALayoutType::MacroType(MacroType::DSP)),
        ) + "\n"@ + "BRAM Count: "@ + decimal(
            self.site_count(FPGALayoutType::MacroType(MacroType::BRAM)),
        ) + "\n"@ + "IO Count: "@ + decimal(
            self.site_count(FPGALayoutType::MacroType(MacroType::IO)),
        ) + "\n"@ + "Empty Count: "@ + decimal(self.site_count(FPGALayoutType::EMPTY)) + "\n"@
    }

    /// The cells of the first `k` sites of row `y` of the drawing.
    pub open spec fn row_cells(&self, y: u32, k: nat) -> Seq<char>
        decreases k,
    {
        if k == 0 {
            Seq::empty()
        } else {
            self.row_cells(y, (k - 1) as nat) + site_text(
                self.site(FPGALayoutCoordinate { x: (k - 1) as u32, y }),
            )
        }
    }

    /// The first `k` rows of the drawing, each followed by the rule that
    /// parts it from the next row.
    pub open spec fn ascii_rows(&self, k: nat) -> Seq<char>
        decreases k,
    {
        if k == 0 {
            Seq::empty()
        } else {
            self.ascii_rows((k - 1) as nat) + self.row_cells((k - 1) as u32, self.width as nat)
                + "│\n"@ + (if k < self.height {
                rule_cells(self.width as nat, "├───"@, "┼───"@) + "┤\n"@
            } else {
                Seq::empty()
            })
        }
    }

    /// The drawing of the layout: a box for each site with the first letter
    /// of what it holds, row by row.
    pub open spec fn ascii_art(&self) -> Seq<char> {
        rule_cells(self.width as nat, "┌───"@, "┬───"@) + "┐\n"@ + self.ascii_rows(
            self.height as nat,
        ) + rule_cells(self.width as nat, "└───"@, "┴───"@) + "┘\n"@
    }

    /// The pale squares of the first `k` sites of column `x` of the image.
    pub open spec fn svg_column(&self, x: u32, k: nat) -> Seq<char>
        decreases k,
    {
        if k == 0 {
            Seq::empty()
        } else {
            self.svg_column(x, (k - 1) as nat) + svg_site(
                x as nat,
                (k - 1) as nat,
                self.site(FPGALayoutCoordinate { x, y: (k - 1) as u32 }),
            )
        }
    }

    /// The pale squares of the first `k` columns of the image.
    pub open spec fn svg_columns(&self, k: nat) -> Seq<char>
        decreases k,
    {
        if k == 0 {
            Seq::empty()
        } else {
            self.svg_columns((k - 1) as nat) + self.svg_column(
                (k - 1) as u32,
                self.height as nat,
            )
        }
    }

    /// The summary of the layout: its size and how many sites hold each
    /// type, one line each.
    pub fn render_summary(&mut self) -> (output: String)
        ensures
            output@ == old(self).summary_text(),
            *final(self) == *old(self),
    {
        let counts = self.count_summary();
        let clb = FPGALayoutType::MacroType(MacroType::CLB);
        let dsp = FPGALayoutType::MacroType(MacroType::DSP);
        let bram = FPGALayoutType::MacroType(MacroType::BRAM);
        let io = FPGALayoutType::MacroType(MacroType::IO);
        let empty = FPGALayoutType::EMPTY;
        proof {
            assert(counts@.contains_key(layout_type_key(clb)));
            assert(counts@.contains_key(layout_type_key(dsp)));
            assert(counts@.contains_key(layout_type_key(bram)));
            assert(counts@.contains_key(layout_type_key(io)));
            assert(counts@.contains_key(layout_type_key(empty)));
        }
        let clb_count = map_get(&counts, clb.key()).unwrap();
        let dsp_count = map_get(&counts, dsp.key()).unwrap();
        let bram_count = map_get(&counts, bram.key()).unwrap();
        let io_count = map_get(&counts, io.key()).unwrap();
        let empty_count = map_get(&counts, empty.key()).unwrap();
        let mut output = String::from_str("FPGA Layout Summary\n");
        output.append("Width: ");
        output.append(decimal_string(self.width as u64).as_str());
        output.append("\n");
        output.append("Height: ");
        output.append(decimal_string(self.height as u64).as_str());
        output.append("\n");
        output.append("CLB Count: ");
        output.append(decimal_string(clb_count).as_str());
        output.append("\n");
        output.append("DSP Count: ");
        output.append(decimal_string(dsp_count).as_str());
        output.append("\n");
        output.append("BRAM Count: ");
        output.append(decimal_string(bram_count).as_str());
        output.append("\n");
        output.append("IO Count: ");
        output.append(decimal_string(io_count).as_str());
        output.append("\n");
        output.append("Empty Count: ");
        output.append(decimal_string(empty_count).as_str());
        output.append("\n");
        assert(output@ =~= self.summary_text());
        output
    }

    /// The drawing of the layout: a box for each site with the first letter
    /// of what it holds, row by row.
    pub fn render_ascii(&self) -> (output: String)
        ensures
            output@ == self.ascii_art(),
    {
        let mut output = String::new();
        append_rule(&mut output, self.width, "┌───", "┬───", "┐\n");
        let ghost top = output@;
        assert(top =~= rule_cells(self.width as nat, "┌───"@, "┬───"@) + "┐\n"@);
        assert(output@ =~= top + self.ascii_rows(0));
        let mut y: u32 = 0;
        while y < self.height
            invariant
                y <= self.height,
                output@ == top + self.ascii_rows(y as nat),
            decreases self.height - y,
        {
            let ghost before_row = output@;
            let mut x: u32 = 0;
            assert(output@ =~= before_row + self.row_cells(y, 0));
            while x < self.width
                invariant
                    x <= self.width,
                    y < self.height,
                    output@ == before_row + self.row_cells(y, x as nat),
                decreases self.width - x,
            {
                let here = FPGALayoutCoordinate::new(x, y);
                let found = match self.get(&here) {
                    Some(t) => t,
                    None => FPGALayoutType::EMPTY,
                };
                match found {
                    FPGALayoutType::MacroType(MacroType::CLB) => output.append("│ C "),
                    FPGALayoutType::MacroType(MacroType::DSP) => output.append("│ D "),
                    FPGALayoutType::MacroType(MacroType::BRAM) => output.append("│ B "),
                    FPGALayoutType::MacroType(MacroType::IO) => output.append("│ I "),
                    FPGALayoutType::EMPTY => output.append("│   "),
                }
                x += 1;
                assert(output@ =~= before_row + self.row_cells(y, x as nat));
            }
            output.append("│\n");
            if y < self.height - 1 {
                append_rule(&mut output, self.width, "├───", "┼───", "┤\n");
            }
            y += 1;
            assert(output@ =~= top + self.ascii_rows(y as nat));
        }
        append_rule(&mut output, self.width, "└───", "┴───", "┘\n");
        assert(output@ =~= self.ascii_art());
        output
    }
}

impl<'a> PlacementSolution<'a> {
    /// The image of the placement: the sites of the layout in pale colours,
    /// column by column, then the placed nodes of the netlist in full colour,
    /// each with its identifier, in the netlist's order, then a line for
    /// each edge.  A site measures 100 by 100.
    pub open spec fn svg_text(&self) -> Seq<char> {
        svg_open(self.layout.width as nat, self.layout.height as nat) + svg_background(
            self.layout.width as nat,
            self.layout.height as nat,
        ) + self.layout.svg_columns(self.layout.width as nat) + svg_nodes(
            self.netlist.nodes@,
            self.solution_map@,
            self.netlist.nodes@.len(),
        ) + svg_edges(
            self.netlist.nodes@,
            self.netlist.edges@,
            self.solution_map@,
            self.netlist.edges@.len(),
        ) + "</svg>\n"@
    }

    /// The image of the placement as SVG text.  Both ends of every edge must
    /// be placed.
    pub fn render_svg(&self) -> (svg: String)
        requires
            self.netlist.wf(),
            self.edges_placed(),
        ensures
            svg@ == self.svg_text(),
    {
        let width = self.layout.width;
        let height = self.layout.height;
        let mut svg = String::from_str("<svg width=\"");
        svg.append(decimal_string(width as u64 * 100).as_str());
        svg.append("\" height=\"");
        svg.append(decimal_string(height as u64 * 100).as_str());
        svg.append(
            "\" xmlns=\"http://www.w3.org/2000/svg\" style=\"background-color:white\">\n",
        );
        assert(svg@ =~= svg_open(width as nat, height as nat));
        svg.append("\t<rect x=\"");
        svg.append(decimal_string(0).as_str());
        svg.append("\" y=\"");
        svg.append(decimal_string(0).as_str());
        svg.append("\" width=\"");
        svg.append(decimal_string(width as u64 * 100).as_str());
        svg.append("\" height=\"");
        svg.append(decimal_string(height as u64 * 100).as_str());
        svg.append("\" fill=\"white\"/>\n");
        let ghost head = svg@;
        assert(head =~= svg_open(width as nat, height as nat) + svg_background(
            width as nat,
            height as nat,
        ));

        assert(svg@ =~= head + self.layout.svg_columns(0));
        let mut x: u32 = 0;
        while x < width
            invariant
                x <= width,
                width == self.layout.width,
                height == self.layout.height,
                svg@ == head + self.layout.svg_columns(x as nat),
            decreases width - x,
        {
            let ghost before_column = svg@;
            assert(svg@ =~= before_column + self.layout.svg_column(x, 0));
            let mut y: u32 = 0;
            while y < height
                invariant
                    x < width,
                    y <= height,
                    width == self.layout.width,
                    height == self.layout.height,
                    svg@ == before_column + self.layout.svg_column(x, y as nat),
                decreases height - y,
            {
                let here = FPGALayoutCoordinate::new(x, y);
                let found = match self.layout.get(&here) {
                    Some(t) => t,
                    None => FPGALayoutType::EMPTY,
                };
                let ghost before_site = svg@;
                svg.append("\t<rect x=\"");
                svg.append(decimal_string(x as u64 * 100).as_str());
                svg.append("\" y=\"");
                svg.append(decimal_string(y as u64 * 100).as_str());
                svg.append("\" width=\"100\" height=\"100\" fill=\"");
                svg.append(color_name(found));
                svg.append("\" fill-opacity=\"0.25\" stroke=\"black\" stroke-width=\"2\"/>\n");
                assert(svg@ =~= before_site + svg_site(x as nat, y as nat, found));
                y += 1;
                assert(svg@ =~= before_column + self.layout.svg_column(x, y as nat));
            }
            x += 1;
            assert(svg@ =~= head + self.layout.svg_columns(x as nat));
        }
        let ghost sites = svg@;

        assert(svg@ =~= sites + svg_nodes(self.netlist.nodes@, self.solution_map@, 0));
        let mut i: usize = 0;
        while i < self.netlist.nodes.len()
            invariant
                i <= self.netlist.nodes@.len(),
                svg@ == sites + svg_nodes(self.netlist.nodes@, self.solution_map@, i as nat),
            decreases self.netlist.nodes@.len() - i,
        {
            let node = self.netlist.nodes[i];
            let ghost before_node = svg@;
            match self.get_location(&node) {
                Some(location) => {
                    svg.append("\t<rect x=\"");
                    svg.append(decimal_string(location.x as u64 * 100).as_str());
                    svg.append("\" y=\"");
                    svg.append(decimal_string(location.y as u64 * 100).as_str());
                    svg.append("\" width=\"100\" height=\"100\" fill=\"");
                    svg.append(color_name(FPGALayoutType::MacroType(node.macro_type)));
                    svg.append("\"/>\n");
                    svg.append("\t<text x=\"");
                    svg.append(decimal_string(location.x as u64 * 100 + 10).as_str());
                    svg.append("\" y=\"");
                    svg.append(decimal_string(location.y as u64 * 100 + 70).as_str());
                    svg.append("\" fill=\"black\" font-size=\"50\">");
                    svg.append(decimal_string(node.id as u64).as_str());
                    svg.append("</text>\n");
                    assert(svg@ =~= before_node + svg_node(node, location));
                },
                None => {},
            }
            i += 1;
            assert(svg@ =~= sites + svg_nodes(self.netlist.nodes@, self.solution_map@, i as nat));
        }
        let ghost boxes = svg@;

        assert(svg@ =~= boxes + svg_edges(
            self.netlist.nodes@,
            self.netlist.edges@,
            self.solution_map@,
            0,
        ));
        let mut e: usize = 0;
        while e < self.netlist.edges.len()
            invariant
                e <= self.netlist.edges@.len(),
                self.netlist.wf(),
                self.edges_placed(),
                svg@ == boxes + svg_edges(
                    self.netlist.nodes@,
                    self.netlist.edges@,
                    self.solution_map@,
                    e as nat,
                ),
            decreases self.netlist.edges@.len() - e,
        {
            let edge = self.netlist.edges[e];
            let source = self.netlist.nodes[edge.source];
            let target = self.netlist.nodes[edge.target];
            assert(self.netlist.edges@[e as int] == edge);
            let from = self.get_location(&source).unwrap();
            let to = self.get_location(&target).unwrap();
            let ghost before_edge = svg@;
            svg.append("\t<line x1=\"");
            svg.append(decimal_string(from.x as u64 * 100 + 50).as_str());
            svg.append("\" y1=\"");
            svg.append(decimal_string(from.y as u64 * 100 + 50).as_str());
            svg.append("\" x2=\"");
            svg.append(decimal_string(to.x as u64 * 100 + 50).as_str());
            svg.append("\" y2=\"");
            svg.append(decimal_string(to.y as u64 * 100 + 50).as_str());
            svg.append("\" style=\"stroke:rgb(0,0,0);stroke-width:4\" />\n");
            assert(svg@ =~= before_edge + svg_edge(from, to));
            e += 1;
            assert(svg@ =~= boxes + svg_edges(
                self.netlist.nodes@,
                self.netlist.edges@,
                self.solution_map@,
                e as nat,
            ));
        }
        svg.append("</svg>\n");
        assert(svg@ =~= self.svg_text());
        svg
    }
}

} // verus!
