use sa_placer::{
    build_simple_fpga_layout, FPGALayout, FPGALayoutCoordinate, FPGALayoutType, MacroType,
};

const CLB: FPGALayoutType = FPGALayoutType::MacroType(MacroType::CLB);
const DSP: FPGALayoutType = FPGALayoutType::MacroType(MacroType::DSP);
const BRAM: FPGALayoutType = FPGALayoutType::MacroType(MacroType::BRAM);
const IO: FPGALayoutType = FPGALayoutType::MacroType(MacroType::IO);
const EMPTY: FPGALayoutType = FPGALayoutType::EMPTY;

fn at(layout: &FPGALayout, x: u32, y: u32) -> Option<FPGALayoutType> {
    layout.get(&FPGALayoutCoordinate::new(x, y))
}

fn count(layout: &FPGALayout, t: FPGALayoutType) -> u64 {
    *layout.count_summary().get(&t.key()).unwrap()
}

#[test]
fn new_layout_is_empty_everywhere() {
    let layout = FPGALayout::new(3, 2);
    assert_eq!(layout.width, 3);
    assert_eq!(layout.height, 2);
    assert!(layout.map.is_empty());
    for x in 0..3 {
        for y in 0..2 {
            assert_eq!(at(&layout, x, y), Some(EMPTY));
        }
    }
}

#[test]
fn get_outside_the_grid_is_none() {
    let layout = FPGALayout::new(3, 2);
    assert_eq!(at(&layout, 3, 0), None);
    assert_eq!(at(&layout, 0, 2), None);
    assert_eq!(at(&layout, u32::MAX, u32::MAX), None);
    assert_eq!(at(&FPGALayout::new(0, 0), 0, 0), None);
}

#[test]
fn get_ignores_a_site_stored_outside_the_grid() {
    let mut layout = FPGALayout::new(2, 2);
    layout.map.insert(FPGALayoutCoordinate::new(5, 1).key(), CLB);
    assert_eq!(at(&layout, 5, 1), None);
    assert_eq!(at(&layout, 1, 1), Some(EMPTY));
}

#[test]
fn coordinate_key_packs_x_above_y() {
    assert_eq!(FPGALayoutCoordinate::new(0, 0).key(), 0);
    assert_eq!(FPGALayoutCoordinate::new(0, 7).key(), 7);
    assert_eq!(FPGALayoutCoordinate::new(1, 2).key(), (1u64 << 32) + 2);
    assert_eq!(FPGALayoutCoordinate::new(u32::MAX, u32::MAX).key(), u64::MAX);
}

#[test]
fn coordinate_key_round_trip() {
    for &(x, y) in &[(0, 0), (1, 0), (0, 1), (17, 4_000_000_000), (u32::MAX, 3)] {
        let c = FPGALayoutCoordinate::new(x, y);
        assert_eq!(FPGALayoutCoordinate::from_key(c.key()), c);
    }
    assert_eq!(FPGALayoutCoordinate::from_key(5), FPGALayoutCoordinate::new(0, 5));
    assert_eq!(FPGALayoutCoordinate::from_key(3 << 32), FPGALayoutCoordinate::new(3, 0));
}

#[test]
fn type_keys_are_the_documented_numbers() {
    assert_eq!(MacroType::CLB.key(), 0);
    assert_eq!(MacroType::DSP.key(), 1);
    assert_eq!(MacroType::BRAM.key(), 2);
    assert_eq!(MacroType::IO.key(), 3);
    assert_eq!(CLB.key(), 0);
    assert_eq!(DSP.key(), 1);
    assert_eq!(BRAM.key(), 2);
    assert_eq!(IO.key(), 3);
    assert_eq!(EMPTY.key(), 4);
}

#[test]
fn config_corners_sets_the_four_corners_only() {
    let mut layout = FPGALayout::new(4, 3);
    layout.config_corners(IO);
    for x in 0..4 {
        for y in 0..3 {
            let corner = (x == 0 || x == 3) && (y == 0 || y == 2);
            assert_eq!(at(&layout, x, y), Some(if corner { IO } else { EMPTY }));
        }
    }
    assert_eq!(layout.map.len(), 4);
}

#[test]
fn config_corners_of_a_single_site() {
    let mut layout = FPGALayout::new(1, 1);
    layout.config_corners(DSP);
    assert_eq!(at(&layout, 0, 0), Some(DSP));
    assert_eq!(layout.map.len(), 1);
}

#[test]
fn config_border_sets_the_outer_ring() {
    let mut layout = FPGALayout::new(5, 4);
    layout.config_border(IO);
    for x in 0..5 {
        for y in 0..4 {
            let border = x == 0 || x == 4 || y == 0 || y == 3;
            assert_eq!(at(&layout, x, y), Some(if border { IO } else { EMPTY }));
        }
    }
    assert_eq!(layout.map.len(), 14);
}

#[test]
fn config_border_of_an_empty_grid_sets_nothing() {
    let mut layout = FPGALayout::new(0, 0);
    layout.config_border(IO);
    assert!(layout.map.is_empty());
}

#[test]
fn config_border_overwrites_what_was_there() {
    let mut layout = FPGALayout::new(3, 3);
    layout.config_repeat(0, 0, 3, 3, 1, 1, CLB);
    layout.config_border(IO);
    assert_eq!(at(&layout, 1, 1), Some(CLB));
    assert_eq!(at(&layout, 0, 1), Some(IO));
    assert_eq!(at(&layout, 2, 2), Some(IO));
}

#[test]
fn config_repeat_sets_every_step_th_site() {
    let mut layout = FPGALayout::new(8, 8);
    layout.config_repeat(1, 2, 5, 4, 2, 3, BRAM);
    for x in 0..8u32 {
        for y in 0..8u32 {
            let hit = (x == 1 || x == 3 || x == 5) && (y == 2 || y == 5);
            assert_eq!(at(&layout, x, y), Some(if hit { BRAM } else { EMPTY }), "at {x},{y}");
        }
    }
    assert_eq!(layout.map.len(), 6);
}

#[test]
fn config_repeat_skips_sites_outside_the_grid() {
    let mut layout = FPGALayout::new(3, 2);
    layout.config_repeat(1, 1, 10, 10, 1, 1, CLB);
    assert_eq!(at(&layout, 1, 1), Some(CLB));
    assert_eq!(at(&layout, 2, 1), Some(CLB));
    assert_eq!(at(&layout, 0, 1), Some(EMPTY));
    assert_eq!(at(&layout, 1, 0), Some(EMPTY));
    assert_eq!(layout.map.len(), 2);
    assert!(layout.valid());
}

#[test]
fn config_repeat_of_an_empty_rectangle_sets_nothing() {
    let mut layout = FPGALayout::new(3, 3);
    layout.config_repeat(1, 1, 0, 3, 1, 1, CLB);
    layout.config_repeat(1, 1, 3, 0, 1, 1, CLB);
    assert!(layout.map.is_empty());
}

#[test]
fn config_repeat_with_a_step_wider_than_the_rectangle() {
    let mut layout = FPGALayout::new(6, 6);
    layout.config_repeat(2, 3, 3, 2, 100, 100, DSP);
    assert_eq!(at(&layout, 2, 3), Some(DSP));
    assert_eq!(layout.map.len(), 1);
}

#[test]
fn valid_accepts_sites_on_the_grid() {
    let mut layout = FPGALayout::new(3, 3);
    assert!(layout.valid());
    layout.config_border(IO);
    layout.config_corners(EMPTY);
    assert!(layout.valid());
}

#[test]
fn valid_rejects_a_site_outside_the_grid() {
    let mut layout = FPGALayout::new(3, 3);
    layout.map.insert(FPGALayoutCoordinate::new(3, 0).key(), CLB);
    assert!(!layout.valid());
    let mut layout = FPGALayout::new(3, 3);
    layout.map.insert(FPGALayoutCoordinate::new(0, 3).key(), CLB);
    assert!(!layout.valid());
    let mut layout = FPGALayout::new(3, 3);
    layout.config_border(IO);
    layout.map.insert(FPGALayoutCoordinate::new(7, 7).key(), EMPTY);
    assert!(!layout.valid());
}

#[test]
fn valid_leaves_the_layout_as_it_was() {
    let mut layout = FPGALayout::new(3, 3);
    layout.config_border(IO);
    let before = layout.clone();
    assert!(layout.valid());
    assert_eq!(layout.map, before.map);
    assert_eq!((layout.width, layout.height), (before.width, before.height));
}

#[test]
fn count_summary_of_an_unconfigured_layout() {
    let layout = FPGALayout::new(7, 5);
    let summary = layout.count_summary();
    assert_eq!(summary.len(), 5);
    assert_eq!(summary.get(&EMPTY.key()), Some(&35));
    for t in [CLB, DSP, BRAM, IO] {
        assert_eq!(summary.get(&t.key()), Some(&0));
    }
}

#[test]
fn layout_count_summary_counts_each_type() {
    let mut layout = FPGALayout::new(4, 4);
    layout.config_repeat(0, 0, 4, 4, 1, 1, CLB);
    layout.config_corners(IO);
    layout.config_repeat(1, 1, 1, 2, 1, 1, DSP);
    layout.config_repeat(2, 2, 1, 1, 1, 1, BRAM);
    layout.config_repeat(2, 1, 1, 1, 1, 1, EMPTY);
    assert_eq!(count(&layout, IO), 4);
    assert_eq!(count(&layout, DSP), 2);
    assert_eq!(count(&layout, BRAM), 1);
    assert_eq!(count(&layout, EMPTY), 1);
    assert_eq!(count(&layout, CLB), 8);
}

#[test]
fn count_summary_ignores_sites_outside_the_grid() {
    let mut layout = FPGALayout::new(2, 2);
    layout.map.insert(FPGALayoutCoordinate::new(9, 9).key(), CLB);
    assert_eq!(count(&layout, CLB), 0);
    assert_eq!(count(&layout, EMPTY), 4);
}

#[test]
fn count_summary_of_an_empty_grid() {
    let layout = FPGALayout::new(0, 5);
    for t in [CLB, DSP, BRAM, IO, EMPTY] {
        assert_eq!(count(&layout, t), 0);
    }
}

#[test]
fn simple_layout_has_io_ring_empty_corners_and_logic_inside() {
    let layout = build_simple_fpga_layout(6, 5);
    assert_eq!((layout.width, layout.height), (6, 5));
    for x in 0..6u32 {
        for y in 0..5u32 {
            let corner = (x == 0 || x == 5) && (y == 0 || y == 4);
            let border = x == 0 || x == 5 || y == 0 || y == 4;
            let expected = if corner { EMPTY } else if border { IO } else { CLB };
            assert_eq!(at(&layout, x, y), Some(expected), "at {x},{y}");
        }
    }
    assert_eq!(layout.map.len(), 30);
}

#[test]
fn simple_layout_has_block_memory_on_every_tenth_column() {
    let layout = build_simple_fpga_layout(32, 4);
    for x in 1..31u32 {
        for y in 1..3u32 {
            let expected = if x == 10 || x == 20 || x == 30 { BRAM } else { CLB };
            assert_eq!(at(&layout, x, y), Some(expected), "at {x},{y}");
        }
    }
    assert_eq!(at(&layout, 10, 0), Some(IO));
    assert_eq!(at(&layout, 10, 3), Some(IO));
    assert_eq!(at(&layout, 0, 1), Some(IO));
    assert_eq!(count(&layout, BRAM), 6);
    assert_eq!(count(&layout, CLB), 54);
    assert_eq!(count(&layout, EMPTY), 4);
    assert_eq!(count(&layout, IO), 64);
    assert_eq!(count(&layout, DSP), 0);
}

#[test]
fn simple_layout_puts_block_memory_on_a_tenth_column_that_is_the_border() {
    let layout = build_simple_fpga_layout(11, 4);
    assert_eq!(at(&layout, 10, 1), Some(BRAM));
    assert_eq!(at(&layout, 10, 2), Some(BRAM));
    assert_eq!(at(&layout, 10, 0), Some(EMPTY));
    assert_eq!(at(&layout, 10, 3), Some(EMPTY));
    assert_eq!(count(&layout, BRAM), 2);
    assert_eq!(count(&layout, CLB), 18);
    assert_eq!(count(&layout, IO), 20);
    assert_eq!(count(&layout, EMPTY), 4);
}

#[test]
fn simple_layout_is_valid() {
    let mut layout = build_simple_fpga_layout(64, 64);
    assert!(layout.valid());
    assert_eq!(count(&layout, EMPTY), 4);
    assert_eq!(count(&layout, IO), 4 * 62);
    assert_eq!(count(&layout, BRAM), 6 * 62);
    assert_eq!(count(&layout, CLB), 62 * 62 - 6 * 62);
}

#[test]
fn smallest_simple_layout_is_four_corners() {
    let layout = build_simple_fpga_layout(2, 2);
    for x in 0..2 {
        for y in 0..2 {
            assert_eq!(at(&layout, x, y), Some(EMPTY));
        }
    }
}

#[test]
fn clone_of_a_layout_holds_the_same_sites() {
    let layout = build_simple_fpga_layout(5, 5);
    let copy = layout.clone();
    assert_eq!(copy.map, layout.map);
    assert_eq!((copy.width, copy.height), (5, 5));
}
