//! The fabric: a grid of typed sites.
//!
//! A layout stores the sites that were configured in a hash map keyed by the
//! site's coordinate, packed into one `u64`.  A site inside the grid that was
//! never configured is empty.

use crate::hashing::{lists_entries, map_entries, map_get, map_insert};
use rustc_hash::FxHashMap;
use vstd::arithmetic::div_mod::{lemma_mod_add_multiples_vanish, lemma_small_mod, lemma_sub_mod_noop};
use vstd::prelude::*;

verus! {

/// The kinds of macro that a site can offer and a node can ask for.
#[derive(Clone, Copy, Debug, PartialEq, Eq, Hash, Structural)]
pub enum MacroType {
    CLB,
    DSP,
    BRAM,
    IO,
}

/// What a site of the fabric holds: a macro of some kind, or nothing.
#[derive(Clone, Copy, Debug, PartialEq, Eq, Hash, Structural)]
pub enum FPGALayoutType {
    MacroType(MacroType),
    EMPTY,
}

/// A position on the grid.
#[derive(Clone, Copy, Debug, PartialEq, Eq, Hash, Structural)]
pub struct FPGALayoutCoordinate {
    pub x: u32,
    pub y: u32,
}

/// The number under which a macro type is counted in a summary.
pub open spec fn macro_key(t: MacroType) -> u64 {
    match t {
        MacroType::CLB => 0,
        MacroType::DSP => 1,
        MacroType::BRAM => 2,
        MacroType::IO => 3,
    }
}

/// The number under which a site type is counted in a summary: that of its
/// macro type, and 4 for an empty site.
pub open spec fn layout_type_key(t: FPGALayoutType) -> u64 {
    match t {
        FPGALayoutType::MacroType(m) => macro_key(m),
        FPGALayoutType::EMPTY => 4,
    }
}

/// The number under which a coordinate is stored: `x` in the upper half, `y`
/// in the lower.
pub open spec fn coord_key(c: FPGALayoutCoordinate) -> u64 {
    (c.x * 0x1_0000_0000 + c.y) as u64
}

/// The coordinate that is stored under `k`.
pub open spec fn key_coord(k: u64) -> FPGALayoutCoordinate {
    FPGALayoutCoordinate { x: (k / 0x1_0000_0000) as u32, y: (k % 0x1_0000_0000) as u32 }
}

/// Packing a coordinate and unpacking a key undo each other.
pub proof fn lemma_coord_key_bijective()
    ensures
        forall|c: FPGALayoutCoordinate| #[trigger] key_coord(coord_key(c)) == c,
        forall|k: u64| #[trigger] coord_key(key_coord(k)) == k,
{
}

/// Whether `a` comes before `b` when the grid is walked column by column,
/// each column from `y = 0` upwards.
pub open spec fn scan_before(a: FPGALayoutCoordinate, b: FPGALayoutCoordinate) -> bool {
    a.x < b.x || (a.x == b.x && a.y < b.y)
}

/// `m` with every key of `region` set to `t`.
pub open spec fn paint(m: Map<u64, FPGALayoutType>, region: Set<u64>, t: FPGALayoutType) -> Map<
    u64,
    FPGALayoutType,
> {
    Map::new(
        |k: u64| m.contains_key(k) || region.contains(k),
        |k: u64|
            if region.contains(k) {
                t
            } else {
                m[k]
            },
    )
}

/// The keys of the four corners of a `width` by `height` grid.
pub open spec fn corner_keys(width: u32, height: u32) -> Set<u64> {
    Set::new(
        |k: u64|
            {
                let c = key_coord(k);
                (c.x == 0 || c.x == width - 1) && (c.y == 0 || c.y == height - 1)
            },
    )
}

/// The keys of the outermost ring of a `width` by `height` grid.
pub open spec fn border_keys(width: u32, height: u32) -> Set<u64> {
    Set::new(
        |k: u64|
            {
                let c = key_coord(k);
                c.x < width && c.y < height && (c.x == 0 || c.x == width - 1 || c.y == 0 || c.y
                    == height - 1)
            },
    )
}

/// The keys of the sites inside a `grid_width` by `grid_height` grid that lie
/// in the rectangle at `(x, y)` of size `width` by `height`, on every
/// `step_x`-th column and every `step_y`-th row of it, counted from its corner.
pub open spec fn repeat_keys(
    x: u32,
    y: u32,
    width: u32,
    height: u32,
    step_x: u32,
    step_y: u32,
    grid_width: u32,
    grid_height: u32,
) -> Set<u64> {
    Set::new(
        |k: u64|
            {
                let c = key_coord(k);
                &&& x <= c.x < x + width
                &&& y <= c.y < y + height
                &&& (c.x - x) % (step_x as int) == 0
                &&& (c.y - y) % (step_y as int) == 0
                &&& c.x < grid_width
                &&& c.y < grid_height
            },
    )
}

/// The keys of the border sites that `config_border` has set once it has
/// walked the columns below `x_done` and the rows below `y_done`.
pub open spec fn border_part(width: u32, height: u32, x_done: int, y_done: int) -> Set<u64> {
    Set::new(
        |k: u64|
            {
                let c = key_coord(k);
                ||| c.x < x_done && (c.y == 0 || c.y == height - 1)
                ||| c.y < y_done && (c.x == 0 || c.x == width - 1)
            },
    )
}

/// The keys that `config_repeat` has set once it has walked the columns
/// before `cx` and, of column `cx`, the rows before `cy`.
pub open spec fn repeat_part(
    x: u32,
    y: u32,
    width: u32,
    height: u32,
    step_x: u32,
    step_y: u32,
    grid_width: u32,
    grid_height: u32,
    cx: int,
    cy: int,
) -> Set<u64> {
    Set::new(
        |k: u64|
            {
                let c = key_coord(k);
                &&& repeat_keys(
                    x,
                    y,
                    width,
                    height,
                    step_x,
                    step_y,
                    grid_width,
                    grid_height,
                ).contains(k)
                &&& (c.x < cx || (c.x == cx && c.y < cy))
            },
    )
}

/// Two multiples of `s` that are less than `s` apart are equal, and the
/// multiple after `a` is `a + s`.
proof fn lemma_stride(a: int, b: int, s: int)
    requires
        s > 0,
        a % s == 0,
    ensures
        (a + s) % s == 0,
        b % s == 0 && a <= b < a + s ==> b == a,
{
    lemma_mod_add_multiples_vanish(a, s);
    if b % s == 0 && a <= b < a + s {
        lemma_sub_mod_noop(b, a, s);
        lemma_small_mod((b - a) as nat, s as nat);
    }
}

/// The counter that `count_summary` keeps for `t`.
pub open spec fn tally(
    t: FPGALayoutType,
    empty: u64,
    clb: u64,
    dsp: u64,
    bram: u64,
    io: u64,
) -> u64 {
    match t {
        FPGALayoutType::MacroType(MacroType::CLB) => clb,
        FPGALayoutType::MacroType(MacroType::DSP) => dsp,
        FPGALayoutType::MacroType(MacroType::BRAM) => bram,
        FPGALayoutType::MacroType(MacroType::IO) => io,
        FPGALayoutType::EMPTY => empty,
    }
}

/// What the site at `c` of the simple `width` by `height` fabric holds:
/// block memory on every tenth column of the inner rows, logic on the rest of
/// the interior, nothing in the corners, and I/O on the rest of the border.
pub open spec fn simple_site(width: u32, height: u32, c: FPGALayoutCoordinate) -> FPGALayoutType {
    if c.x >= 10 && c.x % 10 == 0 && 1 <= c.y < height - 1 {
        FPGALayoutType::MacroType(MacroType::BRAM)
    } else if 1 <= c.x < width - 1 && 1 <= c.y < height - 1 {
        FPGALayoutType::MacroType(MacroType::CLB)
    } else if (c.x == 0 || c.x == width - 1) && (c.y == 0 || c.y == height - 1) {
        FPGALayoutType::EMPTY
    } else {
        FPGALayoutType::MacroType(MacroType::IO)
    }
}

impl MacroType {
    /// The number under which the type is counted in a summary.
    pub fn key(&self) -> (k: u64)
        ensures
            k == macro_key(*self),
    {
        match self {
            MacroType::CLB => 0,
            MacroType::DSP => 1,
            MacroType::BRAM => 2,
            MacroType::IO => 3,
        }
    }
}

impl FPGALayoutType {
    /// The number under which the type is counted in a summary.
    pub fn key(&self) -> (k: u64)
        ensures
            k == layout_type_key(*self),
    {
        match self {
            FPGALayoutType::MacroType(m) => m.key(),
            FPGALayoutType::EMPTY => 4,
        }
    }
}

impl FPGALayoutCoordinate {
    pub fn new(x: u32, y: u32) -> (c: FPGALayoutCoordinate)
        ensures
            c.x == x,
            c.y == y,
    {
        FPGALayoutCoordinate { x, y }
    }

    /// The number under which the coordinate is stored.
    pub fn key(&self) -> (k: u64)
        ensures
            k == coord_key(*self),
    {
        (self.x as u64) * 0x1_0000_0000 + (self.y as u64)
    }

    /// The coordinate that is stored under `k`.
    pub fn from_key(k: u64) -> (c: FPGALayoutCoordinate)
        ensures
            c == key_coord(k),
    {
        FPGALayoutCoordinate { x: (k / 0x1_0000_0000) as u32, y: (k % 0x1_0000_0000) as u32 }
    }
}

/// A grid of `width` by `height` sites.
#[derive(Debug)]
pub struct FPGALayout {
    /// The configured sites, each under the key of its coordinate.
    pub map: FxHashMap<u64, FPGALayoutType>,
    pub width: u32,
    pub height: u32,
}

impl Clone for FPGALayout {
    fn clone(&self) -> (r: Self)
        ensures
            r.width == self.width,
            r.height == self.height,
            r.map@ == self.map@,
    {
        FPGALayout { map: self.map.clone(), width: self.width, height: self.height }
    }
}

impl FPGALayout {
    /// Whether `c` lies on the grid.
    pub open spec fn in_bounds(&self, c: FPGALayoutCoordinate) -> bool {
        c.x < self.width && c.y < self.height
    }

    /// What the site at `c` holds: what was configured there, else nothing.
    pub open spec fn site(&self, c: FPGALayoutCoordinate) -> FPGALayoutType {
        if self.map@.contains_key(coord_key(c)) {
            self.map@[coord_key(c)]
        } else {
            FPGALayoutType::EMPTY
        }
    }

    /// What `get` returns for `c`.
    pub open spec fn spec_get(&self, c: FPGALayoutCoordinate) -> Option<FPGALayoutType> {
        if self.in_bounds(c) {
            Some(self.site(c))
        } else {
            None
        }
    }

    /// Whether every configured site lies on the grid.
    pub open spec fn spec_valid(&self) -> bool {
        forall|k: u64| #[trigger]
            self.map@.contains_key(k) ==> key_coord(k).x < self.width && key_coord(k).y
                < self.height
    }

    /// The sites of the grid that hold `t`.
    pub open spec fn sites_of_type(&self, t: FPGALayoutType) -> Set<FPGALayoutCoordinate> {
        Set::new(|c: FPGALayoutCoordinate| self.in_bounds(c) && self.site(c) == t)
    }

    /// How many sites of the grid hold `t`.
    pub open spec fn site_count(&self, t: FPGALayoutType) -> nat {
        self.sites_of_type(t).len()
    }

    /// The sites holding `t` among those that come before `(x, y)` when the
    /// grid is walked column by column.
    pub open spec fn scanned_sites(&self, t: FPGALayoutType, x: int, y: int) -> Set<
        FPGALayoutCoordinate,
    > {
        Set::new(
            |c: FPGALayoutCoordinate|
                self.in_bounds(c) && self.site(c) == t && (c.x < x || (c.x == x && c.y < y)),
        )
    }

    /// Whether the five counters hold, each for its type, how many sites come
    /// before `(x, y)`.
    pub open spec fn tallied(
        &self,
        x: int,
        y: int,
        empty: u64,
        clb: u64,
        dsp: u64,
        bram: u64,
        io: u64,
    ) -> bool {
        forall|t: FPGALayoutType|
            (#[trigger] self.scanned_sites(t, x, y)).finite() && self.scanned_sites(t, x, y).len()
                == tally(t, empty, clb, dsp, bram, io)
    }

    /// A grid of the given size with no site configured.
    pub fn new(width: u32, height: u32) -> (layout: FPGALayout)
        ensures
            layout.width == width,
            layout.height == height,
            layout.map@ == Map::<u64, FPGALayoutType>::empty(),
    {
        FPGALayout { map: FxHashMap::default(), width, height }
    }

    /// Sets the four corners of the grid to `layout_type`.
    pub fn config_corners(&mut self, layout_type: FPGALayoutType)
        requires
            old(self).width >= 1,
            old(self).height >= 1,
        ensures
            final(self).width == old(self).width,
            final(self).height == old(self).height,
            final(self).map@ == paint(
                old(self).map@,
                corner_keys(old(self).width, old(self).height),
                layout_type,
            ),
    {
        let right = self.width - 1;
        let bottom = self.height - 1;
        map_insert(&mut self.map, FPGALayoutCoordinate::new(0, 0).key(), layout_type);
        map_insert(&mut self.map, FPGALayoutCoordinate::new(0, bottom).key(), layout_type);
        map_insert(&mut self.map, FPGALayoutCoordinate::new(right, 0).key(), layout_type);
        map_insert(&mut self.map, FPGALayoutCoordinate::new(right, bottom).key(), layout_type);
        proof {
            lemma_coord_key_bijective();
            assert(self.map@ =~= paint(
                old(self).map@,
                corner_keys(old(self).width, old(self).height),
                layout_type,
            ));
        }
    }

    /// Sets the outermost ring of the grid to `layout_type`.
    pub fn config_border(&mut self, layout_type: FPGALayoutType)
        requires
            (old(self).width == 0) == (old(self).height == 0),
        ensures
            final(self).width == old(self).width,
            final(self).height == old(self).height,
            final(self).map@ == paint(
                old(self).map@,
                border_keys(old(self).width, old(self).height),
                layout_type,
            ),
    {
        let ghost before = self.map@;
        let width = self.width;
        let height = self.height;
        proof {
            assert(self.map@ =~= paint(before, border_part(width, height, 0, 0), layout_type));
        }
        let mut x: u32 = 0;
        while x < width
            invariant
                x <= width,
                self.width == width,
                self.height == height,
                (width == 0) == (height == 0),
                self.map@ == paint(before, border_part(width, height, x as int, 0), layout_type),
            decreases width - x,
        {
            let top = FPGALayoutCoordinate::new(x, 0);
            let bottom = FPGALayoutCoordinate::new(x, height - 1);
            map_insert(&mut self.map, top.key(), layout_type);
            map_insert(&mut self.map, bottom.key(), layout_type);
            proof {
                lemma_coord_key_bijective();
                assert(border_part(width, height, x + 1, 0) =~= border_part(
                    width,
                    height,
                    x as int,
                    0,
                ).insert(coord_key(top)).insert(coord_key(bottom)));
                assert(self.map@ =~= paint(
                    before,
                    border_part(width, height, x + 1, 0),
                    layout_type,
                ));
            }
            x += 1;
        }
        let mut y: u32 = 0;
        while y < height
            invariant
                y <= height,
                self.width == width,
                self.height == height,
                (width == 0) == (height == 0),
                self.map@ == paint(
                    before,
                    border_part(width, height, width as int, y as int),
                    layout_type,
                ),
            decreases height - y,
        {
            let left = FPGALayoutCoordinate::new(0, y);
            let right = FPGALayoutCoordinate::new(width - 1, y);
            map_insert(&mut self.map, left.key(), layout_type);
            map_insert(&mut self.map, right.key(), layout_type);
            proof {
                lemma_coord_key_bijective();
                assert(border_part(width, height, width as int, y + 1) =~= border_part(
                    width,
                    height,
                    width as int,
                    y as int,
                ).insert(coord_key(left)).insert(coord_key(right)));
                assert(self.map@ =~= paint(
                    before,
                    border_part(width, height, width as int, y + 1),
                    layout_type,
                ));
            }
            y += 1;
        }
        proof {
            assert(border_part(width, height, width as int, height as int) =~= border_keys(
                width,
                height,
            ));
        }
    }

    /// Sets to `layout_type` the sites on every `step_x`-th column and every
    /// `step_y`-th row of the rectangle at `(x, y)` of size `width` by
    /// `height`, as far as they lie on the grid.
    pub fn config_repeat(
        &mut self,
        x: u32,
        y: u32,
        width: u32,
        height: u32,
        step_x: u32,
        step_y: u32,
        layout_type: FPGALayoutType,
    )
        requires
            step_x > 0,
            x + width <= u32::MAX,
            width > 0 ==> step_y > 0 && y + height <= u32::MAX,
        ensures
            final(self).width == old(self).width,
            final(self).height == old(self).height,
            final(self).map@ == paint(
                old(self).map@,
                repeat_keys(
                    x,
                    y,
                    width,
                    height,
                    step_x,
                    step_y,
                    old(self).width,
                    old(self).height,
                ),
                layout_type,
            ),
    {
        let ghost before = self.map@;
        let grid_w = self.width;
        let grid_h = self.height;
        let x_end: u64 = x as u64 + width as u64;
        let mut cx: u64 = x as u64;
        proof {
            lemma_small_mod(0, step_x as nat);
            assert(self.map@ =~= paint(
                before,
                repeat_part(
                    x,
                    y,
                    width,
                    height,
                    step_x,
                    step_y,
                    grid_w,
                    grid_h,
                    x as int,
                    y as int,
                ),
                layout_type,
            ));
        }
        while cx < x_end
            invariant
                x <= cx <= x_end + step_x,
                (cx - x) % (step_x as int) == 0,
                step_x > 0,
                x_end == x + width,
                x_end <= u32::MAX,
                width > 0 ==> step_y > 0 && y + height <= u32::MAX,
                self.width == grid_w,
                self.height == grid_h,
                self.map@ == paint(
                    before,
                    repeat_part(
                        x,
                        y,
                        width,
                        height,
                        step_x,
                        step_y,
                        grid_w,
                        grid_h,
                        cx as int,
                        y as int,
                    ),
                    layout_type,
                ),
            decreases x_end + step_x - cx,
        {
            let y_end: u64 = y as u64 + height as u64;
            let mut cy: u64 = y as u64;
            proof {
                lemma_small_mod(0, step_y as nat);
            }
            while cy < y_end
                invariant
                    x <= cx < x_end,
                    y <= cy <= y_end + step_y,
                    (cx - x) % (step_x as int) == 0,
                    (cy - y) % (step_y as int) == 0,
                    step_x > 0,
                    step_y > 0,
                    x_end == x + width,
                    y_end == y + height,
                    x_end <= u32::MAX,
                    y_end <= u32::MAX,
                    self.width == grid_w,
                    self.height == grid_h,
                    self.map@ == paint(
                        before,
                        repeat_part(
                            x,
                            y,
                            width,
                            height,
                            step_x,
                            step_y,
                            grid_w,
                            grid_h,
                            cx as int,
                            cy as int,
                        ),
                        layout_type,
                    ),
                decreases y_end + step_y - cy,
            {
                let ghost part = repeat_part(
                    x,
                    y,
                    width,
                    height,
                    step_x,
                    step_y,
                    grid_w,
                    grid_h,
                    cx as int,
                    cy as int,
                );
                let ghost next = repeat_part(
                    x,
                    y,
                    width,
                    height,
                    step_x,
                    step_y,
                    grid_w,
                    grid_h,
                    cx as int,
                    cy + step_y,
                );
                let on_grid = cx < grid_w as u64 && cy < grid_h as u64;
                if on_grid {
                    let c = FPGALayoutCoordinate::new(cx as u32, cy as u32);
                    map_insert(&mut self.map, c.key(), layout_type);
                }
                proof {
                    lemma_coord_key_bijective();
                    let here = FPGALayoutCoordinate { x: cx as u32, y: cy as u32 };
                    assert forall|k: u64|
                        next.contains(k) <==> (part.contains(k) || (on_grid && k == coord_key(
                            here,
                        ))) by {
                        let c = key_coord(k);
                        lemma_stride(cy - y, c.y - y, step_y as int);
                    }
                    assert(on_grid ==> next =~= part.insert(coord_key(here)));
                    assert(!on_grid ==> next =~= part);
                    assert(self.map@ =~= paint(before, next, layout_type));
                    lemma_stride(cy - y, cy - y, step_y as int);
                }
                cy += step_y as u64;
            }
            proof {
                let part = repeat_part(
                    x,
                    y,
                    width,
                    height,
                    step_x,
                    step_y,
                    grid_w,
                    grid_h,
                    cx as int,
                    cy as int,
                );
                let next = repeat_part(
                    x,
                    y,
                    width,
                    height,
                    step_x,
                    step_y,
                    grid_w,
                    grid_h,
                    cx + step_x,
                    y as int,
                );
                assert forall|k: u64| next.contains(k) <==> part.contains(k) by {
                    let c = key_coord(k);
                    lemma_stride(cx - x, c.x - x, step_x as int);
                }
                assert(next =~= part);
                lemma_stride(cx - x, cx - x, step_x as int);
            }
            cx += step_x as u64;
        }
        proof {
            assert(repeat_part(
                x,
                y,
                width,
                height,
                step_x,
                step_y,
                grid_w,
                grid_h,
                cx as int,
                y as int,
            ) =~= repeat_keys(x, y, width, height, step_x, step_y, grid_w, grid_h));
        }
    }

    /// Whether every configured site lies on the grid.
    pub fn valid(&mut self) -> (b: bool)
        ensures
            b == old(self).spec_valid(),
            *final(self) == *old(self),
    {
        let entries = map_entries(&self.map);
        let mut i: usize = 0;
        while i < entries.len()
            invariant
                i <= entries.len(),
                *self == *old(self),
                lists_entries(entries@, self.map@),
                forall|j: int|
                    0 <= j < i ==> key_coord((#[trigger] entries@[j]).0).x < self.width
                        && key_coord(entries@[j].0).y < self.height,
            decreases entries.len() - i,
        {
            let coord = FPGALayoutCoordinate::from_key(entries[i].0);
            if coord.x >= self.width || coord.y >= self.height {
                return false;
            }
            i += 1;
        }
        true
    }

    /// What the site at `coordinate` holds, or `None` where the coordinate
    /// lies outside the grid.
    pub fn get(&self, coordinate: &FPGALayoutCoordinate) -> (r: Option<FPGALayoutType>)
        ensures
            r == self.spec_get(*coordinate),
    {
        if coordinate.x >= self.width || coordinate.y >= self.height {
            return None;
        }
        match map_get(&self.map, coordinate.key()) {
            Some(t) => Some(t),
            None => Some(FPGALayoutType::EMPTY),
        }
    }

    /// How many sites of the grid hold each type, under the type's key.
    pub fn count_summary(&self) -> (summary: FxHashMap<u64, u64>)
        ensures
            forall|t: FPGALayoutType|
                summary@.contains_key(#[trigger] layout_type_key(t)) && summary@[layout_type_key(t)]
                    == self.site_count(t),
            forall|k: u64| #[trigger] summary@.contains_key(k) ==> k <= 4,
    {
        let mut empty_count: u64 = 0;
        let mut clb_count: u64 = 0;
        let mut dsp_count: u64 = 0;
        let mut bram_count: u64 = 0;
        let mut io_count: u64 = 0;
        let width = self.width;
        let height = self.height;
        proof {
            assert forall|t: FPGALayoutType|
                (#[trigger] self.scanned_sites(t, 0, 0)).finite() && self.scanned_sites(
                    t,
                    0,
                    0,
                ).len() == 0 by {
                assert(self.scanned_sites(t, 0, 0) =~= Set::empty());
            }
        }
        let mut x: u32 = 0;
        while x < width
            invariant
                x <= width,
                width == self.width,
                height == self.height,
                empty_count + clb_count + dsp_count + bram_count + io_count == x * height,
                self.tallied(x as int, 0, empty_count, clb_count, dsp_count, bram_count, io_count),
            decreases width - x,
        {
            let mut y: u32 = 0;
            while y < height
                invariant
                    x < width,
                    y <= height,
                    width == self.width,
                    height == self.height,
                    empty_count + clb_count + dsp_count + bram_count + io_count == x * height + y,
                    self.tallied(
                        x as int,
                        y as int,
                        empty_count,
                        clb_count,
                        dsp_count,
                        bram_count,
                        io_count,
                    ),
                decreases height - y,
            {
                let here = FPGALayoutCoordinate::new(x, y);
                let ghost before = (empty_count, clb_count, dsp_count, bram_count, io_count);
                let found = match self.get(&here) {
                    Some(t) => t,
                    None => FPGALayoutType::EMPTY,
                };
                proof {
                    assert(x * height + y < 0xffff_ffff * 0xffff_ffff) by (nonlinear_arith)
                        requires
                            0 <= x < 0xffff_ffff,
                            0 <= y < height,
                            height <= 0xffff_ffff,
                    ;
                }
                match found {
                    FPGALayoutType::MacroType(MacroType::CLB) => clb_count += 1,
                    FPGALayoutType::MacroType(MacroType::DSP) => dsp_count += 1,
                    FPGALayoutType::MacroType(MacroType::BRAM) => bram_count += 1,
                    FPGALayoutType::MacroType(MacroType::IO) => io_count += 1,
                    FPGALayoutType::EMPTY => empty_count += 1,
                }
                proof {
                    assert forall|t: FPGALayoutType|
                        (#[trigger] self.scanned_sites(t, x as int, y + 1)).finite()
                            && self.scanned_sites(t, x as int, y + 1).len() == tally(
                            t,
                            empty_count,
                            clb_count,
                            dsp_count,
                            bram_count,
                            io_count,
                        ) by {
                        let earlier = self.scanned_sites(t, x as int, y as int);
                        if t == found {
                            assert(self.scanned_sites(t, x as int, y + 1) =~= earlier.insert(here));
                        } else {
                            assert(self.scanned_sites(t, x as int, y + 1) =~= earlier);
                        }
                    }
                }
                y += 1;
            }
            proof {
                assert forall|t: FPGALayoutType|
                    (#[trigger] self.scanned_sites(t, x + 1, 0)).finite() && self.scanned_sites(
                        t,
                        x + 1,
                        0,
                    ).len() == tally(
                        t,
                        empty_count,
                        clb_count,
                        dsp_count,
                        bram_count,
                        io_count,
                    ) by {
                    let earlier = self.scanned_sites(t, x as int, height as int);
                    assert(self.scanned_sites(t, x + 1, 0) =~= earlier);
                }
                assert(x * height + height == (x + 1) * height) by (nonlinear_arith);
            }
            x += 1;
        }
        proof {
            assert forall|t: FPGALayoutType| #[trigger]
                self.site_count(t) == tally(
                    t,
                    empty_count,
                    clb_count,
                    dsp_count,
                    bram_count,
                    io_count,
                ) by {
                let all = self.scanned_sites(t, width as int, 0);
                assert(self.sites_of_type(t) =~= all);
            }
        }
        let mut summary: FxHashMap<u64, u64> = FxHashMap::default();
        map_insert(&mut summary, FPGALayoutType::EMPTY.key(), empty_count);
        map_insert(&mut summary, FPGALayoutType::MacroType(MacroType::CLB).key(), clb_count);
        map_insert(&mut summary, FPGALayoutType::MacroType(MacroType::DSP).key(), dsp_count);
        map_insert(&mut summary, FPGALayoutType::MacroType(MacroType::BRAM).key(), bram_count);
        map_insert(&mut summary, FPGALayoutType::MacroType(MacroType::IO).key(), io_count);
        proof {
            assert forall|t: FPGALayoutType|
                summary@.contains_key(#[trigger] layout_type_key(t)) && summary@[layout_type_key(t)]
                    == self.site_count(t) by {
                assert(self.site_count(t) == tally(
                    t,
                    empty_count,
                    clb_count,
                    dsp_count,
                    bram_count,
                    io_count,
                ));
            }
        }
        summary
    }
}

/// The simple fabric of the given size: I/O on the border, nothing in the
/// corners, logic inside, and block memory on every tenth column.
pub fn build_simple_fpga_layout(width: u32, height: u32) -> (layout: FPGALayout)
    requires
        2 <= width <= u32::MAX - 8,
        2 <= height,
    ensures
        layout.width == width,
        layout.height == height,
        layout.spec_valid(),
        layout.map@ == Map::new(
            |k: u64| key_coord(k).x < width && key_coord(k).y < height,
            |k: u64| simple_site(width, height, key_coord(k)),
        ),
        forall|c: FPGALayoutCoordinate|
            layout.in_bounds(c) ==> #[trigger] layout.site(c) == simple_site(width, height, c),
{
    let mut layout = FPGALayout::new(width, height);
    layout.config_border(FPGALayoutType::MacroType(MacroType::IO));
    layout.config_corners(FPGALayoutType::EMPTY);
    layout.config_repeat(
        1,
        1,
        width - 2,
        height - 2,
        1,
        1,
        FPGALayoutType::MacroType(MacroType::CLB),
    );
    layout.config_repeat(
        10,
        1,
        width - 2,
        height - 2,
        10,
        1,
        FPGALayoutType::MacroType(MacroType::BRAM),
    );
    proof {
        lemma_coord_key_bijective();
        assert(layout.map@ =~= Map::new(
            |k: u64| key_coord(k).x < width && key_coord(k).y < height,
            |k: u64| simple_site(width, height, key_coord(k)),
        ));
    }
    layout
}

} // verus!
