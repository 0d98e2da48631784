use vstd::prelude::*;
use crate::cell::Cell;
use crate::rng::Rng;
use crate::rules::{idx_spec, life_step, lemma_idx_bound, lemma_index_decompose, lemma_idx_inverse};

verus! {

/// Whether buffer position `j` lies in the clearing band of a ghost at
/// `pos` with the given lane and direction: a strip 41 cells wide across
/// the travel axis, at the leading edge.
pub open spec fn ghost_band(w: int, dir: int, pos: int, lane: int, j: int) -> bool {
    let col = j % w;
    let row = j / w;
    if dir <= 1 {
        col == pos && lane - 20 <= row <= lane + 20
    } else {
        row == pos && lane - 20 <= col <= lane + 20
    }
}

/// The grid after the ghost clears its band: band cells dead, the rest
/// untouched.
pub open spec fn ghost_clear_spec(cells: Seq<Cell>, w: int, dir: int, pos: int, lane: int) -> Seq<
    Cell,
> {
    Seq::new(cells.len(), |j: int| if ghost_band(w, dir, pos, lane, j) {
        Cell::dead_spec()
    } else {
        cells[j]
    })
}

/// The ghost's leading edge after one step of motion.
pub open spec fn ghost_next_pos(dir: int, pos: int, speed: int) -> int {
    if dir == 0 || dir == 2 {
        pos + speed
    } else {
        pos - speed
    }
}

/// Whether a leading edge is still on the grid for the given direction.
pub open spec fn ghost_in_range(dir: int, pos: int, w: int, h: int) -> bool {
    0 <= pos < if dir <= 1 {
        w
    } else {
        h
    }
}

/// How many cells of travel remain before the ghost runs off the far edge.
pub open spec fn ghost_remaining(dir: int, pos: int, w: int, h: int) -> int {
    if dir == 0 {
        w - pos
    } else if dir == 2 {
        h - pos
    } else {
        pos + 1
    }
}

/// Ghost progress: every step of motion either leaves the grid or strictly
/// shrinks the remaining travel, so an active ghost goes inactive after at
/// most `ghost_remaining` steps.
pub proof fn lemma_ghost_progress(dir: int, pos: int, speed: int, w: int, h: int)
    requires
        0 <= dir < 4,
        speed >= 1,
        ghost_in_range(dir, pos, w, h),
    ensures
        !ghost_in_range(dir, ghost_next_pos(dir, pos, speed), w, h) || ghost_remaining(
            dir,
            ghost_next_pos(dir, pos, speed),
            w,
            h,
        ) < ghost_remaining(dir, pos, w, h),
{
}

/// The smaller of the two grid dimensions.
pub open spec fn min_span(w: int, h: int) -> int {
    if w <= h {
        w
    } else {
        h
    }
}

/// The x coordinate of seed point `i` of 25, evenly spaced on the circle
/// of radius `min(w, h) / 4` around the grid center, in fixed-point
/// arithmetic scaled by 1024.
pub open spec fn circle_x_spec(i: int, w: int, h: int) -> int {
    (w * 512 + crate::trig::scale_fp_spec(min_span(w, h) * 256, crate::trig::cos_turn_spec(i, 25)))
        / 1024
}

/// The y coordinate of seed point `i` of 25.
pub open spec fn circle_y_spec(i: int, w: int, h: int) -> int {
    (h * 512 + crate::trig::scale_fp_spec(min_span(w, h) * 256, crate::trig::sin_turn_spec(i, 25)))
        / 1024
}

/// Every seed point of the circle lies strictly inside the grid.
pub proof fn lemma_circle_point_bounds(i: int, w: int, h: int)
    requires
        0 <= i < 25,
        w >= 1,
        h >= 1,
    ensures
        0 <= circle_x_spec(i, w, h) < w,
        0 <= circle_y_spec(i, w, h) < h,
{
    crate::trig::lemma_cos_turn_bounds(i, 25);
    crate::trig::lemma_sin_turn_bounds(i, 25);
    let m = min_span(w, h);
    let c = crate::trig::cos_turn_spec(i, 25);
    let s = crate::trig::sin_turn_spec(i, 25);
    crate::trig::lemma_scale_fp_bounds(m * 256, c);
    crate::trig::lemma_scale_fp_bounds(m * 256, s);
    let xn = w * 512 + crate::trig::scale_fp_spec(m * 256, c);
    let yn = h * 512 + crate::trig::scale_fp_spec(m * 256, s);
    assert(w * 256 <= xn <= w * 768);
    assert(h * 256 <= yn <= h * 768);
    assert(0 <= xn / 1024 && 1024 * (xn / 1024) <= xn) by (nonlinear_arith)
        requires
            xn >= 0,
    ;
    assert(xn / 1024 < w) by (nonlinear_arith)
        requires
            0 <= xn <= w * 768,
            w >= 1,
    ;
    assert(0 <= yn / 1024) by (nonlinear_arith)
        requires
            yn >= 0,
    ;
    assert(yn / 1024 < h) by (nonlinear_arith)
        requires
            0 <= yn <= h * 768,
            h >= 1,
    ;
}

/// Whether ripple point `p` of a comet ring passes its thinning draw:
/// the chance shrinks on the outer rings through `dens_den = 10 + 3k`.
pub open spec fn ring_point_kept(s0: u64, p: int, dens_den: int) -> bool {
    (crate::rng::rng_draw_spec(crate::rng::rng_skip_spec(s0, (2 * p) as nat), 10000) as int)
        * dens_den <= 100000
}

/// The x coordinate of ripple point `p` on the circle of the given radius.
pub open spec fn ring_x(ix: int, radius: int, p: int, npts: int) -> int {
    ix + crate::trig::scale_fp_spec(radius, crate::trig::cos_turn_spec(p, npts))
}

/// The y coordinate of ripple point `p`.
pub open spec fn ring_y(iy: int, radius: int, p: int, npts: int) -> int {
    iy + crate::trig::scale_fp_spec(radius, crate::trig::sin_turn_spec(p, npts))
}

/// Bounds for the reseed cluster centers: each drawn center is on the
/// grid and its row-major index is within the buffer.
pub proof fn lemma_reseed_center_bounds(s0: u64, width: u32, height: u32, cap: int)
    requires
        1 <= width,
        1 <= height,
    ensures
        forall|i2: int|
            #![trigger crate::rng::rng_skip_spec(s0, (1 + 3 * i2) as nat)]
            0 <= i2 < cap ==> (crate::rng::rng_draw_spec(
                crate::rng::rng_skip_spec(s0, (1 + 3 * i2) as nat),
                width,
            ) < width && crate::rng::rng_draw_spec(
                crate::rng::rng_skip_spec(s0, (2 + 3 * i2) as nat),
                height,
            ) < height && 0 <= idx_spec(
                width as int,
                crate::rng::rng_draw_spec(
                    crate::rng::rng_skip_spec(s0, (1 + 3 * i2) as nat),
                    width,
                ) as int,
                crate::rng::rng_draw_spec(
                    crate::rng::rng_skip_spec(s0, (2 + 3 * i2) as nat),
                    height,
                ) as int,
            ) < (width as int) * (height as int)),
{
    assert forall|i2: int|
        #![trigger crate::rng::rng_skip_spec(s0, (1 + 3 * i2) as nat)]
        0 <= i2 < cap implies (crate::rng::rng_draw_spec(
        crate::rng::rng_skip_spec(s0, (1 + 3 * i2) as nat),
        width,
    ) < width && crate::rng::rng_draw_spec(
        crate::rng::rng_skip_spec(s0, (2 + 3 * i2) as nat),
        height,
    ) < height && 0 <= idx_spec(
        width as int,
        crate::rng::rng_draw_spec(
            crate::rng::rng_skip_spec(s0, (1 + 3 * i2) as nat),
            width,
        ) as int,
        crate::rng::rng_draw_spec(
            crate::rng::rng_skip_spec(s0, (2 + 3 * i2) as nat),
            height,
        ) as int,
    ) < (width as int) * (height as int)) by {
        crate::rng::lemma_rng_draw_bound(
            crate::rng::rng_skip_spec(s0, (1 + 3 * i2) as nat),
            width,
        );
        crate::rng::lemma_rng_draw_bound(
            crate::rng::rng_skip_spec(s0, (2 + 3 * i2) as nat),
            height,
        );
        lemma_idx_bound(
            width as int,
            height as int,
            crate::rng::rng_draw_spec(
                crate::rng::rng_skip_spec(s0, (1 + 3 * i2) as nat),
                width,
            ) as int,
            crate::rng::rng_draw_spec(
                crate::rng::rng_skip_spec(s0, (2 + 3 * i2) as nat),
                height,
            ) as int,
        );
    }
}

/// The whole simulation state: a toroidal grid of cells, the palette of
/// seed colors, the generation counter, and the timers and parameters of
/// the two scripted effects.
pub struct Universe {
    width: u32,
    height: u32,
    cells: Vec<Cell>,
    tick_count: u32,
    colors: Vec<(u8, u8, u8)>,
    comet_timer: u32,
    ghost_timer: u32,
    ghost_active: bool,
    ghost_position: i32,
    // 0 = left to right, 1 = right to left, 2 = top to bottom, 3 = bottom to top
    ghost_direction: u32,
    ghost_lane: i32,
    ghost_speed: i32,
    rng: Rng,
}

/// All state but the grid buffer and the draw source agrees.
spec fn frame_eq(a: Universe, b: Universe) -> bool {
    &&& a.width == b.width
    &&& a.height == b.height
    &&& a.colors@ == b.colors@
    &&& a.tick_count == b.tick_count
    &&& a.comet_timer == b.comet_timer
    &&& a.ghost_timer == b.ghost_timer
    &&& a.ghost_active == b.ghost_active
    &&& a.ghost_position == b.ghost_position
    &&& a.ghost_direction == b.ghost_direction
    &&& a.ghost_lane == b.ghost_lane
    &&& a.ghost_speed == b.ghost_speed
}

/// Whether a cell carries one of the palette colors and is alive, as every
/// cell written by seeding and reseeding does.
pub open spec fn palette_cell(c: Cell, palette: Seq<(u8, u8, u8)>) -> bool {
    c.alive && exists|k: int| 0 <= k < palette.len() && palette[k] == (c.r, c.g, c.b)
}

/// Unpacking of a 24-bit RGB integer into its three channels.
pub open spec fn unpack_spec(c: u32) -> (u8, u8, u8) {
    (((c >> 16) & 0xFF) as u8, ((c >> 8) & 0xFF) as u8, (c & 0xFF) as u8)
}

impl Universe {
    /// The grid contents, row-major.
    pub closed spec fn grid(self) -> Seq<Cell> {
        self.cells@
    }

    pub closed spec fn w(self) -> int {
        self.width as int
    }

    pub closed spec fn h(self) -> int {
        self.height as int
    }

    /// The stored palette of seed colors.
    pub closed spec fn palette(self) -> Seq<(u8, u8, u8)> {
        self.colors@
    }

    /// Generations advanced so far.
    pub closed spec fn gen(self) -> int {
        self.tick_count as int
    }

    pub closed spec fn comet_t(self) -> int {
        self.comet_timer as int
    }

    pub closed spec fn ghost_t(self) -> int {
        self.ghost_timer as int
    }

    pub closed spec fn ghost_on(self) -> bool {
        self.ghost_active
    }

    pub closed spec fn gdir(self) -> int {
        self.ghost_direction as int
    }

    pub closed spec fn gpos(self) -> int {
        self.ghost_position as int
    }

    pub closed spec fn glane(self) -> int {
        self.ghost_lane as int
    }

    pub closed spec fn gspeed(self) -> int {
        self.ghost_speed as int
    }

    /// The state of the deterministic draw source.
    pub closed spec fn draws(self) -> u64 {
        self.rng@
    }

    /// The grid span along the ghost's travel axis.
    pub open spec fn gspan(self) -> int {
        if self.gdir() <= 1 {
            self.w()
        } else {
            self.h()
        }
    }

    /// The grid span across the ghost's travel axis.
    pub open spec fn gperp(self) -> int {
        if self.gdir() <= 1 {
            self.h()
        } else {
            self.w()
        }
    }

    /// Well-formedness: the buffer matches the dimensions, the dimensions
    /// leave room for the signed effect arithmetic, and an active ghost's
    /// parameters are within the grid.
    pub closed spec fn wf(self) -> bool {
        &&& self.cells@.len() == self.w() * self.h()
        &&& 1 <= self.w() <= 0x3FFF_FFFF
        &&& 1 <= self.h() <= 0x3FFF_FFFF
        &&& self.colors@.len() <= 0xFFFF_FFFF
        &&& 0 <= self.comet_t() <= self.gen()
        &&& 0 <= self.ghost_t() <= self.gen()
        &&& (self.ghost_active ==> {
            &&& 0 <= self.gdir() < 4
            &&& 1 <= self.gspeed() <= 0x3FFF_FFFF
            &&& 0 <= self.gpos() < self.gspan()
            &&& 0 <= self.glane() < self.gperp()
        })
    }

    /// Row-major index of an in-bounds position.
    fn index_of(&self, col: u32, row: u32) -> (i: usize)
        requires
            self.wf(),
            col < self.w(),
            row < self.h(),
        ensures
            i == idx_spec(self.w(), col as int, row as int),
            i < self.grid().len(),
    {
        let l: usize = self.cells.len();
        proof {
            lemma_idx_bound(self.w(), self.h(), col as int, row as int);
            assert((row as int) * (self.width as int) + (col as int) < l as int);
        }
        (row as usize) * (self.width as usize) + (col as usize)
    }

    /// A fresh grid: all cells dead, counters zeroed, palette empty, no
    /// ghost, and the deterministic draw source seeded from the dimensions.
    pub fn new(width: u32, height: u32) -> (u: Universe)
        requires
            1 <= width <= 0x3FFF_FFFF,
            1 <= height <= 0x3FFF_FFFF,
            width * height <= usize::MAX,
        ensures
            u.wf(),
            u.w() == width,
            u.h() == height,
            u.grid() == Seq::new((width * height) as nat, |i: int| Cell::dead_spec()),
            u.palette().len() == 0,
            u.gen() == 0,
            u.comet_t() == 0,
            u.ghost_t() == 0,
            !u.ghost_on(),
    {
        let n: usize = (width as usize) * (height as usize);
        let mut cells: Vec<Cell> = Vec::new();
        let mut i: usize = 0;
        while i < n
            invariant
                i <= n,
                cells@.len() == i,
                forall|j: int| 0 <= j < i ==> cells@[j] == Cell::dead_spec(),
            decreases n - i,
        {
            cells.push(Cell::new());
            i = i + 1;
        }
        proof {
            assert(cells@ =~= Seq::new((width * height) as nat, |i: int| Cell::dead_spec()));
        }
        Universe {
            width,
            height,
            cells,
            tick_count: 0,
            colors: Vec::new(),
            comet_timer: 0,
            ghost_timer: 0,
            ghost_active: false,
            ghost_position: 0,
            ghost_direction: 0,
            ghost_lane: 0,
            ghost_speed: 0,
            rng: Rng::new(((width as u64) << 32) | (height as u64)),
        }
    }

    /// Replaces the deterministic draw source's state, so a host can
    /// inject entropy of its own choosing.
    pub fn set_seed(&mut self, seed: u64)
        ensures
            final(self).grid() == old(self).grid(),
            final(self).w() == old(self).w(),
            final(self).h() == old(self).h(),
            final(self).palette() == old(self).palette(),
            final(self).gen() == old(self).gen(),
            final(self).comet_t() == old(self).comet_t(),
            final(self).ghost_t() == old(self).ghost_t(),
            final(self).ghost_on() == old(self).ghost_on(),
            final(self).gdir() == old(self).gdir(),
            final(self).gpos() == old(self).gpos(),
            final(self).glane() == old(self).glane(),
            final(self).gspeed() == old(self).gspeed(),
            old(self).wf() ==> final(self).wf(),
    {
        self.rng = Rng::new(seed);
    }

    pub fn width(&self) -> (r: u32)
        ensures
            r == self.w(),
    {
        self.width
    }

    pub fn height(&self) -> (r: u32)
        ensures
            r == self.h(),
    {
        self.height
    }

    pub fn is_ghost_active(&self) -> (r: bool)
        ensures
            r == self.ghost_on(),
    {
        self.ghost_active
    }

    /// The ghost's leading-edge x coordinate: its position for horizontal
    /// travel, its lane for vertical travel.
    pub fn ghost_x(&self) -> (r: i32)
        ensures
            self.gdir() <= 1 ==> r == self.gpos(),
            self.gdir() > 1 ==> r == self.glane(),
    {
        match self.ghost_direction {
            0 | 1 => self.ghost_position,
            _ => self.ghost_lane,
        }
    }

    /// The ghost's leading-edge y coordinate: its lane for horizontal
    /// travel, its position for vertical travel.
    pub fn ghost_y(&self) -> (r: i32)
        ensures
            self.gdir() <= 1 ==> r == self.glane(),
            self.gdir() > 1 ==> r == self.gpos(),
    {
        match self.ghost_direction {
            0 | 1 => self.ghost_lane,
            _ => self.ghost_position,
        }
    }

    /// The packed 24-bit color at a position: `(r << 16) | (g << 8) | b`
    /// for a live cell, 0 for a dead one.
    pub fn get_cell(&self, row: u32, col: u32) -> (p: u32)
        requires
            self.wf(),
            row < self.h(),
            col < self.w(),
        ensures
            p == self.grid()[idx_spec(self.w(), col as int, row as int)].packed_spec(),
    {
        let idx: usize = self.index_of(col, row);
        self.cells[idx].packed()
    }

    /// Brings one cell to life with the given color, leaving the rest of
    /// the state untouched.
    pub fn set_cell(&mut self, row: u32, col: u32, r: u8, g: u8, b: u8)
        requires
            old(self).wf(),
            row < old(self).h(),
            col < old(self).w(),
        ensures
            final(self).wf(),
            final(self).grid() == old(self).grid().update(
                idx_spec(old(self).w(), col as int, row as int),
                Cell::live_spec(r, g, b),
            ),
            final(self).w() == old(self).w(),
            final(self).h() == old(self).h(),
            final(self).palette() == old(self).palette(),
            final(self).gen() == old(self).gen(),
            final(self).comet_t() == old(self).comet_t(),
            final(self).ghost_t() == old(self).ghost_t(),
            final(self).ghost_on() == old(self).ghost_on(),
            final(self).gdir() == old(self).gdir(),
            final(self).gpos() == old(self).gpos(),
            final(self).glane() == old(self).glane(),
            final(self).gspeed() == old(self).gspeed(),
    {
        let idx: usize = self.index_of(col, row);
        self.cells[idx] = Cell::with_color(r, g, b);
    }

    /// Writes one cell if the signed coordinates are on the grid, and
    /// does nothing otherwise, as every effect placement does.
    fn try_set(&mut self, x: i64, y: i64, c: Cell)
        requires
            old(self).wf(),
        ensures
            final(self).wf(),
            frame_eq(*final(self), *old(self)),
            final(self).rng == old(self).rng,
            (0 <= x < old(self).w() && 0 <= y < old(self).h()) ==> 0 <= idx_spec(
                old(self).w(),
                x as int,
                y as int,
            ) < old(self).cells@.len() && final(self).cells@ == old(self).cells@.update(
                idx_spec(old(self).w(), x as int, y as int),
                c,
            ),
            !(0 <= x < old(self).w() && 0 <= y < old(self).h()) ==> final(self).cells@ == old(
                self,
            ).cells@,
            forall|j: int|
                0 <= j < old(self).cells@.len() ==> final(self).cells@[j] == old(self).cells@[j]
                    || (final(self).cells@[j] == c && 0 <= x < old(self).w() && 0 <= y < old(
                    self,
                ).h() && j % old(self).w() == x && j / old(self).w() == y),
    {
        if 0 <= x && x < self.width as i64 && 0 <= y && y < self.height as i64 {
            proof {
                lemma_idx_bound(self.w(), self.h(), x as int, y as int);
                lemma_idx_inverse(self.w(), x as int, y as int);
            }
            let idx = self.index_of(x as u32, y as u32);
            self.cells[idx] = c;
        }
    }

    /// One step of ghost motion: clears the 41-cell band across the travel
    /// axis at the leading edge, advances the edge by the ghost's speed,
    /// and deactivates the ghost when it runs off the far edge.
    fn move_ghost(&mut self)
        requires
            old(self).wf(),
            old(self).ghost_active,
        ensures
            final(self).wf(),
            final(self).cells@ == ghost_clear_spec(
                old(self).cells@,
                old(self).w(),
                old(self).gdir(),
                old(self).gpos(),
                old(self).glane(),
            ),
            final(self).width == old(self).width,
            final(self).height == old(self).height,
            final(self).colors@ == old(self).colors@,
            final(self).tick_count == old(self).tick_count,
            final(self).comet_timer == old(self).comet_timer,
            final(self).ghost_timer == old(self).ghost_timer,
            final(self).rng == old(self).rng,
            final(self).ghost_direction == old(self).ghost_direction,
            final(self).ghost_lane == old(self).ghost_lane,
            final(self).ghost_speed == old(self).ghost_speed,
            final(self).gpos() == ghost_next_pos(old(self).gdir(), old(self).gpos(), old(self).gspeed()),
            final(self).ghost_active == ghost_in_range(
                old(self).gdir(),
                final(self).gpos(),
                old(self).w(),
                old(self).h(),
            ),
    {
        let ghost w0: int = self.w();
        let ghost h0: int = self.h();
        let ghost pos0: int = self.gpos();
        let ghost lane0: int = self.glane();
        let ghost dir0: int = self.gdir();
        let ghost orig: Seq<Cell> = self.cells@;
        let dir = self.ghost_direction;
        let pos = self.ghost_position;
        let lane = self.ghost_lane;
        let mut off: u32 = 0;
        while off < 41
            invariant
                self.wf(),
                self.ghost_active,
                off <= 41,
                w0 == self.w(),
                h0 == self.h(),
                dir0 == self.gdir(),
                pos0 == self.gpos(),
                lane0 == self.glane(),
                dir == self.ghost_direction,
                pos == self.ghost_position,
                lane == self.ghost_lane,
                frame_eq(*self, *old(self)),
                self.rng == old(self).rng,
                orig == old(self).cells@,
                self.cells@.len() == orig.len(),
                dir0 <= 1 ==> forall|j: int|
                    0 <= j < orig.len() ==> self.cells@[j] == (if j % w0 == pos0 && lane0 - 20 <= j
                        / w0 < lane0 - 20 + off {
                        Cell::dead_spec()
                    } else {
                        orig[j]
                    }),
                dir0 > 1 ==> forall|j: int|
                    0 <= j < orig.len() ==> self.cells@[j] == (if j / w0 == pos0 && lane0 - 20 <= j
                        % w0 < lane0 - 20 + off {
                        Cell::dead_spec()
                    } else {
                        orig[j]
                    }),
            decreases 41 - off,
        {
            proof {
                assert forall|j: int| #![trigger orig[j]] 0 <= j < self.cells@.len() implies 0 <= j
                    % w0 < w0 && 0 <= j / w0 < h0 && idx_spec(w0, j % w0, j / w0) == j by {
                    lemma_index_decompose(w0, h0, j);
                }
            }
            let cross: i64 = (lane as i64) - 20 + (off as i64);
            if dir <= 1 {
                proof {
                    if 0 <= cross < h0 {
                        lemma_idx_inverse(w0, pos0, cross as int);
                        lemma_idx_bound(w0, h0, pos0, cross as int);
                    }
                }
                self.try_set(pos as i64, cross, Cell::new());
            } else {
                proof {
                    if 0 <= cross < w0 {
                        lemma_idx_inverse(w0, cross as int, pos0);
                        lemma_idx_bound(w0, h0, cross as int, pos0);
                    }
                }
                self.try_set(cross, pos as i64, Cell::new());
            }
            off = off + 1;
        }
        proof {
            assert forall|j: int| #![trigger orig[j]] 0 <= j < self.cells@.len() implies 0 <= j
                % w0 < w0 && 0 <= j / w0 < h0 && idx_spec(w0, j % w0, j / w0) == j by {
                lemma_index_decompose(w0, h0, j);
            }
            assert(self.cells@ =~= ghost_clear_spec(orig, w0, dir0, pos0, lane0));
        }
        if dir == 0 {
            self.ghost_position = self.ghost_position + self.ghost_speed;
            if self.ghost_position >= self.width as i32 {
                self.ghost_active = false;
            }
        } else if dir == 1 {
            self.ghost_position = self.ghost_position - self.ghost_speed;
            if self.ghost_position < 0 {
                self.ghost_active = false;
            }
        } else if dir == 2 {
            self.ghost_position = self.ghost_position + self.ghost_speed;
            if self.ghost_position >= self.height as i32 {
                self.ghost_active = false;
            }
        } else {
            self.ghost_position = self.ghost_position - self.ghost_speed;
            if self.ghost_position < 0 {
                self.ghost_active = false;
            }
        }
    }

    /// Activates a fresh ghost: a uniform direction, a travel duration of
    /// 240 to 479 steps setting the speed (at least 1), a uniform lane,
    /// and the leading edge on the near side.
    fn spawn_ghost(&mut self)
        requires
            old(self).wf(),
        ensures
            final(self).wf(),
            final(self).cells@ == old(self).cells@,
            final(self).width == old(self).width,
            final(self).height == old(self).height,
            final(self).colors@ == old(self).colors@,
            final(self).tick_count == old(self).tick_count,
            final(self).comet_timer == old(self).comet_timer,
            final(self).ghost_timer == old(self).ghost_timer,
            final(self).ghost_active,
            ({
                let s0 = old(self).rng@;
                let dir = crate::rng::rng_draw_spec(s0, 4) as int;
                let s1 = crate::rng::rng_next_spec(s0);
                let dur = 240 + crate::rng::rng_draw_spec(s1, 240) as int;
                let s2 = crate::rng::rng_next_spec(s1);
                let span = if dir <= 1 {
                    old(self).w()
                } else {
                    old(self).h()
                };
                let perp = if dir <= 1 {
                    old(self).h()
                } else {
                    old(self).w()
                };
                &&& final(self).gdir() == dir
                &&& final(self).gspeed() == (if span / dur == 0 {
                    1int
                } else {
                    span / dur
                })
                &&& final(self).glane() == crate::rng::rng_draw_spec(s2, if dir <= 1 {
                    old(self).height
                } else {
                    old(self).width
                }) as int
                &&& final(self).gpos() == (if dir == 0 || dir == 2 {
                    0int
                } else {
                    span - 1
                })
                &&& final(self).rng@ == crate::rng::rng_next_spec(s2)
            }),
    {
        self.ghost_active = true;
        let dir = self.rng.next_below(4);
        self.ghost_direction = dir;
        let dur: u32 = 240 + self.rng.next_below(240);
        if dir <= 1 {
            let sp: u32 = self.width / dur;
            self.ghost_speed = if sp == 0 {
                1
            } else {
                sp as i32
            };
            self.ghost_lane = self.rng.next_below(self.height) as i32;
            self.ghost_position = if dir == 0 {
                0
            } else {
                self.width as i32 - 1
            };
        } else {
            let sp: u32 = self.height / dur;
            self.ghost_speed = if sp == 0 {
                1
            } else {
                sp as i32
            };
            self.ghost_lane = self.rng.next_below(self.width) as i32;
            self.ghost_position = if dir == 2 {
                0
            } else {
                self.height as i32 - 1
            };
        }
    }

    /// Activates the 3x3 neighborhood around a center with one color,
    /// clipped to the grid bounds; the center cell itself is always set.
    fn spawn_cluster(&mut self, cx: u32, cy: u32, r: u8, g: u8, b: u8)
        requires
            old(self).wf(),
            cx < old(self).w(),
            cy < old(self).h(),
        ensures
            final(self).wf(),
            frame_eq(*final(self), *old(self)),
            final(self).rng == old(self).rng,
            final(self).cells@.len() == old(self).cells@.len(),
            forall|j: int|
                0 <= j < old(self).cells@.len() ==> final(self).cells@[j] == old(self).cells@[j]
                    || final(self).cells@[j] == Cell::live_spec(r, g, b),
            final(self).cells@[idx_spec(old(self).w(), cx as int, cy as int)] == Cell::live_spec(
                r,
                g,
                b,
            ),
            forall|x: int, y: int|
                #![trigger idx_spec(old(self).w(), x, y)]
                (cx - 1 <= x <= cx + 1 && cy - 1 <= y <= cy + 1 && 0 <= x < old(self).w() && 0 <= y
                    < old(self).h()) ==> (0 <= idx_spec(old(self).w(), x, y) < old(
                    self,
                ).cells@.len() && final(self).cells@[idx_spec(old(self).w(), x, y)]
                    == Cell::live_spec(r, g, b)),
            forall|j: int|
                0 <= j < old(self).cells@.len() && final(self).cells@[j] != old(self).cells@[j]
                    ==> (cx - 1 <= j % old(self).w() <= cx + 1 && cy - 1 <= j / old(self).w() <= cy
                    + 1),
    {
        proof {
            lemma_idx_bound(self.w(), self.h(), cx as int, cy as int);
        }
        let x: i64 = cx as i64;
        let y: i64 = cy as i64;
        let c = Cell::with_color(r, g, b);
        self.try_set(x - 1, y - 1, c);
        self.try_set(x, y - 1, c);
        self.try_set(x + 1, y - 1, c);
        self.try_set(x - 1, y, c);
        self.try_set(x + 1, y, c);
        self.try_set(x - 1, y + 1, c);
        self.try_set(x, y + 1, c);
        self.try_set(x + 1, y + 1, c);
        self.try_set(x, y, c);
        proof {
            assert forall|j: int|
                0 <= j < old(self).cells@.len() implies (self.cells@[j] == old(self).cells@[j]
                || self.cells@[j] == Cell::live_spec(r, g, b)) by {
                assert(c == Cell::live_spec(r, g, b));
            }
            assert forall|xx: int, yy: int|
                #![trigger idx_spec(old(self).w(), xx, yy)]
                (cx - 1 <= xx <= cx + 1 && cy - 1 <= yy <= cy + 1 && 0 <= xx < old(self).w() && 0
                    <= yy < old(self).h()) implies (0 <= idx_spec(old(self).w(), xx, yy) < old(
                self,
            ).cells@.len() && self.cells@[idx_spec(old(self).w(), xx, yy)] == Cell::live_spec(
                r,
                g,
                b,
            )) by {
                lemma_idx_bound(old(self).w(), old(self).h(), xx, yy);
                lemma_idx_inverse(old(self).w(), xx, yy);
            }
        }
    }

    /// Periodic reseeding: spawns 20 to 30 random 3x3 clusters, each in a
    /// color drawn from the palette, overwriting whatever was there.
    fn spawn_random_life(&mut self)
        requires
            old(self).wf(),
            old(self).colors@.len() >= 1,
        ensures
            final(self).wf(),
            frame_eq(*final(self), *old(self)),
            final(self).cells@.len() == old(self).cells@.len(),
            forall|j: int|
                0 <= j < old(self).cells@.len() ==> final(self).cells@[j] == old(self).cells@[j]
                    || palette_cell(final(self).cells@[j], old(self).colors@),
            ({
                let s0 = old(self).rng@;
                let count = 20 + crate::rng::rng_draw_spec(s0, 11) as int;
                forall|i: int, x: int, y: int|
                    #![trigger crate::rng::rng_skip_spec(s0, (1 + 3 * i) as nat), idx_spec(old(self).w(), x, y)]
                    (0 <= i < count && (crate::rng::rng_draw_spec(
                        crate::rng::rng_skip_spec(s0, (1 + 3 * i) as nat),
                        old(self).width,
                    ) as int) - 1 <= x <= (crate::rng::rng_draw_spec(
                        crate::rng::rng_skip_spec(s0, (1 + 3 * i) as nat),
                        old(self).width,
                    ) as int) + 1 && (crate::rng::rng_draw_spec(
                        crate::rng::rng_skip_spec(s0, (2 + 3 * i) as nat),
                        old(self).height,
                    ) as int) - 1 <= y <= (crate::rng::rng_draw_spec(
                        crate::rng::rng_skip_spec(s0, (2 + 3 * i) as nat),
                        old(self).height,
                    ) as int) + 1 && 0 <= x < old(self).w() && 0 <= y < old(self).h())
                        ==> palette_cell(
                        final(self).cells@[idx_spec(old(self).w(), x, y)],
                        old(self).colors@,
                    )
            }),
            ({
                let s0 = old(self).rng@;
                let count = 20 + crate::rng::rng_draw_spec(s0, 11) as int;
                forall|j: int|
                    0 <= j < old(self).cells@.len() && final(self).cells@[j] != old(
                        self,
                    ).cells@[j] ==> exists|i: int|
                        #![trigger crate::rng::rng_skip_spec(s0, (1 + 3 * i) as nat)]
                        0 <= i < count && (crate::rng::rng_draw_spec(
                            crate::rng::rng_skip_spec(s0, (1 + 3 * i) as nat),
                            old(self).width,
                        ) as int) - 1 <= j % old(self).w() <= (crate::rng::rng_draw_spec(
                            crate::rng::rng_skip_spec(s0, (1 + 3 * i) as nat),
                            old(self).width,
                        ) as int) + 1 && (crate::rng::rng_draw_spec(
                            crate::rng::rng_skip_spec(s0, (2 + 3 * i) as nat),
                            old(self).height,
                        ) as int) - 1 <= j / old(self).w() <= (crate::rng::rng_draw_spec(
                            crate::rng::rng_skip_spec(s0, (2 + 3 * i) as nat),
                            old(self).height,
                        ) as int) + 1
            }),
            exists|j: int|
                0 <= j < old(self).cells@.len() && palette_cell(
                    final(self).cells@[j],
                    old(self).colors@,
                ),
    {
        let ghost s0: u64 = self.rng@;
        let ghost w0: int = self.w();
        let ghost h0: int = self.h();
        let count: u32 = 20 + self.rng.next_below(11);
        proof {
            assert(crate::rng::rng_skip_spec(s0, 0) == s0);
            assert(crate::rng::rng_skip_spec(s0, 1) == crate::rng::rng_next_spec(
                crate::rng::rng_skip_spec(s0, 0),
            ));
        }
        let mut i: u32 = 0;
        while i < count
            invariant
                self.wf(),
                frame_eq(*self, *old(self)),
                i <= count,
                w0 == self.w(),
                h0 == self.h(),
                s0 == old(self).rng@,
                count == 20 + crate::rng::rng_draw_spec(s0, 11),
                self.rng@ == crate::rng::rng_skip_spec(s0, (1 + 3 * i) as nat),
                self.cells@.len() == old(self).cells@.len(),
                self.colors@.len() >= 1,
                forall|j: int|
                    0 <= j < old(self).cells@.len() ==> self.cells@[j] == old(self).cells@[j]
                        || palette_cell(self.cells@[j], old(self).colors@),
                forall|i2: int, x: int, y: int|
                    #![trigger crate::rng::rng_skip_spec(s0, (1 + 3 * i2) as nat), idx_spec(w0, x, y)]
                    (0 <= i2 < i && (crate::rng::rng_draw_spec(
                        crate::rng::rng_skip_spec(s0, (1 + 3 * i2) as nat),
                        self.width,
                    ) as int) - 1 <= x <= (crate::rng::rng_draw_spec(
                        crate::rng::rng_skip_spec(s0, (1 + 3 * i2) as nat),
                        self.width,
                    ) as int) + 1 && (crate::rng::rng_draw_spec(
                        crate::rng::rng_skip_spec(s0, (2 + 3 * i2) as nat),
                        self.height,
                    ) as int) - 1 <= y <= (crate::rng::rng_draw_spec(
                        crate::rng::rng_skip_spec(s0, (2 + 3 * i2) as nat),
                        self.height,
                    ) as int) + 1 && 0 <= x < w0 && 0 <= y < h0) ==> palette_cell(
                        self.cells@[idx_spec(w0, x, y)],
                        old(self).colors@,
                    ),
                forall|j: int|
                    0 <= j < old(self).cells@.len() && self.cells@[j] != old(self).cells@[j]
                        ==> exists|i2: int|
                        #![trigger crate::rng::rng_skip_spec(s0, (1 + 3 * i2) as nat)]
                        0 <= i2 < i && (crate::rng::rng_draw_spec(
                            crate::rng::rng_skip_spec(s0, (1 + 3 * i2) as nat),
                            self.width,
                        ) as int) - 1 <= j % w0 <= (crate::rng::rng_draw_spec(
                            crate::rng::rng_skip_spec(s0, (1 + 3 * i2) as nat),
                            self.width,
                        ) as int) + 1 && (crate::rng::rng_draw_spec(
                            crate::rng::rng_skip_spec(s0, (2 + 3 * i2) as nat),
                            self.height,
                        ) as int) - 1 <= j / w0 <= (crate::rng::rng_draw_spec(
                            crate::rng::rng_skip_spec(s0, (2 + 3 * i2) as nat),
                            self.height,
                        ) as int) + 1,
            decreases count - i,
        {
            proof {
                lemma_reseed_center_bounds(s0, self.width, self.height, count as int);
                assert(old(self).cells@.len() == (self.width as int) * (self.height as int));
                assert forall|x: int, y: int|
                    #![trigger idx_spec(w0, x, y)]
                    0 <= x < w0 && 0 <= y < h0 implies 0 <= idx_spec(w0, x, y) < old(
                    self,
                ).cells@.len() by {
                    lemma_idx_bound(w0, h0, x, y);
                }
                assert(crate::rng::rng_skip_spec(s0, (2 + 3 * i) as nat) == crate::rng::rng_next_spec(
                    crate::rng::rng_skip_spec(s0, (1 + 3 * i) as nat),
                ));
                assert(crate::rng::rng_skip_spec(s0, (3 + 3 * i) as nat) == crate::rng::rng_next_spec(
                    crate::rng::rng_skip_spec(s0, (2 + 3 * i) as nat),
                ));
                assert(crate::rng::rng_skip_spec(s0, (4 + 3 * i) as nat) == crate::rng::rng_next_spec(
                    crate::rng::rng_skip_spec(s0, (3 + 3 * i) as nat),
                ));
            }
            let cx = self.rng.next_below(self.width);
            let cy = self.rng.next_below(self.height);
            let ci = self.rng.next_below(self.colors.len() as u32);
            let (r, g, b) = self.colors[ci as usize];
            proof {
                assert(old(self).colors@[ci as int] == (r, g, b));
                assert(palette_cell(Cell::live_spec(r, g, b), old(self).colors@));
            }
            self.spawn_cluster(cx, cy, r, g, b);
            i = i + 1;
        }
        proof {
            assert(crate::rng::rng_skip_spec(s0, (1 + 3 * 0) as nat) == crate::rng::rng_skip_spec(
                s0,
                1,
            ));
            lemma_reseed_center_bounds(s0, self.width, self.height, count as int);
            assert(old(self).cells@.len() == (self.width as int) * (self.height as int));
            assert forall|x: int, y: int|
                #![trigger idx_spec(w0, x, y)]
                0 <= x < w0 && 0 <= y < h0 implies 0 <= idx_spec(w0, x, y) < old(
                self,
            ).cells@.len() by {
                lemma_idx_bound(w0, h0, x, y);
            }
        }
    }

    /// Brings `cell_count` cells at uniformly drawn positions to life with
    /// the one given color; the palette is not touched.  Every changed cell
    /// carries exactly that color, and at least one cell does once any
    /// count was requested.
    #[verifier::spinoff_prover]
    #[verifier::rlimit(100)]
    pub fn seed_person(&mut self, r: u8, g: u8, b: u8, cell_count: u32)
        requires
            old(self).wf(),
        ensures
            final(self).wf(),
            final(self).w() == old(self).w(),
            final(self).h() == old(self).h(),
            final(self).palette() == old(self).palette(),
            final(self).gen() == old(self).gen(),
            final(self).comet_t() == old(self).comet_t(),
            final(self).ghost_t() == old(self).ghost_t(),
            final(self).ghost_on() == old(self).ghost_on(),
            final(self).gdir() == old(self).gdir(),
            final(self).gpos() == old(self).gpos(),
            final(self).glane() == old(self).glane(),
            final(self).gspeed() == old(self).gspeed(),
            cell_count == 0 ==> final(self).draws() == old(self).draws(),
            final(self).grid().len() == old(self).grid().len(),
            forall|j: int|
                0 <= j < old(self).grid().len() ==> final(self).grid()[j] == old(self).grid()[j]
                    || final(self).grid()[j] == Cell::live_spec(r, g, b),
            ({
                let s0 = old(self).draws();
                forall|j: int|
                    0 <= j < old(self).grid().len() && final(self).grid()[j] != old(
                        self,
                    ).grid()[j] ==> exists|i: int|
                        #![trigger crate::rng::rng_skip_spec(s0, (2 * i) as nat)]
                        0 <= i < cell_count && j == idx_spec(
                            old(self).w(),
                            crate::rng::rng_draw_spec(
                                crate::rng::rng_skip_spec(s0, (2 * i) as nat),
                                old(self).w() as u32,
                            ) as int,
                            crate::rng::rng_draw_spec(
                                crate::rng::rng_skip_spec(s0, (2 * i + 1) as nat),
                                old(self).h() as u32,
                            ) as int,
                        )
            }),
            cell_count >= 1 ==> exists|j: int|
                0 <= j < final(self).grid().len() && final(self).grid()[j] == Cell::live_spec(
                    r,
                    g,
                    b,
                ),
            cell_count == 0 ==> final(self).grid() == old(self).grid(),
            ({
                let s0 = old(self).draws();
                forall|i: int|
                    #![trigger crate::rng::rng_skip_spec(s0, (2 * i) as nat)]
                    0 <= i < cell_count ==> final(self).grid()[idx_spec(
                        old(self).w(),
                        crate::rng::rng_draw_spec(
                            crate::rng::rng_skip_spec(s0, (2 * i) as nat),
                            old(self).w() as u32,
                        ) as int,
                        crate::rng::rng_draw_spec(
                            crate::rng::rng_skip_spec(s0, (2 * i + 1) as nat),
                            old(self).h() as u32,
                        ) as int,
                    )] == Cell::live_spec(r, g, b)
            }),
    {
        let ghost s0: u64 = self.rng@;
        let ghost w0: int = self.w();
        let ghost h0: int = self.h();
        proof {
            assert(crate::rng::rng_skip_spec(s0, 0) == s0);
        }
        let mut i: u32 = 0;
        while i < cell_count
            invariant
                self.wf(),
                frame_eq(*self, *old(self)),
                i <= cell_count,
                w0 == self.w(),
                h0 == self.h(),
                s0 == old(self).draws(),
                self.rng@ == crate::rng::rng_skip_spec(s0, (2 * i) as nat),
                self.cells@.len() == old(self).cells@.len(),
                i == 0 ==> self.cells@ == old(self).cells@,
                forall|j: int|
                    0 <= j < old(self).cells@.len() ==> self.cells@[j] == old(self).cells@[j]
                        || self.cells@[j] == Cell::live_spec(r, g, b),
                i >= 1 ==> exists|j: int|
                    0 <= j < self.cells@.len() && self.cells@[j] == Cell::live_spec(r, g, b),
                forall|j: int|
                    0 <= j < old(self).cells@.len() && self.cells@[j] != old(self).cells@[j]
                        ==> exists|i2: int|
                        #![trigger crate::rng::rng_skip_spec(s0, (2 * i2) as nat)]
                        0 <= i2 < i && j == idx_spec(
                            w0,
                            crate::rng::rng_draw_spec(
                                crate::rng::rng_skip_spec(s0, (2 * i2) as nat),
                                self.width,
                            ) as int,
                            crate::rng::rng_draw_spec(
                                crate::rng::rng_skip_spec(s0, (2 * i2 + 1) as nat),
                                self.height,
                            ) as int,
                        ),
                forall|i2: int|
                    #![trigger crate::rng::rng_skip_spec(s0, (2 * i2) as nat)]
                    0 <= i2 < i ==> (0 <= idx_spec(
                        w0,
                        crate::rng::rng_draw_spec(
                            crate::rng::rng_skip_spec(s0, (2 * i2) as nat),
                            self.width,
                        ) as int,
                        crate::rng::rng_draw_spec(
                            crate::rng::rng_skip_spec(s0, (2 * i2 + 1) as nat),
                            self.height,
                        ) as int,
                    ) < old(self).cells@.len() && self.cells@[idx_spec(
                        w0,
                        crate::rng::rng_draw_spec(
                            crate::rng::rng_skip_spec(s0, (2 * i2) as nat),
                            self.width,
                        ) as int,
                        crate::rng::rng_draw_spec(
                            crate::rng::rng_skip_spec(s0, (2 * i2 + 1) as nat),
                            self.height,
                        ) as int,
                    )] == Cell::live_spec(r, g, b)),
            decreases cell_count - i,
        {
            proof {
                assert(crate::rng::rng_skip_spec(s0, (2 * i + 1) as nat)
                    == crate::rng::rng_next_spec(crate::rng::rng_skip_spec(s0, (2 * i) as nat)));
                assert(crate::rng::rng_skip_spec(s0, (2 * i + 2) as nat)
                    == crate::rng::rng_next_spec(crate::rng::rng_skip_spec(s0, (2 * i + 1) as nat)));
            }
            let x = self.rng.next_below(self.width);
            let y = self.rng.next_below(self.height);
            let idx = self.index_of(x, y);
            self.cells[idx] = Cell::with_color(r, g, b);
            proof {
                assert(self.cells@[idx as int] == Cell::live_spec(r, g, b));
            }
            i = i + 1;
        }
        proof {
            assert(self.width == old(self).w() as u32);
            assert(self.height == old(self).h() as u32);
            assert forall|j: int|
                0 <= j < old(self).cells@.len() && self.cells@[j] != old(self).cells@[j] implies (
            exists|i2: int|
                #![trigger crate::rng::rng_skip_spec(s0, (2 * i2) as nat)]
                0 <= i2 < cell_count && j == idx_spec(
                    old(self).w(),
                    crate::rng::rng_draw_spec(
                        crate::rng::rng_skip_spec(s0, (2 * i2) as nat),
                        old(self).w() as u32,
                    ) as int,
                    crate::rng::rng_draw_spec(
                        crate::rng::rng_skip_spec(s0, (2 * i2 + 1) as nat),
                        old(self).h() as u32,
                    ) as int,
                )) by {
                let iw = choose|i2: int|
                    #![trigger crate::rng::rng_skip_spec(s0, (2 * i2) as nat)]
                    0 <= i2 < cell_count && j == idx_spec(
                        w0,
                        crate::rng::rng_draw_spec(
                            crate::rng::rng_skip_spec(s0, (2 * i2) as nat),
                            self.width,
                        ) as int,
                        crate::rng::rng_draw_spec(
                            crate::rng::rng_skip_spec(s0, (2 * i2 + 1) as nat),
                            self.height,
                        ) as int,
                    );
                assert(0 <= iw < cell_count && j == idx_spec(
                    old(self).w(),
                    crate::rng::rng_draw_spec(
                        crate::rng::rng_skip_spec(s0, (2 * iw) as nat),
                        old(self).w() as u32,
                    ) as int,
                    crate::rng::rng_draw_spec(
                        crate::rng::rng_skip_spec(s0, (2 * iw + 1) as nat),
                        old(self).h() as u32,
                    ) as int,
                ));
            }
        }
    }

    /// Records the given packed colors as the palette, then brings to life
    /// a 3x3 cluster around each of 25 points evenly spaced on the circle
    /// of radius `min(width, height) / 4` about the grid center, cycling
    /// through the palette.  Every changed cell carries a palette color,
    /// and each of the 25 center points does.
    pub fn seed_circle(&mut self, colors: Vec<u32>)
        requires
            old(self).wf(),
            colors@.len() >= 1,
            colors@.len() <= 0xFFFF_FFFF,
        ensures
            final(self).wf(),
            final(self).w() == old(self).w(),
            final(self).h() == old(self).h(),
            final(self).gen() == old(self).gen(),
            final(self).comet_t() == old(self).comet_t(),
            final(self).ghost_t() == old(self).ghost_t(),
            final(self).ghost_on() == old(self).ghost_on(),
            final(self).gdir() == old(self).gdir(),
            final(self).gpos() == old(self).gpos(),
            final(self).glane() == old(self).glane(),
            final(self).gspeed() == old(self).gspeed(),
            final(self).draws() == old(self).draws(),
            final(self).palette() == colors@.map_values(|c: u32| unpack_spec(c)),
            final(self).grid().len() == old(self).grid().len(),
            forall|j: int|
                0 <= j < old(self).grid().len() ==> final(self).grid()[j] == old(self).grid()[j]
                    || palette_cell(final(self).grid()[j], final(self).palette()),
            forall|i: int, x: int, y: int|
                #![trigger circle_x_spec(i, old(self).w(), old(self).h()), idx_spec(old(self).w(), x, y)]
                (0 <= i < 25 && circle_x_spec(i, old(self).w(), old(self).h()) - 1 <= x
                    <= circle_x_spec(i, old(self).w(), old(self).h()) + 1 && circle_y_spec(
                    i,
                    old(self).w(),
                    old(self).h(),
                ) - 1 <= y <= circle_y_spec(i, old(self).w(), old(self).h()) + 1 && 0 <= x < old(
                    self,
                ).w() && 0 <= y < old(self).h()) ==> palette_cell(
                    final(self).grid()[idx_spec(old(self).w(), x, y)],
                    final(self).palette(),
                ),
            forall|j: int|
                0 <= j < old(self).grid().len() && final(self).grid()[j] != old(self).grid()[j]
                    ==> exists|i: int|
                    #![trigger circle_x_spec(i, old(self).w(), old(self).h())]
                    0 <= i < 25 && circle_x_spec(i, old(self).w(), old(self).h()) - 1 <= j % old(
                        self,
                    ).w() <= circle_x_spec(i, old(self).w(), old(self).h()) + 1 && circle_y_spec(
                        i,
                        old(self).w(),
                        old(self).h(),
                    ) - 1 <= j / old(self).w() <= circle_y_spec(i, old(self).w(), old(self).h())
                        + 1,
    {
        let mut pal: Vec<(u8, u8, u8)> = Vec::new();
        let mut i: usize = 0;
        while i < colors.len()
            invariant
                i <= colors@.len(),
                pal@.len() == i,
                forall|j: int| 0 <= j < i ==> pal@[j] == unpack_spec(colors@[j]),
            decreases colors@.len() - i,
        {
            let cv = colors[i];
            proof {
                assert(((cv >> 16) & 0xFF) < 256 && ((cv >> 8) & 0xFF) < 256 && (cv & 0xFF)
                    < 256) by (bit_vector);
            }
            pal.push((((cv >> 16) & 0xFF) as u8, ((cv >> 8) & 0xFF) as u8, (cv & 0xFF) as u8));
            i = i + 1;
        }
        self.colors = pal;
        proof {
            assert(self.colors@ =~= colors@.map_values(|c: u32| unpack_spec(c)));
        }
        let wmin: u32 = if self.width <= self.height {
            self.width
        } else {
            self.height
        };
        let rfp: u64 = (wmin as u64) * 256;
        let mut k: u32 = 0;
        while k < 25
            invariant
                self.wf(),
                self.width == old(self).width,
                self.height == old(self).height,
                self.tick_count == old(self).tick_count,
                self.comet_timer == old(self).comet_timer,
                self.ghost_timer == old(self).ghost_timer,
                self.ghost_active == old(self).ghost_active,
                self.ghost_position == old(self).ghost_position,
                self.ghost_direction == old(self).ghost_direction,
                self.ghost_lane == old(self).ghost_lane,
                self.ghost_speed == old(self).ghost_speed,
                self.rng == old(self).rng,
                self.colors@ == colors@.map_values(|c: u32| unpack_spec(c)),
                self.colors@.len() >= 1,
                rfp == min_span(self.w(), self.h()) * 256,
                k <= 25,
                self.cells@.len() == old(self).cells@.len(),
                forall|j: int|
                    0 <= j < old(self).cells@.len() ==> self.cells@[j] == old(self).cells@[j]
                        || palette_cell(self.cells@[j], self.colors@),
                forall|i2: int, x: int, y: int|
                    #![trigger circle_x_spec(i2, self.w(), self.h()), idx_spec(self.w(), x, y)]
                    (0 <= i2 < k && circle_x_spec(i2, self.w(), self.h()) - 1 <= x <= circle_x_spec(
                        i2,
                        self.w(),
                        self.h(),
                    ) + 1 && circle_y_spec(i2, self.w(), self.h()) - 1 <= y <= circle_y_spec(
                        i2,
                        self.w(),
                        self.h(),
                    ) + 1 && 0 <= x < self.w() && 0 <= y < self.h()) ==> palette_cell(
                        self.cells@[idx_spec(self.w(), x, y)],
                        self.colors@,
                    ),
                forall|j: int|
                    0 <= j < old(self).cells@.len() && self.cells@[j] != old(self).cells@[j]
                        ==> exists|i2: int|
                        #![trigger circle_x_spec(i2, self.w(), self.h())]
                        0 <= i2 < k && circle_x_spec(i2, self.w(), self.h()) - 1 <= j % self.w()
                            <= circle_x_spec(i2, self.w(), self.h()) + 1 && circle_y_spec(
                            i2,
                            self.w(),
                            self.h(),
                        ) - 1 <= j / self.w() <= circle_y_spec(i2, self.w(), self.h()) + 1,
            decreases 25 - k,
        {
            let cosv = crate::trig::cos_turn_fp(k, 25);
            let sinv = crate::trig::sin_turn_fp(k, 25);
            let sx = crate::trig::scale_fp(rfp, cosv);
            let sy = crate::trig::scale_fp(rfp, sinv);
            let bx: u64 = (self.width as u64) * 512;
            let by: u64 = (self.height as u64) * 512;
            let nx: u64 = if sx >= 0 {
                bx + (sx as u64)
            } else {
                bx - ((-sx) as u64)
            };
            let ny: u64 = if sy >= 0 {
                by + (sy as u64)
            } else {
                by - ((-sy) as u64)
            };
            let px: u32 = (nx / 1024) as u32;
            let py: u32 = (ny / 1024) as u32;
            proof {
                assert forall|x: int, y: int|
                    #![trigger idx_spec(self.w(), x, y)]
                    0 <= x < self.w() && 0 <= y < self.h() implies 0 <= idx_spec(self.w(), x, y)
                    < old(self).cells@.len() by {
                    lemma_idx_bound(self.w(), self.h(), x, y);
                }
                assert forall|i2: int| #![trigger circle_x_spec(i2, self.w(), self.h())]
                    0 <= i2 < 25 implies (0 <= circle_x_spec(i2, self.w(), self.h()) < self.w() && 0
                    <= circle_y_spec(i2, self.w(), self.h()) < self.h() && 0 <= idx_spec(
                    self.w(),
                    circle_x_spec(i2, self.w(), self.h()),
                    circle_y_spec(i2, self.w(), self.h()),
                ) < self.cells@.len()) by {
                    lemma_circle_point_bounds(i2, self.w(), self.h());
                    lemma_idx_bound(
                        self.w(),
                        self.h(),
                        circle_x_spec(i2, self.w(), self.h()),
                        circle_y_spec(i2, self.w(), self.h()),
                    );
                }
                lemma_circle_point_bounds(k as int, self.w(), self.h());
                assert(nx as int == self.w() * 512 + crate::trig::scale_fp_spec(
                    min_span(self.w(), self.h()) * 256,
                    crate::trig::cos_turn_spec(k as int, 25),
                ));
                assert(ny as int == self.h() * 512 + crate::trig::scale_fp_spec(
                    min_span(self.w(), self.h()) * 256,
                    crate::trig::sin_turn_spec(k as int, 25),
                ));
                assert(px as int == circle_x_spec(k as int, self.w(), self.h()));
                assert(py as int == circle_y_spec(k as int, self.w(), self.h()));
            }
            let ci: usize = (k as usize) % self.colors.len();
            let (r, g, b) = self.colors[ci];
            proof {
                assert(self.colors@[ci as int] == (r, g, b));
                assert(palette_cell(Cell::live_spec(r, g, b), self.colors@));
            }
            self.spawn_cluster(px, py, r, g, b);
            k = k + 1;
        }
    }

    /// One comet ripple: points spaced around the circle of the ripple's
    /// radius, kept with thinning probability toward the outside, each in
    /// the darkened color; occasionally a fill point two cells closer in.
    /// Writes that fall outside the grid are skipped, and every write
    /// lands within 21 cells of the impact on both axes.
    #[verifier::spinoff_prover]
    #[verifier::rlimit(100)]
    fn place_ring(&mut self, ix: i64, iy: i64, ripple: u32, r: u8, g: u8, b: u8)
        requires
            old(self).wf(),
            -0x4000_0000 <= ix <= 0x4000_0000,
            -0x4000_0000 <= iy <= 0x4000_0000,
            ripple < 5,
        ensures
            final(self).wf(),
            frame_eq(*final(self), *old(self)),
            final(self).cells@.len() == old(self).cells@.len(),
            forall|j: int|
                0 <= j < old(self).cells@.len() ==> final(self).cells@[j] == old(self).cells@[j]
                    || final(self).cells@[j].alive,
            forall|j: int|
                0 <= j < old(self).cells@.len() && final(self).cells@[j] != old(self).cells@[j]
                    ==> (ix - 19 <= j % old(self).w() <= ix + 19 && iy - 19 <= j / old(self).w()
                    <= iy + 19),
            ({
                let s0 = old(self).rng@;
                let radius = 3 + 4 * (ripple as int);
                let npts = 24 * ((ripple as int) + 1);
                let dd = 10 + 3 * (ripple as int);
                forall|p: int|
                    #![trigger crate::rng::rng_skip_spec(s0, (2 * p) as nat)]
                    (0 <= p < npts && ring_point_kept(s0, p, dd) && 0 <= ring_x(
                        ix as int,
                        radius,
                        p,
                        npts,
                    ) < old(self).w() && 0 <= ring_y(iy as int, radius, p, npts) < old(self).h())
                        ==> final(self).cells@[idx_spec(
                        old(self).w(),
                        ring_x(ix as int, radius, p, npts),
                        ring_y(iy as int, radius, p, npts),
                    )] == Cell::live_spec(
                        (((r as int) * (100 - 8 * (ripple as int))) / 100) as u8,
                        (((g as int) * (100 - 8 * (ripple as int))) / 100) as u8,
                        (((b as int) * (100 - 8 * (ripple as int))) / 100) as u8,
                    )
            }),
    {
        let ghost w0: int = self.w();
        let ghost h0: int = self.h();
        let ghost s0: u64 = self.rng@;
        let radius: u64 = 3 + 4 * (ripple as u64);
        let npts: u32 = 24 * (ripple + 1);
        let dens_den: u32 = 10 + 3 * ripple;
        let factor: u32 = 100 - 8 * ripple;
        proof {
            assert((r as int) * (factor as int) <= 25500 && (g as int) * (factor as int) <= 25500
                && (b as int) * (factor as int) <= 25500) by (nonlinear_arith)
                requires
                    (r as int) <= 255 && (g as int) <= 255 && (b as int) <= 255,
                    (factor as int) <= 100,
                    (r as int) >= 0 && (g as int) >= 0 && (b as int) >= 0,
                    (factor as int) >= 0,
            ;
            assert(((r as int) * (factor as int)) / 100 <= 255 && ((g as int) * (factor as int))
                / 100 <= 255 && ((b as int) * (factor as int)) / 100 <= 255) by (nonlinear_arith)
                requires
                    0 <= (r as int) * (factor as int) <= 25500,
                    0 <= (g as int) * (factor as int) <= 25500,
                    0 <= (b as int) * (factor as int) <= 25500,
            ;
        }
        let ra: u8 = ((r as u32) * factor / 100) as u8;
        let ga: u8 = ((g as u32) * factor / 100) as u8;
        let ba: u8 = ((b as u32) * factor / 100) as u8;
        proof {
            assert(ra as int == ((r as int) * (100 - 8 * (ripple as int))) / 100);
            assert(ga as int == ((g as int) * (100 - 8 * (ripple as int))) / 100);
            assert(ba as int == ((b as int) * (100 - 8 * (ripple as int))) / 100);
        }
        proof {
            assert(crate::rng::rng_skip_spec(s0, 0) == s0);
        }
        let mut p: u32 = 0;
        while p < npts
            invariant
                self.wf(),
                frame_eq(*self, *old(self)),
                w0 == self.w(),
                h0 == self.h(),
                s0 == old(self).rng@,
                self.rng@ == crate::rng::rng_skip_spec(s0, (2 * p) as nat),
                p <= npts,
                npts == 24 * ((ripple as int) + 1),
                radius == 3 + 4 * (ripple as int),
                dens_den == 10 + 3 * (ripple as int),
                1 <= npts <= 120,
                3 <= radius <= 19,
                1 <= dens_den <= 25,
                ripple < 5,
                ra as int == ((r as int) * (100 - 8 * (ripple as int))) / 100,
                ga as int == ((g as int) * (100 - 8 * (ripple as int))) / 100,
                ba as int == ((b as int) * (100 - 8 * (ripple as int))) / 100,
                self.cells@.len() == old(self).cells@.len(),
                -0x4000_0000 <= ix <= 0x4000_0000,
                -0x4000_0000 <= iy <= 0x4000_0000,
                forall|j: int|
                    0 <= j < old(self).cells@.len() ==> self.cells@[j] == old(self).cells@[j]
                        || self.cells@[j].alive,
                forall|j: int|
                    0 <= j < old(self).cells@.len() && self.cells@[j] != old(self).cells@[j] ==> (
                    ix - 19 <= j % w0 <= ix + 19 && iy - 19 <= j / w0 <= iy + 19),
                forall|p2: int|
                    #![trigger crate::rng::rng_skip_spec(s0, (2 * p2) as nat)]
                    (0 <= p2 < p && ring_point_kept(s0, p2, dens_den as int) && 0 <= ring_x(
                        ix as int,
                        radius as int,
                        p2,
                        npts as int,
                    ) < w0 && 0 <= ring_y(iy as int, radius as int, p2, npts as int) < h0)
                        ==> self.cells@[idx_spec(
                        w0,
                        ring_x(ix as int, radius as int, p2, npts as int),
                        ring_y(iy as int, radius as int, p2, npts as int),
                    )] == Cell::live_spec(ra, ga, ba),
            decreases npts - p,
        {
            proof {
                assert forall|p2: int|
                    #![trigger crate::rng::rng_skip_spec(s0, (2 * p2) as nat)]
                    (0 <= p2 < npts && 0 <= ring_x(ix as int, radius as int, p2, npts as int) < w0
                        && 0 <= ring_y(iy as int, radius as int, p2, npts as int) < h0) implies (0
                    <= idx_spec(
                    w0,
                    ring_x(ix as int, radius as int, p2, npts as int),
                    ring_y(iy as int, radius as int, p2, npts as int),
                ) < old(self).cells@.len()) by {
                    lemma_idx_bound(
                        w0,
                        h0,
                        ring_x(ix as int, radius as int, p2, npts as int),
                        ring_y(iy as int, radius as int, p2, npts as int),
                    );
                }
                assert(crate::rng::rng_skip_spec(s0, (2 * p + 1) as nat)
                    == crate::rng::rng_next_spec(crate::rng::rng_skip_spec(s0, (2 * p) as nat)));
                assert(crate::rng::rng_skip_spec(s0, (2 * p + 2) as nat)
                    == crate::rng::rng_next_spec(crate::rng::rng_skip_spec(s0, (2 * p + 1) as nat)));
            }
            let u = self.rng.next_below(10000);
            let f = self.rng.next_below(10);
            proof {
                assert((u as int) * (dens_den as int) <= 250000) by (nonlinear_arith)
                    requires
                        0 <= (u as int) < 10000,
                        0 <= (dens_den as int) <= 25,
                ;
            }
            if u * dens_den <= 100000 {
                let cosv = crate::trig::cos_turn_fp(p, npts);
                let sinv = crate::trig::sin_turn_fp(p, npts);
                let dx = crate::trig::scale_fp(radius, cosv);
                let dy = crate::trig::scale_fp(radius, sinv);
                let x = ix + dx;
                let y = iy + dy;
                let paint = Cell::with_color(ra, ga, ba);
                proof {
                    assert(paint.alive);
                    assert(x as int == ring_x(ix as int, radius as int, p as int, npts as int));
                    assert(y as int == ring_y(iy as int, radius as int, p as int, npts as int));
                }
                self.try_set(x, y, paint);
                if f >= 7 {
                    let fr: u64 = radius - 2;
                    let fdx = crate::trig::scale_fp(fr, cosv);
                    let fdy = crate::trig::scale_fp(fr, sinv);
                    let fx = ix + fdx;
                    let fy = iy + fdy;
                    self.try_set(fx, fy, paint);
                }
            }
            p = p + 1;
        }
    }

    /// The comet's bright core: the full 5x5 block around the impact in
    /// the undarkened color, clipped to the grid.
    #[verifier::spinoff_prover]
    #[verifier::rlimit(100)]
    fn place_core(&mut self, ix: i64, iy: i64, core: Cell)
        requires
            old(self).wf(),
            -0x4000_0000 <= ix <= 0x4000_0000,
            -0x4000_0000 <= iy <= 0x4000_0000,
            core.alive,
        ensures
            final(self).wf(),
            frame_eq(*final(self), *old(self)),
            final(self).rng == old(self).rng,
            final(self).cells@.len() == old(self).cells@.len(),
            forall|j: int|
                0 <= j < old(self).cells@.len() ==> final(self).cells@[j] == old(self).cells@[j]
                    || final(self).cells@[j].alive,
            (0 <= ix < old(self).w() && 0 <= iy < old(self).h()) ==> (0 <= idx_spec(
                old(self).w(),
                ix as int,
                iy as int,
            ) < old(self).cells@.len() && final(self).cells@[idx_spec(
                old(self).w(),
                ix as int,
                iy as int,
            )] == core),
            forall|x: int, y: int|
                #![trigger idx_spec(old(self).w(), x, y)]
                (ix - 2 <= x <= ix + 2 && iy - 2 <= y <= iy + 2 && 0 <= x < old(self).w() && 0 <= y
                    < old(self).h()) ==> (0 <= idx_spec(old(self).w(), x, y) < old(
                    self,
                ).cells@.len() && final(self).cells@[idx_spec(old(self).w(), x, y)] == core),
            forall|j: int|
                0 <= j < old(self).cells@.len() && final(self).cells@[j] != old(self).cells@[j]
                    ==> (ix - 2 <= j % old(self).w() <= ix + 2 && iy - 2 <= j / old(self).w() <= iy
                    + 2),
    {
        proof {
            if 0 <= ix < old(self).w() && 0 <= iy < old(self).h() {
                lemma_idx_bound(old(self).w(), old(self).h(), ix as int, iy as int);
            }
        }
        self.try_set(ix - 2, iy - 2, core);
        self.try_set(ix - 1, iy - 2, core);
        self.try_set(ix, iy - 2, core);
        self.try_set(ix + 1, iy - 2, core);
        self.try_set(ix + 2, iy - 2, core);
        self.try_set(ix - 2, iy - 1, core);
        self.try_set(ix - 1, iy - 1, core);
        self.try_set(ix, iy - 1, core);
        self.try_set(ix + 1, iy - 1, core);
        self.try_set(ix + 2, iy - 1, core);
        self.try_set(ix - 2, iy, core);
        self.try_set(ix - 1, iy, core);
        self.try_set(ix + 1, iy, core);
        self.try_set(ix + 2, iy, core);
        self.try_set(ix - 2, iy + 1, core);
        self.try_set(ix - 1, iy + 1, core);
        self.try_set(ix, iy + 1, core);
        self.try_set(ix + 1, iy + 1, core);
        self.try_set(ix + 2, iy + 1, core);
        self.try_set(ix - 2, iy + 2, core);
        self.try_set(ix - 1, iy + 2, core);
        self.try_set(ix, iy + 2, core);
        self.try_set(ix + 1, iy + 2, core);
        self.try_set(ix + 2, iy + 2, core);
        self.try_set(ix, iy, core);
        proof {
            assert forall|xx: int, yy: int|
                #![trigger idx_spec(old(self).w(), xx, yy)]
                (ix - 2 <= xx <= ix + 2 && iy - 2 <= yy <= iy + 2 && 0 <= xx < old(self).w() && 0
                    <= yy < old(self).h()) implies (0 <= idx_spec(old(self).w(), xx, yy) < old(
                self,
            ).cells@.len() && self.cells@[idx_spec(old(self).w(), xx, yy)] == core) by {
                lemma_idx_bound(old(self).w(), old(self).h(), xx, yy);
                lemma_idx_inverse(old(self).w(), xx, yy);
            }
        }
    }

    /// Places the comet pattern around an impact point that may lie off
    /// the grid: five concentric ripples of thinning density with the
    /// color darkened toward the outside, then a solid 5x5 core in the
    /// undarkened color.  Every write lands within 19 cells of the impact
    /// on both axes, and writes that fall off the grid are skipped.
    #[verifier::spinoff_prover]
    #[verifier::rlimit(100)]
    fn place_comet(&mut self, ix: i64, iy: i64, r: u8, g: u8, b: u8)
        requires
            old(self).wf(),
            -0x4000_0000 <= ix <= 0x4000_0000,
            -0x4000_0000 <= iy <= 0x4000_0000,
        ensures
            final(self).wf(),
            frame_eq(*final(self), *old(self)),
            final(self).cells@.len() == old(self).cells@.len(),
            forall|j: int|
                0 <= j < old(self).cells@.len() ==> final(self).cells@[j] == old(self).cells@[j]
                    || final(self).cells@[j].alive,
            (0 <= ix < old(self).w() && 0 <= iy < old(self).h()) ==> final(self).cells@[idx_spec(
                old(self).w(),
                ix as int,
                iy as int,
            )] == Cell::live_spec(r, g, b),
            forall|x: int, y: int|
                #![trigger idx_spec(old(self).w(), x, y)]
                (ix - 2 <= x <= ix + 2 && iy - 2 <= y <= iy + 2 && 0 <= x < old(self).w() && 0 <= y
                    < old(self).h()) ==> final(self).cells@[idx_spec(old(self).w(), x, y)]
                    == Cell::live_spec(r, g, b),
            forall|j: int|
                0 <= j < old(self).cells@.len() && final(self).cells@[j] != old(self).cells@[j]
                    ==> (ix - 19 <= j % old(self).w() <= ix + 19 && iy - 19 <= j / old(self).w()
                    <= iy + 19),
    {
        let mut ripple: u32 = 0;
        while ripple < 5
            invariant
                self.wf(),
                frame_eq(*self, *old(self)),
                self.w() == old(self).w(),
                ripple <= 5,
                self.cells@.len() == old(self).cells@.len(),
                -0x4000_0000 <= ix <= 0x4000_0000,
                -0x4000_0000 <= iy <= 0x4000_0000,
                forall|j: int|
                    0 <= j < old(self).cells@.len() ==> self.cells@[j] == old(self).cells@[j]
                        || self.cells@[j].alive,
                forall|j: int|
                    0 <= j < old(self).cells@.len() && self.cells@[j] != old(self).cells@[j] ==> (
                    ix - 19 <= j % old(self).w() <= ix + 19 && iy - 19 <= j / old(self).w() <= iy
                        + 19),
            decreases 5 - ripple,
        {
            self.place_ring(ix, iy, ripple, r, g, b);
            ripple = ripple + 1;
        }
        self.place_core(ix, iy, Cell::with_color(r, g, b));
    }

    /// Fires one comet: a fresh uniform color and a uniform impact point
    /// on the grid, then the ripple pattern around it.  Every changed cell
    /// is left alive.
    #[verifier::spinoff_prover]
    #[verifier::rlimit(100)]
    fn spawn_comet_drop(&mut self)
        requires
            old(self).wf(),
        ensures
            final(self).wf(),
            frame_eq(*final(self), *old(self)),
            final(self).cells@.len() == old(self).cells@.len(),
            forall|j: int|
                0 <= j < old(self).cells@.len() ==> final(self).cells@[j] == old(self).cells@[j]
                    || final(self).cells@[j].alive,
            ({
                let s0 = old(self).rng@;
                let rd = crate::rng::rng_draw_spec(s0, 256) as u8;
                let gd = crate::rng::rng_draw_spec(crate::rng::rng_skip_spec(s0, 1), 256) as u8;
                let bd = crate::rng::rng_draw_spec(crate::rng::rng_skip_spec(s0, 2), 256) as u8;
                let ix = crate::rng::rng_draw_spec(
                    crate::rng::rng_skip_spec(s0, 3),
                    old(self).width,
                ) as int;
                let iy = crate::rng::rng_draw_spec(
                    crate::rng::rng_skip_spec(s0, 4),
                    old(self).height,
                ) as int;
                &&& final(self).cells@[idx_spec(old(self).w(), ix, iy)] == Cell::live_spec(
                    rd,
                    gd,
                    bd,
                )
                &&& forall|x: int, y: int|
                    #![trigger idx_spec(old(self).w(), x, y)]
                    (ix - 2 <= x <= ix + 2 && iy - 2 <= y <= iy + 2 && 0 <= x < old(self).w() && 0
                        <= y < old(self).h()) ==> final(self).cells@[idx_spec(old(self).w(), x, y)]
                        == Cell::live_spec(rd, gd, bd)
                &&& forall|j: int|
                    0 <= j < old(self).cells@.len() && final(self).cells@[j] != old(
                        self,
                    ).cells@[j] ==> (ix - 19 <= j % old(self).w() <= ix + 19 && iy - 19 <= j / old(
                        self,
                    ).w() <= iy + 19)
            }),
    {
        let ghost s0: u64 = self.rng@;
        let r = self.rng.next_below(256) as u8;
        let g = self.rng.next_below(256) as u8;
        let b = self.rng.next_below(256) as u8;
        let ix = self.rng.next_below(self.width);
        let iy = self.rng.next_below(self.height);
        proof {
            reveal_with_fuel(crate::rng::rng_skip_spec, 6);
            crate::rng::lemma_rng_draw_bound(s0, 256);
            crate::rng::lemma_rng_draw_bound(crate::rng::rng_skip_spec(s0, 1), 256);
            crate::rng::lemma_rng_draw_bound(crate::rng::rng_skip_spec(s0, 2), 256);
            crate::rng::lemma_rng_draw_bound(crate::rng::rng_skip_spec(s0, 3), self.width);
            crate::rng::lemma_rng_draw_bound(crate::rng::rng_skip_spec(s0, 4), self.height);
            assert(crate::rng::rng_skip_spec(s0, 1) == crate::rng::rng_next_spec(s0));
            assert(crate::rng::rng_skip_spec(s0, 2) == crate::rng::rng_next_spec(
                crate::rng::rng_skip_spec(s0, 1),
            ));
            assert(crate::rng::rng_skip_spec(s0, 3) == crate::rng::rng_next_spec(
                crate::rng::rng_skip_spec(s0, 2),
            ));
            assert(crate::rng::rng_skip_spec(s0, 4) == crate::rng::rng_next_spec(
                crate::rng::rng_skip_spec(s0, 3),
            ));
        }
        self.place_comet(ix as i64, iy as i64, r, g, b);
    }

    /// The next generation of the grid under the life rule, computed from
    /// one consistent snapshot into a fresh buffer.
    #[verifier::spinoff_prover]
    #[verifier::rlimit(100)]
    fn next_generation(&self) -> (v: Vec<Cell>)
        requires
            self.wf(),
        ensures
            v@ == life_step(self.cells@, self.w(), self.h()),
    {
        let mut next: Vec<Cell> = Vec::new();
        let mut row: u32 = 0;
        while row < self.height
            invariant
                self.wf(),
                row <= self.h(),
                next@.len() == row * self.w(),
                next@.len() <= self.w() * self.h(),
                forall|j: int|
                    0 <= j < next@.len() ==> next@[j] == life_step(
                        self.cells@,
                        self.w(),
                        self.h(),
                    )[j],
            decreases self.h() - row,
        {
            let mut col: u32 = 0;
            while col < self.width
                invariant
                    self.wf(),
                    row < self.h(),
                    col <= self.w(),
                    next@.len() == row * self.w() + col,
                    next@.len() <= self.w() * self.h(),
                    forall|j: int|
                        0 <= j < next@.len() ==> next@[j] == life_step(
                            self.cells@,
                            self.w(),
                            self.h(),
                        )[j],
                decreases self.w() - col,
            {
                let c = crate::rules::step_cell_at(&self.cells, self.width, self.height, col, row);
                proof {
                    lemma_idx_inverse(self.w(), col as int, row as int);
                    lemma_idx_bound(self.w(), self.h(), col as int, row as int);
                }
                next.push(c);
                col = col + 1;
            }
            proof {
                assert((row as int + 1) * self.w() == row * self.w() + self.w()) by (nonlinear_arith);
            }
            row = row + 1;
        }
        proof {
            assert(self.h() * self.w() == self.w() * self.h()) by (nonlinear_arith);
            assert(next@ =~= life_step(self.cells@, self.w(), self.h()));
        }
        next
    }

    /// Advances the simulation one generation: applies the life rule to
    /// the whole grid from one snapshot, then steps the counters and runs
    /// whichever periodic effects are due.  While every timer is below its
    /// least possible threshold and no ghost is active, the new grid is
    /// exactly the life rule applied to the old one.
    #[verifier::spinoff_prover]
    #[verifier::rlimit(100)]
    pub fn tick(&mut self)
        requires
            old(self).wf(),
            old(self).gen() < 0xFFFF_FFFF,
        ensures
            final(self).wf(),
            final(self).w() == old(self).w(),
            final(self).h() == old(self).h(),
            final(self).palette() == old(self).palette(),
            final(self).gen() == old(self).gen() + 1,
            final(self).grid().len() == old(self).grid().len(),
            final(self).comet_t() <= final(self).gen(),
            final(self).ghost_t() <= final(self).gen(),
            final(self).comet_t() == 0 || final(self).comet_t() == old(self).comet_t() + 1,
            final(self).comet_t() == 0 ==> old(self).comet_t() + 1 >= 120,
            old(self).comet_t() + 1 >= 180 ==> final(self).comet_t() == 0,
            (!old(self).ghost_on() && old(self).ghost_t() + 1 >= 1200) ==> final(self).ghost_t()
                == 0,
            (!old(self).ghost_on() && final(self).ghost_on()) ==> (((final(self).gdir() == 0
                || final(self).gdir() == 2) ==> final(self).gpos() == final(self).gspeed()) && (
            final(self).gdir() == 1 ==> final(self).gpos() == old(self).w() - 1
                - final(self).gspeed()) && (final(self).gdir() == 3 ==> final(self).gpos() == old(
            self).h() - 1 - final(self).gspeed())),
            !old(self).ghost_on() ==> (final(self).ghost_t() == old(self).ghost_t() + 1 || (
            final(self).ghost_t() == 0 && old(self).ghost_t() + 1 >= 600)),
            ((old(self).gen() + 1) % 5 == 0 && old(self).palette().len() > 0 && old(self).comet_t()
                + 1 < 120 && !old(self).ghost_on() && old(self).ghost_t() + 1 < 600) ==> exists|j: int|
                0 <= j < final(self).grid().len() && palette_cell(
                    final(self).grid()[j],
                    old(self).palette(),
                ),
            old(self).comet_t() + 1 < 120 ==> final(self).comet_t() == old(self).comet_t() + 1,
            (!old(self).ghost_on() && old(self).ghost_t() + 1 < 600) ==> (!final(self).ghost_on()
                && final(self).ghost_t() == old(self).ghost_t() + 1),
            old(self).ghost_on() ==> (final(self).gdir() == old(self).gdir() && final(self).glane()
                == old(self).glane() && final(self).gspeed() == old(self).gspeed() && final(self).gpos() == ghost_next_pos(old(self).gdir(), old(self).gpos(), old(self).gspeed())
                && final(self).ghost_on() == ghost_in_range(
                old(self).gdir(),
                final(self).gpos(),
                old(self).w(),
                old(self).h(),
            ) && final(self).ghost_t() == old(self).ghost_t() + 1),
            (((old(self).gen() + 1) % 5 != 0 || old(self).palette().len() == 0) && old(self).comet_t() + 1 < 120 && !old(self).ghost_on() && old(self).ghost_t() + 1 < 600)
                ==> final(self).grid() == life_step(old(self).grid(), old(self).w(), old(self).h()),
            (((old(self).gen() + 1) % 5 != 0 || old(self).palette().len() == 0) && old(self).comet_t() + 1 < 120 && old(self).ghost_on()) ==> final(self).grid()
                == ghost_clear_spec(
                life_step(old(self).grid(), old(self).w(), old(self).h()),
                old(self).w(),
                old(self).gdir(),
                old(self).gpos(),
                old(self).glane(),
            ),
            (!old(self).ghost_on() && old(self).ghost_t() + 1 < 600) ==> forall|j: int|
                0 <= j < old(self).grid().len() ==> final(self).grid()[j] == life_step(
                    old(self).grid(),
                    old(self).w(),
                    old(self).h(),
                )[j] || final(self).grid()[j].alive,
            (old(self).comet_t() + 1 < 120 && !old(self).ghost_on() && old(self).ghost_t() + 1
                < 600) ==> forall|j: int|
                0 <= j < old(self).grid().len() ==> final(self).grid()[j] == life_step(
                    old(self).grid(),
                    old(self).w(),
                    old(self).h(),
                )[j] || palette_cell(final(self).grid()[j], old(self).palette()),
    {
        let next = self.next_generation();
        self.cells = next;
        self.tick_count = self.tick_count + 1;
        self.comet_timer = self.comet_timer + 1;
        self.ghost_timer = self.ghost_timer + 1;
        if self.tick_count % 5 == 0 && self.colors.len() > 0 {
            self.spawn_random_life();
        }
        let comet_interval: u32 = 120 + self.rng.next_below(60);
        if self.comet_timer >= comet_interval {
            self.spawn_comet_drop();
            self.comet_timer = 0;
        }
        let ghost_interval: u32 = 600 + self.rng.next_below(600);
        if self.ghost_timer >= ghost_interval && !self.ghost_active {
            self.spawn_ghost();
            self.ghost_timer = 0;
        }
        if self.ghost_active {
            self.move_ghost();
        }
    }
}

} // verus!
