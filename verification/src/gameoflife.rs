//! The game of life on a toroidal board, and the premade patterns ("lifeforms")
//! that can be stamped onto it.
use vstd::prelude::*;
use crate::torus::torus_index;
use crate::torus::column_of;
use crate::torus::row_of;
use crate::torus::wrap_coord;
use crate::torus::lemma_torus_index_bounds;
use crate::torus::lemma_torus_index_of_cell;
use crate::torus::window_side;
use crate::torus::window_slot;
use crate::torus::window_center;
use crate::torus::neighbor_count;
use crate::torus::neighbor_at;
use crate::torus::listed_before;
use crate::torus::lemma_slot_decode;
use crate::naming::lifeform_name;
use crate::naming::decimal;

verus! {

/// What dragging the pointer over the board does to the cells it crosses.
pub enum InputType {
    Insert,
    Delete,
}

/// Board size handed to the renderer of the strip (cells across, cells along).
#[derive(Clone, Copy)]
pub struct MobiusSize {
    pub width: u32,
    pub height: u32,
}

/// A named rectangular pattern of cells, stored row by row.
#[derive(Clone)]
pub struct Lifeform {
    pub name: String,
    pub data: Vec<u8>,
    pub width: u32,
    pub height: u32,
}

/// Number of nanosecond-frames-per-second units that make one whole step:
/// a step is due once the elapsed nanoseconds times the frame rate reach this.
pub const STEP_UNITS: u128 = 1_000_000_000;

/// Radius of the window searched around the last painted cell while a stroke is dragged.
pub const BRUSH_RADIUS: i32 = 10;

/// The state of a game: the board (row by row, one byte per cell, 1 alive and
/// 0 dead), its size, its clock, and the drawing state of the pointer.
pub struct Life {
    pub game_area: Vec<u8>,
    pub width: i32,
    pub height: i32,
    /// Elapsed time since the last step, in nanoseconds times the frame rate.
    pub progress: u128,
    /// Steps per second; 0 never steps.
    pub fps: u32,
    pub enabled: bool,
    pub input: Option<InputType>,
    pub prev_drawed_elem: Option<usize>,
    pub lifeforms: Vec<Lifeform>,
}

/// The cell at toroidal position `(x, y)` of the board `area` (`w` x `h`).
pub open spec fn cell(area: Seq<u8>, w: int, h: int, x: int, y: int) -> int {
    area[torus_index(x, y, w, h)] as int
}

/// Sum of the 3 x 3 block of cells centred on `(x, y)`, the centre included.
pub open spec fn neighborhood_sum(area: Seq<u8>, w: int, h: int, x: int, y: int) -> int {
    cell(area, w, h, x - 1, y - 1) + cell(area, w, h, x, y - 1) + cell(area, w, h, x + 1, y - 1)
        + cell(area, w, h, x - 1, y) + cell(area, w, h, x, y) + cell(area, w, h, x + 1, y)
        + cell(area, w, h, x - 1, y + 1) + cell(area, w, h, x, y + 1) + cell(area, w, h, x + 1, y + 1)
}

/// Sum of the eight cells around `(x, y)`, the centre left out.
pub open spec fn live_neighbors(area: Seq<u8>, w: int, h: int, x: int, y: int) -> int {
    neighborhood_sum(area, w, h, x, y) - cell(area, w, h, x, y)
}

/// The next state of the cell at flat index `i`: a block sum of 3 gives a live
/// cell, a block sum of 4 keeps the cell as it is, any other sum gives a dead cell.
pub open spec fn next_cell(area: Seq<u8>, w: int, h: int, i: int) -> u8 {
    let s = neighborhood_sum(area, w, h, column_of(i, w), row_of(i, w));
    if s == 3 {
        1
    } else if s == 4 {
        area[i]
    } else {
        0
    }
}

/// The board one generation later.
pub open spec fn next_generation(area: Seq<u8>, w: int, h: int) -> Seq<u8> {
    Seq::new(area.len(), |i: int| next_cell(area, w, h, i))
}

/// Every cell is 0 or 1.
pub open spec fn is_binary(area: Seq<u8>) -> bool {
    forall|i: int| 0 <= i < area.len() ==> #[trigger] area[i] <= 1
}

/// Every 3 x 3 block sum of the board fits in a byte.
pub open spec fn sums_fit(area: Seq<u8>, w: int, h: int) -> bool {
    forall|i: int|
        0 <= i < area.len() ==> #[trigger] neighborhood_sum(area, w, h, column_of(i, w), row_of(i, w))
            <= 255
}

/// The clock after `dt` nanoseconds at `fps` steps per second, before any step
/// is taken (it saturates at the largest value it can hold).
pub open spec fn advanced(progress: int, dt: int, fps: int) -> int {
    if progress + dt * fps > u128::MAX {
        u128::MAX as int
    } else {
        progress + dt * fps
    }
}

/// Whether a step is due once the clock has run `dt` nanoseconds more.
pub open spec fn step_due(progress: int, dt: int, fps: int) -> bool {
    advanced(progress, dt, fps) >= STEP_UNITS
}

/// The clock after running `dt` nanoseconds more and taking the step if one is due.
pub open spec fn clock_after(progress: int, dt: int, fps: int) -> int {
    if step_due(progress, dt, fps) {
        advanced(progress, dt, fps) - STEP_UNITS
    } else {
        advanced(progress, dt, fps)
    }
}

/// The texture bytes of a board: each cell times 255.
pub open spec fn texel_values(area: Seq<u8>) -> Seq<u8> {
    area.map_values(|v: u8| (v * 255) as u8)
}

/// Where the `i`-th cell of a `lw` x `lh` pattern lands when the pattern is
/// centred on cell `middle` of a `w` x `h` board (folding around the edges).
pub open spec fn stamp_target(w: int, h: int, middle: int, lw: int, lh: int, i: int) -> int {
    torus_index(
        column_of(middle, w) + (column_of(i, lw) - lw / 2),
        row_of(middle, w) + (row_of(i, lw) - lh / 2),
        w,
        h,
    )
}

/// The board `area` after the first `n` cells of `pattern` are written, in order,
/// onto their targets (a later cell overwrites an earlier one on the same target).
pub open spec fn stamp(
    area: Seq<u8>,
    pattern: Seq<u8>,
    w: int,
    h: int,
    middle: int,
    lw: int,
    lh: int,
    n: nat,
) -> Seq<u8>
    decreases n,
{
    if n == 0 {
        area
    } else {
        stamp(area, pattern, w, h, middle, lw, lh, (n - 1) as nat).update(
            stamp_target(w, h, middle, lw, lh, n - 1),
            pattern[n - 1],
        )
    }
}

impl Life {
    /// The board has a positive size and holds exactly one byte per cell.
    pub open spec fn wf(&self) -> bool {
        &&& 0 < self.width
        &&& 0 < self.height
        &&& self.game_area.len() == self.width * self.height
    }

    /// A game on the board `initial_state` (`width` x `height`, row by row) that
    /// steps `fps` times per second, running, with no pointer input and no lifeforms.
    pub fn new(initial_state: Vec<u8>, width: i32, height: i32, fps: u32) -> (life: Self)
        ensures
            life.game_area@ == initial_state@,
            life.width == width,
            life.height == height,
            life.progress == 0,
            life.fps == fps,
            life.enabled,
            life.input is None,
            life.prev_drawed_elem is None,
            life.lifeforms@ == Seq::<Lifeform>::empty(),
    {
        Life {
            game_area: initial_state,
            width,
            height,
            progress: 0,
            fps,
            enabled: true,
            input: None,
            prev_drawed_elem: None,
            lifeforms: Vec::new(),
        }
    }

    /// Index of the toroidal position `(x, y)` in `game_area`.
    fn toroidal_index(&self, x: i64, y: i64) -> (index: usize)
        requires
            self.wf(),
        ensures
            index == torus_index(x as int, y as int, self.width as int, self.height as int),
            index < self.game_area.len(),
    {
        let width = self.width as i64;
        let height = self.height as i64;
        let wrapped_x = wrap_coord(x, width);
        let wrapped_y = wrap_coord(y, height);
        proof {
            lemma_torus_index_bounds(x as int, y as int, width as int, height as int);
            assert(wrapped_y * width + wrapped_x <= 0x7fff_ffff * 0x7fff_ffff) by (nonlinear_arith)
                requires
                    0 <= wrapped_y < height <= 0x7fff_ffff,
                    0 <= wrapped_x < width <= 0x7fff_ffff,
            ;
        }
        (wrapped_y * width + wrapped_x) as usize
    }

    /// Writes `state` into the cell at toroidal position `(x, y)`.
    fn set_toroidal_element(&mut self, x: i64, y: i64, state: u8)
        requires
            old(self).wf(),
        ensures
            final(self).game_area@ == old(self).game_area@.update(
                torus_index(x as int, y as int, old(self).width as int, old(self).height as int),
                state,
            ),
            final(self).wf(),
            final(self).width == old(self).width,
            final(self).height == old(self).height,
            final(self).progress == old(self).progress,
            final(self).fps == old(self).fps,
            final(self).enabled == old(self).enabled,
            final(self).input == old(self).input,
            final(self).prev_drawed_elem == old(self).prev_drawed_elem,
            final(self).lifeforms@ == old(self).lifeforms@,
    {
        let index = self.toroidal_index(x, y);
        self.game_area.set(index, state);
    }

    /// Reads the cell at toroidal position `(x, y)`.
    fn get_toroidal_element(&self, x: i64, y: i64) -> (state: u8)
        requires
            self.wf(),
        ensures
            state == cell(self.game_area@, self.width as int, self.height as int, x as int, y as int),
    {
        let index = self.toroidal_index(x, y);
        self.game_area[index]
    }

    /// Sum of the 3 x 3 block of cells centred on `(x, y)`, the centre included,
    /// folding around the edges of the board.
    pub fn neighboor_sum(&self, x: i32, y: i32) -> (sum: u8)
        requires
            self.wf(),
            neighborhood_sum(self.game_area@, self.width as int, self.height as int, x as int, y as int) <= 255,
        ensures
            sum == neighborhood_sum(self.game_area@, self.width as int, self.height as int, x as int, y as int),
    {
        let x = x as i64;
        let y = y as i64;
        let current = self.get_toroidal_element(x, y);
        let top = self.get_toroidal_element(x, y - 1);
        let bottom = self.get_toroidal_element(x, y + 1);
        let right = self.get_toroidal_element(x + 1, y);
        let left = self.get_toroidal_element(x - 1, y);
        let top_right = self.get_toroidal_element(x + 1, y - 1);
        let top_left = self.get_toroidal_element(x - 1, y - 1);
        let bottom_right = self.get_toroidal_element(x + 1, y + 1);
        let bottom_left = self.get_toroidal_element(x - 1, y + 1);
        current + top + bottom + right + left + top_right + top_left + bottom_left + bottom_right
    }

    /// The board one generation later (the board itself is left as it is).
    fn next_area(&self) -> (next: Vec<u8>)
        requires
            self.wf() || self.game_area.len() == 0,
            sums_fit(self.game_area@, self.width as int, self.height as int),
        ensures
            next@ == next_generation(self.game_area@, self.width as int, self.height as int),
    {
        let ghost w = self.width as int;
        let ghost h = self.height as int;
        let width = self.width as usize;
        let n = self.game_area.len();
        let mut next: Vec<u8> = Vec::new();
        let mut i: usize = 0;
        while i < n
            invariant
                n > 0 ==> self.wf(),
                sums_fit(self.game_area@, w, h),
                w == self.width,
                h == self.height,
                n > 0 ==> width == w,
                n == self.game_area.len(),
                0 <= i <= n,
                next@ == next_generation(self.game_area@, w, h).take(i as int),
            decreases n - i,
        {
            proof {
                lemma_torus_index_of_cell(i as int, w, h);
            }
            let x = (i % width) as i32;
            let y = (i / width) as i32;
            assert(neighborhood_sum(self.game_area@, w, h, column_of(i as int, w), row_of(i as int, w)) <= 255);
            let sum = self.neighboor_sum(x, y);
            let state = if sum == 3 {
                1
            } else if sum == 4 {
                self.game_area[i]
            } else {
                0
            };
            next.push(state);
            i = i + 1;
            assert(next@ =~= next_generation(self.game_area@, w, h).take(i as int));
        }
        assert(next_generation(self.game_area@, w, h).take(n as int) =~= next_generation(self.game_area@, w, h));
        next
    }

    /// Advances the clock by `dt_nanos` nanoseconds, and when a whole step has
    /// elapsed replaces the board by its next generation. A paused game is left
    /// as it is.
    pub fn calculate_iteration(&mut self, dt_nanos: u64)
        requires
            old(self).wf() || old(self).game_area.len() == 0,
            old(self).enabled && advanced(old(self).progress as int, dt_nanos as int, old(self).fps as int)
                >= STEP_UNITS ==> sums_fit(old(self).game_area@, old(self).width as int, old(self).height as int),
        ensures
            old(self).wf() ==> final(self).wf(),
            final(self).game_area.len() == old(self).game_area.len(),
            !old(self).enabled ==> *final(self) == *old(self),
            old(self).enabled ==> ({
                let p = advanced(old(self).progress as int, dt_nanos as int, old(self).fps as int);
                if p >= STEP_UNITS {
                    &&& final(self).game_area@ == next_generation(
                        old(self).game_area@,
                        old(self).width as int,
                        old(self).height as int,
                    )
                    &&& final(self).progress == p - STEP_UNITS
                } else {
                    &&& final(self).game_area@ == old(self).game_area@
                    &&& final(self).progress == p
                }
            }),
            old(self).enabled ==> final(self).progress == clock_after(
                old(self).progress as int,
                dt_nanos as int,
                old(self).fps as int,
            ),
            old(self).enabled && step_due(old(self).progress as int, dt_nanos as int, old(self).fps as int)
                ==> final(self).game_area@ == next_generation(
                old(self).game_area@,
                old(self).width as int,
                old(self).height as int,
            ),
            old(self).enabled && !step_due(old(self).progress as int, dt_nanos as int, old(self).fps as int)
                ==> final(self).game_area@ == old(self).game_area@,
            final(self).width == old(self).width,
            final(self).height == old(self).height,
            final(self).fps == old(self).fps,
            final(self).enabled == old(self).enabled,
            final(self).input == old(self).input,
            final(self).prev_drawed_elem == old(self).prev_drawed_elem,
            final(self).lifeforms@ == old(self).lifeforms@,
    {
        if !self.enabled {
            return;
        }
        assert((dt_nanos as u128) * (self.fps as u128) <= u64::MAX * u32::MAX) by (nonlinear_arith)
            requires
                dt_nanos <= u64::MAX,
                self.fps <= u32::MAX,
        ;
        let elapsed = (dt_nanos as u128) * (self.fps as u128);
        self.progress = self.progress.saturating_add(elapsed);
        if self.progress >= STEP_UNITS {
            let new_iteration = self.next_area();
            self.game_area = new_iteration;
            self.progress = self.progress - STEP_UNITS;
        }
    }

    /// Adds a pattern to the library of lifeforms.
    pub fn add_lifeform(&mut self, lifeform: Lifeform)
        ensures
            final(self).lifeforms@ == old(self).lifeforms@.push(lifeform),
            final(self).game_area@ == old(self).game_area@,
            final(self).width == old(self).width,
            final(self).height == old(self).height,
            final(self).progress == old(self).progress,
            final(self).fps == old(self).fps,
            final(self).enabled == old(self).enabled,
            final(self).input == old(self).input,
            final(self).prev_drawed_elem == old(self).prev_drawed_elem,
    {
        self.lifeforms.push(lifeform);
    }

    /// A copy of the board with every live cell as 255 and every dead cell as 0,
    /// ready to upload as a one-byte-per-texel texture.
    pub fn convert_copy_01_to_0255(&mut self) -> (texels: Vec<u8>)
        requires
            is_binary(old(self).game_area@),
        ensures
            texels@ == old(self).game_area@.map_values(|v: u8| (v * 255) as u8),
            texels@ == texel_values(old(self).game_area@),
            *final(self) == *old(self),
    {
        let n = self.game_area.len();
        let mut texels: Vec<u8> = Vec::new();
        let mut i: usize = 0;
        while i < n
            invariant
                n == self.game_area.len(),
                is_binary(self.game_area@),
                0 <= i <= n,
                texels@ == self.game_area@.take(i as int).map_values(|v: u8| (v * 255) as u8),
            decreases n - i,
        {
            let v = self.game_area[i];
            assert(v <= 1);
            texels.push(v * 255);
            i = i + 1;
            assert(texels@ =~= self.game_area@.take(i as int).map_values(|v: u8| (v * 255) as u8));
        }
        assert(self.game_area@.take(n as int) =~= self.game_area@);
        texels
    }

    /// Pauses a running game, or resumes a paused one.
    pub fn toggle(&mut self)
        ensures
            final(self).enabled == !old(self).enabled,
            final(self).game_area@ == old(self).game_area@,
            final(self).width == old(self).width,
            final(self).height == old(self).height,
            final(self).progress == old(self).progress,
            final(self).fps == old(self).fps,
            final(self).input == old(self).input,
            final(self).prev_drawed_elem == old(self).prev_drawed_elem,
            final(self).lifeforms@ == old(self).lifeforms@,
    {
        self.enabled = !self.enabled;
    }

    /// Sets what dragging the pointer does (nothing when `None`).
    pub fn toggle_input(&mut self, input_type: Option<InputType>)
        ensures
            final(self).input == input_type,
            final(self).game_area@ == old(self).game_area@,
            final(self).width == old(self).width,
            final(self).height == old(self).height,
            final(self).progress == old(self).progress,
            final(self).fps == old(self).fps,
            final(self).enabled == old(self).enabled,
            final(self).prev_drawed_elem == old(self).prev_drawed_elem,
            final(self).lifeforms@ == old(self).lifeforms@,
    {
        self.input = input_type;
    }

    /// Copies the cells of `lifeform` onto the board, centred on cell `middlepoint`
    /// and folding around the edges.
    pub fn insert_premade_lifeform(&mut self, lifeform: Lifeform, middlepoint: usize)
        requires
            old(self).wf(),
            middlepoint <= i32::MAX,
            lifeform.width <= i32::MAX,
            lifeform.height <= i32::MAX,
            lifeform.data.len() <= i32::MAX,
            lifeform.data.len() > 0 ==> lifeform.width > 0,
        ensures
            final(self).game_area@ == stamp(
                old(self).game_area@,
                lifeform.data@,
                old(self).width as int,
                old(self).height as int,
                middlepoint as int,
                lifeform.width as int,
                lifeform.height as int,
                lifeform.data.len() as nat,
            ),
            final(self).wf(),
            final(self).width == old(self).width,
            final(self).height == old(self).height,
            final(self).progress == old(self).progress,
            final(self).fps == old(self).fps,
            final(self).enabled == old(self).enabled,
            final(self).input == old(self).input,
            final(self).prev_drawed_elem == old(self).prev_drawed_elem,
            final(self).lifeforms@ == old(self).lifeforms@,
    {
        let ghost w = self.width as int;
        let ghost h = self.height as int;
        let ghost start = self.game_area@;
        let ghost progress = self.progress;
        let ghost fps = self.fps;
        let ghost enabled = self.enabled;
        let ghost input = self.input;
        let ghost prev = self.prev_drawed_elem;
        let ghost lifeforms = self.lifeforms@;
        let width = self.width as i64;
        let middle = middlepoint as i64;
        let middle_pos_x = middle % width;
        let middle_pos_y = middle / width;
        let lifeform_width = lifeform.width as i64;
        let middle_x = lifeform.width as i64 / 2;
        let middle_y = lifeform.height as i64 / 2;
        let n = lifeform.data.len();
        let mut i: usize = 0;
        while i < n
            invariant
                self.wf(),
                w == self.width,
                h == self.height,
                width == w,
                middle == middlepoint,
                middle_pos_x == column_of(middle as int, w),
                middle_pos_y == row_of(middle as int, w),
                0 <= middle_pos_x < width,
                0 <= middle_pos_y <= i32::MAX,
                lifeform_width == lifeform.width,
                middle_x == lifeform.width as int / 2,
                middle_y == lifeform.height as int / 2,
                n == lifeform.data.len(),
                n > 0 ==> lifeform_width > 0,
                n <= i32::MAX,
                0 <= i <= n,
                self.game_area@ == stamp(
                    start,
                    lifeform.data@,
                    w,
                    h,
                    middlepoint as int,
                    lifeform.width as int,
                    lifeform.height as int,
                    i as nat,
                ),
                self.progress == progress,
                self.fps == fps,
                self.enabled == enabled,
                self.input == input,
                self.prev_drawed_elem == prev,
                self.lifeforms@ == lifeforms,
            decreases n - i,
        {
            let pos_x = (i as i64) % lifeform_width;
            let pos_y = (i as i64) / lifeform_width;
            self.set_toroidal_element(
                middle_pos_x + (pos_x - middle_x),
                middle_pos_y + (pos_y - middle_y),
                lifeform.data[i],
            );
            i = i + 1;
        }
    }

    /// Paints the cell under the pointer while a stroke is being dragged: the cell
    /// comes alive and the stroke goes on from it.
    pub fn paint_cell(&mut self, hit: usize)
        requires
            hit < old(self).game_area.len(),
        ensures
            final(self).game_area@ == old(self).game_area@.update(hit as int, 1u8),
            final(self).prev_drawed_elem == Some(hit),
            final(self).width == old(self).width,
            final(self).height == old(self).height,
            final(self).progress == old(self).progress,
            final(self).fps == old(self).fps,
            final(self).enabled == old(self).enabled,
            final(self).input == old(self).input,
            final(self).lifeforms@ == old(self).lifeforms@,
    {
        self.game_area.set(hit, 1);
        self.prev_drawed_elem = Some(hit);
    }

    /// The cells to search for the pointer while a stroke is dragged: the window of
    /// radius `BRUSH_RADIUS` around the last painted cell, or `None` (the whole
    /// board) before the stroke has painted anything.
    pub fn stroke_search_cells(&self) -> (cells: Option<Vec<usize>>)
        requires
            self.prev_drawed_elem matches Some(p) ==> {
                &&& self.wf()
                &&& self.width * self.height <= usize::MAX + 1
                &&& p <= i32::MAX
            },
        ensures
            match self.prev_drawed_elem {
                None => cells is None,
                Some(p) => cells matches Some(v) && v.len() == neighbor_count(
                    BRUSH_RADIUS as int,
                ) && forall|k: int|
                    0 <= k < v.len() ==> #[trigger] v[k] as int == neighbor_at(
                        p as int,
                        self.width as int,
                        self.height as int,
                        BRUSH_RADIUS as int,
                        k,
                    ),
            },
    {
        match self.prev_drawed_elem {
            Some(prev_elem) => Some(
                get_neighbor_indices(prev_elem, self.width, self.height, BRUSH_RADIUS),
            ),
            None => None,
        }
    }

    /// Ends a stroke when the button is released: the cell under the pointer, if
    /// any, comes alive, and the pointer stops drawing.
    pub fn finish_stroke(&mut self, hit: Option<usize>)
        requires
            hit matches Some(c) ==> c < old(self).game_area.len(),
        ensures
            final(self).game_area@ == match hit {
                Some(c) => old(self).game_area@.update(c as int, 1u8),
                None => old(self).game_area@,
            },
            final(self).input is None,
            final(self).prev_drawed_elem is None,
            final(self).width == old(self).width,
            final(self).height == old(self).height,
            final(self).progress == old(self).progress,
            final(self).fps == old(self).fps,
            final(self).enabled == old(self).enabled,
            final(self).lifeforms@ == old(self).lifeforms@,
    {
        if let Some(c) = hit {
            self.game_area.set(c, 1);
        }
        self.toggle_input(None);
        self.prev_drawed_elem = None;
    }

    /// Restarts the clock: the next step is a whole step away.
    pub fn reset_time(&mut self)
        ensures
            final(self).progress == 0,
            final(self).game_area@ == old(self).game_area@,
            final(self).width == old(self).width,
            final(self).height == old(self).height,
            final(self).fps == old(self).fps,
            final(self).enabled == old(self).enabled,
            final(self).input == old(self).input,
            final(self).prev_drawed_elem == old(self).prev_drawed_elem,
            final(self).lifeforms@ == old(self).lifeforms@,
    {
        self.progress = 0;
    }
}

} // verus!

verus! {

impl Lifeform {
    /// An empty (all dead) `width` x `height` pattern called `name`.
    pub fn new(name: String, width: u32, height: u32) -> (lifeform: Self)
        requires
            width * height <= u32::MAX,
        ensures
            lifeform.name@ == name@,
            lifeform.width == width,
            lifeform.height == height,
            lifeform.data@ == Seq::new((width * height) as nat, |i: int| 0u8),
    {
        let data = vec![0u8; (width * height) as usize];
        assert(data@ =~= Seq::new((width * height) as nat, |i: int| 0u8));
        Lifeform { name, data, width, height }
    }

    /// Clears the pattern to an empty 0 x 0 one with the default name for the
    /// `current_lifeform_count`-th lifeform.
    pub fn reset(&mut self, current_lifeform_count: usize)
        ensures
            final(self).name@ == crate::naming::name_prefix() + decimal(current_lifeform_count as nat),
            final(self).width == 0,
            final(self).height == 0,
            final(self).data@ == Seq::<u8>::empty(),
    {
        self.name = lifeform_name(current_lifeform_count);
        self.width = 0;
        self.height = 0;
        self.data = Vec::new();
    }

    /// Flips the cell in column `x` and row `y` of the pattern between dead and alive.
    pub fn toggle_cell(&mut self, x: u32, y: u32)
        requires
            y * old(self).width + x <= u32::MAX,
            y * old(self).width + x < old(self).data.len(),
        ensures
            final(self).data@ == old(self).data@.update(
                y * old(self).width + x,
                old(self).data@[y * old(self).width + x] ^ 1u8,
            ),
            final(self).name@ == old(self).name@,
            final(self).width == old(self).width,
            final(self).height == old(self).height,
    {
        let idx = (y * self.width + x) as usize;
        let state = self.data[idx] ^ 1;
        self.data.set(idx, state);
    }
}

} // verus!

verus! {

/// The board has a positive size and holds exactly one byte per cell.
pub open spec fn board_ok(area: Seq<u8>, w: int, h: int) -> bool {
    0 < w && 0 < h && area.len() == w * h
}

/// On a board of 0s and 1s every cell reads as 0 or 1, wherever it is looked up.
proof fn lemma_binary_cell(area: Seq<u8>, w: int, h: int, x: int, y: int)
    requires
        board_ok(area, w, h),
        is_binary(area),
    ensures
        0 <= cell(area, w, h, x, y) <= 1,
{
    lemma_torus_index_bounds(x, y, w, h);
    let _ = area[torus_index(x, y, w, h)];
}

/// Every block sum of a board of 0s and 1s lies between 0 and 9.
proof fn lemma_binary_block(area: Seq<u8>, w: int, h: int, x: int, y: int)
    requires
        board_ok(area, w, h),
        is_binary(area),
    ensures
        0 <= neighborhood_sum(area, w, h, x, y) <= 9,
        0 <= live_neighbors(area, w, h, x, y) <= 8,
{
    lemma_binary_cell(area, w, h, x - 1, y - 1);
    lemma_binary_cell(area, w, h, x, y - 1);
    lemma_binary_cell(area, w, h, x + 1, y - 1);
    lemma_binary_cell(area, w, h, x - 1, y);
    lemma_binary_cell(area, w, h, x, y);
    lemma_binary_cell(area, w, h, x + 1, y);
    lemma_binary_cell(area, w, h, x - 1, y + 1);
    lemma_binary_cell(area, w, h, x, y + 1);
    lemma_binary_cell(area, w, h, x + 1, y + 1);
}

/// The board wraps around: a cell, and the block around it, look the same one
/// whole width or one whole height further on.
pub proof fn lemma_board_wraps(area: Seq<u8>, w: int, h: int, x: int, y: int)
    requires
        board_ok(area, w, h),
    ensures
        cell(area, w, h, x + w, y) == cell(area, w, h, x, y),
        cell(area, w, h, x, y + h) == cell(area, w, h, x, y),
        neighborhood_sum(area, w, h, x + w, y) == neighborhood_sum(area, w, h, x, y),
        neighborhood_sum(area, w, h, x, y + h) == neighborhood_sum(area, w, h, x, y),
{
    crate::torus::lemma_torus_index_periodic(x - 1, y - 1, w, h);
    crate::torus::lemma_torus_index_periodic(x, y - 1, w, h);
    crate::torus::lemma_torus_index_periodic(x + 1, y - 1, w, h);
    crate::torus::lemma_torus_index_periodic(x - 1, y, w, h);
    crate::torus::lemma_torus_index_periodic(x, y, w, h);
    crate::torus::lemma_torus_index_periodic(x + 1, y, w, h);
    crate::torus::lemma_torus_index_periodic(x - 1, y + 1, w, h);
    crate::torus::lemma_torus_index_periodic(x, y + 1, w, h);
    crate::torus::lemma_torus_index_periodic(x + 1, y + 1, w, h);
    assert(x + w - 1 == x - 1 + w && x + w + 1 == x + 1 + w);
    assert(y + h - 1 == y - 1 + h && y + h + 1 == y + 1 + h);
}

/// The clock measures time in frames: one second at `fps` frames per second
/// is worth exactly `fps` whole steps, and advancing the clock by two spans of
/// time one after the other is the same as advancing it by their sum (as long as
/// it does not saturate).
pub proof fn lemma_clock_counts_time(progress: int, a: int, b: int, fps: int)
    requires
        0 <= progress,
        0 <= a,
        0 <= b,
        0 <= fps <= u32::MAX,
    ensures
        advanced(0, 1_000_000_000, fps) == fps * STEP_UNITS,
        progress + (a + b) * fps <= u128::MAX ==> advanced(advanced(progress, a, fps), b, fps) == advanced(
            progress,
            a + b,
            fps,
        ),
{
    assert(1_000_000_000 * fps <= 1_000_000_000 * 0xffff_ffff) by (nonlinear_arith)
        requires
            0 <= fps <= 0xffff_ffff,
    ;
    assert(1_000_000_000 * fps == fps * 1_000_000_000) by (nonlinear_arith);
    if progress + (a + b) * fps <= u128::MAX {
        assert((a + b) * fps == a * fps + b * fps) by (nonlinear_arith);
        assert(0 <= a * fps && 0 <= b * fps) by (nonlinear_arith)
            requires
                0 <= a,
                0 <= b,
                0 <= fps,
        ;
    }
}

/// The clock loses no time: the step taken, if any, plus what is left on the
/// clock is exactly the time run so far (in nanoseconds times the frame rate);
/// what is left is never negative, and a step is taken whenever a whole one
/// has run.
pub proof fn lemma_clock_keeps_time(progress: int, dt: int, fps: int)
    requires
        0 <= progress <= u128::MAX,
        0 <= dt,
        0 <= fps,
    ensures
        clock_after(progress, dt, fps) + (if step_due(progress, dt, fps) { STEP_UNITS as int } else { 0 })
            == advanced(progress, dt, fps),
        0 <= clock_after(progress, dt, fps) <= u128::MAX,
        advanced(progress, dt, fps) >= STEP_UNITS ==> step_due(progress, dt, fps),
        advanced(progress, dt, fps) < STEP_UNITS ==> clock_after(progress, dt, fps) < STEP_UNITS,
{
    assert(0 <= dt * fps) by (nonlinear_arith)
        requires
            0 <= dt,
            0 <= fps,
    ;
}

/// A texture copy of a board of 0s and 1s shows live cells as 255 and dead
/// cells as 0, cell for cell.
pub proof fn lemma_texels_show_cells(area: Seq<u8>)
    requires
        is_binary(area),
    ensures
        texel_values(area).len() == area.len(),
        forall|i: int|
            0 <= i < area.len() ==> (#[trigger] texel_values(area)[i] == 255 <==> area[i] == 1) && (
            texel_values(area)[i] == 0 <==> area[i] == 0),
{
    assert forall|i: int| 0 <= i < area.len() implies (#[trigger] texel_values(area)[i] == 255 <==> area[i] == 1)
        && (texel_values(area)[i] == 0 <==> area[i] == 0) by {
        assert(area[i] <= 1);
    }
}

/// How many of the three places `x - 1`, `x`, `x + 1` fold onto place `x0` of a
/// ring of `m` places (more than one only on a ring of fewer than three places).
pub open spec fn steps_onto(x: int, x0: int, m: int) -> int {
    (if crate::torus::wrap(x - 1, m) == x0 { 1int } else { 0int }) + (if crate::torus::wrap(x, m) == x0 {
        1int
    } else {
        0int
    }) + (if crate::torus::wrap(x + 1, m) == x0 { 1int } else { 0int })
}

/// `a` is at most one place away from `b` around a ring of `m` places.
pub open spec fn ring_adjacent(a: int, b: int, m: int) -> bool {
    crate::torus::wrap(a - b, m) == 0 || crate::torus::wrap(a - b, m) == 1 || crate::torus::wrap(a - b, m)
        == m - 1
}

/// The board whose only live cell is `c`.
pub open spec fn single_cell_board(area: Seq<u8>, c: int) -> bool {
    &&& 0 <= c < area.len()
    &&& area[c] == 1
    &&& forall|i: int| 0 <= i < area.len() && i != c ==> #[trigger] area[i] == 0
}

/// On a board whose only live cell is in column `x0` and row `y0`, the cell read
/// at `(a, b)` is live exactly when `a` folds onto `x0` and `b` onto `y0`.
proof fn lemma_single_cell_read(area: Seq<u8>, w: int, h: int, c: int, a: int, b: int)
    requires
        board_ok(area, w, h),
        single_cell_board(area, c),
    ensures
        cell(area, w, h, a, b) == if crate::torus::wrap(a, w) == column_of(c, w) && crate::torus::wrap(b, h)
            == row_of(c, w) {
            1int
        } else {
            0int
        },
{
    lemma_torus_index_of_cell(c, w, h);
    lemma_torus_index_bounds(a, b, w, h);
    crate::torus::lemma_torus_index_hits(a, b, column_of(c, w), row_of(c, w), w, h);
    vstd::arithmetic::div_mod::lemma_fundamental_div_mod(c, w);
    assert(c == row_of(c, w) * w + column_of(c, w)) by (nonlinear_arith)
        requires
            c == w * (c / w) + c % w,
    ;
}

/// The 3 x 3 block at `(x, y)` counts every cell of the board once for each of the
/// nine positions `(x + dx, y + dy)`, `dx` and `dy` in {-1, 0, 1}, that folds onto
/// it: on a board with a single live cell in column `x0` and row `y0`, the block
/// sum is the number of columns `x - 1`, `x`, `x + 1` that fold onto `x0` times
/// the number of rows `y - 1`, `y`, `y + 1` that fold onto `y0`.
pub proof fn lemma_block_counts_single_cell(area: Seq<u8>, w: int, h: int, c: int, x: int, y: int)
    requires
        board_ok(area, w, h),
        single_cell_board(area, c),
    ensures
        neighborhood_sum(area, w, h, x, y) == steps_onto(x, column_of(c, w), w) * steps_onto(
            y,
            row_of(c, w),
            h,
        ),
{
    lemma_single_cell_read(area, w, h, c, x - 1, y - 1);
    lemma_single_cell_read(area, w, h, c, x, y - 1);
    lemma_single_cell_read(area, w, h, c, x + 1, y - 1);
    lemma_single_cell_read(area, w, h, c, x - 1, y);
    lemma_single_cell_read(area, w, h, c, x, y);
    lemma_single_cell_read(area, w, h, c, x + 1, y);
    lemma_single_cell_read(area, w, h, c, x - 1, y + 1);
    lemma_single_cell_read(area, w, h, c, x, y + 1);
    lemma_single_cell_read(area, w, h, c, x + 1, y + 1);
    let sx = steps_onto(x, column_of(c, w), w);
    let sy = steps_onto(y, row_of(c, w), h);
    let a0 = if crate::torus::wrap(x - 1, w) == column_of(c, w) { 1int } else { 0int };
    let a1 = if crate::torus::wrap(x, w) == column_of(c, w) { 1int } else { 0int };
    let a2 = if crate::torus::wrap(x + 1, w) == column_of(c, w) { 1int } else { 0int };
    let b0 = if crate::torus::wrap(y - 1, h) == row_of(c, w) { 1int } else { 0int };
    let b1 = if crate::torus::wrap(y, h) == row_of(c, w) { 1int } else { 0int };
    let b2 = if crate::torus::wrap(y + 1, h) == row_of(c, w) { 1int } else { 0int };
    assert((a0 + a1 + a2) * (b0 + b1 + b2) == a0 * b0 + a1 * b0 + a2 * b0 + a0 * b1 + a1 * b1 + a2 * b1
        + a0 * b2 + a1 * b2 + a2 * b2) by (nonlinear_arith);
    assert(neighborhood_sum(area, w, h, x, y) == a0 * b0 + a1 * b0 + a2 * b0 + a0 * b1 + a1 * b1 + a2
        * b1 + a0 * b2 + a1 * b2 + a2 * b2) by (nonlinear_arith)
        requires
            a0 == 0 || a0 == 1,
            a1 == 0 || a1 == 1,
            a2 == 0 || a2 == 1,
            b0 == 0 || b0 == 1,
            b1 == 0 || b1 == 1,
            b2 == 0 || b2 == 1,
            cell(area, w, h, x - 1, y - 1) == (if a0 == 1 && b0 == 1 { 1int } else { 0int }),
            cell(area, w, h, x, y - 1) == (if a1 == 1 && b0 == 1 { 1int } else { 0int }),
            cell(area, w, h, x + 1, y - 1) == (if a2 == 1 && b0 == 1 { 1int } else { 0int }),
            cell(area, w, h, x - 1, y) == (if a0 == 1 && b1 == 1 { 1int } else { 0int }),
            cell(area, w, h, x, y) == (if a1 == 1 && b1 == 1 { 1int } else { 0int }),
            cell(area, w, h, x + 1, y) == (if a2 == 1 && b1 == 1 { 1int } else { 0int }),
            cell(area, w, h, x - 1, y + 1) == (if a0 == 1 && b2 == 1 { 1int } else { 0int }),
            cell(area, w, h, x, y + 1) == (if a1 == 1 && b2 == 1 { 1int } else { 0int }),
            cell(area, w, h, x + 1, y + 1) == (if a2 == 1 && b2 == 1 { 1int } else { 0int }),
    ;
}

/// On a board at least 3 x 3 with a single live cell at column `x0`, row `y0`, the
/// block sum at `(x, y)` is 1 exactly when `x` is within one column of `x0` and
/// `y` within one row of `y0` (around the board), and 0 otherwise.
pub proof fn lemma_block_sees_single_cell(area: Seq<u8>, w: int, h: int, c: int, x: int, y: int)
    requires
        board_ok(area, w, h),
        w >= 3,
        h >= 3,
        single_cell_board(area, c),
    ensures
        neighborhood_sum(area, w, h, x, y) == if ring_adjacent(x, column_of(c, w), w) && ring_adjacent(
            y,
            row_of(c, w),
            h,
        ) {
            1int
        } else {
            0int
        },
{
    lemma_torus_index_of_cell(c, w, h);
    lemma_block_counts_single_cell(area, w, h, c, x, y);
    let x0 = column_of(c, w);
    let y0 = row_of(c, w);
    crate::torus::lemma_step_hits(x, -1, x0, w);
    crate::torus::lemma_step_hits(x, 0, x0, w);
    crate::torus::lemma_step_hits(x, 1, x0, w);
    crate::torus::lemma_step_hits(y, -1, y0, h);
    crate::torus::lemma_step_hits(y, 0, y0, h);
    crate::torus::lemma_step_hits(y, 1, y0, h);
    assert(x + 0 == x && y + 0 == y && x + -1 == x - 1 && y + -1 == y - 1);
    lemma_torus_index_bounds(x - x0, y - y0, w, h);
    let sx = steps_onto(x, x0, w);
    let sy = steps_onto(y, y0, h);
    assert(sx == (if ring_adjacent(x, x0, w) { 1int } else { 0int }));
    assert(sy == (if ring_adjacent(y, y0, h) { 1int } else { 0int }));
}

/// Conway's rules: on a board of 0s and 1s, a live cell stays alive exactly when
/// it has two or three live neighbours, and a dead cell comes alive exactly when
/// it has three; every other cell is dead in the next generation.
pub proof fn lemma_life_rules(area: Seq<u8>, w: int, h: int, i: int)
    requires
        board_ok(area, w, h),
        is_binary(area),
        0 <= i < area.len(),
    ensures
        ({
            let n = live_neighbors(area, w, h, column_of(i, w), row_of(i, w));
            &&& area[i] == 1 ==> (next_cell(area, w, h, i) == 1 <==> (n == 2 || n == 3))
            &&& area[i] == 0 ==> (next_cell(area, w, h, i) == 1 <==> n == 3)
            &&& next_cell(area, w, h, i) == 0 || next_cell(area, w, h, i) == 1
        }),
{
    lemma_torus_index_of_cell(i, w, h);
    assert(cell(area, w, h, column_of(i, w), row_of(i, w)) == area[i]);
    lemma_binary_block(area, w, h, column_of(i, w), row_of(i, w));
}

/// A board of 0s and 1s can always be stepped (no block sum overflows a byte),
/// and its next generation is again a board of 0s and 1s of the same size.
pub proof fn lemma_binary_board_steps(area: Seq<u8>, w: int, h: int)
    requires
        board_ok(area, w, h),
        is_binary(area),
    ensures
        sums_fit(area, w, h),
        is_binary(next_generation(area, w, h)),
        board_ok(next_generation(area, w, h), w, h),
{
    assert forall|i: int| 0 <= i < area.len() implies #[trigger] neighborhood_sum(
        area,
        w,
        h,
        column_of(i, w),
        row_of(i, w),
    ) <= 255 by {
        lemma_binary_block(area, w, h, column_of(i, w), row_of(i, w));
    }
    assert forall|i: int| 0 <= i < next_generation(area, w, h).len() implies #[trigger] next_generation(
        area,
        w,
        h,
    )[i] <= 1 by {
        lemma_life_rules(area, w, h, i);
    }
}

/// A board with no live cell stays without live cells.
pub proof fn lemma_dead_board_stays_dead(area: Seq<u8>, w: int, h: int)
    requires
        board_ok(area, w, h),
        forall|i: int| 0 <= i < area.len() ==> #[trigger] area[i] == 0,
    ensures
        next_generation(area, w, h) == area,
{
    assert forall|i: int| 0 <= i < area.len() implies #[trigger] next_generation(area, w, h)[i]
        == area[i] by {
        lemma_life_rules(area, w, h, i);
        lemma_binary_block(area, w, h, column_of(i, w), row_of(i, w));
        let x = column_of(i, w);
        let y = row_of(i, w);
        lemma_torus_index_bounds(x - 1, y - 1, w, h);
        lemma_torus_index_bounds(x, y - 1, w, h);
        lemma_torus_index_bounds(x + 1, y - 1, w, h);
        lemma_torus_index_bounds(x - 1, y, w, h);
        lemma_torus_index_bounds(x, y, w, h);
        lemma_torus_index_bounds(x + 1, y, w, h);
        lemma_torus_index_bounds(x - 1, y + 1, w, h);
        lemma_torus_index_bounds(x, y + 1, w, h);
        lemma_torus_index_bounds(x + 1, y + 1, w, h);
        assert(neighborhood_sum(area, w, h, x, y) == 0);
    }
    assert(next_generation(area, w, h) =~= area);
}

/// Two different cells of a pattern that fits on the board land on different cells.
proof fn lemma_stamp_targets_distinct(w: int, h: int, middle: int, lw: int, lh: int, i: int, j: int)
    requires
        0 < lw <= w,
        0 < lh <= h,
        0 <= i < lw * lh,
        0 <= j < lw * lh,
        i != j,
    ensures
        stamp_target(w, h, middle, lw, lh, i) != stamp_target(w, h, middle, lw, lh, j),
{
    lemma_torus_index_of_cell(i, lw, lh);
    lemma_torus_index_of_cell(j, lw, lh);
    if stamp_target(w, h, middle, lw, lh, i) == stamp_target(w, h, middle, lw, lh, j) {
        let bx = column_of(middle, w) - lw / 2;
        let by = row_of(middle, w) - lh / 2;
        crate::torus::lemma_torus_index_injective(
            bx + column_of(i, lw),
            by + row_of(i, lw),
            bx + column_of(j, lw),
            by + row_of(j, lw),
            w,
            h,
        );
        crate::torus::lemma_wrap_injective_nearby(bx + column_of(i, lw), bx + column_of(j, lw), w);
        crate::torus::lemma_wrap_injective_nearby(by + row_of(i, lw), by + row_of(j, lw), h);
        assert(torus_index(column_of(i, lw), row_of(i, lw), lw, lh) == torus_index(
            column_of(j, lw),
            row_of(j, lw),
            lw,
            lh,
        ));
    }
}

/// Every pattern cell lands on the board.
proof fn lemma_stamp_target_bounds(w: int, h: int, middle: int, lw: int, lh: int, i: int)
    requires
        w > 0,
        h > 0,
    ensures
        0 <= stamp_target(w, h, middle, lw, lh, i) < w * h,
{
    lemma_torus_index_bounds(
        column_of(middle, w) + (column_of(i, lw) - lw / 2),
        row_of(middle, w) + (row_of(i, lw) - lh / 2),
        w,
        h,
    );
}

/// Stamping keeps the size of the board.
proof fn lemma_stamp_len(
    area: Seq<u8>,
    pattern: Seq<u8>,
    w: int,
    h: int,
    middle: int,
    lw: int,
    lh: int,
    n: nat,
)
    requires
        board_ok(area, w, h),
    ensures
        stamp(area, pattern, w, h, middle, lw, lh, n).len() == area.len(),
    decreases n,
{
    if n > 0 {
        lemma_stamp_len(area, pattern, w, h, middle, lw, lh, (n - 1) as nat);
        lemma_stamp_target_bounds(w, h, middle, lw, lh, n - 1);
    }
}

/// The first `n` cells of a pattern that fits on the board all keep their value
/// once stamped, and the cells they do not land on keep theirs.
proof fn lemma_stamp_prefix(
    area: Seq<u8>,
    pattern: Seq<u8>,
    w: int,
    h: int,
    middle: int,
    lw: int,
    lh: int,
    n: nat,
)
    requires
        board_ok(area, w, h),
        0 < lw <= w,
        0 < lh <= h,
        n <= pattern.len(),
        pattern.len() <= lw * lh,
    ensures
        forall|i: int|
            0 <= i < n ==> stamp(area, pattern, w, h, middle, lw, lh, n)[#[trigger] stamp_target(
                w,
                h,
                middle,
                lw,
                lh,
                i,
            )] == pattern[i],
        forall|c: int|
            0 <= c < area.len() && (forall|i: int|
                0 <= i < n ==> #[trigger] stamp_target(w, h, middle, lw, lh, i) != c) ==> stamp(
                area,
                pattern,
                w,
                h,
                middle,
                lw,
                lh,
                n,
            )[c] == area[c],
    decreases n,
{
    if n > 0 {
        let m = (n - 1) as nat;
        lemma_stamp_prefix(area, pattern, w, h, middle, lw, lh, m);
        lemma_stamp_len(area, pattern, w, h, middle, lw, lh, m);
        let prev = stamp(area, pattern, w, h, middle, lw, lh, m);
        let t = stamp_target(w, h, middle, lw, lh, m as int);
        lemma_stamp_target_bounds(w, h, middle, lw, lh, m as int);
        assert forall|i: int| 0 <= i < n implies stamp(area, pattern, w, h, middle, lw, lh, n)[
            #[trigger] stamp_target(w, h, middle, lw, lh, i)] == pattern[i] by {
            lemma_stamp_target_bounds(w, h, middle, lw, lh, i);
            if i < m {
                lemma_stamp_targets_distinct(w, h, middle, lw, lh, i, m as int);
                assert(prev[stamp_target(w, h, middle, lw, lh, i)] == pattern[i]);
            }
        }
        assert forall|c: int|
            0 <= c < area.len() && (forall|i: int|
                0 <= i < n ==> #[trigger] stamp_target(w, h, middle, lw, lh, i) != c) implies stamp(
            area,
            pattern,
            w,
            h,
            middle,
            lw,
            lh,
            n,
        )[c] == area[c] by {
            assert(stamp_target(w, h, middle, lw, lh, m as int) != c);
            assert forall|i: int| 0 <= i < m implies #[trigger] stamp_target(w, h, middle, lw, lh, i) != c by {
                assert(stamp_target(w, h, middle, lw, lh, i) != c);
            }
        }
    }
}

/// Index, row by row, of the centre cell (column `lw / 2`, row `lh / 2`) of a
/// `lw` x `lh` pattern.
pub open spec fn pattern_centre(lw: int, lh: int) -> int {
    (lh / 2) * lw + lw / 2
}

/// Stamping centres the pattern on `middle`: the centre cell of the pattern lands
/// exactly on cell `middle` of the board (the cell `middle` counts to when the
/// board is read row by row), whatever the shape of the board.
pub proof fn lemma_stamp_centre_on_middle(w: int, h: int, middle: int, lw: int, lh: int)
    requires
        0 < w,
        0 < h,
        0 <= middle < w * h,
        0 < lw,
        0 < lh,
    ensures
        0 <= pattern_centre(lw, lh) < lw * lh,
        stamp_target(w, h, middle, lw, lh, pattern_centre(lw, lh)) == middle,
{
    let c = pattern_centre(lw, lh);
    assert(0 <= c < lw * lh) by (nonlinear_arith)
        requires
            c == (lh / 2) * lw + lw / 2,
            0 <= lw / 2 < lw,
            0 <= lh / 2 < lh,
    ;
    vstd::arithmetic::div_mod::lemma_fundamental_div_mod_converse(c, lw, lh / 2, lw / 2);
    lemma_torus_index_of_cell(middle, w, h);
}

/// Stamping keeps the shape of the pattern: the cell right of a pattern cell
/// lands on the board cell right of where that cell lands, and the cell below a
/// pattern cell lands on the board cell below it (folding around the edges).
pub proof fn lemma_stamp_keeps_shape(w: int, h: int, middle: int, lw: int, lh: int, i: int)
    requires
        0 < w,
        0 < h,
        0 < lw,
        0 <= i,
    ensures
        ({
            let t = stamp_target(w, h, middle, lw, lh, i);
            &&& column_of(i, lw) + 1 < lw ==> stamp_target(w, h, middle, lw, lh, i + 1) == torus_index(
                column_of(t, w) + 1,
                row_of(t, w),
                w,
                h,
            )
            &&& stamp_target(w, h, middle, lw, lh, i + lw) == torus_index(
                column_of(t, w),
                row_of(t, w) + 1,
                w,
                h,
            )
        }),
{
    let x = column_of(middle, w) + (column_of(i, lw) - lw / 2);
    let y = row_of(middle, w) + (row_of(i, lw) - lh / 2);
    crate::torus::lemma_torus_index_step(x, y, w, h);
    vstd::arithmetic::div_mod::lemma_fundamental_div_mod(i, lw);
    let q = i / lw;
    let r = i % lw;
    assert(i == q * lw + r) by (nonlinear_arith)
        requires
            i == lw * q + r,
    ;
    if r + 1 < lw {
        vstd::arithmetic::div_mod::lemma_fundamental_div_mod_converse(i + 1, lw, q, r + 1);
    }
    assert(i + lw == (q + 1) * lw + r) by (nonlinear_arith)
        requires
            i == q * lw + r,
    ;
    vstd::arithmetic::div_mod::lemma_fundamental_div_mod_converse(i + lw, lw, q + 1, r);
}

/// Once a whole lifeform that fits on the board is stamped around `middle`, the
/// board holds the pattern's centre cell at `middle`.
pub proof fn lemma_stamp_centre_value(
    area: Seq<u8>,
    pattern: Seq<u8>,
    w: int,
    h: int,
    middle: int,
    lw: int,
    lh: int,
)
    requires
        board_ok(area, w, h),
        0 <= middle < w * h,
        0 < lw <= w,
        0 < lh <= h,
        pattern.len() == lw * lh,
    ensures
        stamp(area, pattern, w, h, middle, lw, lh, pattern.len())[middle] == pattern[pattern_centre(lw, lh)],
{
    lemma_stamp_centre_on_middle(w, h, middle, lw, lh);
    lemma_stamp_places_pattern(area, pattern, w, h, middle, lw, lh);
    assert(stamp(area, pattern, w, h, middle, lw, lh, pattern.len())[stamp_target(w, h, middle, lw, lh, pattern_centre(lw, lh))] == pattern[pattern_centre(lw, lh)]);
}

/// A lifeform that fits on the board is copied cell for cell: each of its cells
/// ends up on its own target, and every other cell of the board is left as it was.
pub proof fn lemma_stamp_places_pattern(
    area: Seq<u8>,
    pattern: Seq<u8>,
    w: int,
    h: int,
    middle: int,
    lw: int,
    lh: int,
)
    requires
        board_ok(area, w, h),
        0 < lw <= w,
        0 < lh <= h,
        pattern.len() <= lw * lh,
    ensures
        ({
            let out = stamp(area, pattern, w, h, middle, lw, lh, pattern.len());
            &&& out.len() == area.len()
            &&& forall|i: int|
                0 <= i < pattern.len() ==> out[#[trigger] stamp_target(w, h, middle, lw, lh, i)]
                    == pattern[i]
            &&& forall|i: int, j: int|
                0 <= i < j < pattern.len() ==> #[trigger] stamp_target(w, h, middle, lw, lh, i)
                    != #[trigger] stamp_target(w, h, middle, lw, lh, j)
            &&& forall|c: int|
                0 <= c < area.len() && (forall|i: int|
                    0 <= i < pattern.len() ==> #[trigger] stamp_target(w, h, middle, lw, lh, i) != c)
                    ==> out[c] == area[c]
        }),
{
    lemma_stamp_len(area, pattern, w, h, middle, lw, lh, pattern.len());
    lemma_stamp_prefix(area, pattern, w, h, middle, lw, lh, pattern.len());
    assert forall|i: int, j: int|
        0 <= i < j < pattern.len() implies #[trigger] stamp_target(w, h, middle, lw, lh, i)
        != #[trigger] stamp_target(w, h, middle, lw, lh, j) by {
        lemma_stamp_targets_distinct(w, h, middle, lw, lh, i, j);
    }
}

/// Lists the flat indices of every cell within `radius` of cell `index` (a square
/// window, the cell itself left out), row by row from the top-left corner, each
/// folded around the edges of the `width` x `height` board.
pub fn get_neighbor_indices(index: usize, width: i32, height: i32, radius: i32) -> (neighbors: Vec<usize>)
    requires
        0 < width,
        index <= i32::MAX,
        radius > i32::MIN,
        radius >= 0 ==> 0 < height && width * height <= usize::MAX + 1,
    ensures
        neighbors.len() == neighbor_count(radius as int),
        forall|k: int|
            0 <= k < neighbors.len() ==> #[trigger] neighbors[k] as int == neighbor_at(
                index as int,
                width as int,
                height as int,
                radius as int,
                k,
            ),
        forall|k: int| 0 <= k < neighbors.len() ==> #[trigger] neighbors[k] < width * height,
{
    let mut neighbors: Vec<usize> = Vec::new();
    if radius < 0 {
        return neighbors;
    }
    let w = width as i64;
    let h = height as i64;
    let r = radius as i64;
    let x = (index as i64) % w;
    let y = (index as i64) / w;
    let ghost side = window_side(r as int);
    let mut dy: i64 = -r;
    assert((dy + r) * side == 0) by (nonlinear_arith)
        requires
            dy + r == 0,
    ;
    while dy <= r
        invariant
            0 < w <= i32::MAX,
            0 < h <= i32::MAX,
            w * h <= usize::MAX + 1,
            0 <= r <= i32::MAX,
            w == width,
            h == height,
            r == radius,
            side == window_side(r as int),
            x == column_of(index as int, w as int),
            y == row_of(index as int, w as int),
            0 <= x < w,
            0 <= y,
            y <= i32::MAX,
            -r <= dy <= r + 1,
            neighbors.len() == listed_before(r as int, (dy + r) * side),
            forall|k: int|
                0 <= k < neighbors.len() ==> #[trigger] neighbors[k] as int == neighbor_at(
                    index as int,
                    w as int,
                    h as int,
                    r as int,
                    k,
                ),
            forall|k: int| 0 <= k < neighbors.len() ==> #[trigger] neighbors[k] < w * h,
        decreases r + 1 - dy,
    {
        let mut dx: i64 = -r;
        while dx <= r
            invariant
                0 < w <= i32::MAX,
                0 < h <= i32::MAX,
                w * h <= usize::MAX + 1,
                0 <= r <= i32::MAX,
                w == width,
                h == height,
                r == radius,
                side == window_side(r as int),
                x == column_of(index as int, w as int),
                y == row_of(index as int, w as int),
                0 <= x < w,
                0 <= y,
                y <= i32::MAX,
                -r <= dy <= r,
                -r <= dx <= r + 1,
                neighbors.len() == listed_before(r as int, (dy + r) * side + (dx + r)),
                forall|k: int|
                    0 <= k < neighbors.len() ==> #[trigger] neighbors[k] as int == neighbor_at(
                        index as int,
                        w as int,
                        h as int,
                        r as int,
                        k,
                    ),
                forall|k: int| 0 <= k < neighbors.len() ==> #[trigger] neighbors[k] < w * h,
            decreases r + 1 - dx,
        {
            proof {
                lemma_slot_decode(r as int, dx as int, dy as int);
            }
            if !(dx == 0 && dy == 0) {
                let nx = wrap_coord(x + dx, w);
                let ny = wrap_coord(y + dy, h);
                proof {
                    lemma_torus_index_bounds((x + dx) as int, (y + dy) as int, w as int, h as int);
                }
                assert(0 <= ny * w + nx < w * h) by (nonlinear_arith)
                    requires
                        0 <= ny < h,
                        0 <= nx < w,
                ;
                assert(w * h <= 0x7fff_ffff * 0x7fff_ffff) by (nonlinear_arith)
                    requires
                        0 < w <= i32::MAX,
                        0 < h <= i32::MAX,
                ;
                let cell = ny * w + nx;
                let ghost before = neighbors@;
                neighbors.push(cell as usize);
                proof {
                    let k = before.len() as int;
                    assert(window_slot(r as int, k) == (dy + r) * side + (dx + r));
                    assert(neighbors[k] as int == neighbor_at(index as int, w as int, h as int, r as int, k));
                    assert forall|i: int| 0 <= i < neighbors.len() implies #[trigger] neighbors[i] as int
                        == neighbor_at(index as int, w as int, h as int, r as int, i) by {
                        if i < k {
                            assert(neighbors[i] == before[i]);
                        }
                    }
                    assert forall|i: int| 0 <= i < neighbors.len() implies #[trigger] neighbors[i] < w * h by {
                        if i < k {
                            assert(neighbors[i] == before[i]);
                        }
                    }
                }
            }
            dx = dx + 1;
        }
        assert((dy + r) * side + (2 * r + 1) == (dy + 1 + r) * side) by (nonlinear_arith)
            requires
                side == 2 * r + 1,
        ;
        dy = dy + 1;
    }
    assert(listed_before(r as int, (2 * r + 1) * side) == neighbor_count(r as int)) by (nonlinear_arith)
        requires
            side == 2 * r + 1,
            r >= 0,
    {
        assert(window_center(r as int) == r * side + r);
        assert((2 * r + 1) * side > r * side + r) by (nonlinear_arith)
            requires
                side == 2 * r + 1,
                r >= 0,
        ;
    }
    neighbors
}

} // verus!
