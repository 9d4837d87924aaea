//! The layout of the quad mesh that covers a Möbius strip: which grid cell each
//! quad stands on, its id and colour, and the triangle indices into its vertices.
//! Where the vertices lie in space is left to the renderer.
use vstd::prelude::*;
use vstd::arithmetic::div_mod::lemma_fundamental_div_mod_converse;
use crate::gameoflife::Life;
use crate::gameoflife::MobiusSize;

verus! {

/// One quad of the strip.
pub struct StripQuad {
    /// Grid column along the loop (0 to `num_grid_length - 1`).
    pub along: usize,
    /// The next grid column along the loop, wrapping to 0 at the seam.
    pub along_next: usize,
    /// Grid row across the strip (0 to `num_grid_width - 2`).
    pub across: usize,
    /// Identifier shared by the four vertices of the quad.
    pub quad_id: u32,
    /// Quads alternate between a first and a second colour.
    pub primary: bool,
}

/// The quads of one side of the strip, in the order they are emitted, their
/// triangle indices (six per quad), and the first vertex index after them.
pub struct StripLayout {
    pub quads: Vec<StripQuad>,
    pub indices: Vec<u32>,
    pub next_offset: u32,
}

/// Number of quads of one side: one per grid cell.
pub open spec fn quad_count(length: int, width: int) -> int {
    length * (width - 1)
}

/// Corner (0 to 3) used by the `t`-th index of a quad's two triangles; the
/// reversed side winds its triangles the other way round.
pub open spec fn quad_corner(reversed: bool, t: int) -> int {
    if !reversed {
        if t == 0 {
            0
        } else if t == 1 {
            1
        } else if t == 2 {
            2
        } else if t == 3 {
            0
        } else if t == 4 {
            2
        } else {
            3
        }
    } else {
        if t == 0 {
            0
        } else if t == 1 {
            2
        } else if t == 2 {
            1
        } else if t == 3 {
            0
        } else if t == 4 {
            3
        } else {
            2
        }
    }
}

/// The `k`-th quad of a side laid out on a `length` x `width` grid whose first
/// vertex index is `offset`.
pub open spec fn quad_spec(length: int, width: int, reversed: bool, offset: int, k: int, q: StripQuad) -> bool {
    let row_len = width - 1;
    &&& q.along == k / row_len
    &&& q.along_next == (k / row_len + 1) % length
    &&& q.across == if reversed { row_len - 1 - k % row_len } else { k % row_len }
    &&& q.quad_id == offset / 4 + k
    &&& q.primary == (k % 2 == 0)
}

/// The layout of one side is the one described quad by quad.
pub open spec fn layout_spec(
    length: int,
    width: int,
    reversed: bool,
    offset: int,
    layout: StripLayout,
) -> bool {
    let n = quad_count(length, width);
    &&& layout.quads.len() == n
    &&& layout.indices.len() == 6 * n
    &&& layout.next_offset == offset + 4 * n
    &&& forall|k: int| 0 <= k < n ==> quad_spec(length, width, reversed, offset, k, #[trigger] layout.quads[k])
    &&& forall|k: int, t: int|
        0 <= k < n && 0 <= t < 6 ==> #[trigger] layout.indices[6 * k + t] == offset + 4 * k
            + quad_corner(reversed, t)
}

/// The six triangle indices of a quad whose first vertex index is `base`.
fn quad_indices(base: u32, reversed: bool) -> (indices: Vec<u32>)
    requires
        base + 3 <= u32::MAX,
    ensures
        indices.len() == 6,
        forall|t: int| 0 <= t < 6 ==> #[trigger] indices[t] == base + quad_corner(reversed, t),
{
    let mut indices: Vec<u32> = Vec::new();
    if !reversed {
        indices.push(base);
        indices.push(base + 1);
        indices.push(base + 2);
        indices.push(base);
        indices.push(base + 2);
        indices.push(base + 3);
    } else {
        indices.push(base);
        indices.push(base + 2);
        indices.push(base + 1);
        indices.push(base);
        indices.push(base + 3);
        indices.push(base + 2);
    }
    indices
}

/// Lays out one side of the strip: for each of the `num_grid_length` columns
/// along the loop, the `num_grid_width - 1` quads across the strip (bottom to top,
/// or top to bottom when `reversed`), numbering vertices from `index_offset`.
pub fn mobius_strip_layout(
    num_grid_length: usize,
    num_grid_width: usize,
    reversed: bool,
    index_offset: u32,
) -> (layout: StripLayout)
    requires
        num_grid_length > 0 ==> num_grid_width >= 1,
        index_offset + 4 * quad_count(num_grid_length as int, num_grid_width as int) <= u32::MAX,
    ensures
        layout_spec(num_grid_length as int, num_grid_width as int, reversed, index_offset as int, layout),
{
    let ghost length = num_grid_length as int;
    let ghost width = num_grid_width as int;
    if num_grid_length == 0 {
        let empty = StripLayout { quads: Vec::new(), indices: Vec::new(), next_offset: index_offset };
        assert(quad_count(length, width) == 0);
        return empty;
    }
    let row_len = num_grid_width - 1;
    let mut quads: Vec<StripQuad> = Vec::new();
    let mut indices: Vec<u32> = Vec::new();
    let mut offset = index_offset;
    let mut quad_id = index_offset / 4;
    let mut primary = true;
    let ghost n = quad_count(length, width);
    assert(0 <= n) by (nonlinear_arith)
        requires
            n == length * (width - 1),
            length >= 0,
            width >= 1,
    ;
    let mut i: usize = 0;
    while i < num_grid_length
        invariant
            length == num_grid_length,
            width == num_grid_width,
            row_len == width - 1,
            n == quad_count(length, width),
            index_offset + 4 * n <= u32::MAX,
            0 <= i <= length,
            quads.len() == i * row_len,
            i * row_len <= n,
            indices.len() == 6 * quads.len(),
            offset == index_offset + 4 * quads.len(),
            quad_id == index_offset / 4 + quads.len(),
            primary == (quads.len() % 2 == 0),
            forall|k: int|
                0 <= k < quads.len() ==> quad_spec(length, width, reversed, index_offset as int, k, #[trigger] quads[k]),
            forall|k: int, t: int|
                0 <= k < quads.len() && 0 <= t < 6 ==> #[trigger] indices[6 * k + t] == index_offset + 4 * k
                    + quad_corner(reversed, t),
        decreases length - i,
    {
        assert((i + 1) * row_len <= n && (i + 1) * row_len == i * row_len + row_len) by (nonlinear_arith)
            requires
                i + 1 <= length,
                n == length * row_len,
                row_len >= 0,
        ;
        let i_next = (i + 1) % num_grid_length;
        let mut t: usize = 0;
        while t < row_len
            invariant
                length == num_grid_length,
                width == num_grid_width,
                row_len == width - 1,
                n == quad_count(length, width),
                index_offset + 4 * n <= u32::MAX,
                0 <= i < length,
                (i + 1) * row_len <= n,
                (i + 1) * row_len == i * row_len + row_len,
                i_next == (i + 1) % length,
                0 <= t <= row_len,
                quads.len() == i * row_len + t,
                indices.len() == 6 * quads.len(),
                offset == index_offset + 4 * quads.len(),
                quad_id == index_offset / 4 + quads.len(),
                primary == (quads.len() % 2 == 0),
                forall|k: int|
                    0 <= k < quads.len() ==> quad_spec(length, width, reversed, index_offset as int, k, #[trigger] quads[k]),
                forall|k: int, t2: int|
                    0 <= k < quads.len() && 0 <= t2 < 6 ==> #[trigger] indices[6 * k + t2] == index_offset + 4
                        * k + quad_corner(reversed, t2),
            decreases row_len - t,
        {
            let across = if reversed {
                row_len - 1 - t
            } else {
                t
            };
            let ghost k = quads.len() as int;
            proof {
                lemma_fundamental_div_mod_converse(k, row_len as int, i as int, t as int);
            }
            let quad = StripQuad { along: i, along_next: i_next, across, quad_id, primary };
            let face = quad_indices(offset, reversed);
            let ghost before = indices@;
            quads.push(quad);
            let mut f: usize = 0;
            while f < 6
                invariant
                    0 <= f <= 6,
                    face.len() == 6,
                    indices@.len() == before.len() + f,
                    forall|m: int| 0 <= m < before.len() ==> #[trigger] indices@[m] == before[m],
                    forall|m: int| 0 <= m < f ==> #[trigger] indices@[before.len() + m] == face[m],
                decreases 6 - f,
            {
                indices.push(face[f]);
                f = f + 1;
            }
            assert forall|k2: int, t2: int|
                0 <= k2 < quads.len() && 0 <= t2 < 6 implies #[trigger] indices[6 * k2 + t2] == index_offset
                + 4 * k2 + quad_corner(reversed, t2) by {
                if k2 < k {
                    assert(6 * k2 + t2 < before.len()) by (nonlinear_arith)
                        requires
                            k2 < k,
                            t2 < 6,
                            before.len() == 6 * k,
                    ;
                    assert(indices@[6 * k2 + t2] == before[6 * k2 + t2]);
                } else {
                    assert(indices@[before.len() + t2] == face[t2]);
                }
            }
            offset = offset + 4;
            quad_id = quad_id + 1;
            primary = !primary;
            t = t + 1;
        }
        i = i + 1;
    }
    assert(quads.len() == n) by (nonlinear_arith)
        requires
            i == length,
            quads.len() == i * row_len,
            n == length * row_len,
    ;
    StripLayout { quads, indices, next_offset: offset }
}

/// Lays out both sides of the strip: the front side first, then the back side
/// with its quads in the opposite order across and its vertices numbered on from
/// where the front side stopped. Returns the two sides.
pub fn double_sided_layout(num_grid_length: usize, num_grid_width: usize) -> (sides: (StripLayout, StripLayout))
    requires
        num_grid_length > 0 ==> num_grid_width >= 1,
        8 * quad_count(num_grid_length as int, num_grid_width as int) <= u32::MAX,
    ensures
        layout_spec(num_grid_length as int, num_grid_width as int, false, 0, sides.0),
        layout_spec(
            num_grid_length as int,
            num_grid_width as int,
            true,
            4 * quad_count(num_grid_length as int, num_grid_width as int),
            sides.1,
        ),
{
    let front = mobius_strip_layout(num_grid_length, num_grid_width, false, 0);
    let back = mobius_strip_layout(num_grid_length, num_grid_width, true, front.next_offset);
    (front, back)
}

/// Every triangle of a side uses only the four vertices of its own quad, all of
/// them numbered within the side's range `[offset, next_offset)`.
pub proof fn lemma_triangles_stay_in_quad(
    length: int,
    width: int,
    reversed: bool,
    offset: int,
    layout: StripLayout,
)
    requires
        length >= 0,
        width >= 1,
        layout_spec(length, width, reversed, offset, layout),
    ensures
        forall|k: int, t: int|
            0 <= k < quad_count(length, width) && 0 <= t < 6 ==> {
                &&& offset + 4 * k <= #[trigger] layout.indices[6 * k + t] < offset + 4 * k + 4
                &&& offset <= layout.indices[6 * k + t] < layout.next_offset
            },
{
    assert forall|k: int, t: int| 0 <= k < quad_count(length, width) && 0 <= t < 6 implies {
        &&& offset + 4 * k <= #[trigger] layout.indices[6 * k + t] < offset + 4 * k + 4
        &&& offset <= layout.indices[6 * k + t] < layout.next_offset
    } by {
        assert(0 <= quad_corner(reversed, t) <= 3);
    }
}

/// The two sides of the strip never share a vertex: every index of the front
/// side is below every index of the back side.
pub proof fn lemma_sides_disjoint(length: int, width: int, front: StripLayout, back: StripLayout)
    requires
        length >= 0,
        width >= 1,
        layout_spec(length, width, false, 0, front),
        layout_spec(length, width, true, 4 * quad_count(length, width), back),
    ensures
        forall|a: int, b: int|
            0 <= a < front.indices.len() && 0 <= b < back.indices.len() ==> #[trigger] front.indices[a]
                < #[trigger] back.indices[b],
{
    lemma_triangles_stay_in_quad(length, width, false, 0, front);
    lemma_triangles_stay_in_quad(length, width, true, 4 * quad_count(length, width), back);
    assert forall|a: int, b: int|
        0 <= a < front.indices.len() && 0 <= b < back.indices.len() implies #[trigger] front.indices[a]
        < #[trigger] back.indices[b] by {
        let n = quad_count(length, width);
        let ka = a / 6;
        let ta = a % 6;
        let kb = b / 6;
        let tb = b % 6;
        assert(a == 6 * ka + ta && 0 <= ta < 6 && 0 <= ka < n) by (nonlinear_arith)
            requires
                0 <= a < 6 * n,
                ka == a / 6,
                ta == a % 6,
        ;
        assert(b == 6 * kb + tb && 0 <= tb < 6 && 0 <= kb < n) by (nonlinear_arith)
            requires
                0 <= b < 6 * n,
                kb == b / 6,
                tb == b % 6,
        ;
        assert(front.indices[6 * ka + ta] < front.next_offset);
        assert(back.indices[6 * kb + tb] >= 4 * n);
    }
}

/// The quad after quad `k` either climbs one row in the same column or starts the
/// next column at its first row.
proof fn lemma_next_quad_position(k: int, row_len: int)
    requires
        row_len > 0,
        k >= 0,
    ensures
        k % row_len + 1 < row_len ==> (k + 1) / row_len == k / row_len && (k + 1) % row_len == k % row_len + 1,
        k % row_len + 1 == row_len ==> (k + 1) / row_len == k / row_len + 1 && (k + 1) % row_len == 0,
        0 <= k % row_len < row_len,
{
    vstd::arithmetic::div_mod::lemma_fundamental_div_mod(k, row_len);
    let q = k / row_len;
    let r = k % row_len;
    assert(k == q * row_len + r) by (nonlinear_arith)
        requires
            k == row_len * q + r,
    ;
    if r + 1 < row_len {
        lemma_fundamental_div_mod_converse(k + 1, row_len, q, r + 1);
    } else {
        assert(k + 1 == (q + 1) * row_len + 0) by (nonlinear_arith)
            requires
                k == q * row_len + r,
                r + 1 == row_len,
        ;
        lemma_fundamental_div_mod_converse(k + 1, row_len, q + 1, 0);
    }
}

/// How the quads of both sides walk over the grid. The front side starts at the
/// first row of the first column and climbs each column one row at a time before
/// moving on to the next column. The back side visits the same columns in the
/// same order but runs across the strip the opposite way: its `k`-th quad stands
/// in the column of the front side's `k`-th quad, on the mirrored row, so that
/// the two rows add up to `num_grid_width - 2`.
pub proof fn lemma_back_side_mirrors_front(
    length: int,
    width: int,
    front_offset: int,
    back_offset: int,
    front: StripLayout,
    back: StripLayout,
)
    requires
        length > 0,
        width >= 2,
        layout_spec(length, width, false, front_offset, front),
        layout_spec(length, width, true, back_offset, back),
    ensures
        front.quads[0].along == 0,
        front.quads[0].across == 0,
        forall|k: int|
            0 <= k < quad_count(length, width) ==> {
                &&& 0 <= #[trigger] front.quads[k].across < width - 1
                &&& 0 <= front.quads[k].along < length
                &&& back.quads[k].along == front.quads[k].along
                &&& front.quads[k].across + back.quads[k].across == width - 2
            },
        forall|k: int|
            0 <= k && k + 1 < quad_count(length, width) ==> {
                ||| front.quads[k + 1].along == front.quads[k].along && #[trigger] front.quads[k + 1].across
                    == front.quads[k].across + 1
                ||| front.quads[k + 1].along == front.quads[k].along + 1 && front.quads[k + 1].across == 0
                    && front.quads[k].across == width - 2
            },
{
    let row_len = width - 1;
    let n = quad_count(length, width);
    assert(n >= 1) by (nonlinear_arith)
        requires
            n == length * (width - 1),
            length > 0,
            width >= 2,
    ;
    assert(quad_spec(length, width, false, front_offset, 0, front.quads[0]));
    vstd::arithmetic::div_mod::lemma_small_mod(0, row_len as nat);
    assert forall|k: int| 0 <= k < n implies {
        &&& 0 <= #[trigger] front.quads[k].across < width - 1
        &&& 0 <= front.quads[k].along < length
        &&& back.quads[k].along == front.quads[k].along
        &&& front.quads[k].across + back.quads[k].across == width - 2
    } by {
        assert(quad_spec(length, width, false, front_offset, k, front.quads[k]));
        assert(quad_spec(length, width, true, back_offset, k, back.quads[k]));
        lemma_next_quad_position(k, row_len);
        assert(0 <= k / row_len < length) by (nonlinear_arith)
            requires
                0 <= k < length * row_len,
                row_len > 0,
        ;
    }
    assert forall|k: int| 0 <= k && k + 1 < n implies {
        ||| front.quads[k + 1].along == front.quads[k].along && #[trigger] front.quads[k + 1].across
            == front.quads[k].across + 1
        ||| front.quads[k + 1].along == front.quads[k].along + 1 && front.quads[k + 1].across == 0
            && front.quads[k].across == width - 2
    } by {
        assert(quad_spec(length, width, false, front_offset, k, front.quads[k]));
        assert(quad_spec(length, width, false, front_offset, k + 1, front.quads[k + 1]));
        lemma_next_quad_position(k, row_len);
    }
}

/// The two triangles of a quad split it along the diagonal from its first to its
/// third corner. On the front side they run forwards through the corners, as
/// (0, 1, 2) and (0, 2, 3); the back side winds every triangle the other way,
/// with the same corners and the last two of each triangle swapped.
pub proof fn lemma_quad_triangles_wind(
    length: int,
    width: int,
    front_offset: int,
    back_offset: int,
    front: StripLayout,
    back: StripLayout,
)
    requires
        length >= 0,
        width >= 1,
        layout_spec(length, width, false, front_offset, front),
        layout_spec(length, width, true, back_offset, back),
    ensures
        forall|k: int|
            0 <= k < quad_count(length, width) ==> {
                let b = front_offset + 4 * k;
                &&& #[trigger] front.indices[6 * k] == b
                &&& front.indices[6 * k + 1] == b + 1
                &&& front.indices[6 * k + 2] == b + 2
                &&& front.indices[6 * k + 3] == b
                &&& front.indices[6 * k + 4] == b + 2
                &&& front.indices[6 * k + 5] == b + 3
            },
        forall|k: int|
            0 <= k < quad_count(length, width) ==> {
                let fb = front_offset + 4 * k;
                let bb = back_offset + 4 * k;
                &&& #[trigger] back.indices[6 * k] - bb == front.indices[6 * k] - fb
                &&& back.indices[6 * k + 1] - bb == front.indices[6 * k + 2] - fb
                &&& back.indices[6 * k + 2] - bb == front.indices[6 * k + 1] - fb
                &&& back.indices[6 * k + 3] - bb == front.indices[6 * k + 3] - fb
                &&& back.indices[6 * k + 4] - bb == front.indices[6 * k + 5] - fb
                &&& back.indices[6 * k + 5] - bb == front.indices[6 * k + 4] - fb
            },
{
    assert forall|k: int| 0 <= k < quad_count(length, width) implies {
        let b = front_offset + 4 * k;
        &&& #[trigger] front.indices[6 * k] == b
        &&& front.indices[6 * k + 1] == b + 1
        &&& front.indices[6 * k + 2] == b + 2
        &&& front.indices[6 * k + 3] == b
        &&& front.indices[6 * k + 4] == b + 2
        &&& front.indices[6 * k + 5] == b + 3
    } by {
        assert(front.indices[6 * k + 0] == front_offset + 4 * k + quad_corner(false, 0));
        assert(front.indices[6 * k + 1] == front_offset + 4 * k + quad_corner(false, 1));
        assert(front.indices[6 * k + 2] == front_offset + 4 * k + quad_corner(false, 2));
        assert(front.indices[6 * k + 3] == front_offset + 4 * k + quad_corner(false, 3));
        assert(front.indices[6 * k + 4] == front_offset + 4 * k + quad_corner(false, 4));
        assert(front.indices[6 * k + 5] == front_offset + 4 * k + quad_corner(false, 5));
    }
    assert forall|k: int| 0 <= k < quad_count(length, width) implies {
        let fb = front_offset + 4 * k;
        let bb = back_offset + 4 * k;
        &&& #[trigger] back.indices[6 * k] - bb == front.indices[6 * k] - fb
        &&& back.indices[6 * k + 1] - bb == front.indices[6 * k + 2] - fb
        &&& back.indices[6 * k + 2] - bb == front.indices[6 * k + 1] - fb
        &&& back.indices[6 * k + 3] - bb == front.indices[6 * k + 3] - fb
        &&& back.indices[6 * k + 4] - bb == front.indices[6 * k + 5] - fb
        &&& back.indices[6 * k + 5] - bb == front.indices[6 * k + 4] - fb
    } by {
        assert(front.indices[6 * k + 0] == front_offset + 4 * k + quad_corner(false, 0));
        assert(front.indices[6 * k + 1] == front_offset + 4 * k + quad_corner(false, 1));
        assert(front.indices[6 * k + 2] == front_offset + 4 * k + quad_corner(false, 2));
        assert(front.indices[6 * k + 3] == front_offset + 4 * k + quad_corner(false, 3));
        assert(front.indices[6 * k + 4] == front_offset + 4 * k + quad_corner(false, 4));
        assert(front.indices[6 * k + 5] == front_offset + 4 * k + quad_corner(false, 5));
        assert(back.indices[6 * k + 0] == back_offset + 4 * k + quad_corner(true, 0));
        assert(back.indices[6 * k + 1] == back_offset + 4 * k + quad_corner(true, 1));
        assert(back.indices[6 * k + 2] == back_offset + 4 * k + quad_corner(true, 2));
        assert(back.indices[6 * k + 3] == back_offset + 4 * k + quad_corner(true, 3));
        assert(back.indices[6 * k + 4] == back_offset + 4 * k + quad_corner(true, 4));
        assert(back.indices[6 * k + 5] == back_offset + 4 * k + quad_corner(true, 5));
    }
}

/// Quads are numbered one after the other from a quarter of the first vertex
/// index, alternate between the two colours starting with the first, and each
/// one knows the next column along the loop, which after the last column is the
/// first one again (the seam).
pub proof fn lemma_quads_numbered(length: int, width: int, reversed: bool, offset: int, layout: StripLayout)
    requires
        length > 0,
        width >= 2,
        offset >= 0,
        layout_spec(length, width, reversed, offset, layout),
    ensures
        layout.quads[0].quad_id == offset / 4,
        layout.quads[0].primary,
        forall|k: int|
            0 <= k && k + 1 < quad_count(length, width) ==> {
                &&& #[trigger] layout.quads[k + 1].quad_id == layout.quads[k].quad_id + 1
                &&& layout.quads[k + 1].primary == !layout.quads[k].primary
            },
        forall|k: int|
            0 <= k < quad_count(length, width) ==> #[trigger] layout.quads[k].along_next == if layout.quads[k].along
                + 1 < length {
                layout.quads[k].along + 1
            } else {
                0
            },
{
    let row_len = width - 1;
    let n = quad_count(length, width);
    assert(n >= 1) by (nonlinear_arith)
        requires
            n == length * (width - 1),
            length > 0,
            width >= 2,
    ;
    assert(quad_spec(length, width, reversed, offset, 0, layout.quads[0]));
    assert forall|k: int| 0 <= k && k + 1 < n implies {
        &&& #[trigger] layout.quads[k + 1].quad_id == layout.quads[k].quad_id + 1
        &&& layout.quads[k + 1].primary == !layout.quads[k].primary
    } by {
        assert(quad_spec(length, width, reversed, offset, k, layout.quads[k]));
        assert(quad_spec(length, width, reversed, offset, k + 1, layout.quads[k + 1]));
        lemma_next_quad_position(k, 2);
    }
    assert forall|k: int| 0 <= k < n implies #[trigger] layout.quads[k].along_next == if layout.quads[k].along + 1
        < length {
        layout.quads[k].along + 1
    } else {
        0
    } by {
        assert(quad_spec(length, width, reversed, offset, k, layout.quads[k]));
        let a = k / row_len;
        assert(0 <= a < length) by (nonlinear_arith)
            requires
                0 <= k < length * row_len,
                row_len > 0,
                a == k / row_len,
        ;
        if a + 1 < length {
            lemma_fundamental_div_mod_converse(a + 1, length, 0, a + 1);
        } else {
            lemma_fundamental_div_mod_converse(a + 1, length, 1, 0);
        }
    }
}

/// Size of the game board that covers both sides of a strip laid out on a
/// `num_grid_length` x `num_grid_width` grid: one cell per quad across, and the
/// two sides one after the other along.
pub fn mobius_grid_size(num_grid_length: usize, num_grid_width: usize) -> (size: MobiusSize)
    requires
        num_grid_width >= 1,
        num_grid_width - 1 <= u32::MAX,
        2 * num_grid_length <= u32::MAX,
    ensures
        size.width == num_grid_width - 1,
        size.height == 2 * num_grid_length,
{
    MobiusSize { width: (num_grid_width - 1) as u32, height: (num_grid_length * 2) as u32 }
}

/// A fresh game on an all-dead board covering both sides of the strip (see
/// `mobius_grid_size`), stepping `fps` times per second.
pub fn mobius_life(num_grid_length: usize, num_grid_width: usize, fps: u32) -> (life: Life)
    requires
        num_grid_width >= 1,
        num_grid_width - 1 <= i32::MAX,
        2 * num_grid_length <= i32::MAX,
        (num_grid_width - 1) * (2 * num_grid_length) <= usize::MAX,
    ensures
        life.width == num_grid_width - 1,
        life.height == 2 * num_grid_length,
        life.game_area@ == Seq::new(((num_grid_width - 1) * (2 * num_grid_length)) as nat, |i: int| 0u8),
        life.progress == 0,
        life.fps == fps,
        life.enabled,
        life.input is None,
        life.prev_drawed_elem is None,
        life.lifeforms@.len() == 0,
        num_grid_width >= 2 && num_grid_length >= 1 ==> life.wf(),
{
    let width = num_grid_width - 1;
    let height = num_grid_length * 2;
    let game_state = vec![0u8; width * height];
    assert(game_state@ =~= Seq::new(((num_grid_width - 1) * (2 * num_grid_length)) as nat, |i: int| 0u8));
    Life::new(game_state, width as i32, height as i32, fps)
}

} // verus!
