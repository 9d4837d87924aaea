//! Coordinates on a toroidal board: every position folds back onto the
//! `width` x `height` grid, and a grid is stored row by row in one flat vector.
use vstd::prelude::*;
use vstd::arithmetic::div_mod::lemma_fundamental_div_mod;
use vstd::arithmetic::div_mod::lemma_fundamental_div_mod_converse;

verus! {

/// The coordinate `v` folded onto a ring of `m` places (the Euclidean remainder).
pub open spec fn wrap(v: int, m: int) -> int {
    v % m
}

/// Flat index of the toroidal position `(x, y)` on a `w` x `h` board.
pub open spec fn torus_index(x: int, y: int, w: int, h: int) -> int {
    wrap(y, h) * w + wrap(x, w)
}

/// Column of the flat index `i` on a board of width `w`.
pub open spec fn column_of(i: int, w: int) -> int {
    i % w
}

/// Row of the flat index `i` on a board of width `w`.
pub open spec fn row_of(i: int, w: int) -> int {
    i / w
}

/// Remainder of a negated number: folding `-a` is the mirror image of folding `a`.
pub proof fn lemma_mod_of_negation(a: int, m: int)
    requires
        a > 0,
        m > 0,
    ensures
        (-a) % m == if a % m == 0 { 0 } else { m - a % m },
{
    lemma_fundamental_div_mod(a, m);
    let q = a / m;
    let r = a % m;
    assert(a == q * m + r) by (nonlinear_arith)
        requires
            a == m * q + r,
    ;
    if r == 0 {
        assert(-a == (-q) * m + 0) by (nonlinear_arith)
            requires
                a == q * m + r,
                r == 0,
        ;
        lemma_fundamental_div_mod_converse(-a, m, -q, 0);
    } else {
        assert(-a == (-q - 1) * m + (m - r)) by (nonlinear_arith)
            requires
                a == q * m + r,
        ;
        lemma_fundamental_div_mod_converse(-a, m, -q - 1, m - r);
    }
}

/// A folded position always lands on the board.
pub proof fn lemma_torus_index_bounds(x: int, y: int, w: int, h: int)
    requires
        w > 0,
        h > 0,
    ensures
        0 <= wrap(x, w) < w,
        0 <= wrap(y, h) < h,
        0 <= torus_index(x, y, w, h) < w * h,
{
    let a = wrap(y, h);
    let b = wrap(x, w);
    assert(0 <= a * w + b < w * h) by (nonlinear_arith)
        requires
            0 <= a < h,
            0 <= b < w,
    ;
}

/// A cell on the board is its own folded position.
pub proof fn lemma_torus_index_of_cell(i: int, w: int, h: int)
    requires
        w > 0,
        h > 0,
        0 <= i < w * h,
    ensures
        0 <= column_of(i, w) < w,
        0 <= row_of(i, w) < h,
        torus_index(column_of(i, w), row_of(i, w), w, h) == i,
{
    lemma_fundamental_div_mod(i, w);
    let q = i / w;
    let r = i % w;
    assert(0 <= q < h) by (nonlinear_arith)
        requires
            i == w * q + r,
            0 <= r < w,
            0 <= i < w * h,
    ;
    assert(q * w + r == i) by (nonlinear_arith)
        requires
            i == w * q + r,
    ;
    lemma_fundamental_div_mod_converse(r, w, 0, r);
    lemma_fundamental_div_mod_converse(q, h, 0, q);
}

/// Folding is periodic: moving a whole width or height around the board changes nothing.
pub proof fn lemma_torus_index_periodic(x: int, y: int, w: int, h: int)
    requires
        w > 0,
        h > 0,
    ensures
        torus_index(x + w, y, w, h) == torus_index(x, y, w, h),
        torus_index(x - w, y, w, h) == torus_index(x, y, w, h),
        torus_index(x, y + h, w, h) == torus_index(x, y, w, h),
        torus_index(x, y - h, w, h) == torus_index(x, y, w, h),
{
    lemma_fundamental_div_mod(x, w);
    lemma_fundamental_div_mod(y, h);
    let qx = x / w;
    let rx = x % w;
    let qy = y / h;
    let ry = y % h;
    assert(x + w == (qx + 1) * w + rx && x - w == (qx - 1) * w + rx) by (nonlinear_arith)
        requires
            x == w * qx + rx,
    ;
    assert(y + h == (qy + 1) * h + ry && y - h == (qy - 1) * h + ry) by (nonlinear_arith)
        requires
            y == h * qy + ry,
    ;
    lemma_fundamental_div_mod_converse(x + w, w, qx + 1, rx);
    lemma_fundamental_div_mod_converse(x - w, w, qx - 1, rx);
    lemma_fundamental_div_mod_converse(y + h, h, qy + 1, ry);
    lemma_fundamental_div_mod_converse(y - h, h, qy - 1, ry);
}

/// Two coordinates less than a whole ring apart fold onto the same place only if
/// they are equal.
pub proof fn lemma_wrap_injective_nearby(u: int, v: int, m: int)
    requires
        m > 0,
        -m < u - v < m,
        wrap(u, m) == wrap(v, m),
    ensures
        u == v,
{
    lemma_fundamental_div_mod(u, m);
    lemma_fundamental_div_mod(v, m);
    let qu = u / m;
    let qv = v / m;
    assert(u - v == m * (qu - qv)) by (nonlinear_arith)
        requires
            u == m * qu + u % m,
            v == m * qv + v % m,
            u % m == v % m,
    ;
    assert(qu == qv) by (nonlinear_arith)
        requires
            u - v == m * (qu - qv),
            -m < u - v < m,
            m > 0,
    ;
}

/// Two positions share a flat index only if they fold onto the same column and row.
pub proof fn lemma_torus_index_injective(x1: int, y1: int, x2: int, y2: int, w: int, h: int)
    requires
        w > 0,
        h > 0,
        torus_index(x1, y1, w, h) == torus_index(x2, y2, w, h),
    ensures
        wrap(x1, w) == wrap(x2, w),
        wrap(y1, h) == wrap(y2, h),
{
    lemma_torus_index_bounds(x1, y1, w, h);
    lemma_torus_index_bounds(x2, y2, w, h);
    let t = torus_index(x1, y1, w, h);
    lemma_fundamental_div_mod_converse(t, w, wrap(y1, h), wrap(x1, w));
    lemma_fundamental_div_mod_converse(t, w, wrap(y2, h), wrap(x2, w));
}

/// The position `(a, b)` folds onto the cell in column `x0` and row `y0` exactly
/// when its column folds onto `x0` and its row onto `y0`.
pub proof fn lemma_torus_index_hits(a: int, b: int, x0: int, y0: int, w: int, h: int)
    requires
        0 <= x0 < w,
        0 <= y0 < h,
    ensures
        (torus_index(a, b, w, h) == y0 * w + x0) <==> (wrap(a, w) == x0 && wrap(b, h) == y0),
{
    lemma_torus_index_bounds(a, b, w, h);
    if torus_index(a, b, w, h) == y0 * w + x0 {
        let t = y0 * w + x0;
        lemma_fundamental_div_mod_converse(t, w, wrap(b, h), wrap(a, w));
        lemma_fundamental_div_mod_converse(t, w, y0, x0);
    }
}

/// Stepping `d` (one of -1, 0, 1) from coordinate `x` reaches the place `x0` of a
/// ring of at least three places exactly when `x - x0` folds to `-d`, that is
/// when the folded distance plus `d` is 0 or a whole turn.
pub proof fn lemma_step_hits(x: int, d: int, x0: int, m: int)
    requires
        m >= 3,
        0 <= x0 < m,
        -1 <= d <= 1,
    ensures
        (wrap(x + d, m) == x0) <==> (wrap(x - x0, m) + d == 0 || wrap(x - x0, m) + d == m),
{
    lemma_fundamental_div_mod(x - x0, m);
    let q = (x - x0) / m;
    let r = (x - x0) % m;
    assert(x - x0 == q * m + r) by (nonlinear_arith)
        requires
            x - x0 == m * q + r,
    ;
    if r + d == 0 {
        assert(x + d == q * m + x0);
        lemma_fundamental_div_mod_converse(x + d, m, q, x0);
    } else if r + d == m {
        assert(x + d == (q + 1) * m + x0) by (nonlinear_arith)
            requires
                x - x0 == q * m + r,
                r + d == m,
        ;
        lemma_fundamental_div_mod_converse(x + d, m, q + 1, x0);
    } else {
        if wrap(x + d, m) == x0 {
            lemma_fundamental_div_mod(x + d, m);
            let q2 = (x + d) / m;
            assert(r + d == (q2 - q) * m) by (nonlinear_arith)
                requires
                    x + d == m * q2 + x0,
                    x - x0 == q * m + r,
            ;
            assert(false) by (nonlinear_arith)
                requires
                    r + d == (q2 - q) * m,
                    r + d != 0,
                    r + d != m,
                    -1 <= r + d <= m,
                    m >= 3,
            ;
        }
    }
}

/// The cell right of, or below, the cell that `(x, y)` folds onto is the cell
/// that `(x + 1, y)`, or `(x, y + 1)`, folds onto.
pub proof fn lemma_torus_index_step(x: int, y: int, w: int, h: int)
    requires
        w > 0,
        h > 0,
    ensures
        ({
            let t = torus_index(x, y, w, h);
            &&& column_of(t, w) == wrap(x, w)
            &&& row_of(t, w) == wrap(y, h)
            &&& torus_index(column_of(t, w) + 1, row_of(t, w), w, h) == torus_index(x + 1, y, w, h)
            &&& torus_index(column_of(t, w), row_of(t, w) + 1, w, h) == torus_index(x, y + 1, w, h)
        }),
{
    lemma_torus_index_bounds(x, y, w, h);
    let t = torus_index(x, y, w, h);
    lemma_fundamental_div_mod_converse(t, w, wrap(y, h), wrap(x, w));
    vstd::arithmetic::div_mod::lemma_add_mod_noop_right(1, x, w);
    vstd::arithmetic::div_mod::lemma_add_mod_noop_right(1, y, h);
    vstd::arithmetic::div_mod::lemma_mod_twice(x, w);
    vstd::arithmetic::div_mod::lemma_mod_twice(y, h);
    assert(wrap(x, w) + 1 == 1 + x % w);
    assert(x + 1 == 1 + x);
    assert(wrap(y, h) + 1 == 1 + y % h);
    assert(y + 1 == 1 + y);
}

/// Moving `d` columns and `e` rows from the cell that `(x, y)` folds onto reaches
/// the cell that `(x + d, y + e)` folds onto.
pub proof fn lemma_torus_index_shift(x: int, y: int, d: int, e: int, w: int, h: int)
    requires
        w > 0,
        h > 0,
    ensures
        ({
            let t = torus_index(x, y, w, h);
            torus_index(column_of(t, w) + d, row_of(t, w) + e, w, h) == torus_index(x + d, y + e, w, h)
        }),
{
    lemma_torus_index_bounds(x, y, w, h);
    let t = torus_index(x, y, w, h);
    lemma_fundamental_div_mod_converse(t, w, wrap(y, h), wrap(x, w));
    vstd::arithmetic::div_mod::lemma_add_mod_noop_right(d, x, w);
    vstd::arithmetic::div_mod::lemma_add_mod_noop_right(e, y, h);
    assert(wrap(x, w) + d == d + x % w);
    assert(x + d == d + x);
    assert(wrap(y, h) + e == e + y % h);
    assert(y + e == e + y);
}

/// Folds the coordinate `v` onto a ring of `m` places.
pub fn wrap_coord(v: i64, m: i64) -> (r: i64)
    requires
        0 < m,
    ensures
        r == wrap(v as int, m as int),
        0 <= r < m,
{
    let r = v % m;
    proof {
        if v < 0 {
            lemma_mod_of_negation(-v, m as int);
        }
    }
    if r < 0 {
        r + m
    } else {
        r
    }
}

/// Side of the square window of radius `r` around a cell.
pub open spec fn window_side(r: int) -> int {
    2 * r + 1
}

/// Slot of the centre cell when the window of radius `r` is read row by row.
pub open spec fn window_center(r: int) -> int {
    r * window_side(r) + r
}

/// How many neighbours the window of radius `r` holds: every slot but the centre.
pub open spec fn neighbor_count(r: int) -> int {
    if r >= 0 {
        window_side(r) * window_side(r) - 1
    } else {
        0
    }
}

/// Window slot of the `k`-th neighbour (the centre slot is skipped).
pub open spec fn window_slot(r: int, k: int) -> int {
    if k < window_center(r) {
        k
    } else {
        k + 1
    }
}

/// Flat index of the `k`-th neighbour of cell `index` in the window of radius `r`,
/// reading the window row by row from its top-left corner and folding around the board.
pub open spec fn neighbor_at(index: int, w: int, h: int, r: int, k: int) -> int {
    let j = window_slot(r, k);
    let dx = j % window_side(r) - r;
    let dy = j / window_side(r) - r;
    torus_index(column_of(index, w) + dx, row_of(index, w) + dy, w, h)
}

/// Number of neighbours listed before the window slot `s` is reached.
pub open spec fn listed_before(r: int, s: int) -> int {
    if s > window_center(r) {
        s - 1
    } else {
        s
    }
}

/// The slot of the offset `(dx, dy)` decodes back to that offset, and only the
/// zero offset sits in the centre slot.
pub proof fn lemma_slot_decode(r: int, dx: int, dy: int)
    requires
        r >= 0,
        -r <= dx <= r,
        -r <= dy <= r,
    ensures
        ((dy + r) * window_side(r) + (dx + r)) % window_side(r) == dx + r,
        ((dy + r) * window_side(r) + (dx + r)) / window_side(r) == dy + r,
        ((dy + r) * window_side(r) + (dx + r) == window_center(r)) <==> (dx == 0 && dy == 0),
{
    let side = window_side(r);
    let j = (dy + r) * side + (dx + r);
    lemma_fundamental_div_mod_converse(j, side, dy + r, dx + r);
    lemma_fundamental_div_mod_converse(window_center(r), side, r, r);
}

/// Decodes the window slot `j` into its column and row within the window.
proof fn lemma_slot_bounds(r: int, j: int)
    requires
        r >= 0,
        0 <= j < window_side(r) * window_side(r),
    ensures
        0 <= j % window_side(r) < window_side(r),
        0 <= j / window_side(r) < window_side(r),
        j == (j / window_side(r)) * window_side(r) + j % window_side(r),
{
    let side = window_side(r);
    lemma_fundamental_div_mod(j, side);
    let q = j / side;
    let m = j % side;
    assert(0 <= q < side && j == q * side + m) by (nonlinear_arith)
        requires
            j == side * q + m,
            0 <= m < side,
            0 <= j < side * side,
            side > 0,
    ;
}

/// The neighbours come row by row: the first is the cell `r` columns left of and
/// `r` rows above the centre cell, and each next one is the cell right of the
/// one before, or two cells right when the centre cell is skipped, or, at the end
/// of a row of the window, the first cell of the next row (`2 r` columns left and
/// one row down).
pub proof fn lemma_neighbors_row_by_row(index: int, w: int, h: int, r: int, k: int)
    requires
        w > 0,
        h > 0,
        r >= 1,
        0 <= index < w * h,
        0 <= k,
        k + 1 < neighbor_count(r),
    ensures
        neighbor_at(index, w, h, r, 0) == torus_index(column_of(index, w) - r, row_of(index, w) - r, w, h),
        ({
            let n = neighbor_at(index, w, h, r, k);
            let next = neighbor_at(index, w, h, r, k + 1);
            ||| next == torus_index(column_of(n, w) + 1, row_of(n, w), w, h)
            ||| next == torus_index(column_of(n, w) + 2, row_of(n, w), w, h)
            ||| next == torus_index(column_of(n, w) - 2 * r, row_of(n, w) + 1, w, h)
        }),
{
    let side = window_side(r);
    let c = window_center(r);
    let x = column_of(index, w);
    let y = row_of(index, w);
    assert(c > 0 && c + 1 < side * side) by (nonlinear_arith)
        requires
            c == r * side + r,
            side == 2 * r + 1,
            r >= 1,
    ;
    lemma_fundamental_div_mod_converse(0, side, 0, 0);
    lemma_fundamental_div_mod_converse(c, side, r, r);
    let j = window_slot(r, k);
    let j2 = window_slot(r, k + 1);
    assert(j2 < side * side);
    lemma_slot_bounds(r, j);
    lemma_slot_bounds(r, j2);
    let q = j / side;
    let m = j % side;
    lemma_torus_index_shift(x + (m - r), y + (q - r), 1, 0, w, h);
    lemma_torus_index_shift(x + (m - r), y + (q - r), 2, 0, w, h);
    lemma_torus_index_shift(x + (m - r), y + (q - r), -2 * r, 1, w, h);
    if m + 1 < side {
        if j + 1 == c {
            assert(j2 == j + 2);
            assert(m == r - 1) by {
                lemma_fundamental_div_mod_converse(j, side, r, r - 1);
            }
            lemma_fundamental_div_mod_converse(j2, side, q, m + 2);
        } else {
            assert(j2 == j + 1);
            lemma_fundamental_div_mod_converse(j2, side, q, m + 1);
        }
    } else {
        assert(j + 1 != c) by {
            if j + 1 == c {
                lemma_fundamental_div_mod_converse(j, side, r, r - 1);
            }
        }
        assert(j2 == j + 1);
        assert(j + 1 == (q + 1) * side + 0) by (nonlinear_arith)
            requires
                j == q * side + m,
                m + 1 == side,
        ;
        lemma_fundamental_div_mod_converse(j2, side, q + 1, 0);
    }
}

/// Every cell within `r` columns and `r` rows of the centre cell, other than the
/// centre itself, is among its neighbours.
pub proof fn lemma_neighbors_cover_window(index: int, w: int, h: int, r: int, dx: int, dy: int)
    requires
        w > 0,
        h > 0,
        r >= 0,
        -r <= dx <= r,
        -r <= dy <= r,
        !(dx == 0 && dy == 0),
    ensures
        exists|k: int|
            0 <= k < neighbor_count(r) && #[trigger] neighbor_at(index, w, h, r, k) == torus_index(
                column_of(index, w) + dx,
                row_of(index, w) + dy,
                w,
                h,
            ),
{
    let side = window_side(r);
    let c = window_center(r);
    let j = (dy + r) * side + (dx + r);
    lemma_slot_decode(r, dx, dy);
    assert(0 <= j < side * side) by (nonlinear_arith)
        requires
            j == (dy + r) * side + (dx + r),
            0 <= dy + r < side,
            0 <= dx + r < side,
    ;
    assert(c < side * side) by (nonlinear_arith)
        requires
            c == r * side + r,
            side == 2 * r + 1,
            r >= 0,
    ;
    let k = if j > c { j - 1 } else { j };
    assert(window_slot(r, k) == j);
    assert(0 <= k < neighbor_count(r));
    assert(neighbor_at(index, w, h, r, k) == torus_index(
        column_of(index, w) + dx,
        row_of(index, w) + dy,
        w,
        h,
    ));
}

/// On a board at least as wide and as high as the window, the neighbours of a
/// cell are all different cells, and none of them is the cell itself.
pub proof fn lemma_neighbors_distinct(index: int, w: int, h: int, r: int, k1: int, k2: int)
    requires
        r >= 0,
        window_side(r) <= w,
        window_side(r) <= h,
        0 <= index < w * h,
        0 <= k1 < k2 < neighbor_count(r),
    ensures
        neighbor_at(index, w, h, r, k1) != neighbor_at(index, w, h, r, k2),
        neighbor_at(index, w, h, r, k1) != index,
        neighbor_at(index, w, h, r, k2) != index,
{
    let side = window_side(r);
    let j1 = window_slot(r, k1);
    let j2 = window_slot(r, k2);
    lemma_slot_bounds(r, j1);
    lemma_slot_bounds(r, j2);
    lemma_torus_index_of_cell(index, w, h);
    let x = column_of(index, w);
    let y = row_of(index, w);
    lemma_fundamental_div_mod_converse(window_center(r), side, r, r);
    if neighbor_at(index, w, h, r, k1) == neighbor_at(index, w, h, r, k2) {
        lemma_torus_index_injective(
            x + (j1 % side - r),
            y + (j1 / side - r),
            x + (j2 % side - r),
            y + (j2 / side - r),
            w,
            h,
        );
        lemma_wrap_injective_nearby(x + (j1 % side - r), x + (j2 % side - r), w);
        lemma_wrap_injective_nearby(y + (j1 / side - r), y + (j2 / side - r), h);
    }
    if neighbor_at(index, w, h, r, k1) == index {
        lemma_torus_index_injective(x + (j1 % side - r), y + (j1 / side - r), x, y, w, h);
        lemma_wrap_injective_nearby(x + (j1 % side - r), x, w);
        lemma_wrap_injective_nearby(y + (j1 / side - r), y, h);
    }
    if neighbor_at(index, w, h, r, k2) == index {
        lemma_torus_index_injective(x + (j2 % side - r), y + (j2 / side - r), x, y, w, h);
        lemma_wrap_injective_nearby(x + (j2 % side - r), x, w);
        lemma_wrap_injective_nearby(y + (j2 / side - r), y, h);
    }
}

} // verus!
