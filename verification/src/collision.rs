//! Grid collision map.
//!
//! The level is a grid of square cells, `CELL_SIZE` micro-units on a side;
//! cell `(c, r)` covers the square from `(c*CELL_SIZE, r*CELL_SIZE)` to
//! `((c+1)*CELL_SIZE, (r+1)*CELL_SIZE)`.  A sparse set of occupied cells
//! constrains the planar movement of a disc-shaped actor: a move is legal
//! exactly when the disc overlaps no occupied cell.  Everything outside the
//! authored map is open space.

use vstd::prelude::*;

verus! {

/// World size of one grid cell, in micro-units (eight world units).
pub const CELL_SIZE: i64 = 8000000;

/// Collision radius that approximates the player's footprint, in
/// micro-units (two world units).
pub const PLAYER_RADIUS: i64 = 2000000;

/// Clamp of `v` onto the interval `[lo, lo + CELL_SIZE]`: the coordinate of
/// the point of a cell starting at `lo` that is closest to `v`.
pub open spec fn cell_closest(v: int, lo: int) -> int {
    if v < lo {
        lo
    } else if v > lo + CELL_SIZE {
        lo + CELL_SIZE
    } else {
        v
    }
}

/// Squared distance from the point `(x, y)` to the (closed) square of cell
/// `(c, r)`.
pub open spec fn cell_dist_sq(x: int, y: int, c: int, r: int) -> int {
    let dx = x - cell_closest(x, c * CELL_SIZE);
    let dy = y - cell_closest(y, r * CELL_SIZE);
    dx * dx + dy * dy
}

/// Whether a disc of the given radius centered at `(x, y)` overlaps cell
/// `(c, r)`.  A disc of zero or negative radius overlaps nothing.
pub open spec fn disc_overlaps_cell(x: int, y: int, radius: int, c: int, r: int) -> bool {
    radius > 0 && cell_dist_sq(x, y, c, r) < radius * radius
}

/// A static map of occupied grid cells, built once from a parsed level
/// description, with its nominal extents.
pub struct CollisionMap {
    cells: Vec<(i64, i64)>,
    width: usize,
    height: usize,
}

impl CollisionMap {
    /// Whether cell `(c, r)` is occupied (a wall).
    pub closed spec fn occupied(self, c: int, r: int) -> bool {
        exists|k: int|
            0 <= k < self.cells@.len() && self.cells@[k].0 == c && self.cells@[k].1 == r
    }

    pub closed spec fn spec_width(self) -> int {
        self.width as int
    }

    pub closed spec fn spec_height(self) -> int {
        self.height as int
    }

    /// Whether a disc of the given radius centered at `(x, y)` stays clear
    /// of every occupied cell.
    pub open spec fn can_move_spec(self, x: int, y: int, radius: int) -> bool {
        forall|c: int, r: int|
            #[trigger] self.occupied(c, r) ==> !disc_overlaps_cell(x, y, radius, c, r)
    }

    /// Builds a map from an explicit list of occupied cells and nominal
    /// extents.
    pub fn new(cells: Vec<(i64, i64)>, width: usize, height: usize) -> (m: CollisionMap)
        ensures
            forall|c: int, r: int|
                #[trigger] m.occupied(c, r) <==> exists|k: int|
                    0 <= k < cells@.len() && (#[trigger] cells@[k]).0 == c && cells@[k].1 == r,
            m.spec_width() == width,
            m.spec_height() == height,
    {
        let m = CollisionMap { cells, width, height };
        proof {
            assert(m.cells@ =~= cells@);
        }
        m
    }

    /// Nominal width of the authored map, in cells.
    pub fn width(&self) -> (w: usize)
        ensures
            w == self.spec_width(),
    {
        self.width
    }

    /// Nominal height of the authored map, in cells.
    pub fn height(&self) -> (h: usize)
        ensures
            h == self.spec_height(),
    {
        self.height
    }

    /// Whether a disc of radius `radius` centered at `(x, y)` (micro-unit
    /// world coordinates) can stand there without overlapping any occupied
    /// cell.
    pub fn can_move_to(&self, x: i64, y: i64, radius: i64) -> (free: bool)
        ensures
            free == self.can_move_spec(x as int, y as int, radius as int),
    {
        if radius <= 0 {
            return true;
        }
        proof {
            lemma_square_bound_i64(radius as int);
        }
        let rad2: i128 = (radius as i128) * (radius as i128);
        let mut k: usize = 0;
        while k < self.cells.len()
            invariant
                0 <= k <= self.cells@.len(),
                radius > 0,
                rad2 == (radius as int) * (radius as int),
                forall|j: int|
                    0 <= j < k ==> !disc_overlaps_cell(
                        x as int,
                        y as int,
                        radius as int,
                        #[trigger] self.cells@[j].0 as int,
                        self.cells@[j].1 as int,
                    ),
            decreases self.cells@.len() - k,
        {
            let (c, r) = self.cells[k];
            if Self::disc_hits_cell(x, y, radius, rad2, c, r) {
                proof {
                    assert(self.occupied(c as int, r as int));
                }
                return false;
            }
            k += 1;
        }
        proof {
            assert forall|c: int, r: int| #[trigger] self.occupied(c, r)
                implies !disc_overlaps_cell(x as int, y as int, radius as int, c, r) by {
                let j = choose|j: int|
                    0 <= j < self.cells@.len() && self.cells@[j].0 == c && self.cells@[j].1 == r;
                assert(!disc_overlaps_cell(
                    x as int,
                    y as int,
                    radius as int,
                    self.cells@[j].0 as int,
                    self.cells@[j].1 as int,
                ));
            }
        }
        true
    }

    /// Exact axis-aligned-square-versus-disc test for one cell.
    fn disc_hits_cell(x: i64, y: i64, radius: i64, rad2: i128, c: i64, r: i64) -> (hit: bool)
        requires
            radius > 0,
            rad2 == (radius as int) * (radius as int),
        ensures
            hit == disc_overlaps_cell(x as int, y as int, radius as int, c as int, r as int),
    {
        let ghost dx = x - cell_closest(x as int, c * CELL_SIZE);
        let ghost dy = y - cell_closest(y as int, r * CELL_SIZE);
        let dxa = Self::axis_gap(x, c);
        let dya = Self::axis_gap(y, r);
        proof {
            lemma_abs_sq(dx, dxa as int);
            lemma_abs_sq(dy, dya as int);
        }
        if dxa >= radius as i128 {
            proof {
                lemma_square_le(radius as int, dxa as int);
            }
            return false;
        }
        if dya >= radius as i128 {
            proof {
                lemma_square_le(radius as int, dya as int);
            }
            return false;
        }
        proof {
            lemma_square_lt(dxa as int, radius as int);
            lemma_square_lt(dya as int, radius as int);
            lemma_square_bound_i64(radius as int);
        }
        let dx2 = dxa * dxa;
        let dy2 = dya * dya;
        dx2 + dy2 < rad2
    }

    /// Distance from coordinate `v` to the interval covered by cell index
    /// `g` along one axis.
    fn axis_gap(v: i64, g: i64) -> (gap: i128)
        ensures
            gap == {
                let d = v - cell_closest(v as int, g * CELL_SIZE);
                if d < 0 {
                    -d
                } else {
                    d
                }
            },
    {
        proof {
            lemma_cell_origin_bound(g as int);
        }
        let lo: i128 = (g as i128) * (CELL_SIZE as i128);
        let hi: i128 = lo + CELL_SIZE as i128;
        let w: i128 = v as i128;
        if w < lo {
            lo - w
        } else if w > hi {
            w - hi
        } else {
            0
        }
    }
}

/// For `0 <= a <= b`: squaring preserves the order.
proof fn lemma_square_le(a: int, b: int)
    by (nonlinear_arith)
    requires
        0 <= a <= b,
    ensures
        a * a <= b * b,
{
}

/// For `0 <= a < b`: squaring preserves the strict order.
proof fn lemma_square_lt(a: int, b: int)
    by (nonlinear_arith)
    requires
        0 <= a < b,
    ensures
        a * a < b * b,
{
}

/// The square of a magnitude equals the square of the signed value, and
/// squares are never negative.
proof fn lemma_abs_sq(d: int, a: int)
    by (nonlinear_arith)
    requires
        a == if d < 0 {
            -d
        } else {
            d
        },
    ensures
        a * a == d * d,
        d * d >= 0,
        a >= 0,
{
}

/// The square of an `i64` magnitude fits comfortably in an `i128`.
proof fn lemma_square_bound_i64(a: int)
    by (nonlinear_arith)
    requires
        0 <= a <= 0x7fffffffffffffff,
    ensures
        a * a <= 0x3fffffffffffffff0000000000000001,
{
}

/// The world coordinate where a cell with an `i64` index starts fits
/// comfortably in an `i128`.
proof fn lemma_cell_origin_bound(g: int)
    by (nonlinear_arith)
    requires
        -0x8000000000000000 <= g <= 0x7fffffffffffffff,
    ensures
        -0x100000000000000000000000 <= g * (CELL_SIZE as int) <= 0x100000000000000000000000,
{
}

// ---------------------------------------------------------------------------
// Construction from a level description
// ---------------------------------------------------------------------------

/// Whether a level glyph is a wall (either wall height blocks movement).
pub open spec fn is_wall_char(ch: char) -> bool {
    ch == 'X' || ch == 'x'
}

/// Tests a level glyph for wall-ness.
pub fn is_wall(ch: char) -> (b: bool)
    ensures
        b == is_wall_char(ch),
{
    ch == 'X' || ch == 'x'
}

impl CollisionMap {
    /// Builds the collision map of a level description: cell `(c, r)` is
    /// occupied exactly when row `r` has a wall glyph at column `c`.  The
    /// nominal width is the longest row, the height the number of rows.
    pub fn from_grid(rows: &Vec<String>) -> (m: CollisionMap)
        requires
            rows@.len() <= 2147483647,
            forall|r: int| 0 <= r < rows@.len() ==> #[trigger] rows@[r]@.len() <= 2147483647,
        ensures
            forall|c: int, r: int|
                #[trigger] m.occupied(c, r) == (0 <= r < rows@.len() && 0 <= c < rows@[r]@.len()
                    && is_wall_char(rows@[r]@[c])),
            m.spec_height() == rows@.len(),
            forall|r: int| 0 <= r < rows@.len() ==> #[trigger] rows@[r]@.len() <= m.spec_width(),
            m.spec_width() == 0 || exists|r: int|
                0 <= r < rows@.len() && #[trigger] rows@[r]@.len() == m.spec_width(),
    {
        let mut cells: Vec<(i64, i64)> = Vec::new();
        let mut width: usize = 0;
        let mut row: usize = 0;
        while row < rows.len()
            invariant
                0 <= row <= rows@.len(),
                rows@.len() <= 2147483647,
                forall|r: int| 0 <= r < rows@.len() ==> #[trigger] rows@[r]@.len() <= 2147483647,
                width <= 2147483647,
                forall|r: int| 0 <= r < row ==> #[trigger] rows@[r]@.len() <= width,
                width == 0 || exists|r: int|
                    0 <= r < row && #[trigger] rows@[r]@.len() == width,
                forall|k: int|
                    0 <= k < cells@.len() ==> {
                        let cc = #[trigger] cells@[k];
                        0 <= cc.1 < row && 0 <= cc.0 < rows@[cc.1 as int]@.len()
                            && is_wall_char(rows@[cc.1 as int]@[cc.0 as int])
                    },
                forall|c: int, r: int|
                    0 <= r < row && 0 <= c < rows@[r]@.len() && is_wall_char(
                        #[trigger] rows@[r]@[c],
                    ) ==> exists|k: int|
                        0 <= k < cells@.len() && (#[trigger] cells@[k]).0 == c
                            && cells@[k].1 == r,
            decreases rows@.len() - row,
        {
            let line: &String = &rows[row];
            let line_len = line.as_str().unicode_len();
            let mut col: usize = 0;
            while col < line_len
                invariant
                    0 <= col <= line_len,
                    line_len == line@.len(),
                    line@ == rows@[row as int]@,
                    0 <= row < rows@.len(),
                    rows@.len() <= 2147483647,
                    line_len <= 2147483647,
                    forall|k: int|
                        0 <= k < cells@.len() ==> {
                            let cc = #[trigger] cells@[k];
                            (0 <= cc.1 <= row && 0 <= cc.0 < rows@[cc.1 as int]@.len()
                                && is_wall_char(rows@[cc.1 as int]@[cc.0 as int]))
                            && (cc.1 == row ==> cc.0 < col)
                        },
                    forall|c: int, r: int|
                        0 <= r < row && 0 <= c < rows@[r]@.len() && is_wall_char(
                            #[trigger] rows@[r]@[c],
                        ) ==> exists|k: int|
                            0 <= k < cells@.len() && (#[trigger] cells@[k]).0 == c
                                && cells@[k].1 == r,
                    forall|c: int|
                        0 <= c < col && is_wall_char(#[trigger] rows@[row as int]@[c])
                            ==> exists|k: int|
                            0 <= k < cells@.len() && (#[trigger] cells@[k]).0 == c
                                && cells@[k].1 == row,
                decreases line_len - col,
            {
                let ch = line.as_str().get_char(col);
                let ghost pre = cells@;
                if is_wall(ch) {
                    cells.push((col as i64, row as i64));
                    proof {
                        assert(cells@ == pre.push((col as i64, row as i64)));
                        assert forall|c: int, r: int|
                            0 <= r < row && 0 <= c < rows@[r]@.len() && is_wall_char(
                                #[trigger] rows@[r]@[c],
                            ) implies exists|k: int|
                                0 <= k < cells@.len() && (#[trigger] cells@[k]).0 == c
                                    && cells@[k].1 == r by {
                            let k = choose|k: int|
                                0 <= k < pre.len() && (#[trigger] pre[k]).0 == c
                                    && pre[k].1 == r;
                            assert(cells@[k].0 == c && cells@[k].1 == r);
                        }
                        assert forall|c: int|
                            0 <= c < col + 1 && is_wall_char(#[trigger] rows@[row as int]@[c])
                                implies exists|k: int|
                                0 <= k < cells@.len() && (#[trigger] cells@[k]).0 == c
                                    && cells@[k].1 == row by {
                            if c == col {
                                assert(cells@[pre.len() as int].0 == c
                                    && cells@[pre.len() as int].1 == row);
                            } else {
                                let k = choose|k: int|
                                    0 <= k < pre.len() && (#[trigger] pre[k]).0 == c
                                        && pre[k].1 == row;
                                assert(cells@[k].0 == c && cells@[k].1 == row);
                            }
                        }
                    }
                }
                col += 1;
            }
            if line_len > width {
                width = line_len;
            }
            row += 1;
        }
        let m = CollisionMap { cells, width, height: rows.len() };
        proof {
            assert(m.cells@ =~= cells@);
            assert forall|c: int, r: int| #[trigger] m.occupied(c, r) implies (0 <= r
                < rows@.len() && 0 <= c < rows@[r]@.len() && is_wall_char(rows@[r]@[c])) by {
                let k = choose|k: int|
                    0 <= k < m.cells@.len() && m.cells@[k].0 == c && m.cells@[k].1 == r;
                assert(0 <= m.cells@[k].1 < rows@.len());
            }
            assert forall|c: int, r: int|
                (0 <= r < rows@.len() && 0 <= c < rows@[r]@.len() && is_wall_char(rows@[r]@[c]))
                    implies #[trigger] m.occupied(c, r) by {
                assert(is_wall_char(rows@[r]@[c]));
                let k = choose|k: int|
                    0 <= k < cells@.len() && (#[trigger] cells@[k]).0 == c && cells@[k].1 == r;
                assert(m.cells@[k].0 == c && m.cells@[k].1 == r);
            }
        }
        m
    }
}

/// Whether two discs-of-interest meet: the distance between the two points
/// is less than `radius`.  Used for item pickups, with the player position
/// against an item position and the item's interaction radius.
pub open spec fn circles_overlap(px: int, py: int, ix: int, iy: int, radius: int) -> bool {
    radius > 0 && (px - ix) * (px - ix) + (py - iy) * (py - iy) < radius * radius
}

/// Exact point-distance-versus-radius test in micro-unit coordinates.
pub fn check_circle_collision(px: i64, py: i64, ix: i64, iy: i64, radius: i64) -> (hit: bool)
    ensures
        hit == circles_overlap(px as int, py as int, ix as int, iy as int, radius as int),
{
    if radius <= 0 {
        return false;
    }
    proof {
        lemma_square_bound_i64(radius as int);
    }
    let rad2: i128 = (radius as i128) * (radius as i128);
    let dx: i128 = px as i128 - ix as i128;
    let dxa: i128 = if dx < 0 {
        -dx
    } else {
        dx
    };
    let dy: i128 = py as i128 - iy as i128;
    let dya: i128 = if dy < 0 {
        -dy
    } else {
        dy
    };
    proof {
        lemma_abs_sq(dx as int, dxa as int);
        lemma_abs_sq(dy as int, dya as int);
    }
    if dxa >= radius as i128 {
        proof {
            lemma_square_le(radius as int, dxa as int);
        }
        return false;
    }
    if dya >= radius as i128 {
        proof {
            lemma_square_le(radius as int, dya as int);
        }
        return false;
    }
    proof {
        lemma_square_lt(dxa as int, radius as int);
        lemma_square_lt(dya as int, radius as int);
    }
    dxa * dxa + dya * dya < rad2
}

// ---------------------------------------------------------------------------
// Laws
// ---------------------------------------------------------------------------

/// A disc that lies fully inside the bounds of an occupied cell (with
/// positive radius, at most half a cell) cannot stand there: the move is
/// rejected.
pub proof fn lemma_disc_inside_occupied_cell_blocks(
    m: CollisionMap,
    x: int,
    y: int,
    radius: int,
    c: int,
    r: int,
)
    requires
        m.occupied(c, r),
        0 < radius,
        2 * radius < CELL_SIZE,
        c * CELL_SIZE <= x - radius,
        x + radius <= (c + 1) * CELL_SIZE,
        r * CELL_SIZE <= y - radius,
        y + radius <= (r + 1) * CELL_SIZE,
    ensures
        !m.can_move_spec(x, y, radius),
{
    assert(cell_closest(x, c * CELL_SIZE) == x);
    assert(cell_closest(y, r * CELL_SIZE) == y);
    assert(radius * radius > 0) by (nonlinear_arith)
        requires
            radius > 0,
    ;
    assert(disc_overlaps_cell(x, y, radius, c, r));
}

/// A position whose distance to every occupied cell is at least one full
/// cell size is free for any disc of radius at most one cell size.
pub proof fn lemma_far_from_walls_is_free(m: CollisionMap, x: int, y: int, radius: int)
    requires
        radius <= CELL_SIZE,
        forall|c: int, r: int|
            #[trigger] m.occupied(c, r) ==> cell_dist_sq(x, y, c, r) >= CELL_SIZE * CELL_SIZE,
    ensures
        m.can_move_spec(x, y, radius),
{
    assert forall|c: int, r: int| #[trigger] m.occupied(c, r)
        implies !disc_overlaps_cell(x, y, radius, c, r) by {
        if radius > 0 {
            lemma_square_le(radius, CELL_SIZE as int);
        }
    }
}

/// Translating a disc by exactly one cell size along the x axis is the same
/// as consulting the cell one step back: the collision test is equivariant
/// under whole-cell translations.
pub proof fn lemma_overlap_translate_x(x: int, y: int, radius: int, c: int, r: int)
    ensures
        disc_overlaps_cell(x + CELL_SIZE, y, radius, c, r) == disc_overlaps_cell(
            x,
            y,
            radius,
            c - 1,
            r,
        ),
{
    assert((c - 1) * CELL_SIZE == c * CELL_SIZE - CELL_SIZE) by (nonlinear_arith);
    assert(cell_closest(x + CELL_SIZE, c * CELL_SIZE) == cell_closest(
        x,
        (c - 1) * CELL_SIZE,
    ) + CELL_SIZE);
}

/// The y-axis analogue of `lemma_overlap_translate_x`.
pub proof fn lemma_overlap_translate_y(x: int, y: int, radius: int, c: int, r: int)
    ensures
        disc_overlaps_cell(x, y + CELL_SIZE, radius, c, r) == disc_overlaps_cell(
            x,
            y,
            radius,
            c,
            r - 1,
        ),
{
    assert((r - 1) * CELL_SIZE == r * CELL_SIZE - CELL_SIZE) by (nonlinear_arith);
    assert(cell_closest(y + CELL_SIZE, r * CELL_SIZE) == cell_closest(
        y,
        (r - 1) * CELL_SIZE,
    ) + CELL_SIZE);
}

/// Moving a free position one cell size along the x axis preserves freedom
/// whenever every occupied cell the moved disc could touch has an equally
/// occupied neighbor one cell back (in particular, whenever the occupancy
/// pattern around the target mirrors the pattern around the start).
pub proof fn lemma_can_move_translate_x(m: CollisionMap, x: int, y: int, radius: int)
    requires
        m.can_move_spec(x, y, radius),
        forall|c: int, r: int|
            #[trigger] m.occupied(c, r) && disc_overlaps_cell(x + CELL_SIZE, y, radius, c, r)
                ==> m.occupied(c - 1, r),
    ensures
        m.can_move_spec(x + CELL_SIZE, y, radius),
{
    assert forall|c: int, r: int| #[trigger] m.occupied(c, r)
        implies !disc_overlaps_cell(x + CELL_SIZE, y, radius, c, r) by {
        if disc_overlaps_cell(x + CELL_SIZE, y, radius, c, r) {
            assert(m.occupied(c - 1, r));
            lemma_overlap_translate_x(x, y, radius, c, r);
            assert(disc_overlaps_cell(x, y, radius, c - 1, r));
        }
    }
}

/// The y-axis analogue of `lemma_can_move_translate_x`.
pub proof fn lemma_can_move_translate_y(m: CollisionMap, x: int, y: int, radius: int)
    requires
        m.can_move_spec(x, y, radius),
        forall|c: int, r: int|
            #[trigger] m.occupied(c, r) && disc_overlaps_cell(x, y + CELL_SIZE, radius, c, r)
                ==> m.occupied(c, r - 1),
    ensures
        m.can_move_spec(x, y + CELL_SIZE, radius),
{
    assert forall|c: int, r: int| #[trigger] m.occupied(c, r)
        implies !disc_overlaps_cell(x, y + CELL_SIZE, radius, c, r) by {
        if disc_overlaps_cell(x, y + CELL_SIZE, radius, c, r) {
            assert(m.occupied(c, r - 1));
            lemma_overlap_translate_y(x, y, radius, c, r);
            assert(disc_overlaps_cell(x, y, radius, c, r - 1));
        }
    }
}

} // verus!
