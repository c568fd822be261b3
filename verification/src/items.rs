//! Bookkeeping of items placed in the world.
//!
//! Items occupy grid cells (so that no two stack on one spot) and keep
//! their exact world positions for saving the map.  Coordinates are
//! micro-unit world coordinates; cells come in two granularities, the
//! level grid (`CELL_SIZE`) used when picking items up and a finer
//! placement grid (`PLACEMENT_GRID`) used when dropping new ones.

use vstd::prelude::*;
use crate::collision::CELL_SIZE;

verus! {

/// World size of one placement-grid cell, in micro-units (two world
/// units).
pub const PLACEMENT_GRID: i64 = 2000000;

/// Two world positions count as the same item spot when they differ by
/// less than this, per axis (a tenth of a world unit).
pub const POSITION_TOLERANCE: i64 = 100000;

/// Floor division of a world coordinate by a grid size of at least two.
pub fn floor_div(v: i64, grid: i64) -> (q: i64)
    requires
        grid >= 2,
    ensures
        q == (v as int) / (grid as int),
{
    if v >= 0 {
        v / grid
    } else {
        let mag: u64 = (-(v as i128)) as u64;
        let up: u64 = (mag + (grid as u64) - 1) / (grid as u64);
        proof {
            lemma_floor_div_negative(v as int, grid as int, mag as int, up as int);
        }
        -(up as i64)
    }
}

/// For a negative dividend, flooring is negated ceiling of the magnitude,
/// and the ceiling of a halved-or-better magnitude stays well inside the
/// machine range.
proof fn lemma_floor_div_negative(v: int, grid: int, mag: int, up: int)
    by (nonlinear_arith)
    requires
        grid >= 2,
        v < 0,
        v >= -9223372036854775808,
        mag == -v,
        up == (mag + grid - 1) / grid,
    ensures
        -up == v / grid,
        0 < up <= 4611686018427387904,
{
}

/// What one kind of item is: its sprite, the script that runs when the
/// player picks it up, its rendered size (in micro-units), and the effect
/// tags it carries.
pub struct ItemDefinition {
    pub image: String,
    pub script: String,
    pub scale: i64,
    pub effects: Vec<String>,
}

/// One item in the world: its exact position and its kind.
pub struct ItemRecord {
    pub x: i64,
    pub y: i64,
    pub item_type: String,
}

/// Whether a record lies at a position, within the per-axis tolerance.
pub open spec fn record_at(r: ItemRecord, x: int, y: int) -> bool {
    let dx = if r.x >= x {
        r.x - x
    } else {
        x - r.x
    };
    let dy = if r.y >= y {
        r.y - y
    } else {
        y - r.y
    };
    dx <= POSITION_TOLERANCE && dy <= POSITION_TOLERANCE
}

/// Whether a record lies strictly within the tolerance of a position, as
/// the pickup lookup demands.
pub open spec fn record_near(r: ItemRecord, x: int, y: int) -> bool {
    let dx = if r.x >= x {
        r.x - x
    } else {
        x - r.x
    };
    let dy = if r.y >= y {
        r.y - y
    } else {
        y - r.y
    };
    dx < POSITION_TOLERANCE && dy < POSITION_TOLERANCE
}

/// Whether a cell list holds `(cx, cy)`.
pub open spec fn cells_has(s: Seq<(i64, i64)>, cx: int, cy: int) -> bool {
    exists|k: int| 0 <= k < s.len() && (#[trigger] s[k]).0 == cx && s[k].1 == cy
}

/// The grid positions holding an item, and the exact world positions for
/// saving.
pub struct ItemTracker {
    pub positions: Vec<(i64, i64)>,
    pub world_positions: Vec<ItemRecord>,
}

impl ItemTracker {
    /// Whether grid cell `(cx, cy)` holds an item.
    pub open spec fn spec_contains_cell(self, cx: int, cy: int) -> bool {
        cells_has(self.positions@, cx, cy)
    }

    /// Tests whether grid cell `(cx, cy)` holds an item.
    pub fn contains_cell(&self, cx: i64, cy: i64) -> (b: bool)
        ensures
            b == self.spec_contains_cell(cx as int, cy as int),
    {
        let mut k: usize = 0;
        while k < self.positions.len()
            invariant
                0 <= k <= self.positions@.len(),
                forall|j: int|
                    0 <= j < k ==> !((#[trigger] self.positions@[j]).0 == cx
                        && self.positions@[j].1 == cy),
            decreases self.positions@.len() - k,
        {
            let (px, py) = self.positions[k];
            if px == cx && py == cy {
                return true;
            }
            k += 1;
        }
        false
    }

    /// Marks grid cell `(cx, cy)` as holding an item.
    pub fn insert_cell(&mut self, cx: i64, cy: i64)
        ensures
            forall|a: int, b: int|
                final(self).spec_contains_cell(a, b) == (old(self).spec_contains_cell(a, b) || (a
                    == cx && b == cy)),
            final(self).world_positions == old(self).world_positions,
    {
        if !self.contains_cell(cx, cy) {
            let ghost pre = self.positions@;
            self.positions.push((cx, cy));
            proof {
                assert forall|a: int, b: int| #[trigger] final(self).spec_contains_cell(a, b)
                    implies (old(self).spec_contains_cell(a, b) || (a == cx && b == cy)) by {
                    let k = choose|k: int|
                        0 <= k < self.positions@.len() && (#[trigger] self.positions@[k]).0 == a
                            && self.positions@[k].1 == b;
                    if k < pre.len() {
                        assert(pre[k].0 == a && pre[k].1 == b);
                    }
                }
                assert forall|a: int, b: int|
                    (old(self).spec_contains_cell(a, b) || (a == cx && b == cy)) implies
                    #[trigger] final(self).spec_contains_cell(a, b) by {
                    if old(self).spec_contains_cell(a, b) {
                        let k = choose|k: int|
                            0 <= k < pre.len() && (#[trigger] pre[k]).0 == a && pre[k].1 == b;
                        assert(self.positions@[k].0 == a && self.positions@[k].1 == b);
                    } else {
                        assert(self.positions@[pre.len() as int].0 == cx);
                    }
                }
            }
        }
    }

    /// Adds an item's exact world position and kind.
    pub fn push_world(&mut self, x: i64, y: i64, item_type: String)
        ensures
            final(self).world_positions@ == old(self).world_positions@.push(
                ItemRecord { x, y, item_type },
            ),
            final(self).positions == old(self).positions,
    {
        self.world_positions.push(ItemRecord { x, y, item_type });
    }

    /// Finds the first record lying at a world position (strictly within
    /// the tolerance), as consulted when the player walks over an item.
    pub fn find_record_at(&self, x: i64, y: i64) -> (r: Option<usize>)
        ensures
            match r {
                Some(i) => {
                    &&& 0 <= i < self.world_positions@.len()
                    &&& record_near(self.world_positions@[i as int], x as int, y as int)
                    &&& forall|j: int|
                        0 <= j < i ==> !record_near(
                            #[trigger] self.world_positions@[j],
                            x as int,
                            y as int,
                        )
                },
                None => forall|j: int|
                    0 <= j < self.world_positions@.len() ==> !record_near(
                        #[trigger] self.world_positions@[j],
                        x as int,
                        y as int,
                    ),
            },
    {
        let mut i: usize = 0;
        while i < self.world_positions.len()
            invariant
                0 <= i <= self.world_positions@.len(),
                forall|j: int|
                    0 <= j < i ==> !record_near(
                        #[trigger] self.world_positions@[j],
                        x as int,
                        y as int,
                    ),
            decreases self.world_positions@.len() - i,
        {
            let r = &self.world_positions[i];
            let dx: i128 = r.x as i128 - x as i128;
            let dxa: i128 = if dx < 0 {
                -dx
            } else {
                dx
            };
            let dy: i128 = r.y as i128 - y as i128;
            let dya: i128 = if dy < 0 {
                -dy
            } else {
                dy
            };
            if dxa < POSITION_TOLERANCE as i128 && dya < POSITION_TOLERANCE as i128 {
                return Some(i);
            }
            i += 1;
        }
        None
    }

    /// Forgets the item at a world position: clears its level-grid cell
    /// and drops every record within the position tolerance.
    pub fn remove_at_position(&mut self, world_x: i64, world_y: i64)
        ensures
            ({
                let gx = (world_x as int) / (CELL_SIZE as int);
                let gy = (world_y as int) / (CELL_SIZE as int);
                forall|a: int, b: int|
                    final(self).spec_contains_cell(a, b) == (old(self).spec_contains_cell(a, b)
                        && !(a == gx && b == gy))
            }),
            final(self).world_positions@ == old(self).world_positions@.filter(
                |r: ItemRecord| !record_at(r, world_x as int, world_y as int),
            ),
    {
        let gx = floor_div(world_x, CELL_SIZE);
        let gy = floor_div(world_y, CELL_SIZE);
        let ghost pre = self.positions@;
        let mut kept: Vec<(i64, i64)> = Vec::new();
        let mut k: usize = 0;
        while k < self.positions.len()
            invariant
                0 <= k <= self.positions@.len(),
                self.positions@ == pre,
                pre == old(self).positions@,
                self.world_positions@ == old(self).world_positions@,
                forall|j: int|
                    0 <= j < kept@.len() ==> !((#[trigger] kept@[j]).0 == gx && kept@[j].1
                        == gy),
                forall|j: int|
                    0 <= j < kept@.len() ==> exists|l: int|
                        0 <= l < k && pre[l] == #[trigger] kept@[j],
                forall|l: int|
                    0 <= l < k && !((#[trigger] pre[l]).0 == gx && pre[l].1 == gy)
                        ==> exists|j: int| 0 <= j < kept@.len() && #[trigger] kept@[j] == pre[l],
            decreases self.positions@.len() - k,
        {
            let (px, py) = self.positions[k];
            if !(px == gx && py == gy) {
                let ghost prek = kept@;
                kept.push((px, py));
                proof {
                    assert(kept@[prek.len() as int] == pre[k as int]);
                    assert forall|j: int| 0 <= j < kept@.len() implies exists|l: int|
                        0 <= l < k + 1 && pre[l] == #[trigger] kept@[j] by {
                        if j < prek.len() {
                            let l = choose|l: int| 0 <= l < k && pre[l] == #[trigger] prek[j];
                            assert(pre[l] == kept@[j]);
                        } else {
                            assert(pre[k as int] == kept@[j]);
                        }
                    }
                    assert forall|l: int|
                        0 <= l < k + 1 && !((#[trigger] pre[l]).0 == gx && pre[l].1 == gy)
                            implies exists|j: int|
                            0 <= j < kept@.len() && #[trigger] kept@[j] == pre[l] by {
                        if l < k {
                            let j = choose|j: int|
                                0 <= j < prek.len() && #[trigger] prek[j] == pre[l];
                            assert(kept@[j] == pre[l]);
                        } else {
                            assert(kept@[prek.len() as int] == pre[l]);
                        }
                    }
                }
            }
            k += 1;
        }
        proof {
            assert forall|a: int, b: int| #[trigger] cells_has(kept@, a, b) implies (cells_has(
                pre,
                a,
                b,
            ) && !(a == gx && b == gy)) by {
                let j = choose|j: int|
                    0 <= j < kept@.len() && (#[trigger] kept@[j]).0 == a && kept@[j].1 == b;
                let l = choose|l: int| 0 <= l < pre.len() && pre[l] == #[trigger] kept@[j];
                assert((pre[l]).0 == a && pre[l].1 == b);
            }
            assert forall|a: int, b: int|
                cells_has(pre, a, b) && !(a == gx && b == gy) implies #[trigger] cells_has(
                kept@,
                a,
                b,
            ) by {
                let l = choose|l: int|
                    0 <= l < pre.len() && (#[trigger] pre[l]).0 == a && pre[l].1 == b;
                let j = choose|j: int|
                    0 <= j < kept@.len() && #[trigger] kept@[j] == pre[l];
                assert((kept@[j]).0 == a && kept@[j].1 == b);
            }
        }
        let ghost kept_view = kept@;
        self.positions = kept;
        proof {
            assert(self.positions@ == kept_view);
        }
        // Drop the records at the removed position, back to front so that
        // unvisited indices stay put.
        let ghost wpre = self.world_positions@;
        let ghost pred = |r: ItemRecord| !record_at(r, world_x as int, world_y as int);
        let mut w: usize = self.world_positions.len();
        proof {
            reveal(Seq::filter);
            assert(wpre.skip(w as int) =~= Seq::<ItemRecord>::empty());
            assert(self.world_positions@ =~= wpre.take(w as int) + wpre.skip(w as int).filter(
                pred,
            ));
        }
        while w > 0
            invariant
                0 <= w <= wpre.len(),
                pred == (|r: ItemRecord| !record_at(r, world_x as int, world_y as int)),
                self.world_positions@ == wpre.take(w as int) + wpre.skip(w as int).filter(pred),
                wpre == old(self).world_positions@,
                pre == old(self).positions@,
                self.positions@ == kept_view,
                gx == (world_x as int) / (CELL_SIZE as int),
                gy == (world_y as int) / (CELL_SIZE as int),
                forall|a: int, b: int|
                    #[trigger] cells_has(kept_view, a, b) == (cells_has(pre, a, b) && !(a == gx
                        && b == gy)),
            decreases w,
        {
            w -= 1;
            let r = &self.world_positions[w];
            let dx: i128 = r.x as i128 - world_x as i128;
            let dxa: i128 = if dx < 0 {
                -dx
            } else {
                dx
            };
            let dy: i128 = r.y as i128 - world_y as i128;
            let dya: i128 = if dy < 0 {
                -dy
            } else {
                dy
            };
            let keep = dxa > POSITION_TOLERANCE as i128 || dya > POSITION_TOLERANCE as i128;
            proof {
                assert(self.world_positions@[w as int] == wpre[w as int]);
                assert(keep == pred(wpre[w as int]));
                lemma_filter_first(wpre.skip(w as int), pred);
                assert(wpre.skip(w as int)[0] == wpre[w as int]);
                assert(wpre.skip(w as int).drop_first() =~= wpre.skip(w + 1 as int));
            }
            if !keep {
                let ghost before = self.world_positions@;
                self.world_positions.remove(w);
                proof {
                    assert(self.world_positions@ =~= wpre.take(w as int) + wpre.skip(
                        w as int,
                    ).filter(pred));
                }
            } else {
                proof {
                    assert(self.world_positions@ =~= wpre.take(w as int) + wpre.skip(
                        w as int,
                    ).filter(pred));
                }
            }
        }
        proof {
            assert(wpre.take(0) =~= Seq::<ItemRecord>::empty());
            assert(wpre.skip(0) =~= wpre);
            assert(self.world_positions@ =~= wpre.filter(pred));
        }
    }
}

impl ItemTracker {
    /// Tries to place a new item where the player clicked: snaps the
    /// position to the placement grid, refuses a spot that already holds
    /// an item, and otherwise records the item at the cell's center,
    /// returning that center.
    pub fn try_place_item(&mut self, x: i64, y: i64, item_type: String) -> (r: Option<(i64, i64)>)
        requires
            -8000000000000000000 <= x <= 8000000000000000000,
            -8000000000000000000 <= y <= 8000000000000000000,
        ensures
            ({
                let gx = (x as int) / (PLACEMENT_GRID as int);
                let gy = (y as int) / (PLACEMENT_GRID as int);
                let cx = gx * (PLACEMENT_GRID as int) + (PLACEMENT_GRID as int) / 2;
                let cy = gy * (PLACEMENT_GRID as int) + (PLACEMENT_GRID as int) / 2;
                match r {
                    None => {
                        &&& old(self).spec_contains_cell(gx, gy)
                        &&& *final(self) == *old(self)
                    },
                    Some(center) => {
                        &&& !old(self).spec_contains_cell(gx, gy)
                        &&& center == (cx as i64, cy as i64)
                        &&& forall|a: int, b: int|
                            final(self).spec_contains_cell(a, b) == (
                            old(self).spec_contains_cell(a, b) || (a == gx && b == gy))
                        &&& final(self).world_positions@ == old(self).world_positions@.push(
                            ItemRecord { x: cx as i64, y: cy as i64, item_type },
                        )
                    },
                }
            }),
    {
        let gx = placement_cell(x);
        let gy = placement_cell(y);
        proof {
            lemma_cell_of_bounded_coordinate(x as int);
            lemma_cell_of_bounded_coordinate(y as int);
        }
        if self.contains_cell(gx, gy) {
            return None;
        }
        let cx = placement_center(gx);
        let cy = placement_center(gy);
        self.insert_cell(gx, gy);
        self.push_world(cx, cy, item_type);
        Some((cx, cy))
    }
}

/// A bounded coordinate's placement cell keeps `placement_center` inside
/// the machine range.
proof fn lemma_cell_of_bounded_coordinate(v: int)
    by (nonlinear_arith)
    requires
        -8000000000000000000 <= v <= 8000000000000000000,
    ensures
        -4000000000000 <= v / (PLACEMENT_GRID as int) <= 4000000000000,
{
}

impl Default for ItemTracker {
    /// A tracker with no items.
    fn default() -> (r: ItemTracker)
        ensures
            r.positions@.len() == 0,
            r.world_positions@.len() == 0,
    {
        ItemTracker { positions: Vec::new(), world_positions: Vec::new() }
    }
}

/// A filter examines its first element and then the rest.
proof fn lemma_filter_first<A>(s: Seq<A>, pred: spec_fn(A) -> bool)
    requires
        s.len() > 0,
    ensures
        s.filter(pred) == if pred(s[0]) {
            seq![s[0]] + s.drop_first().filter(pred)
        } else {
            s.drop_first().filter(pred)
        },
    decreases s.len(),
{
    reveal(Seq::filter);
    if s.len() == 1 {
        assert(s.drop_last() =~= Seq::<A>::empty());
        assert(s.drop_first() =~= Seq::<A>::empty());
        assert(s.last() == s[0]);
        if pred(s[0]) {
            assert(s.filter(pred) =~= seq![s[0]] + s.drop_first().filter(pred));
        }
    } else {
        lemma_filter_first(s.drop_last(), pred);
        assert(s.drop_last()[0] == s[0]);
        assert(s.drop_last().drop_first() =~= s.drop_first().drop_last());
        assert(s.drop_first().last() == s.last());
        if pred(s.last()) {
            if pred(s[0]) {
                assert(s.filter(pred) =~= seq![s[0]] + s.drop_first().filter(pred));
            } else {
                assert(s.filter(pred) =~= s.drop_first().filter(pred));
            }
        } else {
            if pred(s[0]) {
                assert(s.filter(pred) =~= seq![s[0]] + s.drop_first().filter(pred));
            } else {
                assert(s.filter(pred) =~= s.drop_first().filter(pred));
            }
        }
    }
}

/// The placement-grid cell a world coordinate falls in.
pub fn placement_cell(v: i64) -> (g: i64)
    ensures
        g == (v as int) / (PLACEMENT_GRID as int),
{
    floor_div(v, PLACEMENT_GRID)
}

/// The world coordinate of a placement cell's center.
pub fn placement_center(g: i64) -> (v: i64)
    requires
        -4000000000000 <= g <= 4000000000000,
    ensures
        v == g * (PLACEMENT_GRID as int) + (PLACEMENT_GRID as int) / 2,
{
    proof {
        lemma_placement_bound(g as int);
    }
    g * PLACEMENT_GRID + PLACEMENT_GRID / 2
}

/// The product of a bounded cell index and the placement grid size stays
/// within `i64`.
proof fn lemma_placement_bound(g: int)
    by (nonlinear_arith)
    requires
        -4000000000000 <= g <= 4000000000000,
    ensures
        -8000000000000000000 <= g * (PLACEMENT_GRID as int) <= 8000000000000000000,
{
}

} // verus!
