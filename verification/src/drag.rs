//! The drag gesture: the state of one in-progress drag, the
//! direction-resolution rule with its axis lock, and the clamping rule for
//! the visual offset of the dragged tile.
//!
//! Coordinates and deltas are measured in thousandths of a grid cell, as
//! signed integers: the input collaborator divides pointer pixels by the
//! cell size before events reach the engine, so the engine itself never
//! handles device units.

use vstd::prelude::*;

verus! {

/// One grid cell, in coordinate units.
pub const COORD_SCALE: i64 = 1000;

/// The resolution threshold: a drag shorter than a fifth of a cell on both
/// axes resolves no direction.
pub const MIN_RAD: i64 = 200;

/// A planar offset in thousandths of a grid cell.
#[derive(Clone, Copy, Debug, PartialEq, Eq, Structural)]
pub struct Coord {
    pub x: i64,
    pub y: i64,
}

/// The four directions a tile can be dragged toward a neighbour. The
/// adjacency offsets are Left `(-1, 0)`, Right `(+1, 0)`, Up `(0, +1)` and
/// Down `(0, -1)`.
#[derive(Clone, Copy, Debug, PartialEq, Eq, Hash, Structural)]
pub enum SwapDirection {
    Left,
    Right,
    Up,
    Down,
}

/// The directions banned for one drag because the anchor tile sits on the
/// corresponding edge of the grid. Fixed for the lifetime of one drag.
#[derive(Clone, Copy, Debug, PartialEq, Eq, Structural)]
pub struct BannedDirections {
    pub left: bool,
    pub right: bool,
    pub up: bool,
    pub down: bool,
}

impl BannedDirections {
    /// Whether the direction is banned.
    pub open spec fn spec_contains(self, d: SwapDirection) -> bool {
        match d {
            SwapDirection::Left => self.left,
            SwapDirection::Right => self.right,
            SwapDirection::Up => self.up,
            SwapDirection::Down => self.down,
        }
    }

    /// Whether the direction is banned.
    pub fn contains(&self, d: SwapDirection) -> (r: bool)
        ensures
            r == self.spec_contains(d),
    {
        match d {
            SwapDirection::Left => self.left,
            SwapDirection::Right => self.right,
            SwapDirection::Up => self.up,
            SwapDirection::Down => self.down,
        }
    }
}

/// The up-to-four orthogonal neighbours of the anchor tile, keyed by
/// direction, recorded at drag start whether or not a direction is banned.
#[derive(Clone, Copy, Debug, PartialEq, Eq)]
pub struct DragNeighbours {
    pub left: Option<(usize, usize)>,
    pub right: Option<(usize, usize)>,
    pub up: Option<(usize, usize)>,
    pub down: Option<(usize, usize)>,
}

impl DragNeighbours {
    /// The recorded neighbour in the given direction.
    pub open spec fn spec_get(self, d: SwapDirection) -> Option<(usize, usize)> {
        match d {
            SwapDirection::Left => self.left,
            SwapDirection::Right => self.right,
            SwapDirection::Up => self.up,
            SwapDirection::Down => self.down,
        }
    }

    /// The recorded neighbour in the given direction.
    pub fn get(&self, d: SwapDirection) -> (r: Option<(usize, usize)>)
        ensures
            r == self.spec_get(d),
    {
        match d {
            SwapDirection::Left => self.left,
            SwapDirection::Right => self.right,
            SwapDirection::Up => self.up,
            SwapDirection::Down => self.down,
        }
    }
}

/// The state of one in-progress drag gesture: the anchor tile, the pointer
/// coordinate where the drag began, the accumulated pointer delta, the
/// resolved direction, the banned directions and the recorded neighbours.
#[derive(Clone, Copy, Debug, PartialEq, Eq)]
pub struct TileIsDragging {
    pub dragging_tile: (usize, usize),
    pub start_coord: Coord,
    pub delta_coord: Coord,
    pub direction: Option<SwapDirection>,
    pub banned_directions: BannedDirections,
    pub neighbours: DragNeighbours,
}

/// The magnitude of an integer.
pub open spec fn abs_val(a: int) -> int {
    if a < 0 {
        -a
    } else {
        a
    }
}

/// Addition clipped to the `i64` range. The visual offset is clamped to one
/// cell anyway, so clipping at the far ends of the machine range never
/// changes what a gesture means.
pub open spec fn sat_add(a: int, b: int) -> int {
    if a + b > i64::MAX {
        i64::MAX as int
    } else if a + b < i64::MIN {
        i64::MIN as int
    } else {
        a + b
    }
}

/// `v` forced into `[lo, hi]`.
pub open spec fn clamp_val(v: int, lo: int, hi: int) -> int {
    if v < lo {
        lo
    } else if v > hi {
        hi
    } else {
        v
    }
}

/// The direction-resolution rule, applied to the accumulated delta after
/// every move. While both axes stay below the threshold no direction is
/// resolved. From an unresolved state the dominant axis wins and the sign
/// picks the direction. Once resolved, the gesture is locked to its axis:
/// re-evaluation only flips between the two directions of that axis by the
/// sign of the delta along it (keeping the old direction at sign zero),
/// and never snaps to the perpendicular axis; dropping below the threshold
/// on both axes releases the lock.
pub open spec fn resolve_direction(prev: Option<SwapDirection>, dx: int, dy: int) -> Option<
    SwapDirection,
> {
    if abs_val(dx) < MIN_RAD && abs_val(dy) < MIN_RAD {
        None
    } else {
        match prev {
            None => if abs_val(dx) > abs_val(dy) {
                if dx > 0 {
                    Some(SwapDirection::Right)
                } else {
                    Some(SwapDirection::Left)
                }
            } else {
                if dy > 0 {
                    Some(SwapDirection::Up)
                } else {
                    Some(SwapDirection::Down)
                }
            },
            Some(SwapDirection::Left) | Some(SwapDirection::Right) => if dx > 0 {
                Some(SwapDirection::Right)
            } else if dx < 0 {
                Some(SwapDirection::Left)
            } else {
                prev
            },
            Some(SwapDirection::Up) | Some(SwapDirection::Down) => if dy > 0 {
                Some(SwapDirection::Up)
            } else if dy < 0 {
                Some(SwapDirection::Down)
            } else {
                prev
            },
        }
    }
}

/// The clamping rule for the dragged tile's visual offset: the accumulated
/// delta clamped to one cell on each axis, cut at zero along each banned
/// direction, and, while the gesture is locked to an axis, compressed to a
/// narrow band on the perpendicular axis.
pub open spec fn spec_live_delta(d: TileIsDragging) -> Coord {
    let x0 = clamp_val(d.delta_coord.x as int, -COORD_SCALE as int, COORD_SCALE as int);
    let y0 = clamp_val(d.delta_coord.y as int, -COORD_SCALE as int, COORD_SCALE as int);
    let x1 = if d.banned_directions.left && x0 < 0 {
        0int
    } else {
        x0
    };
    let x2 = if d.banned_directions.right && x1 > 0 {
        0int
    } else {
        x1
    };
    let y1 = if d.banned_directions.down && y0 < 0 {
        0int
    } else {
        y0
    };
    let y2 = if d.banned_directions.up && y1 > 0 {
        0int
    } else {
        y1
    };
    match d.direction {
        Some(SwapDirection::Left) | Some(SwapDirection::Right) => Coord {
            x: x2 as i64,
            y: clamp_val(y2, -MIN_RAD as int, MIN_RAD as int) as i64,
        },
        Some(SwapDirection::Up) | Some(SwapDirection::Down) => Coord {
            x: clamp_val(x2, -MIN_RAD as int, MIN_RAD as int) as i64,
            y: y2 as i64,
        },
        None => Coord { x: x2 as i64, y: y2 as i64 },
    }
}

/// The drag state after one move: the delta accumulates and the direction
/// is re-resolved; everything else is untouched.
pub open spec fn moved_drag(d: TileIsDragging, delta: Coord) -> TileIsDragging {
    let nx = sat_add(d.delta_coord.x as int, delta.x as int);
    let ny = sat_add(d.delta_coord.y as int, delta.y as int);
    TileIsDragging {
        delta_coord: Coord { x: nx as i64, y: ny as i64 },
        direction: resolve_direction(d.direction, nx, ny),
        ..d
    }
}

/// `i64` addition that clips instead of overflowing.
fn add_sat(a: i64, b: i64) -> (r: i64)
    ensures
        r as int == sat_add(a as int, b as int),
{
    let s: i128 = a as i128 + b as i128;
    if s > i64::MAX as i128 {
        i64::MAX
    } else if s < i64::MIN as i128 {
        i64::MIN
    } else {
        s as i64
    }
}

/// `v` forced into `[lo, hi]`.
fn clamp_i64(v: i64, lo: i64, hi: i64) -> (r: i64)
    requires
        lo <= hi,
    ensures
        r as int == clamp_val(v as int, lo as int, hi as int),
{
    if v < lo {
        lo
    } else if v > hi {
        hi
    } else {
        v
    }
}

impl TileIsDragging {
    /// The clamped visual offset of the dragged tile (see
    /// [`spec_live_delta`]).
    pub fn live_delta(&self) -> (r: Coord)
        ensures
            r == spec_live_delta(*self),
    {
        let mut x = clamp_i64(self.delta_coord.x, -COORD_SCALE, COORD_SCALE);
        let mut y = clamp_i64(self.delta_coord.y, -COORD_SCALE, COORD_SCALE);
        if self.banned_directions.left && x < 0 {
            x = 0;
        }
        if self.banned_directions.right && x > 0 {
            x = 0;
        }
        if self.banned_directions.down && y < 0 {
            y = 0;
        }
        if self.banned_directions.up && y > 0 {
            y = 0;
        }
        match self.direction {
            Some(SwapDirection::Left) | Some(SwapDirection::Right) => {
                y = clamp_i64(y, -MIN_RAD, MIN_RAD);
            },
            Some(SwapDirection::Up) | Some(SwapDirection::Down) => {
                x = clamp_i64(x, -MIN_RAD, MIN_RAD);
            },
            None => {},
        }
        Coord { x, y }
    }

    /// The direction the accumulated delta resolves to (see
    /// [`resolve_direction`]).
    pub fn next_direction(&self) -> (r: Option<SwapDirection>)
        ensures
            r == resolve_direction(
                self.direction,
                self.delta_coord.x as int,
                self.delta_coord.y as int,
            ),
    {
        let x = self.delta_coord.x;
        let y = self.delta_coord.y;
        let ax: i128 = if x < 0 {
            -(x as i128)
        } else {
            x as i128
        };
        let ay: i128 = if y < 0 {
            -(y as i128)
        } else {
            y as i128
        };
        if ax < MIN_RAD as i128 && ay < MIN_RAD as i128 {
            None
        } else {
            match self.direction {
                None => if ax > ay {
                    if x > 0 {
                        Some(SwapDirection::Right)
                    } else {
                        Some(SwapDirection::Left)
                    }
                } else {
                    if y > 0 {
                        Some(SwapDirection::Up)
                    } else {
                        Some(SwapDirection::Down)
                    }
                },
                Some(SwapDirection::Left) | Some(SwapDirection::Right) => if x > 0 {
                    Some(SwapDirection::Right)
                } else if x < 0 {
                    Some(SwapDirection::Left)
                } else {
                    self.direction
                },
                Some(SwapDirection::Up) | Some(SwapDirection::Down) => if y > 0 {
                    Some(SwapDirection::Up)
                } else if y < 0 {
                    Some(SwapDirection::Down)
                } else {
                    self.direction
                },
            }
        }
    }

    /// Accumulate one move's delta and re-resolve the direction.
    pub fn move_tile(&mut self, delta_coord: Coord)
        ensures
            *final(self) == moved_drag(*old(self), delta_coord),
    {
        self.delta_coord.x = add_sat(self.delta_coord.x, delta_coord.x);
        self.delta_coord.y = add_sat(self.delta_coord.y, delta_coord.y);
        self.direction = self.next_direction();
    }
}

/// While the accumulated delta stays below the threshold on both axes, no
/// direction is resolved — whatever was resolved before. In particular a
/// drag whose sub-threshold moves sum to a sub-threshold delta keeps the
/// direction `None` through every one of them.
pub proof fn lemma_sub_threshold_resolves_none(prev: Option<SwapDirection>, dx: int, dy: int)
    requires
        abs_val(dx) < MIN_RAD,
        abs_val(dy) < MIN_RAD,
    ensures
        resolve_direction(prev, dx, dy) is None,
{
}

/// The axis lock, horizontally: a drag resolved to Left or Right never
/// re-resolves to Up or Down, and while the delta stays at or above the
/// threshold on some axis, its direction follows the sign of `dx` alone —
/// still negative keeps Left, however large the perpendicular delta grows.
pub proof fn lemma_axis_lock_horizontal(prev: Option<SwapDirection>, dx: int, dy: int)
    requires
        prev == Some(SwapDirection::Left) || prev == Some(SwapDirection::Right),
    ensures
        resolve_direction(prev, dx, dy) != Some(SwapDirection::Up),
        resolve_direction(prev, dx, dy) != Some(SwapDirection::Down),
        (abs_val(dx) >= MIN_RAD || abs_val(dy) >= MIN_RAD) && dx < 0 ==> resolve_direction(
            prev,
            dx,
            dy,
        ) == Some(SwapDirection::Left),
        (abs_val(dx) >= MIN_RAD || abs_val(dy) >= MIN_RAD) && dx > 0 ==> resolve_direction(
            prev,
            dx,
            dy,
        ) == Some(SwapDirection::Right),
{
}

/// The axis lock, vertically: the mirror image of the horizontal case.
pub proof fn lemma_axis_lock_vertical(prev: Option<SwapDirection>, dx: int, dy: int)
    requires
        prev == Some(SwapDirection::Up) || prev == Some(SwapDirection::Down),
    ensures
        resolve_direction(prev, dx, dy) != Some(SwapDirection::Left),
        resolve_direction(prev, dx, dy) != Some(SwapDirection::Right),
        (abs_val(dx) >= MIN_RAD || abs_val(dy) >= MIN_RAD) && dy < 0 ==> resolve_direction(
            prev,
            dx,
            dy,
        ) == Some(SwapDirection::Down),
        (abs_val(dx) >= MIN_RAD || abs_val(dy) >= MIN_RAD) && dy > 0 ==> resolve_direction(
            prev,
            dx,
            dy,
        ) == Some(SwapDirection::Up),
{
}

} // verus!
