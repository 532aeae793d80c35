//! One game session and its event loop: the board, the drag in progress,
//! and a handler per inbound gesture event. Each handler consumes one
//! event, updates the session, and returns the notifications the rendering
//! collaborator should apply. Unexpected events — a move or release with no
//! active drag, a second press during a drag, a press outside the board —
//! are ignored rather than reported: the gesture layer is best-effort, not
//! a strict protocol.

use vstd::prelude::*;

use crate::drag::{
    moved_drag, spec_live_delta, BannedDirections, Coord, DragNeighbours, SwapDirection,
    TileIsDragging,
};
use crate::grid::{
    create_grid, can_swap, grid_wf, gview, has_possible_move, has_run, in_bounds, line_len,
    swap_tiles, swap_view, TileType,
};

verus! {

/// Static configuration of one session's board.
#[derive(Clone, Copy, Debug, PartialEq, Eq, Structural)]
pub struct GameConfig {
    pub rows: usize,
    pub columns: usize,
}

/// A press on the tile at `(column, row)`, at pointer coordinate
/// `start_coord`.
#[derive(Clone, Copy, Debug, PartialEq, Eq)]
pub struct TileDragStart {
    pub column: usize,
    pub row: usize,
    pub start_coord: Coord,
}

/// A pointer move by `delta_coord`, in thousandths of a cell.
#[derive(Clone, Copy, Debug, PartialEq, Eq, Structural)]
pub struct TileDragMove {
    pub delta_coord: Coord,
}

/// The pointer released: resolve the gesture.
#[derive(Clone, Copy, Debug, PartialEq, Eq, Structural)]
pub struct TileDragEnd {}

/// The gesture was cancelled: discard it without attempting a swap.
#[derive(Clone, Copy, Debug, PartialEq, Eq, Structural)]
pub struct TileDragCancel {}

/// Outbound notifications for the rendering collaborator.
#[derive(Clone, Copy, Debug, PartialEq, Eq)]
pub enum Notification {
    /// Placement hint: draw the tile at its cell plus `offset`, above
    /// everything of a lower `z_order`.
    TileVisualOffset { tile_position: (usize, usize), offset: Coord, z_order: u8 },
    /// Snap the tile back to its grid-aligned resting position.
    TileReset { tile_position: (usize, usize) },
    /// The two tiles exchanged grid positions permanently.
    SwapCommitted { position_a: (usize, usize), position_b: (usize, usize) },
    /// The gesture ended without a valid match; the board is unchanged.
    SwapRejected,
}

/// The drag state recorded at a press on `(column, row)`: zero delta, no
/// direction, each edge the anchor sits on banned, and every in-bounds
/// orthogonal neighbour recorded whether banned or not.
pub open spec fn initial_drag(config: GameConfig, evt: TileDragStart) -> TileIsDragging {
    TileIsDragging {
        dragging_tile: (evt.column, evt.row),
        start_coord: evt.start_coord,
        delta_coord: Coord { x: 0, y: 0 },
        direction: None,
        banned_directions: BannedDirections {
            left: evt.column == 0,
            right: evt.column + 1 == config.columns,
            down: evt.row == 0,
            up: evt.row + 1 == config.rows,
        },
        neighbours: DragNeighbours {
            left: if evt.column > 0 {
                Some(((evt.column - 1) as usize, evt.row))
            } else {
                None
            },
            right: if evt.column + 1 < config.columns {
                Some(((evt.column + 1) as usize, evt.row))
            } else {
                None
            },
            down: if evt.row > 0 {
                Some((evt.column, (evt.row - 1) as usize))
            } else {
                None
            },
            up: if evt.row + 1 < config.rows {
                Some((evt.column, (evt.row + 1) as usize))
            } else {
                None
            },
        },
    }
}

/// The drag is consistent with the board: the anchor is in bounds, the
/// banned directions mark exactly the edges the anchor sits on, and the
/// recorded neighbours are exactly the in-bounds orthogonal neighbours.
pub open spec fn drag_consistent(config: GameConfig, d: TileIsDragging) -> bool {
    let c = d.dragging_tile.0;
    let r = d.dragging_tile.1;
    &&& (c as int) < config.columns
    &&& (r as int) < config.rows
    &&& d.banned_directions.left == (c == 0)
    &&& d.banned_directions.right == (c + 1 == config.columns)
    &&& d.banned_directions.down == (r == 0)
    &&& d.banned_directions.up == (r + 1 == config.rows)
    &&& d.neighbours.left == (if c > 0 {
        Some(((c - 1) as usize, r))
    } else {
        None::<(usize, usize)>
    })
    &&& d.neighbours.right == (if c + 1 < config.columns {
        Some(((c + 1) as usize, r))
    } else {
        None::<(usize, usize)>
    })
    &&& d.neighbours.down == (if r > 0 {
        Some((c, (r - 1) as usize))
    } else {
        None::<(usize, usize)>
    })
    &&& d.neighbours.up == (if r + 1 < config.rows {
        Some((c, (r + 1) as usize))
    } else {
        None::<(usize, usize)>
    })
}

/// The recorded neighbour in the drag's resolved direction, if any: the
/// tile currently highlighted under the drag.
pub open spec fn highlight_of(d: TileIsDragging) -> Option<(usize, usize)> {
    match d.direction {
        Some(dir) => d.neighbours.spec_get(dir),
        None => None,
    }
}

/// The offset of the highlighted neighbour: the exact negation of the
/// dragged tile's offset along the locked axis, and nothing on the
/// perpendicular axis.
pub open spec fn counter_offset(c: Coord, dir: SwapDirection) -> Coord {
    match dir {
        SwapDirection::Left | SwapDirection::Right => Coord { x: (-(c.x as int)) as i64, y: 0 },
        SwapDirection::Up | SwapDirection::Down => Coord { x: 0, y: (-(c.y as int)) as i64 },
    }
}

/// The notifications one move emits: a reset for the neighbour that was
/// highlighted before if the resolved direction moved away from it, the
/// anchor's clamped offset above everything, and the offset of the
/// neighbour now under the drag, mirroring the anchor along the locked
/// axis. Before a direction is resolved only the anchor moves.
pub open spec fn move_notifications(d_old: TileIsDragging, d_new: TileIsDragging) -> Seq<
    Notification,
> {
    let resets: Seq<Notification> = if d_old.direction != d_new.direction && highlight_of(d_old)
        is Some {
        seq![Notification::TileReset { tile_position: highlight_of(d_old)->Some_0 }]
    } else {
        Seq::empty()
    };
    let anchor = seq![
        Notification::TileVisualOffset {
            tile_position: d_new.dragging_tile,
            offset: spec_live_delta(d_new),
            z_order: 2,
        },
    ];
    let neighbour: Seq<Notification> = match highlight_of(d_new) {
        Some(p) => seq![
            Notification::TileVisualOffset {
                tile_position: p,
                offset: counter_offset(spec_live_delta(d_new), d_new.direction->Some_0),
                z_order: 1,
            },
        ],
        None => Seq::empty(),
    };
    resets + anchor + neighbour
}

/// The resets emitted when a drag resolves or is cancelled: the anchor
/// snaps back, and so does the highlighted neighbour if there is one.
pub open spec fn reset_notifications(d: TileIsDragging) -> Seq<Notification> {
    let anchor = seq![Notification::TileReset { tile_position: d.dragging_tile }];
    match highlight_of(d) {
        Some(p) => anchor + seq![Notification::TileReset { tile_position: p }],
        None => anchor,
    }
}

/// One game session: the configuration, the board, and the drag in
/// progress if one is active (at most one, the single-touch model).
pub struct GameData {
    pub config: GameConfig,
    pub grid: Vec<Vec<Option<TileType>>>,
    pub drag: Option<TileIsDragging>,
}

impl GameData {
    /// The session is well formed: the board has the configured dimensions
    /// and any active drag is consistent with them.
    pub open spec fn wf(self) -> bool {
        &&& self.config.columns >= 1
        &&& self.config.rows >= 1
        &&& self.grid@.len() == self.config.columns
        &&& grid_wf(gview(self.grid@))
        &&& line_len(gview(self.grid@)) == self.config.rows
        &&& match self.drag {
            None => true,
            Some(d) => drag_consistent(self.config, d),
        }
    }

    /// Start a session on a freshly generated board: run-free, with at
    /// least one legal move, and no drag active. `None` reports that
    /// generation exhausted its bounds (see [`create_grid`]).
    pub fn generate(config: GameConfig) -> (r: Option<GameData>)
        requires
            config.rows >= 1,
            config.columns >= 1,
        ensures
            r matches Some(game) ==> {
                &&& game.wf()
                &&& game.config == config
                &&& game.drag is None
                &&& !has_run(gview(game.grid@))
                &&& has_possible_move(gview(game.grid@))
            },
    {
        match create_grid(config.rows, config.columns) {
            Some(grid) => Some(GameData { config, grid, drag: None }),
            None => None,
        }
    }

    /// Adopt a caller-supplied board: accepted exactly when the dimensions
    /// are positive and the board is a rectangle of `columns` lines of
    /// `rows` cells.
    pub fn with_grid(config: GameConfig, grid: Vec<Vec<Option<TileType>>>) -> (r: Option<GameData>)
        ensures
            r matches Some(game) ==> {
                &&& game.wf()
                &&& game.config == config
                &&& game.drag is None
                &&& game.grid@ == grid@
            },
            r is Some <==> {
                &&& config.rows >= 1
                &&& config.columns >= 1
                &&& grid@.len() == config.columns
                &&& grid_wf(gview(grid@))
                &&& line_len(gview(grid@)) == config.rows
            },
    {
        if config.rows == 0 || config.columns == 0 || grid.len() != config.columns {
            return None;
        }
        let n = grid.len();
        let mut i: usize = 0;
        while i < n
            invariant
                n == grid@.len(),
                i <= n,
                forall|x: int| 0 <= x < i ==> (#[trigger] grid@[x])@.len() == config.rows,
            decreases n - i,
        {
            if grid[i].len() != config.rows {
                proof {
                    if grid_wf(gview(grid@)) && line_len(gview(grid@)) == config.rows {
                        assert(gview(grid@)[i as int].len() == line_len(gview(grid@)));
                    }
                }
                return None;
            }
            i += 1;
        }
        assert(forall|x: int|
            0 <= x < grid@.len() ==> (#[trigger] gview(grid@)[x]).len() == config.rows);
        Some(GameData { config, grid, drag: None })
    }

    /// Begin a drag on the tile at the event's position. Ignored — with
    /// nothing changed — when a drag is already active (single touch),
    /// when the position lies outside the board, or when the cell there is
    /// empty. Otherwise the drag starts with zero delta, no direction, the
    /// edges the anchor sits on banned, and the in-bounds neighbours
    /// recorded. The board never changes.
    pub fn handle_tile_drag_start(&mut self, evt: TileDragStart)
        requires
            old(self).wf(),
        ensures
            final(self).wf(),
            final(self).config == old(self).config,
            final(self).grid@ == old(self).grid@,
            old(self).drag is Some ==> final(self).drag == old(self).drag,
            old(self).drag is None && !((evt.column as int) < old(self).config.columns && (
            evt.row as int) < old(self).config.rows) ==> final(self).drag is None,
            old(self).drag is None && (evt.column as int) < old(self).config.columns && (
            evt.row as int) < old(self).config.rows ==> final(self).drag == (if gview(
                old(self).grid@,
            )[evt.column as int][evt.row as int] is Some {
                Some(initial_drag(old(self).config, evt))
            } else {
                None::<TileIsDragging>
            }),
    {
        if self.drag.is_some() {
            return ;
        }
        if evt.column >= self.config.columns || evt.row >= self.config.rows {
            return ;
        }
        assert(gview(self.grid@)[evt.column as int].len() == self.config.rows);
        if self.grid[evt.column][evt.row].is_none() {
            return ;
        }
        let banned_directions = BannedDirections {
            left: evt.column == 0,
            right: evt.column + 1 == self.config.columns,
            down: evt.row == 0,
            up: evt.row + 1 == self.config.rows,
        };
        let neighbours = DragNeighbours {
            left: if evt.column > 0 {
                Some((evt.column - 1, evt.row))
            } else {
                None
            },
            right: if evt.column + 1 < self.config.columns {
                Some((evt.column + 1, evt.row))
            } else {
                None
            },
            down: if evt.row > 0 {
                Some((evt.column, evt.row - 1))
            } else {
                None
            },
            up: if evt.row + 1 < self.config.rows {
                Some((evt.column, evt.row + 1))
            } else {
                None
            },
        };
        self.drag = Some(
            TileIsDragging {
                dragging_tile: (evt.column, evt.row),
                start_coord: evt.start_coord,
                delta_coord: Coord { x: 0, y: 0 },
                direction: None,
                banned_directions,
                neighbours,
            },
        );
    }

    /// Accumulate one move of the pointer: the delta adds up, the
    /// direction is re-resolved under the axis lock, and the placement
    /// hints for the anchor and the highlighted neighbour are returned.
    /// Ignored, with no notifications, when no drag is active. The board
    /// never changes.
    pub fn handle_tile_drag_move(&mut self, evt: TileDragMove) -> (events: Vec<Notification>)
        requires
            old(self).wf(),
        ensures
            final(self).wf(),
            final(self).config == old(self).config,
            final(self).grid@ == old(self).grid@,
            old(self).drag is None ==> final(self).drag is None && events@ == Seq::<
                Notification,
            >::empty(),
            old(self).drag matches Some(d) ==> final(self).drag == Some(
                moved_drag(d, evt.delta_coord),
            ) && events@ == move_notifications(d, moved_drag(d, evt.delta_coord)),
    {
        let mut events: Vec<Notification> = Vec::new();
        match self.drag {
            None => events,
            Some(d_before) => {
                let mut d = d_before;
                d.move_tile(evt.delta_coord);
                self.drag = Some(d);
                let changed = match (d_before.direction, d.direction) {
                    (None, None) => false,
                    (Some(_), None) => true,
                    (None, Some(_)) => true,
                    (Some(x), Some(y)) => x != y,
                };
                if changed {
                    match d_before.direction {
                        Some(old_dir) => {
                            match d.neighbours.get(old_dir) {
                                Some(p) => {
                                    events.push(Notification::TileReset { tile_position: p });
                                },
                                None => {},
                            }
                        },
                        None => {},
                    }
                }
                let offset = d.live_delta();
                events.push(
                    Notification::TileVisualOffset {
                        tile_position: d.dragging_tile,
                        offset,
                        z_order: 2,
                    },
                );
                match d.direction {
                    Some(dir) => {
                        match d.neighbours.get(dir) {
                            Some(p) => {
                                let counter = match dir {
                                    SwapDirection::Left | SwapDirection::Right => Coord {
                                        x: -offset.x,
                                        y: 0,
                                    },
                                    SwapDirection::Up | SwapDirection::Down => Coord {
                                        x: 0,
                                        y: -offset.y,
                                    },
                                };
                                events.push(
                                    Notification::TileVisualOffset {
                                        tile_position: p,
                                        offset: counter,
                                        z_order: 1,
                                    },
                                );
                            },
                            None => {},
                        }
                    },
                    None => {},
                }
                proof {
                    assert(events@ =~= move_notifications(d_before, d));
                }
                events
            },
        }
    }

    /// Resolve the gesture at pointer release. With no resolved direction
    /// the release is a no-op swap-wise. With a direction resolved toward
    /// the board's edge there is no legal target and the swap is rejected.
    /// Otherwise the anchor and the neighbour under the drag are swapped
    /// exactly when that swap creates a run, and the outcome is reported
    /// as committed or rejected. In every case the visual resets follow
    /// and the drag ends. Ignored entirely when no drag is active.
    pub fn handle_tile_drag_end(&mut self, _evt: TileDragEnd) -> (events: Vec<Notification>)
        requires
            old(self).wf(),
        ensures
            final(self).wf(),
            final(self).config == old(self).config,
            final(self).drag is None,
            old(self).drag is None ==> final(self).grid@ == old(self).grid@ && events@ == Seq::<
                Notification,
            >::empty(),
            old(self).drag matches Some(d) ==> {
                let g = gview(old(self).grid@);
                let a = d.dragging_tile;
                match d.direction {
                    None => gview(final(self).grid@) == g && events@ == reset_notifications(d),
                    Some(dir) => match d.neighbours.spec_get(dir) {
                        None => gview(final(self).grid@) == g && events@ == seq![
                            Notification::SwapRejected,
                        ] + reset_notifications(d),
                        Some(t) => {
                            if has_run(swap_view(g, a, t)) {
                                gview(final(self).grid@) == swap_view(g, a, t) && events@ == seq![
                                    Notification::SwapCommitted { position_a: a, position_b: t },
                                ] + reset_notifications(d)
                            } else {
                                gview(final(self).grid@) == g && events@ == seq![
                                    Notification::SwapRejected,
                                ] + reset_notifications(d)
                            }
                        },
                    },
                }
            },
    {
        let mut events: Vec<Notification> = Vec::new();
        let drag = self.drag;
        self.drag = None;
        match drag {
            None => events,
            Some(d) => {
                match d.direction {
                    None => {},
                    Some(dir) => {
                        match d.neighbours.get(dir) {
                            None => {
                                events.push(Notification::SwapRejected);
                            },
                            Some(t) => {
                                let a = d.dragging_tile;
                                proof {
                                    assert(in_bounds(gview(self.grid@), a)) by {
                                        assert(gview(self.grid@)[a.0 as int].len()
                                            == self.config.rows);
                                    }
                                    assert(in_bounds(gview(self.grid@), t)) by {
                                        assert(gview(self.grid@)[t.0 as int].len()
                                            == self.config.rows);
                                    }
                                    assert(t != a) by {
                                        assert(t.0 != a.0 || t.1 != a.1);
                                    }
                                }
                                if can_swap(&mut self.grid, a, t) {
                                    let committed = swap_tiles(&mut self.grid, a, t);
                                    assert(committed);
                                    events.push(
                                        Notification::SwapCommitted {
                                            position_a: a,
                                            position_b: t,
                                        },
                                    );
                                } else {
                                    events.push(Notification::SwapRejected);
                                }
                            },
                        }
                    },
                }
                events.push(Notification::TileReset { tile_position: d.dragging_tile });
                match d.direction {
                    Some(dir) => {
                        match d.neighbours.get(dir) {
                            Some(p) => {
                                events.push(Notification::TileReset { tile_position: p });
                            },
                            None => {},
                        }
                    },
                    None => {},
                }
                proof {
                    match d.direction {
                        None => {
                            assert(events@ =~= reset_notifications(d));
                        },
                        Some(dir) => {
                            match d.neighbours.spec_get(dir) {
                                None => {
                                    assert(events@ =~= seq![Notification::SwapRejected]
                                        + reset_notifications(d));
                                },
                                Some(t) => {
                                    if has_run(
                                        swap_view(gview(old(self).grid@), d.dragging_tile, t),
                                    ) {
                                        assert(events@ =~= seq![
                                            Notification::SwapCommitted {
                                                position_a: d.dragging_tile,
                                                position_b: t,
                                            },
                                        ] + reset_notifications(d));
                                    } else {
                                        assert(events@ =~= seq![Notification::SwapRejected]
                                            + reset_notifications(d));
                                    }
                                },
                            }
                        },
                    }
                }
                events
            },
        }
    }

    /// Discard the gesture without attempting any swap: the drag ends, the
    /// board is untouched, and the visual resets are returned. Ignored
    /// when no drag is active.
    pub fn handle_tile_drag_cancel(&mut self, _evt: TileDragCancel) -> (events: Vec<Notification>)
        requires
            old(self).wf(),
        ensures
            final(self).wf(),
            final(self).config == old(self).config,
            final(self).grid@ == old(self).grid@,
            final(self).drag is None,
            old(self).drag is None ==> events@ == Seq::<Notification>::empty(),
            old(self).drag matches Some(d) ==> events@ == reset_notifications(d),
    {
        let mut events: Vec<Notification> = Vec::new();
        let drag = self.drag;
        self.drag = None;
        match drag {
            None => events,
            Some(d) => {
                events.push(Notification::TileReset { tile_position: d.dragging_tile });
                match d.direction {
                    Some(dir) => {
                        match d.neighbours.get(dir) {
                            Some(p) => {
                                events.push(Notification::TileReset { tile_position: p });
                            },
                            None => {},
                        }
                    },
                    None => {},
                }
                proof {
                    assert(events@ =~= reset_notifications(d));
                }
                events
            },
        }
    }
}

} // verus!
