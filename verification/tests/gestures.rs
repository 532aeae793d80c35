use match3::drag::{Coord, SwapDirection};
use match3::game::{
    GameConfig, GameData, Notification, TileDragCancel, TileDragEnd, TileDragMove, TileDragStart,
};
use match3::grid::TileType;

fn start(column: usize, row: usize) -> TileDragStart {
    TileDragStart {
        column,
        row,
        start_coord: Coord { x: 0, y: 0 },
    }
}

fn mv(x: i64, y: i64) -> TileDragMove {
    TileDragMove {
        delta_coord: Coord { x, y },
    }
}

/// A run-free board on which swapping (0,0) and (1,0) creates a run.
fn swappable_board() -> GameData {
    let grid = vec![
        vec![
            Some(TileType::Pentagon),
            Some(TileType::Circle),
            Some(TileType::Circle),
        ],
        vec![
            Some(TileType::Circle),
            Some(TileType::Pentagon),
            Some(TileType::Pentagon),
        ],
        vec![
            Some(TileType::Diamond),
            Some(TileType::Star),
            Some(TileType::Square),
        ],
    ];
    GameData::with_grid(GameConfig { rows: 3, columns: 3 }, grid).unwrap()
}

/// A board on which no swap of (0,0) with a neighbour creates a run.
fn unswappable_board() -> GameData {
    let grid = vec![
        vec![
            Some(TileType::Pentagon),
            Some(TileType::Circle),
            Some(TileType::Pentagon),
        ],
        vec![
            Some(TileType::Circle),
            Some(TileType::Pentagon),
            Some(TileType::Circle),
        ],
        vec![
            Some(TileType::Pentagon),
            Some(TileType::Circle),
            Some(TileType::Pentagon),
        ],
    ];
    GameData::with_grid(GameConfig { rows: 3, columns: 3 }, grid).unwrap()
}

#[test]
fn with_grid_rejects_mismatched_boards() {
    let config = GameConfig { rows: 3, columns: 3 };
    assert!(GameData::with_grid(config, vec![]).is_none());
    let ragged = vec![
        vec![Some(TileType::Pentagon); 3],
        vec![Some(TileType::Pentagon); 2],
        vec![Some(TileType::Pentagon); 3],
    ];
    assert!(GameData::with_grid(config, ragged).is_none());
    let two_lines = vec![vec![Some(TileType::Pentagon); 3], vec![Some(TileType::Pentagon); 3]];
    assert!(GameData::with_grid(config, two_lines).is_none());
    let square = vec![vec![Some(TileType::Pentagon); 3]; 3];
    assert!(GameData::with_grid(config, square).is_some());
}

#[test]
fn generate_starts_run_free_with_a_move_and_no_drag() {
    let game = GameData::generate(GameConfig { rows: 6, columns: 6 })
        .expect("a playable 6 by 6 board");
    assert!(game.drag.is_none());
    assert!(match3::grid::find_shapes(&game.grid).is_empty());
}

#[test]
fn drag_start_bans_edge_directions() {
    let mut game = GameData::generate(GameConfig { rows: 6, columns: 6 })
        .expect("a playable 6 by 6 board");
    game.handle_tile_drag_start(start(0, 0));
    let d = game.drag.expect("drag active");
    assert!(d.banned_directions.left);
    assert!(d.banned_directions.down);
    assert!(!d.banned_directions.right);
    assert!(!d.banned_directions.up);
    assert_eq!(d.neighbours.left, None);
    assert_eq!(d.neighbours.down, None);
    assert_eq!(d.neighbours.right, Some((1, 0)));
    assert_eq!(d.neighbours.up, Some((0, 1)));
    assert_eq!(d.dragging_tile, (0, 0));
    assert_eq!(d.direction, None);
}

#[test]
fn drag_start_outside_board_is_ignored() {
    let mut game = swappable_board();
    game.handle_tile_drag_start(start(7, 1));
    assert!(game.drag.is_none());
    game.handle_tile_drag_start(start(1, 3));
    assert!(game.drag.is_none());
}

#[test]
fn drag_start_during_drag_is_ignored() {
    let mut game = swappable_board();
    game.handle_tile_drag_start(start(0, 0));
    game.handle_tile_drag_start(start(1, 1));
    assert_eq!(game.drag.unwrap().dragging_tile, (0, 0));
}

#[test]
fn drag_move_without_drag_is_ignored() {
    let mut game = swappable_board();
    let events = game.handle_tile_drag_move(mv(500, 0));
    assert!(events.is_empty());
    assert!(game.drag.is_none());
}

#[test]
fn sub_threshold_moves_keep_direction_unresolved() {
    let mut game = swappable_board();
    game.handle_tile_drag_start(start(1, 1));
    game.handle_tile_drag_move(mv(60, 40));
    assert_eq!(game.drag.unwrap().direction, None);
    game.handle_tile_drag_move(mv(60, 40));
    assert_eq!(game.drag.unwrap().direction, None);
    game.handle_tile_drag_move(mv(60, 40));
    // The accumulated delta is (180, 120), still below the threshold of
    // 200 on both axes.
    assert_eq!(game.drag.unwrap().direction, None);
}

#[test]
fn axis_lock_keeps_left_when_dy_grows() {
    let mut game = swappable_board();
    game.handle_tile_drag_start(start(1, 1));
    game.handle_tile_drag_move(mv(-500, 0));
    assert_eq!(game.drag.unwrap().direction, Some(SwapDirection::Left));
    game.handle_tile_drag_move(mv(0, 2000));
    // dx is still -500; however large dy grew, the lock keeps Left.
    assert_eq!(game.drag.unwrap().direction, Some(SwapDirection::Left));
    game.handle_tile_drag_move(mv(-100, 1000));
    assert_eq!(game.drag.unwrap().direction, Some(SwapDirection::Left));
}

#[test]
fn axis_lock_flips_within_the_axis() {
    let mut game = swappable_board();
    game.handle_tile_drag_start(start(1, 1));
    game.handle_tile_drag_move(mv(-300, 0));
    assert_eq!(game.drag.unwrap().direction, Some(SwapDirection::Left));
    game.handle_tile_drag_move(mv(800, 0));
    // The accumulated dx is now +500: still horizontal, flipped to Right.
    assert_eq!(game.drag.unwrap().direction, Some(SwapDirection::Right));
}

#[test]
fn move_emits_offsets_for_anchor_and_neighbour() {
    let mut game = swappable_board();
    game.handle_tile_drag_start(start(0, 0));
    let events = game.handle_tile_drag_move(mv(500, 0));
    assert_eq!(events.len(), 2);
    assert_eq!(
        events[0],
        Notification::TileVisualOffset {
            tile_position: (0, 0),
            offset: Coord { x: 500, y: 0 },
            z_order: 2,
        }
    );
    assert_eq!(
        events[1],
        Notification::TileVisualOffset {
            tile_position: (1, 0),
            offset: Coord { x: -500, y: 0 },
            z_order: 1,
        }
    );
}

#[test]
fn live_delta_clamps_to_one_cell_and_compresses_off_axis() {
    let mut game = swappable_board();
    game.handle_tile_drag_start(start(1, 1));
    let events = game.handle_tile_drag_move(mv(1500, -300));
    // Resolved Right: x clamps to one cell, y compresses to the band.
    assert_eq!(
        events[0],
        Notification::TileVisualOffset {
            tile_position: (1, 1),
            offset: Coord { x: 1000, y: -200 },
            z_order: 2,
        }
    );
}

#[test]
fn live_delta_respects_banned_directions() {
    let mut game = swappable_board();
    game.handle_tile_drag_start(start(0, 0));
    let events = game.handle_tile_drag_move(mv(-500, 0));
    // Left is banned at column 0: the tile may not move past its resting
    // position, and no neighbour exists in that direction.
    assert_eq!(events.len(), 1);
    assert_eq!(
        events[0],
        Notification::TileVisualOffset {
            tile_position: (0, 0),
            offset: Coord { x: 0, y: 0 },
            z_order: 2,
        }
    );
}

#[test]
fn drag_end_commits_a_swap_that_creates_a_run() {
    let mut game = swappable_board();
    game.handle_tile_drag_start(start(0, 0));
    game.handle_tile_drag_move(mv(500, 0));
    let events = game.handle_tile_drag_end(TileDragEnd {});
    assert_eq!(
        events,
        vec![
            Notification::SwapCommitted {
                position_a: (0, 0),
                position_b: (1, 0),
            },
            Notification::TileReset { tile_position: (0, 0) },
            Notification::TileReset { tile_position: (1, 0) },
        ]
    );
    assert!(game.drag.is_none());
    assert_eq!(
        game.grid[1],
        vec![
            Some(TileType::Pentagon),
            Some(TileType::Pentagon),
            Some(TileType::Pentagon)
        ]
    );
    assert_eq!(game.grid[0][0], Some(TileType::Circle));
}

#[test]
fn drag_end_rejects_a_swap_without_a_run() {
    let mut game = unswappable_board();
    let before = game.grid.clone();
    game.handle_tile_drag_start(start(0, 0));
    game.handle_tile_drag_move(mv(500, 0));
    let events = game.handle_tile_drag_end(TileDragEnd {});
    assert_eq!(
        events,
        vec![
            Notification::SwapRejected,
            Notification::TileReset { tile_position: (0, 0) },
            Notification::TileReset { tile_position: (1, 0) },
        ]
    );
    assert!(game.drag.is_none());
    assert_eq!(game.grid, before);
}

#[test]
fn drag_end_toward_the_edge_rejects() {
    let mut game = unswappable_board();
    let before = game.grid.clone();
    game.handle_tile_drag_start(start(0, 0));
    game.handle_tile_drag_move(mv(-500, 0));
    // The direction resolved Left, but the anchor sits on the left edge:
    // there is no target tile.
    let events = game.handle_tile_drag_end(TileDragEnd {});
    assert_eq!(
        events,
        vec![
            Notification::SwapRejected,
            Notification::TileReset { tile_position: (0, 0) },
        ]
    );
    assert_eq!(game.grid, before);
}

#[test]
fn drag_end_without_direction_only_resets() {
    let mut game = swappable_board();
    let before = game.grid.clone();
    game.handle_tile_drag_start(start(1, 1));
    game.handle_tile_drag_move(mv(100, 0));
    let events = game.handle_tile_drag_end(TileDragEnd {});
    assert_eq!(
        events,
        vec![Notification::TileReset { tile_position: (1, 1) }]
    );
    assert!(game.drag.is_none());
    assert_eq!(game.grid, before);
}

#[test]
fn drag_end_without_drag_is_ignored() {
    let mut game = swappable_board();
    let events = game.handle_tile_drag_end(TileDragEnd {});
    assert!(events.is_empty());
}

#[test]
fn drag_cancel_discards_the_gesture() {
    let mut game = swappable_board();
    let before = game.grid.clone();
    game.handle_tile_drag_start(start(0, 0));
    game.handle_tile_drag_move(mv(500, 0));
    let events = game.handle_tile_drag_cancel(TileDragCancel {});
    assert_eq!(
        events,
        vec![
            Notification::TileReset { tile_position: (0, 0) },
            Notification::TileReset { tile_position: (1, 0) },
        ]
    );
    assert!(game.drag.is_none());
    assert_eq!(game.grid, before);
}

#[test]
fn direction_change_resets_the_old_neighbour() {
    let mut game = swappable_board();
    game.handle_tile_drag_start(start(1, 1));
    game.handle_tile_drag_move(mv(-300, 0));
    let events = game.handle_tile_drag_move(mv(800, 0));
    // The highlight moves from the left neighbour to the right one: the
    // old neighbour snaps back first.
    assert_eq!(events.len(), 3);
    assert_eq!(
        events[0],
        Notification::TileReset { tile_position: (0, 1) }
    );
    match events[2] {
        Notification::TileVisualOffset { tile_position, z_order, .. } => {
            assert_eq!(tile_position, (2, 1));
            assert_eq!(z_order, 1);
        }
        _ => panic!("expected a placement hint for the new neighbour"),
    }
}
