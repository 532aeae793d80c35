use match3::grid::{
    can_swap, create_grid, find_shapes, has_possible_swaps, has_shape, swap_tiles, tile_from_index,
    TileType,
};

#[test]
fn tile_from_index_maps_each_face() {
    assert_eq!(tile_from_index(0), TileType::Pentagon);
    assert_eq!(tile_from_index(1), TileType::Triangle);
    assert_eq!(tile_from_index(2), TileType::Square);
    assert_eq!(tile_from_index(3), TileType::Circle);
    assert_eq!(tile_from_index(4), TileType::Diamond);
    assert_eq!(tile_from_index(5), TileType::Star);
}

#[test]
fn grid_find_shapes_returns_empty_if_no_shapes_found() {
    let grid = vec![
        vec![
            Some(TileType::Pentagon),
            Some(TileType::Circle),
            Some(TileType::Circle),
        ],
        vec![
            Some(TileType::Circle),
            Some(TileType::Pentagon),
            Some(TileType::Circle),
        ],
        vec![
            Some(TileType::Circle),
            Some(TileType::Circle),
            Some(TileType::Pentagon),
        ],
    ];
    let shapes = find_shapes(&grid);
    assert_eq!(shapes.len(), 0);
}

#[test]
fn find_shapes_finds_horizontal_shapes() {
    let grid = vec![
        vec![
            Some(TileType::Pentagon),
            Some(TileType::Pentagon),
            Some(TileType::Pentagon),
        ],
        vec![
            Some(TileType::Circle),
            Some(TileType::Pentagon),
            Some(TileType::Circle),
        ],
        vec![
            Some(TileType::Circle),
            Some(TileType::Circle),
            Some(TileType::Pentagon),
        ],
    ];
    let shapes = find_shapes(&grid);
    assert_eq!(shapes.len(), 1);
    assert_eq!(shapes[0], vec![(0, 0), (0, 1), (0, 2)]);
}

#[test]
fn find_shapes_find_vertical_shapes() {
    let grid = vec![
        vec![
            Some(TileType::Pentagon),
            Some(TileType::Circle),
            Some(TileType::Circle),
        ],
        vec![
            Some(TileType::Pentagon),
            Some(TileType::Pentagon),
            Some(TileType::Circle),
        ],
        vec![
            Some(TileType::Pentagon),
            Some(TileType::Circle),
            Some(TileType::Pentagon),
        ],
    ];
    let shapes = find_shapes(&grid);
    assert_eq!(shapes.len(), 1);
    assert_eq!(shapes[0], vec![(0, 0), (1, 0), (2, 0)]);
}

#[test]
fn find_shapes_correctly_identifies_long_shapes() {
    let mut grid = vec![vec![Some(TileType::Circle); 4]; 4];
    for column in 0..4 {
        grid[2][column] = Some(TileType::Pentagon);
    }
    for row in 0..4 {
        grid[row][2] = Some(TileType::Pentagon);
    }
    let shapes = find_shapes(&grid);
    assert_eq!(shapes.len(), 2);
    assert_eq!(shapes[0], vec![(2, 0), (2, 1), (2, 2), (2, 3)]);
    assert_eq!(shapes[1], vec![(0, 2), (1, 2), (2, 2), (3, 2)]);
}

#[test]
fn tests_find_shapes_returns_empty_if_no_shapes_found() {
    let grid = vec![
        vec![
            Some(TileType::Pentagon),
            Some(TileType::Circle),
            Some(TileType::Circle),
        ],
        vec![
            Some(TileType::Circle),
            Some(TileType::Pentagon),
            Some(TileType::Circle),
        ],
        vec![
            Some(TileType::Circle),
            Some(TileType::Circle),
            Some(TileType::Pentagon),
        ],
    ];
    let shapes = find_shapes(&grid);
    assert_eq!(shapes.len(), 0);
}

#[test]
fn has_shape_agrees_with_find_shapes() {
    let no_run = vec![
        vec![
            Some(TileType::Pentagon),
            Some(TileType::Circle),
            Some(TileType::Circle),
        ],
        vec![
            Some(TileType::Circle),
            Some(TileType::Pentagon),
            Some(TileType::Circle),
        ],
        vec![
            Some(TileType::Circle),
            Some(TileType::Circle),
            Some(TileType::Pentagon),
        ],
    ];
    assert!(!has_shape(&no_run));
    assert!(find_shapes(&no_run).is_empty());

    // A run inside one line of a grid with only two lines: the scan along
    // lines must find it even though no run across lines can exist.
    let two_lines = vec![
        vec![
            Some(TileType::Star),
            Some(TileType::Star),
            Some(TileType::Star),
            Some(TileType::Circle),
            Some(TileType::Diamond),
        ],
        vec![
            Some(TileType::Circle),
            Some(TileType::Diamond),
            Some(TileType::Circle),
            Some(TileType::Diamond),
            Some(TileType::Circle),
        ],
    ];
    assert!(has_shape(&two_lines));
    assert_eq!(find_shapes(&two_lines).len(), 1);
}

#[test]
fn empty_cells_never_form_a_run() {
    let grid = vec![vec![None::<TileType>; 4]; 4];
    assert!(!has_shape(&grid));
    assert!(find_shapes(&grid).is_empty());
}

#[test]
fn can_swap_does_not_mutate_grid() {
    let mut grid = vec![
        vec![
            Some(TileType::Pentagon),
            Some(TileType::Circle),
            Some(TileType::Circle),
        ],
        vec![
            Some(TileType::Circle),
            Some(TileType::Pentagon),
            Some(TileType::Pentagon),
        ],
        vec![
            Some(TileType::Circle),
            Some(TileType::Circle),
            Some(TileType::Pentagon),
        ],
    ];
    let before = grid.clone();
    let a = can_swap(&mut grid, (0, 0), (1, 0));
    assert_eq!(grid, before);
    let b = can_swap(&mut grid, (0, 1), (0, 2));
    assert_eq!(grid, before);
    // Swapping (0,0) and (1,0) moves Pentagon next to the two Pentagons of
    // line 1.
    assert!(a);
    assert!(!b);
}

#[test]
fn swap_tiles_commits_a_swap_that_creates_a_run() {
    let mut grid = vec![
        vec![
            Some(TileType::Pentagon),
            Some(TileType::Circle),
            Some(TileType::Circle),
        ],
        vec![
            Some(TileType::Circle),
            Some(TileType::Pentagon),
            Some(TileType::Pentagon),
        ],
        vec![
            Some(TileType::Diamond),
            Some(TileType::Star),
            Some(TileType::Square),
        ],
    ];
    assert!(swap_tiles(&mut grid, (0, 0), (1, 0)));
    assert_eq!(
        grid[1],
        vec![
            Some(TileType::Pentagon),
            Some(TileType::Pentagon),
            Some(TileType::Pentagon)
        ]
    );
    assert_eq!(grid[0][0], Some(TileType::Circle));
}

#[test]
fn swap_tiles_restores_a_swap_that_creates_no_run() {
    let mut grid = vec![
        vec![
            Some(TileType::Pentagon),
            Some(TileType::Circle),
            Some(TileType::Pentagon),
        ],
        vec![
            Some(TileType::Circle),
            Some(TileType::Pentagon),
            Some(TileType::Circle),
        ],
        vec![
            Some(TileType::Pentagon),
            Some(TileType::Circle),
            Some(TileType::Pentagon),
        ],
    ];
    let before = grid.clone();
    assert!(!swap_tiles(&mut grid, (0, 0), (1, 0)));
    assert_eq!(grid, before);
}

#[test]
fn create_grid_produces_run_free_board_with_a_move() {
    let mut grid = create_grid(6, 6).expect("a playable 6 by 6 board");
    assert_eq!(grid.len(), 6);
    for line in &grid {
        assert_eq!(line.len(), 6);
        for cell in line {
            assert!(cell.is_some());
        }
    }
    assert!(find_shapes(&grid).is_empty());
    assert!(has_possible_swaps(&mut grid));
}

#[test]
fn create_grid_reports_failure_when_no_move_is_possible() {
    // A single cell admits no adjacent pair, so no draw can succeed.
    assert!(create_grid(1, 1).is_none());
}

#[test]
fn has_possible_swaps_is_false_when_every_type_is_scarce() {
    // Each tile type occurs at most twice, so no swap can line up three.
    let mut grid = vec![
        vec![
            Some(TileType::Pentagon),
            Some(TileType::Triangle),
            Some(TileType::Square),
        ],
        vec![
            Some(TileType::Circle),
            Some(TileType::Diamond),
            Some(TileType::Star),
        ],
        vec![
            Some(TileType::Pentagon),
            Some(TileType::Triangle),
            Some(TileType::Square),
        ],
    ];
    let before = grid.clone();
    assert!(!has_possible_swaps(&mut grid));
    assert_eq!(grid, before);
}

#[test]
fn has_possible_swaps_finds_a_known_move() {
    let mut grid = vec![
        vec![
            Some(TileType::Pentagon),
            Some(TileType::Circle),
            Some(TileType::Circle),
        ],
        vec![
            Some(TileType::Circle),
            Some(TileType::Pentagon),
            Some(TileType::Pentagon),
        ],
        vec![
            Some(TileType::Diamond),
            Some(TileType::Star),
            Some(TileType::Square),
        ],
    ];
    assert!(has_possible_swaps(&mut grid));
}
