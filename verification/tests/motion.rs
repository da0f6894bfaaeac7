use raycaster::{Raycaster, Screen, Slide};

#[test]
fn diagonal_move_slides_along_a_wall_on_one_axis() {
    // Standing at (5.5, 5.5) and moving by (0.7, 0.7): the tile east of the
    // mover is a wall, the tile south of it is not.
    let mut map = vec![vec![0u8; 12]; 12];
    map[6][5] = 1;
    let grid = Raycaster { map, screen: Screen { height: 480, width: 640 } };
    let (pos_x, pos_y) = (5.5f32, 5.5f32);
    let (next_x, next_y) = (pos_x + 0.7, pos_y + 0.7);
    let slide = grid.resolve_move(pos_x as usize, pos_y as usize, next_x as usize, next_y as usize);
    assert_eq!(slide, Slide { x: false, y: true });
    let after = (if slide.x { next_x } else { pos_x }, if slide.y { next_y } else { pos_y });
    assert_eq!(after, (5.5, 5.5 + 0.7));
    assert!(!grid.is_wall(after.0 as usize, after.1 as usize));
}

#[test]
fn move_is_free_blocked_or_half_blocked() {
    let mut grid = Raycaster::new();
    assert_eq!(grid.resolve_move(2, 2, 3, 3), Slide { x: true, y: true });
    assert_eq!(grid.resolve_move(2, 2, 2, 2), Slide { x: true, y: true });
    assert_eq!(grid.resolve_move(1, 1, 0, 0), Slide { x: false, y: false });
    assert_eq!(grid.resolve_move(1, 5, 0, 6), Slide { x: false, y: true });
    assert_eq!(grid.resolve_move(5, 1, 6, 0), Slide { x: true, y: false });
    grid.map[3][2] = 4;
    grid.map[2][3] = 4;
    assert_eq!(grid.resolve_move(2, 2, 3, 3), Slide { x: false, y: false });
}

#[test]
fn each_axis_is_probed_from_the_tile_the_mover_stands_on() {
    // Only the tile diagonally ahead is a wall: both probes are free.
    let mut map = vec![vec![0u8; 4]; 4];
    map[2][2] = 1;
    let grid = Raycaster { map, screen: Screen { height: 1, width: 1 } };
    assert_eq!(grid.resolve_move(1, 1, 2, 2), Slide { x: true, y: true });
    // The tile beside the mover is a wall, the one diagonally ahead is not:
    // the x axis stays blocked.
    let mut map = vec![vec![0u8; 4]; 4];
    map[2][1] = 1;
    let grid = Raycaster { map, screen: Screen { height: 1, width: 1 } };
    assert_eq!(grid.resolve_move(1, 1, 2, 2), Slide { x: false, y: true });
}

#[test]
fn moves_inside_the_built_in_map_never_end_on_a_wall() {
    let grid = Raycaster::new();
    for x in 1usize..12 {
        for y in 1usize..11 {
            if grid.is_wall(x, y) {
                continue;
            }
            for next_x in x - 1..=x + 1 {
                for next_y in y - 1..=y + 1 {
                    let slide = grid.resolve_move(x, y, next_x, next_y);
                    let corner_cut = !grid.is_wall(next_x, y) && !grid.is_wall(x, next_y) && grid.is_wall(next_x, next_y);
                    let to = (if slide.x { next_x } else { x }, if slide.y { next_y } else { y });
                    assert_eq!(grid.is_wall(to.0, to.1), corner_cut);
                }
            }
        }
    }
}
