use raycaster::grid::{Grid, GRID_COLOUR, TILE_COLOUR};
use raycaster::{HEIGHT, WIDTH};

fn empty_grid() -> Grid {
    Grid { tiles: Vec::new(), width: 0, height: 0, tile_size: 0 }
}

fn loaded(width: i32, height: i32, tiles: Vec<u8>) -> Grid {
    let mut grid: Grid = empty_grid();
    grid.init(width, height, tiles);
    grid
}

fn frame_pixel(frame: &[u8], x: i32, y: i32) -> [u8; 4] {
    let i: usize = (4 * (x + y * WIDTH)) as usize;
    [frame[i], frame[i + 1], frame[i + 2], frame[i + 3]]
}

#[test]
fn init_takes_the_map_and_scales_it_to_the_screen() {
    let tiles: Vec<u8> = vec![0, 1, 2, 3, 4, 5, 6, 7, 8, 9, 10, 11];
    let grid: Grid = loaded(4, 3, tiles.clone());
    assert_eq!(grid.width, 4);
    assert_eq!(grid.height, 3);
    assert_eq!(grid.tiles, tiles);
    assert_eq!(grid.tile_size, 150);
}

#[test]
fn tile_size_is_screen_height_over_rows_rounded_down() {
    assert_eq!(loaded(1, 1, vec![0]).tile_size, 450);
    assert_eq!(loaded(1, 4, vec![0; 4]).tile_size, 112);
    assert_eq!(loaded(1, 7, vec![0; 7]).tile_size, 64);
    assert_eq!(loaded(1, 450, vec![0; 450]).tile_size, 1);
    assert_eq!(loaded(1, 451, vec![0; 451]).tile_size, 0);
}

#[test]
fn init_replaces_an_earlier_map() {
    let mut grid: Grid = loaded(2, 2, vec![9, 9, 9, 9]);
    grid.init(3, 1, vec![0, 0, 5]);
    assert_eq!(grid.width, 3);
    assert_eq!(grid.height, 1);
    assert_eq!(grid.tiles, vec![0, 0, 5]);
    assert_eq!(grid.tile_size, 450);
}

#[test]
fn is_wall_reads_the_cell() {
    let grid: Grid = loaded(3, 2, vec![0, 1, 0, 255, 0, 0]);
    assert!(!grid.is_wall(0, 0));
    assert!(grid.is_wall(1, 0));
    assert!(!grid.is_wall(2, 0));
    assert!(grid.is_wall(0, 1));
    assert!(!grid.is_wall(1, 1));
    assert!(!grid.is_wall(2, 1));
}

#[test]
fn is_wall_outside_the_grid() {
    let grid: Grid = loaded(3, 2, vec![0; 6]);
    assert!(grid.is_wall(-1, 0));
    assert!(grid.is_wall(0, -1));
    assert!(grid.is_wall(3, 0));
    assert!(grid.is_wall(0, 2));
    assert!(grid.is_wall(i64::MAX, 0));
    assert!(grid.is_wall(0, i64::MIN));
    assert!(grid.is_wall(i64::MIN, i64::MAX));
}

#[test]
fn every_cell_of_an_empty_grid_is_a_wall() {
    let grid: Grid = empty_grid();
    assert!(grid.is_wall(0, 0));
    assert!(grid.is_wall(5, 5));
    assert!(grid.is_wall(-1, -1));
}

#[test]
fn draw_fills_cells_above_one_and_rules_the_grid() {
    let mut tiles: Vec<u8> = vec![0; 16];
    tiles[1 + 4] = 255;
    tiles[2 + 2 * 4] = 1;
    tiles[3 + 3 * 4] = 2;
    let grid: Grid = loaded(4, 4, tiles);
    let mut frame: Vec<u8> = vec![0u8; (WIDTH * HEIGHT * 4) as usize];
    grid.draw(&mut frame);
    // Inside the filled cell (1, 1), off the grid lines.
    assert_eq!(frame_pixel(&frame, 113, 113), TILE_COLOUR);
    assert_eq!(frame_pixel(&frame, 223, 223), TILE_COLOUR);
    assert_eq!(frame_pixel(&frame, 150, 200), TILE_COLOUR);
    // The cell with value 1 is solid but is not shown.
    assert!(grid.is_wall(2, 2));
    assert_eq!(frame_pixel(&frame, 250, 250), [0, 0, 0, 0]);
    // The cell with value 2 is shown.
    assert_eq!(frame_pixel(&frame, 400, 400), TILE_COLOUR);
    // An empty cell.
    assert_eq!(frame_pixel(&frame, 50, 50), [0, 0, 0, 0]);
    // Grid lines lie on the multiples of the tile size, over the cells.
    assert_eq!(frame_pixel(&frame, 112, 150), GRID_COLOUR);
    assert_eq!(frame_pixel(&frame, 150, 112), GRID_COLOUR);
    assert_eq!(frame_pixel(&frame, 0, 0), GRID_COLOUR);
    assert_eq!(frame_pixel(&frame, 448, 448), GRID_COLOUR);
    assert_eq!(frame_pixel(&frame, 450, 0), GRID_COLOUR);
    assert_eq!(frame_pixel(&frame, 451, 0), [0, 0, 0, 0]);
    assert_eq!(frame_pixel(&frame, 0, 449), GRID_COLOUR);
    // Nothing is drawn to the right of the map.
    assert_eq!(frame_pixel(&frame, 600, 100), [0, 0, 0, 0]);
}

#[test]
fn draw_rules_one_line_per_tile_size() {
    let grid: Grid = loaded(2, 2, vec![0; 4]);
    assert_eq!(grid.tile_size, 225);
    let mut frame: Vec<u8> = vec![0u8; (WIDTH * HEIGHT * 4) as usize];
    grid.draw(&mut frame);
    let mut rows: Vec<i32> = Vec::new();
    let mut y: i32 = 0;
    while y < HEIGHT {
        if frame_pixel(&frame, 100, y) == GRID_COLOUR {
            rows.push(y);
        }
        y += 1;
    }
    assert_eq!(rows, vec![0, 225]);
    let mut columns: Vec<i32> = Vec::new();
    let mut x: i32 = 0;
    while x < WIDTH {
        if frame_pixel(&frame, x, 100) == GRID_COLOUR {
            columns.push(x);
        }
        x += 1;
    }
    assert_eq!(columns, vec![0, 225]);
}

#[test]
fn draw_clips_a_map_wider_than_the_screen() {
    let grid: Grid = loaded(40, 1, vec![3; 40]);
    assert_eq!(grid.tile_size, 450);
    let mut frame: Vec<u8> = vec![0u8; (WIDTH * HEIGHT * 4) as usize];
    grid.draw(&mut frame);
    assert_eq!(frame_pixel(&frame, 1279, 200), TILE_COLOUR);
    assert_eq!(frame_pixel(&frame, 700, 449), TILE_COLOUR);
}
