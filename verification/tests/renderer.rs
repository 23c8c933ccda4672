use raycaster::grid::Grid;
use raycaster::renderer::{cast_ray, SHORT_RANGE};

fn grid_with(width: i32, height: i32, walls: &[(i32, i32)]) -> Grid {
    let mut tiles: Vec<u8> = vec![0u8; (width * height) as usize];
    for (x, y) in walls {
        tiles[(x + y * width) as usize] = 255;
    }
    Grid { tiles, width, height, tile_size: 450 / height }
}

#[test]
fn short_range_is_two_and_a_half_cells() {
    assert_eq!(SHORT_RANGE, 163840);
}

#[test]
fn short_cast_finds_a_near_wall() {
    let grid: Grid = grid_with(8, 8, &[(3, 1)]);
    assert_eq!(cast_ray((98304, 98304), (1, 0), &grid), Some(98304));
    assert_eq!(cast_ray((98304, 98304), (-1, 0), &grid), Some(98304));
}

#[test]
fn short_cast_stops_at_its_range() {
    let grid: Grid = grid_with(8, 8, &[(4, 1), (1, 5)]);
    // The wall at x = 4 is exactly two and a half cells away.
    assert_eq!(cast_ray((98304, 98304), (1, 0), &grid), Some(163840));
    assert_eq!(cast_ray((98303, 98304), (1, 0), &grid), None);
    // The wall at y = 5 is three and a half cells away.
    assert_eq!(cast_ray((98304, 98304), (0, 1), &grid), None);
    assert_eq!(cast_ray((98304, 98304), (0, 0), &grid), None);
}

#[test]
fn short_cast_agrees_with_the_full_cast() {
    let grid: Grid = grid_with(8, 8, &[(2, 2), (5, 3), (3, 6)]);
    let directions: [(i32, i32); 5] = [(1, 1), (3, -1), (-2, 5), (0, 1), (7, 2)];
    for d in directions {
        let full: Option<u32> =
            raycaster::ray::cast_ray((98304, 98304), d, &grid, SHORT_RANGE).map(|h| h.distance);
        assert_eq!(cast_ray((98304, 98304), d, &grid), full);
    }
}
