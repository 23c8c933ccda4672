use raycaster::angle::{Heading, HALF_PI, PI, THREE_HALVES_PI, TWO_PI};
use raycaster::fixed::{cell, ONE};
use raycaster::grid::Grid;
use raycaster::player::{
    Intents, Player, BEAM_COLOUR, HIT_COLOUR, LOOKAHEAD, MARK_COLOUR, SAFE_TICK, SPEED, TURN_RATE,
};
use raycaster::{HEIGHT, WIDTH};

const EAST: Heading = Heading { cos: 65536, sin: 0 };
const NORTH: Heading = Heading { cos: 0, sin: 65536 };
const NORTH_EAST: Heading = Heading { cos: 46341, sin: 46341 };
const SOUTH_EAST: Heading = Heading { cos: 46341, sin: -46341 };

fn idle() -> Intents {
    Intents {
        forward: false,
        backward: false,
        turn_left: false,
        turn_right: false,
        face_east: false,
        face_north: false,
        face_west: false,
        face_south: false,
    }
}

fn grid_with(width: i32, height: i32, walls: &[(i32, i32)]) -> Grid {
    let mut tiles: Vec<u8> = vec![0u8; (width * height) as usize];
    for (x, y) in walls {
        tiles[(x + y * width) as usize] = 255;
    }
    let mut grid: Grid = Grid { tiles: Vec::new(), width: 0, height: 0, tile_size: 0 };
    grid.init(width, height, tiles);
    grid
}

fn heading_of(angle: i64) -> Heading {
    let a: f64 = angle as f64 / 65536.0;
    Heading { cos: (a.cos() * 65536.0).round() as i64, sin: (a.sin() * 65536.0).round() as i64 }
}

fn frame_pixel(frame: &[u8], x: i32, y: i32) -> [u8; 4] {
    let i: usize = (4 * (x + y * WIDTH)) as usize;
    [frame[i], frame[i + 1], frame[i + 2], frame[i + 3]]
}

#[test]
fn movement_constants() {
    assert_eq!(LOOKAHEAD, ONE / 4);
    assert_eq!(SPEED, 2 * ONE);
    assert_eq!(TURN_RATE, 3 * ONE / 2);
    assert_eq!(SAFE_TICK as i64, ONE / 8);
}

#[test]
fn idle_tick_changes_nothing() {
    let grid: Grid = grid_with(4, 4, &[]);
    let mut p: Player = Player { x: 98304, y: 70000, angle: 12345 };
    p.update(&idle(), &NORTH_EAST, &grid, 8192);
    assert_eq!(p, Player { x: 98304, y: 70000, angle: 12345 });
}

#[test]
fn forward_moves_along_the_heading() {
    let grid: Grid = grid_with(4, 4, &[]);
    let mut p: Player = Player { x: 98304, y: 98304, angle: 0 };
    let go: Intents = Intents { forward: true, ..idle() };
    p.update(&go, &EAST, &grid, 8192);
    assert_eq!(p, Player { x: 114688, y: 98304, angle: 0 });
    p.update(&go, &EAST, &grid, 4096);
    assert_eq!(p, Player { x: 122880, y: 98304, angle: 0 });
}

#[test]
fn forward_north_moves_up_the_screen() {
    let grid: Grid = grid_with(4, 4, &[]);
    let mut p: Player = Player { x: 98304, y: 98304, angle: HALF_PI };
    p.update(&Intents { forward: true, ..idle() }, &NORTH, &grid, 8192);
    assert_eq!(p, Player { x: 98304, y: 81920, angle: HALF_PI });
}

#[test]
fn backward_moves_against_the_heading() {
    let grid: Grid = grid_with(4, 4, &[]);
    let mut p: Player = Player { x: 98304, y: 98304, angle: 0 };
    p.update(&Intents { backward: true, ..idle() }, &EAST, &grid, 8192);
    assert_eq!(p, Player { x: 81920, y: 98304, angle: 0 });
    p.update(&Intents { backward: true, ..idle() }, &NORTH, &grid, 8192);
    assert_eq!(p, Player { x: 81920, y: 114688, angle: 0 });
}

#[test]
fn forward_and_backward_together_cancel() {
    let grid: Grid = grid_with(4, 4, &[]);
    let mut p: Player = Player { x: 98304, y: 98304, angle: 0 };
    p.update(&Intents { forward: true, backward: true, ..idle() }, &EAST, &grid, 8192);
    assert_eq!(p, Player { x: 98304, y: 98304, angle: 0 });
}

#[test]
fn diagonal_step_has_exact_components() {
    let grid: Grid = grid_with(4, 4, &[]);
    let mut p: Player = Player { x: 98304, y: 98304, angle: 0 };
    p.update(&Intents { forward: true, ..idle() }, &NORTH_EAST, &grid, 8192);
    // 46341 * 16384 / 65536 is 11585.25: rounded down to 11585 along x,
    // and -11585.25 rounded down to -11586 along y.
    assert_eq!(p, Player { x: 98304 + 11585, y: 98304 - 11586, angle: 0 });
}

#[test]
fn wall_ahead_stops_the_step() {
    let grid: Grid = grid_with(4, 4, &[(2, 1)]);
    let mut p: Player = Player { x: 117965, y: 98304, angle: 0 };
    p.update(&Intents { forward: true, ..idle() }, &EAST, &grid, 8192);
    assert_eq!(p, Player { x: 117965, y: 98304, angle: 0 });
}

#[test]
fn probe_reaches_a_quarter_cell_ahead() {
    let grid: Grid = grid_with(4, 4, &[(2, 1)]);
    // 2.0 - 0.25 is 114688: from there the probe lands in the wall.
    let mut at: Player = Player { x: 114688, y: 98304, angle: 0 };
    at.update(&Intents { forward: true, ..idle() }, &EAST, &grid, 4096);
    assert_eq!(at.x, 114688);
    let mut before: Player = Player { x: 114687, y: 98304, angle: 0 };
    before.update(&Intents { forward: true, ..idle() }, &EAST, &grid, 4096);
    assert_eq!(before.x, 114687 + 8192);
}

#[test]
fn viewer_slides_along_a_wall() {
    let grid: Grid = grid_with(4, 4, &[(2, 1)]);
    let mut p: Player = Player { x: 117965, y: 98304, angle: 0 };
    p.update(&Intents { forward: true, ..idle() }, &NORTH_EAST, &grid, 8192);
    assert_eq!(p, Player { x: 117965, y: 86718, angle: 0 });
}

#[test]
fn viewer_does_not_cut_a_corner() {
    let grid: Grid = grid_with(4, 4, &[(2, 2)]);
    let mut p: Player = Player { x: 124518, y: 124518, angle: 0 };
    p.update(&Intents { forward: true, ..idle() }, &SOUTH_EAST, &grid, 8192);
    assert_eq!(p, Player { x: 136103, y: 124518, angle: 0 });
    assert!(!grid.is_wall(cell(p.x), cell(p.y)));
}

#[test]
fn edge_of_the_map_stops_the_step() {
    let grid: Grid = grid_with(4, 4, &[]);
    let mut p: Player = Player { x: 6000, y: 98304, angle: PI };
    p.update(&Intents { backward: true, ..idle() }, &EAST, &grid, 8192);
    assert_eq!(p.x, 6000);
    let mut q: Player = Player { x: 98304, y: 4 * 65536 - 100, angle: 0 };
    q.update(&Intents { backward: true, ..idle() }, &NORTH, &grid, 8192);
    assert_eq!(q.y, 4 * 65536 - 100);
}

#[test]
fn long_tick_carries_the_viewer_past_the_probe() {
    let grid: Grid = grid_with(6, 4, &[(3, 1)]);
    let mut p: Player = Player { x: 98304, y: 98304, angle: 0 };
    p.update(&Intents { forward: true, ..idle() }, &EAST, &grid, 65536);
    assert_eq!(p.x, 98304 + 131072);
}

#[test]
fn turning_left_adds_to_the_angle() {
    let grid: Grid = grid_with(4, 4, &[]);
    let mut p: Player = Player { x: 98304, y: 98304, angle: 0 };
    p.update(&Intents { turn_left: true, ..idle() }, &EAST, &grid, 65536);
    assert_eq!(p, Player { x: 98304, y: 98304, angle: 98304 });
    p.update(&Intents { turn_left: true, ..idle() }, &EAST, &grid, 8192);
    assert_eq!(p.angle, 98304 + 12288);
}

#[test]
fn turning_right_wraps_below_zero() {
    let grid: Grid = grid_with(4, 4, &[]);
    let mut p: Player = Player { x: 98304, y: 98304, angle: 0 };
    p.update(&Intents { turn_right: true, ..idle() }, &EAST, &grid, 65536);
    assert_eq!(p.angle, 411775 - 98304);
}

#[test]
fn turning_left_wraps_past_a_full_turn() {
    let grid: Grid = grid_with(4, 4, &[]);
    let mut p: Player = Player { x: 98304, y: 98304, angle: 400000 };
    p.update(&Intents { turn_left: true, ..idle() }, &EAST, &grid, 65536);
    assert_eq!(p.angle, 86529);
}

#[test]
fn turning_both_ways_cancels() {
    let grid: Grid = grid_with(4, 4, &[]);
    let mut p: Player = Player { x: 98304, y: 98304, angle: 5 };
    p.update(&Intents { turn_left: true, turn_right: true, ..idle() }, &EAST, &grid, 65536);
    assert_eq!(p.angle, 5);
}

#[test]
fn angle_stays_within_one_turn() {
    let grid: Grid = grid_with(4, 4, &[]);
    let mut p: Player = Player { x: 98304, y: 98304, angle: 0 };
    let deltas: [u32; 6] = [1, 8192, 65536, 1000000, u32::MAX, 54321];
    for d in deltas {
        p.update(&Intents { turn_left: true, ..idle() }, &EAST, &grid, d);
        assert!(0 <= p.angle && p.angle < TWO_PI);
        p.update(&Intents { turn_right: true, ..idle() }, &EAST, &grid, d / 3 + 7);
        assert!(0 <= p.angle && p.angle < TWO_PI);
    }
    let mut wild: Player = Player { x: 98304, y: 98304, angle: i64::MIN };
    wild.update(&Intents { turn_right: true, ..idle() }, &EAST, &grid, u32::MAX);
    assert!(0 <= wild.angle && wild.angle < TWO_PI);
    let mut high: Player = Player { x: 98304, y: 98304, angle: i64::MAX };
    high.update(&Intents { turn_left: true, ..idle() }, &EAST, &grid, u32::MAX);
    assert!(0 <= high.angle && high.angle < TWO_PI);
}

#[test]
fn facing_commands_set_the_angle() {
    let grid: Grid = grid_with(4, 4, &[]);
    let mut p: Player = Player { x: 98304, y: 98304, angle: 77 };
    p.update(&Intents { face_north: true, ..idle() }, &EAST, &grid, 8192);
    assert_eq!(p.angle, HALF_PI);
    p.update(&Intents { face_west: true, ..idle() }, &EAST, &grid, 8192);
    assert_eq!(p.angle, PI);
    p.update(&Intents { face_south: true, ..idle() }, &EAST, &grid, 8192);
    assert_eq!(p.angle, THREE_HALVES_PI);
    p.update(&Intents { face_east: true, ..idle() }, &EAST, &grid, 8192);
    assert_eq!(p.angle, 0);
}

#[test]
fn facing_overrides_turning_and_the_last_command_wins() {
    let grid: Grid = grid_with(4, 4, &[]);
    let mut p: Player = Player { x: 98304, y: 98304, angle: 77 };
    p.update(&Intents { turn_left: true, face_north: true, ..idle() }, &EAST, &grid, 65536);
    assert_eq!(p.angle, HALF_PI);
    p.update(
        &Intents { face_east: true, face_north: true, face_west: true, ..idle() },
        &EAST,
        &grid,
        8192,
    );
    assert_eq!(p.angle, PI);
    p.update(
        &Intents {
            face_east: true,
            face_north: true,
            face_west: true,
            face_south: true,
            ..idle()
        },
        &EAST,
        &grid,
        8192,
    );
    assert_eq!(p.angle, THREE_HALVES_PI);
}

#[test]
fn position_is_confined_to_the_map() {
    let grid: Grid = grid_with(4, 2, &[]);
    assert_eq!(grid.tile_size, 225);
    let mut low: Player = Player { x: -5, y: i64::MIN, angle: 0 };
    low.update(&idle(), &EAST, &grid, 8192);
    assert_eq!(low, Player { x: 0, y: 0, angle: 0 });
    let mut high: Player = Player { x: 1000000000000, y: i64::MAX, angle: 0 };
    high.update(&idle(), &EAST, &grid, 8192);
    assert_eq!(high, Player { x: 4 * 225 * 65536, y: 2 * 225 * 65536, angle: 0 });
    let mut inside: Player = Player { x: 58982400, y: 29491200, angle: 0 };
    inside.update(&idle(), &EAST, &grid, 8192);
    assert_eq!(inside, Player { x: 58982400, y: 29491200, angle: 0 });
}

#[test]
fn short_ticks_never_end_inside_a_wall() {
    let mut walls: Vec<(i32, i32)> = Vec::new();
    let mut k: i32 = 0;
    while k < 8 {
        walls.push((k, 0));
        walls.push((k, 7));
        walls.push((0, k));
        walls.push((7, k));
        k += 1;
    }
    walls.push((3, 3));
    walls.push((4, 3));
    walls.push((5, 5));
    walls.push((2, 5));
    let grid: Grid = grid_with(8, 8, &walls);
    let mut p: Player = Player { x: 98304, y: 98304, angle: 0 };
    let mut seed: u64 = 12345;
    let mut tick: u32 = 0;
    while tick < 20000 {
        seed = seed.wrapping_mul(6364136223846793005).wrapping_add(1442695040888963407);
        let bits: u64 = seed >> 33;
        let intents: Intents = Intents {
            forward: bits & 1 != 0 || bits & 2 != 0,
            backward: bits & 4 != 0 && bits & 8 != 0,
            turn_left: bits & 16 != 0,
            turn_right: bits & 32 != 0 && bits & 64 != 0,
            face_east: bits & 0xff00 == 0x100,
            face_north: bits & 0xff00 == 0x200,
            face_west: bits & 0xff00 == 0x300,
            face_south: bits & 0xff00 == 0x400,
        };
        let delta: u32 = ((bits >> 16) % 8193) as u32;
        let heading: Heading = heading_of(p.angle);
        p.update(&intents, &heading, &grid, delta);
        assert!(!grid.is_wall(cell(p.x), cell(p.y)));
        tick += 1;
    }
}

#[test]
fn held_forward_into_a_corner_never_enters_a_wall() {
    let grid: Grid = grid_with(4, 4, &[(2, 2), (3, 1), (1, 3)]);
    let headings: [Heading; 4] = [SOUTH_EAST, EAST, NORTH_EAST, Heading { cos: 0, sin: -65536 }];
    for h in headings {
        let mut p: Player = Player { x: 98304, y: 98304, angle: 0 };
        let mut tick: u32 = 0;
        while tick < 200 {
            p.update(&Intents { forward: true, ..idle() }, &h, &grid, 8192);
            assert!(!grid.is_wall(cell(p.x), cell(p.y)));
            tick += 1;
        }
    }
}

#[test]
fn draw_marks_the_viewer_and_the_ends_of_the_rays() {
    let grid: Grid = grid_with(4, 4, &[]);
    let p: Player = Player { x: 131072, y: 131072, angle: 0 };
    let mut frame: Vec<u8> = vec![0u8; (WIDTH * HEIGHT * 4) as usize];
    p.draw(&mut frame, &grid, &EAST);
    // The viewer stands at pixel (224, 224).
    assert_eq!(frame_pixel(&frame, 219, 219), MARK_COLOUR);
    assert_eq!(frame_pixel(&frame, 219, 228), MARK_COLOUR);
    assert_eq!(frame_pixel(&frame, 218, 224), [0, 0, 0, 0]);
    // The middle ray runs two cells east and ends in a mark at (448, 224).
    assert_eq!(frame_pixel(&frame, 300, 224), BEAM_COLOUR);
    assert_eq!(frame_pixel(&frame, 452, 221), HIT_COLOUR);
    assert_eq!(frame_pixel(&frame, 454, 221), [0, 0, 0, 0]);
    // Nothing is drawn behind the viewer.
    assert_eq!(frame_pixel(&frame, 100, 224), [0, 0, 0, 0]);
}

#[test]
fn cast_ray_reports_the_length_and_draws_the_ray() {
    let grid: Grid = grid_with(4, 4, &[]);
    let p: Player = Player { x: 131072, y: 131072, angle: 0 };
    let mut frame: Vec<u8> = vec![0u8; (WIDTH * HEIGHT * 4) as usize];
    let length: u32 = p.cast_ray(224, 224, &grid, &mut frame, (65536, 0));
    assert_eq!(length, 131072);
    assert_eq!(frame_pixel(&frame, 224, 224), BEAM_COLOUR);
    assert_eq!(frame_pixel(&frame, 442, 224), BEAM_COLOUR);
    assert_eq!(frame_pixel(&frame, 443, 224), HIT_COLOUR);
    assert_eq!(frame_pixel(&frame, 452, 228), HIT_COLOUR);
    assert_eq!(frame_pixel(&frame, 453, 224), [0, 0, 0, 0]);
    assert_eq!(frame_pixel(&frame, 224, 225), [0, 0, 0, 0]);
}

#[test]
fn cast_ray_draws_a_miss_ten_cells_long() {
    let grid: Grid = grid_with(16, 16, &[]);
    assert_eq!(grid.tile_size, 28);
    let p: Player = Player { x: 8 * 65536, y: 8 * 65536, angle: 0 };
    let mut frame: Vec<u8> = vec![0u8; (WIDTH * HEIGHT * 4) as usize];
    let length: u32 = p.cast_ray(224, 224, &grid, &mut frame, (0, 65536));
    assert_eq!(length, 0);
    // Ten cells of 28 pixels down the screen, clipped at the bottom edge.
    assert_eq!(frame_pixel(&frame, 224, 300), BEAM_COLOUR);
    assert_eq!(frame_pixel(&frame, 224, 449), BEAM_COLOUR);
    let mut other: Vec<u8> = vec![0u8; (WIDTH * HEIGHT * 4) as usize];
    assert_eq!(p.cast_ray(224, 224, &grid, &mut other, (65536, 0)), 0);
    assert_eq!(frame_pixel(&other, 498, 224), BEAM_COLOUR);
    assert_eq!(frame_pixel(&other, 499, 224), HIT_COLOUR);
    assert_eq!(frame_pixel(&other, 508, 220), HIT_COLOUR);
    assert_eq!(frame_pixel(&other, 509, 224), [0, 0, 0, 0]);
}
