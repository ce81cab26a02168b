use maze_raycaster::geometry::{Vec2, DIR_SCALE};
use maze_raycaster::grid::{get_cell, get_cell_at_grid, is_walkable, parse_maze, world_to_grid, Maze};
use maze_raycaster::player::{Player, PlayerCommand};
use maze_raycaster::ray::{Ray, Side};
use maze_raycaster::raycaster::{cast_ray, cast_rays, cast_single_ray};

const B: usize = 64;

fn maze_of(rows: &[&str]) -> Maze {
    rows.iter().map(|r| r.chars().collect()).collect()
}

fn room(n: usize) -> Maze {
    let mut m = Vec::new();
    for y in 0..n {
        let mut row = Vec::new();
        for x in 0..n {
            row.push(if x == 0 || y == 0 || x == n - 1 || y == n - 1 { '1' } else { ' ' });
        }
        m.push(row);
    }
    m
}

fn center(gx: i64, gy: i64) -> Vec2 {
    Vec2::new(gx * B as i64 + B as i64 / 2, gy * B as i64 + B as i64 / 2)
}

#[test]
fn open_room_ray_east_hits_east_wall() {
    let maze = room(10);
    let player = Player::new(center(5, 5), Vec2::new(DIR_SCALE, 0));
    let ray = cast_single_ray(&player, &maze, B).expect("the east wall is hit");
    // The east wall's face is the line x = 9 * 64 = 576; the player stands at x = 352.
    assert_eq!(ray.distance(), 224);
    assert_eq!(ray.side_hit(), Side::Vertical);
    assert_eq!(ray.hit_point(), Vec2::new(576, 352));
    assert_eq!(ray.wall_type(), '1');
    assert_eq!((ray.cell_x, ray.cell_y), (9, 5));
}

#[test]
fn axis_aligned_rays_report_euclidean_distance() {
    let maze = room(10);
    let pos = Vec2::new(300, 200);
    let cases = [
        (Vec2::new(DIR_SCALE, 0), 276, Side::Vertical),
        (Vec2::new(0, DIR_SCALE), 376, Side::Horizontal),
        (Vec2::new(-DIR_SCALE, 0), 236, Side::Vertical),
        (Vec2::new(0, -DIR_SCALE), 136, Side::Horizontal),
    ];
    for (dir, dist, side) in cases.iter() {
        let player = Player::new(pos, *dir);
        let ray = cast_single_ray(&player, &maze, B).unwrap();
        let dx = ray.hit_point().x - pos.x;
        let dy = ray.hit_point().y - pos.y;
        assert_eq!(ray.distance() * ray.distance(), dx * dx + dy * dy);
        assert_eq!(ray.distance(), *dist);
        assert_eq!(ray.side_hit(), *side);
    }
}

/// Headings of `n` columns spread over `fov` radians around `angle`.
fn column_headings(angle: f64, fov: f64, n: usize) -> Vec<Vec2> {
    let s = DIR_SCALE as f64;
    (0..n)
        .map(|i| {
            let a = angle - fov / 2.0 + i as f64 * fov / n as f64;
            Vec2::new((a.cos() * s).round() as i64, (a.sin() * s).round() as i64)
        })
        .collect()
}

#[test]
fn flat_wall_reports_one_distance_across_columns() {
    // Facing east from x = 96 at a wall face x = 576: every column that meets
    // that face reports the perpendicular distance 480, not its ray length.
    let maze = room(10);
    let player = Player::new(center(1, 5), Vec2::new(DIR_SCALE, 0));
    let dirs = column_headings(0.0, 0.4, 9);
    let rays = cast_rays(&player, &maze, B, &dirs);
    assert_eq!(rays.len(), 9);
    for r in &rays {
        let r = r.expect("every column meets the east wall");
        assert_eq!(r.side_hit(), Side::Vertical);
        assert_eq!(r.cell_x, 9);
        assert_eq!(r.distance(), 480);
    }
    // An oblique column reports less than its ray length.
    let oblique = Vec2::new(60000, 26000);
    let near = Player::new(Vec2::new(96, 96), Vec2::new(DIR_SCALE, 0));
    let wall: Maze = vec!["111".chars().collect(), "1 1".chars().collect(), "111".chars().collect()];
    let r = cast_ray(&near, &wall, 64, oblique).unwrap();
    assert_eq!(r.distance(), 32);
}

#[test]
fn diagonal_ray_hits_corner_region() {
    let maze = room(10);
    let player = Player::new(center(5, 5), Vec2::new(46341, 46341));
    let ray = cast_ray(&player, &maze, B, player.direction()).unwrap();
    assert!(ray.cell_x == 9 || ray.cell_y == 9);
    assert!(maze[ray.cell_y][ray.cell_x] != ' ');
}

#[test]
fn ray_without_wall_in_range_is_none() {
    // More than 100 open cells before the far wall: the step cap gives up.
    let mut row = vec!['1'];
    row.extend(std::iter::repeat(' ').take(150));
    row.push('1');
    let maze: Maze = vec![row];
    let player = Player::new(center(1, 0), Vec2::new(DIR_SCALE, 0));
    assert!(cast_ray(&player, &maze, B, Vec2::new(DIR_SCALE, 0)).is_none());
    // The same corridor, shorter than the cap, is hit.
    let mut short = vec!['1'];
    short.extend(std::iter::repeat(' ').take(50));
    short.push('1');
    let maze2: Maze = vec![short];
    assert!(cast_ray(&player, &maze2, B, Vec2::new(DIR_SCALE, 0)).is_some());
}

#[test]
fn ray_leaving_open_grid_is_none() {
    let maze = maze_of(&["    ", "    "]);
    let player = Player::new(center(1, 1), Vec2::new(DIR_SCALE, 0));
    assert!(cast_ray(&player, &maze, B, Vec2::new(DIR_SCALE, 0)).is_none());
}

#[test]
fn zero_heading_and_outside_origin_are_none() {
    let maze = room(6);
    let player = Player::new(center(2, 2), Vec2::new(0, 0));
    assert!(cast_ray(&player, &maze, B, Vec2::new(0, 0)).is_none());
    let outside = Player::new(Vec2::new(-5, 10), Vec2::new(DIR_SCALE, 0));
    assert!(cast_ray(&outside, &maze, B, Vec2::new(DIR_SCALE, 0)).is_none());
    let far = Player::new(Vec2::new(10_000, 10), Vec2::new(DIR_SCALE, 0));
    assert!(cast_ray(&far, &maze, B, Vec2::new(DIR_SCALE, 0)).is_none());
}

#[test]
fn missed_columns_keep_their_slot() {
    let maze = maze_of(&["1   ", "1   "]);
    let player = Player::new(center(1, 0), Vec2::new(-DIR_SCALE, 0));
    let dirs = vec![Vec2::new(-DIR_SCALE, 0), Vec2::new(DIR_SCALE, 0), Vec2::new(-DIR_SCALE, 0)];
    let rays = cast_rays(&player, &maze, B, &dirs);
    assert_eq!(rays.len(), 3);
    assert!(rays[1].is_none());
    assert_eq!(rays[0].unwrap().cell_x, 0);
    assert_eq!(rays[2].unwrap().distance(), 32);
}

#[test]
fn ray_setters_replace_one_field() {
    let mut r = Ray::new(10, Vec2::new(1, 2), '2', Side::Horizontal, 3, 4);
    r.set_distance(20);
    r.set_hit_point(Vec2::new(5, 6));
    r.set_wall_type('3');
    r.set_side_hit(Side::Vertical);
    assert_eq!(r, Ray::new(20, Vec2::new(5, 6), '3', Side::Vertical, 3, 4));
}

#[test]
fn world_to_grid_rounds_down_and_rejects_negatives() {
    assert_eq!(world_to_grid(0, 64), Some(0));
    assert_eq!(world_to_grid(63, 64), Some(0));
    assert_eq!(world_to_grid(64, 64), Some(1));
    assert_eq!(world_to_grid(-1, 64), None);
}

#[test]
fn grid_queries_outside_are_none_or_not_walkable() {
    let maze = maze_of(&["111", "1 1", "121"]);
    assert_eq!(get_cell_at_grid(&maze, 1, 2), Some('2'));
    assert_eq!(get_cell_at_grid(&maze, 3, 0), None);
    assert_eq!(get_cell(&maze, 100, 100, 64), Some(' '));
    assert_eq!(get_cell(&maze, -1, 100, 64), None);
    assert!(is_walkable(&maze, 100, 100, 64));
    assert!(!is_walkable(&maze, 10, 10, 64));
    assert!(!is_walkable(&maze, 500, 10, 64));
}

#[test]
fn parse_maze_finds_player_and_opens_its_cell() {
    let lines: Vec<Vec<char>> = vec!["111".chars().collect(), "1p1".chars().collect(), "111".chars().collect()];
    let (maze, start) = parse_maze(&lines, 64).expect("player mark present");
    assert_eq!(maze[1], vec!['1', ' ', '1']);
    assert_eq!(start, Vec2::new(96, 96));
    let none: Vec<Vec<char>> = vec!["111".chars().collect()];
    assert!(parse_maze(&none, 64).is_none());
}

#[test]
fn parse_maze_uses_last_mark() {
    let lines: Vec<Vec<char>> = vec!["p  ".chars().collect(), " p ".chars().collect()];
    let (maze, start) = parse_maze(&lines, 10).unwrap();
    assert_eq!(start, Vec2::new(15, 15));
    assert_eq!(maze[0], vec![' ', ' ', ' ']);
}

#[test]
fn movement_slides_only_into_open_cells() {
    let maze = room(5);
    let mut p = Player::new(center(1, 1), Vec2::new(DIR_SCALE, 0));
    p.execute_command(PlayerCommand::MoveForward(10), &maze, B);
    assert_eq!(p.position(), Vec2::new(106, 96));
    p.execute_command(PlayerCommand::StrafeRight(7), &maze, B);
    assert_eq!(p.position(), Vec2::new(106, 103));
    p.execute_command(PlayerCommand::StrafeLeft(7), &maze, B);
    p.execute_command(PlayerCommand::MoveBackward(10), &maze, B);
    assert_eq!(p.position(), Vec2::new(96, 96));
    // Into the west wall: blocked.
    p.execute_command(PlayerCommand::MoveBackward(40), &maze, B);
    assert_eq!(p.position(), Vec2::new(96, 96));
    assert_eq!(PlayerCommand::move_forward(), PlayerCommand::MoveForward(7));
}

#[test]
fn blocked_moves_slide_along_walls() {
    let maze = maze_of(&["11111", "1   1", "1 1 1", "1   1", "11111"]);
    let mut p = Player::new(Vec2::new(80, 80), Vec2::new(DIR_SCALE, 0));
    // (140, 140) is in a wall; (140, 80) is open: slide along x.
    p.try_move(60, 60, &maze, B);
    assert_eq!(p.position(), Vec2::new(140, 80));
    // (140, 180) and (140, 140) are in the wall; (80, 180) is open: slide along y.
    let mut q = Player::new(Vec2::new(80, 140), Vec2::new(DIR_SCALE, 0));
    q.try_move(60, 40, &maze, B);
    assert_eq!(q.position(), Vec2::new(80, 180));
    // Nothing open: stay.
    let mut r = Player::new(Vec2::new(100, 100), Vec2::new(DIR_SCALE, 0));
    r.try_move(-64, -64, &maze, B);
    assert_eq!(r.position(), Vec2::new(100, 100));
}
