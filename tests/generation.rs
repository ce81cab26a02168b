use maze_raycaster::grid::{is_walkable, Maze};
use maze_raycaster::maze_generator::{carve_passages, find_starting_position, generate_large_maze, generate_maze, MazeConfig, Room};

fn border_is_solid(maze: &Maze) -> bool {
    let h = maze.len();
    let w = maze[0].len();
    (0..h).all(|y| (0..w).all(|x| !(x == 0 || y == 0 || x == w - 1 || y == h - 1) || maze[y][x] != ' '))
}

#[test]
fn large_maze_is_square_bordered_and_textured() {
    let (maze, start) = generate_large_maze(64);
    assert_eq!(maze.len(), 35);
    assert!(maze.iter().all(|row| row.len() == 35));
    assert!(border_is_solid(&maze));
    assert!(maze.iter().flatten().all(|&c| c == ' ' || ('1'..='4').contains(&c)));
    assert!(maze.iter().flatten().any(|&c| c == ' '));
    assert!(is_walkable(&maze, start.x, start.y, 64) || (start.x, start.y) == (128, 128));
}

#[test]
fn configured_maze_has_requested_size() {
    let config = MazeConfig::new(21, 15).with_rooms(3, 2, 4).with_wall_types(vec!['#']);
    assert_eq!(config.wall_types, vec!['#']);
    let (maze, _start) = generate_maze(&config, 32);
    assert_eq!(maze.len(), 15);
    assert!(maze.iter().all(|row| row.len() == 21));
    assert!(border_is_solid(&maze));
    assert!(maze.iter().flatten().all(|&c| c == ' ' || c == '+'));
}

#[test]
fn rooms_overlap_within_margin() {
    let a = Room::new(1, 1, 3, 3);
    let b = Room::new(6, 1, 3, 3);
    // 1 + 3 + 2 = 6 does not reach past b's left edge at 6; a margin of 3 does.
    assert!(a.overlaps(&b, 3));
    assert!(!a.overlaps(&b, 2));
    assert_eq!(a.center(), (2, 2));
    let mut maze: Maze = vec![vec!['+'; 6]; 6];
    a.carve(&mut maze);
    assert_eq!(maze[1][1..4], [' ', ' ', ' ']);
    assert_eq!(maze[3][3], ' ');
    assert_eq!(maze[4][1], '+');
    assert_eq!(maze[1][4], '+');
}

#[test]
fn carving_opens_every_reachable_half_cell() {
    let mut maze: Maze = vec![vec!['+'; 9]; 9];
    let mut visited = vec![vec![false; 4]; 4];
    carve_passages(&mut maze, &mut visited, 0, 0, &vec!['1']);
    assert!(visited.iter().flatten().all(|&v| v));
    for y in 0..4 {
        for x in 0..4 {
            assert_eq!(maze[2 * y + 1][2 * x + 1], ' ');
        }
    }
    // A spanning tree of 16 cells opens 15 walls between them.
    let open = maze.iter().flatten().filter(|&&c| c == ' ').count();
    assert_eq!(open, 16 + 15);
}

#[test]
fn start_position_falls_back_when_nothing_is_open() {
    let maze: Maze = vec![vec!['+'; 7]; 7];
    let p = find_starting_position(&maze, 64);
    assert_eq!((p.x, p.y), (128, 128));
    let mut open = maze.clone();
    for row in open.iter_mut().take(5).skip(2) {
        for c in row.iter_mut().take(5).skip(2) {
            *c = ' ';
        }
    }
    let q = find_starting_position(&open, 64);
    assert!(is_walkable(&open, q.x, q.y, 64));
}
