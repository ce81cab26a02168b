use vstd::prelude::*;
use crate::geometry::{Vec2, COORD_LIMIT};

verus! {

/// The maze: rows of cells, `' '` for open space, any other character a wall
/// whose character selects its material.
pub type Maze = Vec<Vec<char>>;

/// The character of a traversable cell.
pub const OPEN: char = ' ';

/// A maze with at least one row, at least one column, and rows of equal length.
pub open spec fn maze_wf(m: Seq<Vec<char>>) -> bool {
    &&& m.len() > 0
    &&& m[0]@.len() > 0
    &&& forall|i: int| 0 <= i < m.len() ==> (#[trigger] m[i]@).len() == m[0]@.len()
}

pub open spec fn maze_width(m: Seq<Vec<char>>) -> int {
    m[0]@.len() as int
}

pub open spec fn maze_height(m: Seq<Vec<char>>) -> int {
    m.len() as int
}

pub open spec fn in_grid(m: Seq<Vec<char>>, gx: int, gy: int) -> bool {
    0 <= gy < maze_height(m) && 0 <= gx < maze_width(m)
}

pub open spec fn cell(m: Seq<Vec<char>>, gx: int, gy: int) -> char {
    m[gy]@[gx]
}

pub open spec fn is_open_cell(m: Seq<Vec<char>>, gx: int, gy: int) -> bool {
    in_grid(m, gx, gy) && cell(m, gx, gy) == OPEN
}

/// Every cell of the outer border is a wall.
pub open spec fn has_solid_border(m: Seq<Vec<char>>) -> bool {
    forall|gx: int, gy: int|
        #![trigger cell(m, gx, gy)]
        in_grid(m, gx, gy) && (gx == 0 || gy == 0 || gx == maze_width(m) - 1 || gy
            == maze_height(m) - 1) ==> cell(m, gx, gy) != OPEN
}

/// The cell that holds world coordinate `c`, rounding down; `None` below zero
/// or beyond `usize`.
pub open spec fn grid_coord(c: int, block_size: int) -> Option<int> {
    if c < 0 { None } else { Some(c / block_size) }
}

/// The grid cell containing world coordinate `coord`, by floor division;
/// `None` when the coordinate is negative (no cell holds it).
pub fn world_to_grid(coord: i64, block_size: usize) -> (r: Option<usize>)
    requires
        block_size > 0,
    ensures
        match r {
            Some(g) => coord >= 0 && g as int == coord as int / block_size as int,
            None => coord < 0 || coord as int / block_size as int > usize::MAX,
        },
{
    if coord < 0 {
        return None;
    }
    let q: u64 = coord as u64 / block_size as u64;
    if q > usize::MAX as u64 {
        None
    } else {
        Some(q as usize)
    }
}

/// The cell at grid coordinates, or `None` outside the grid.
pub fn get_cell_at_grid(maze: &Maze, grid_x: usize, grid_y: usize) -> (r: Option<char>)
    requires
        maze_wf(maze@),
    ensures
        r == (if in_grid(maze@, grid_x as int, grid_y as int) {
            Some(cell(maze@, grid_x as int, grid_y as int))
        } else {
            None
        }),
{
    if grid_y >= maze.len() || grid_x >= maze[0].len() {
        return None;
    }
    Some(maze[grid_y][grid_x])
}

/// The cell containing the world point `(x, y)`, or `None` outside the grid.
pub fn get_cell(maze: &Maze, x: i64, y: i64, block_size: usize) -> (r: Option<char>)
    requires
        maze_wf(maze@),
        block_size > 0,
    ensures
        r == (if x >= 0 && y >= 0 && in_grid(
            maze@,
            x as int / block_size as int,
            y as int / block_size as int,
        ) {
            Some(cell(maze@, x as int / block_size as int, y as int / block_size as int))
        } else {
            None
        }),
{
    let height = maze.len();
    let width = maze[0].len();
    assert(height == maze_height(maze@) && width == maze_width(maze@));
    match (world_to_grid(x, block_size), world_to_grid(y, block_size)) {
        (Some(j), Some(i)) => get_cell_at_grid(maze, j, i),
        _ => None,
    }
}

/// Whether the world point `(x, y)` lies in an open cell of the grid.
pub fn is_walkable(maze: &Maze, x: i64, y: i64, block_size: usize) -> (r: bool)
    requires
        maze_wf(maze@),
        block_size > 0,
    ensures
        r == walkable(maze@, x as int, y as int, block_size as int),
{
    match get_cell(maze, x, y, block_size) {
        Some(c) => c == OPEN,
        None => false,
    }
}

/// The world point `(x, y)` lies in an open cell.
pub open spec fn walkable(m: Seq<Vec<char>>, x: int, y: int, block_size: int) -> bool {
    x >= 0 && y >= 0 && is_open_cell(m, x / block_size, y / block_size)
}

/// The marker of the player's start in maze text.
pub const PLAYER_MARK: char = 'p';

/// A maze line with the player's mark turned into open floor.
pub open spec fn unmark(line: Seq<char>) -> Seq<char> {
    line.map_values(|c: char| if c == PLAYER_MARK { OPEN } else { c })
}

/// Row `r`, column `c` of the text holds the player's mark.
pub open spec fn marked(lines: Seq<Vec<char>>, r: int, c: int) -> bool {
    0 <= r < lines.len() && 0 <= c < lines[r]@.len() && lines[r]@[c] == PLAYER_MARK
}

/// Builds the maze from its text, one line per row: the player's mark `p`
/// becomes open floor, and the player starts at the centre of the last marked
/// cell (in reading order). `None` when no cell is marked.
pub fn parse_maze(lines: &Vec<Vec<char>>, block_size: usize) -> (r: Option<(Maze, Vec2)>)
    requires
        lines@.len() * block_size <= COORD_LIMIT,
        forall|i: int| 0 <= i < lines@.len() ==> (#[trigger] lines@[i])@.len() * block_size <= COORD_LIMIT,
    ensures
        match r {
            Some((maze, start)) => {
                &&& maze@.len() == lines@.len()
                &&& forall|i: int| 0 <= i < maze@.len() ==> (#[trigger] maze@[i])@ == unmark(lines@[i]@)
                &&& exists|row: int, col: int|
                    #[trigger] marked(lines@, row, col) && start == (Vec2 {
                        x: (col * block_size + block_size / 2) as i64,
                        y: (row * block_size + block_size / 2) as i64,
                    }) && forall|r2: int, c2: int|
                        #[trigger] marked(lines@, r2, c2) ==> r2 < row || (r2 == row && c2 <= col)
            },
            None => forall|row: int, col: int| !#[trigger] marked(lines@, row, col),
        },
{
    let mut maze: Maze = Vec::new();
    let mut start: Option<Vec2> = None;
    let ghost mut last_r: int = 0;
    let ghost mut last_c: int = 0;
    let mut i: usize = 0;
    while i < lines.len()
        invariant
            0 <= i <= lines@.len(),
            lines@.len() * block_size <= COORD_LIMIT,
            forall|k: int| 0 <= k < lines@.len() ==> (#[trigger] lines@[k])@.len() * block_size <= COORD_LIMIT,
            maze@.len() == i,
            forall|k: int| 0 <= k < i ==> (#[trigger] maze@[k])@ == unmark(lines@[k]@),
            match start {
                Some(st) => {
                    &&& marked(lines@, last_r, last_c)
                    &&& last_r < i
                    &&& st == (Vec2 {
                        x: (last_c * block_size + block_size / 2) as i64,
                        y: (last_r * block_size + block_size / 2) as i64,
                    })
                    &&& forall|r2: int, c2: int|
                        #[trigger] marked(lines@, r2, c2) && r2 < i ==> r2 < last_r || (r2 == last_r
                            && c2 <= last_c)
                },
                None => forall|r2: int, c2: int| #[trigger] marked(lines@, r2, c2) ==> r2 >= i,
            },
        decreases lines@.len() - i,
    {
        let line = &lines[i];
        let mut row: Vec<char> = Vec::new();
        let mut j: usize = 0;
        while j < line.len()
            invariant
                0 <= j <= line@.len(),
                *line == lines@[i as int],
                0 <= i < lines@.len(),
                lines@.len() * block_size <= COORD_LIMIT,
                line@.len() * block_size <= COORD_LIMIT,
                row@ == unmark(line@.subrange(0, j as int)),
                match start {
                    Some(st) => {
                        &&& marked(lines@, last_r, last_c)
                        &&& last_r <= i
                        &&& st == (Vec2 {
                            x: (last_c * block_size + block_size / 2) as i64,
                            y: (last_r * block_size + block_size / 2) as i64,
                        })
                        &&& forall|r2: int, c2: int|
                            #[trigger] marked(lines@, r2, c2) && (r2 < i || (r2 == i && c2 < j)) ==> r2
                                < last_r || (r2 == last_r && c2 <= last_c)
                    },
                    None => forall|r2: int, c2: int|
                        #[trigger] marked(lines@, r2, c2) ==> r2 > i || (r2 == i && c2 >= j),
                },
            decreases line@.len() - j,
        {
            let ch = line[j];
            if ch == PLAYER_MARK {
                assert(j * block_size + block_size <= COORD_LIMIT && i * block_size + block_size
                    <= COORD_LIMIT) by (nonlinear_arith)
                    requires
                        j < line@.len(),
                        i < lines@.len(),
                        line@.len() * block_size <= COORD_LIMIT,
                        lines@.len() * block_size <= COORD_LIMIT,
                ;
                let half = (block_size / 2) as u64;
                let x = (j as u64 * block_size as u64 + half) as i64;
                let y = (i as u64 * block_size as u64 + half) as i64;
                start = Some(Vec2 { x, y });
                proof {
                    last_r = i as int;
                    last_c = j as int;
                    assert(marked(lines@, i as int, j as int));
                }
                row.push(OPEN);
            } else {
                row.push(ch);
            }
            assert(line@.subrange(0, j + 1) == line@.subrange(0, j as int).push(ch));
            j = j + 1;
        }
        assert(line@.subrange(0, line@.len() as int) == line@);
        maze.push(row);
        i = i + 1;
    }
    match start {
        Some(st) => Some((maze, st)),
        None => None,
    }
}

} // verus!
