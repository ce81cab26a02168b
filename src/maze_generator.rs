use vstd::prelude::*;
use crate::geometry::{Vec2, COORD_LIMIT};
use crate::grid::{Maze, OPEN, maze_wf, maze_width, maze_height, cell, has_solid_border, in_grid, walkable};
use crate::random::{random_up_to, shuffle};

verus! {

/// The character of uncarved rock before wall materials are assigned.
pub const ROCK: char = '+';

/// How unvisited cells a visit grid still has.
pub open spec fn unvisited_in_row(row: Seq<bool>) -> nat
    decreases row.len(),
{
    if row.len() == 0 {
        0
    } else {
        unvisited_in_row(row.drop_last()) + if row.last() { 0nat } else { 1nat }
    }
}

pub open spec fn unvisited(rows: Seq<Vec<bool>>) -> nat
    decreases rows.len(),
{
    if rows.len() == 0 {
        0
    } else {
        unvisited(rows.drop_last()) + unvisited_in_row(rows.last()@)
    }
}

/// `after` has the shape of `before` and every cell visited there is still visited.
pub open spec fn visits_grow(before: Seq<Vec<bool>>, after: Seq<Vec<bool>>) -> bool {
    &&& after.len() == before.len()
    &&& forall|i: int| 0 <= i < before.len() ==> (#[trigger] after[i])@.len() == before[i]@.len()
    &&& forall|i: int, j: int|
        0 <= i < before.len() && 0 <= j < before[i]@.len() && #[trigger] before[i]@[j] ==> after[i]@[j]
}

proof fn lemma_row_grow(before: Seq<bool>, after: Seq<bool>)
    requires
        after.len() == before.len(),
        forall|j: int| 0 <= j < before.len() && #[trigger] before[j] ==> after[j],
    ensures
        unvisited_in_row(after) <= unvisited_in_row(before),
    decreases before.len(),
{
    if before.len() > 0 {
        lemma_row_grow(before.drop_last(), after.drop_last());
    }
}

/// More visits never leave more cells unvisited.
proof fn lemma_visits_grow(before: Seq<Vec<bool>>, after: Seq<Vec<bool>>)
    requires
        visits_grow(before, after),
    ensures
        unvisited(after) <= unvisited(before),
    decreases before.len(),
{
    if before.len() > 0 {
        let n = before.len() - 1;
        assert(visits_grow(before.drop_last(), after.drop_last())) by {
            assert forall|i: int, j: int|
                0 <= i < before.drop_last().len() && 0 <= j < before.drop_last()[i]@.len()
                    && #[trigger] before.drop_last()[i]@[j] implies after.drop_last()[i]@[j] by {
                assert(before[i]@[j]);
            }
        }
        lemma_visits_grow(before.drop_last(), after.drop_last());
        assert forall|j: int| 0 <= j < before[n]@.len() && #[trigger] before[n]@[j] implies after[n]@[j] by {
        }
        lemma_row_grow(before[n]@, after[n]@);
    }
}

proof fn lemma_row_mark(row: Seq<bool>, j: int)
    requires
        0 <= j < row.len(),
        !row[j],
    ensures
        unvisited_in_row(row.update(j, true)) + 1 == unvisited_in_row(row),
    decreases row.len(),
{
    let r2 = row.update(j, true);
    if j < row.len() - 1 {
        assert(r2.drop_last() == row.drop_last().update(j, true));
        lemma_row_mark(row.drop_last(), j);
    } else {
        assert(r2.drop_last() == row.drop_last());
    }
}

/// Visiting a cell not yet visited leaves one fewer unvisited.
proof fn lemma_mark(rows: Seq<Vec<bool>>, new_row: Vec<bool>, i: int, j: int)
    requires
        0 <= i < rows.len(),
        0 <= j < rows[i]@.len(),
        !rows[i]@[j],
        new_row@ == rows[i]@.update(j, true),
    ensures
        unvisited(rows.update(i, new_row)) + 1 == unvisited(rows),
    decreases rows.len(),
{
    let r2 = rows.update(i, new_row);
    lemma_row_mark(rows[i]@, j);
    if i < rows.len() - 1 {
        assert(r2.drop_last() == rows.drop_last().update(i, new_row));
        lemma_mark(rows.drop_last(), new_row, i, j);
    } else {
        assert(r2.drop_last() == rows.drop_last());
    }
}

/// `after` has the shape of `before` and differs only where it opened cells.
pub open spec fn only_opened(before: Seq<Vec<char>>, after: Seq<Vec<char>>) -> bool {
    &&& after.len() == before.len()
    &&& forall|i: int| 0 <= i < before.len() ==> (#[trigger] after[i])@.len() == before[i]@.len()
    &&& forall|i: int, j: int|
        0 <= i < before.len() && 0 <= j < before[i]@.len() ==> #[trigger] after[i]@[j] == before[i]@[j]
            || after[i]@[j] == OPEN
}

/// Opens the cell at row `i`, column `j`.
fn open_cell(maze: &mut Maze, i: usize, j: usize)
    requires
        i < old(maze)@.len(),
        j < old(maze)@[i as int]@.len(),
    ensures
        only_opened(old(maze)@, final(maze)@),
        final(maze)@[i as int]@[j as int] == OPEN,
        forall|a: int, b: int|
            0 <= a < old(maze)@.len() && 0 <= b < old(maze)@[a]@.len() && !(a == i && b == j) ==> #[trigger] final(maze)@[a]@[b]
                == old(maze)@[a]@[b],
{
    let mut row = maze[i].clone();
    row.set(j, OPEN);
    maze.set(i, row);
}

/// Carves corridors by randomized depth-first search over a half-resolution
/// grid of `visited` cells: cell `(x, y)` there is maze cell `(2x + 1, 2y + 1)`,
/// and stepping to an unvisited neighbour opens the maze cell between them.
pub fn carve_passages(maze: &mut Maze, visited: &mut Vec<Vec<bool>>, x: usize, y: usize, wall_types: &Vec<char>)
    requires
        y < old(visited)@.len() && x < old(visited)@[y as int]@.len() ==> !old(visited)@[y as int]@[x as int],
        forall|i: int| 0 <= i < old(visited)@.len() ==> (#[trigger] old(visited)@[i])@.len() == old(visited)@[0]@.len(),
        old(visited)@.len() <= 0x1000_0000,
        old(visited)@.len() > 0 ==> old(visited)@[0]@.len() <= 0x1000_0000,
    ensures
        only_opened(old(maze)@, final(maze)@),
        visits_grow(old(visited)@, final(visited)@),
        y < old(visited)@.len() && x < old(visited)@[y as int]@.len() ==> final(visited)@[y as int]@[x as int],
    decreases unvisited(old(visited)@),
{
    let ghost maze0 = maze@;
    let ghost visited0 = visited@;
    if y >= visited.len() || x >= visited[0].len() {
        return;
    }
    let mut vrow = visited[y].clone();
    vrow.set(x, true);
    proof {
        lemma_mark(visited@, vrow, y as int, x as int);
    }
    visited.set(y, vrow);
    let ghost budget = unvisited(visited@);
    assert(budget < unvisited(visited0));
    let maze_x = x * 2 + 1;
    let maze_y = y * 2 + 1;
    if maze_y < maze.len() && maze_x < maze[maze_y].len() {
        open_cell(maze, maze_y, maze_x);
    }
    let mut directions: Vec<(i64, i64)> = vec![(0, -1), (1, 0), (0, 1), (-1, 0)];
    shuffle(&mut directions);
    let mut k: usize = 0;
    while k < directions.len()
        invariant
            visited0 == old(visited)@,
            maze0 == old(maze)@,
            only_opened(maze0, maze@),
            visits_grow(visited0, visited@),
            visited@[y as int]@[x as int],
            y < visited@.len(),
            x < visited@[y as int]@.len(),
            unvisited(visited@) <= budget,
            budget < unvisited(visited0),
            forall|i: int| 0 <= i < visited@.len() ==> (#[trigger] visited@[i])@.len() == visited@[0]@.len(),
            visited@.len() <= 0x1000_0000,
            visited@[0]@.len() <= 0x1000_0000,
            maze_x == x * 2 + 1,
            maze_y == y * 2 + 1,
        decreases directions@.len() - k,
    {
        let (dx, dy) = directions[k];
        k = k + 1;
        if dx < -1 || dx > 1 || dy < -1 || dy > 1 {
            continue;
        }
        let nx = x as i64 + dx;
        let ny = y as i64 + dy;
        if nx < 0 || ny < 0 {
            continue;
        }
        let nxu = nx as usize;
        let nyu = ny as usize;
        if nyu >= visited.len() || nxu >= visited[0].len() || visited[nyu][nxu] {
            continue;
        }
        let wall_x = maze_x as i64 + dx;
        let wall_y = maze_y as i64 + dy;
        if wall_x >= 0 && wall_y >= 0 && (wall_y as usize) < maze.len() && (wall_x as usize) < maze[wall_y as usize].len() {
            open_cell(maze, wall_y as usize, wall_x as usize);
        }
        let ghost m1 = maze@;
        let ghost v1 = visited@;
        carve_passages(maze, visited, nxu, nyu, wall_types);
        proof {
            lemma_visits_grow(v1, visited@);
            assert(visited@[y as int]@[x as int]);
        }
    }
}

/// Largest maze side the generator builds.
pub const MAX_MAZE_SIDE: usize = 0x1000;

/// Size, wall materials and rooms of a maze to generate.
pub struct MazeConfig {
    pub width: usize,
    pub height: usize,
    pub wall_types: Vec<char>,
    /// How many rooms to try to place.
    pub num_rooms: usize,
    pub min_room_size: usize,
    pub max_room_size: usize,
}

impl MazeConfig {
    /// A `width` by `height` maze with four wall materials and up to five
    /// rooms of side 3 to 7.
    pub fn new(width: usize, height: usize) -> (r: Self)
        ensures
            r.width == width,
            r.height == height,
            r.wall_types@ == seq!['1', '2', '3', '4'],
            r.num_rooms == 5,
            r.min_room_size == 3,
            r.max_room_size == 7,
    {
        MazeConfig {
            width,
            height,
            wall_types: vec!['1', '2', '3', '4'],
            num_rooms: 5,
            min_room_size: 3,
            max_room_size: 7,
        }
    }

    pub fn with_wall_types(self, wall_types: Vec<char>) -> (r: Self)
        ensures
            r.wall_types@ == wall_types@,
            r.width == self.width,
            r.height == self.height,
            r.num_rooms == self.num_rooms,
            r.min_room_size == self.min_room_size,
            r.max_room_size == self.max_room_size,
    {
        MazeConfig { wall_types, ..self }
    }

    pub fn with_rooms(self, num_rooms: usize, min_size: usize, max_size: usize) -> (r: Self)
        ensures
            r.wall_types@ == self.wall_types@,
            r.width == self.width,
            r.height == self.height,
            r.num_rooms == num_rooms,
            r.min_room_size == min_size,
            r.max_room_size == max_size,
    {
        MazeConfig { num_rooms, min_room_size: min_size, max_room_size: max_size, ..self }
    }
}

/// A rectangular room: its top-left cell and its size in cells.
#[derive(Debug, Clone, Copy, PartialEq, Eq, Structural)]
pub struct Room {
    pub x: usize,
    pub y: usize,
    pub width: usize,
    pub height: usize,
}

pub open spec fn room_ok(r: Room) -> bool {
    r.x <= MAX_MAZE_SIDE && r.y <= MAX_MAZE_SIDE && r.width <= MAX_MAZE_SIDE && r.height <= MAX_MAZE_SIDE
}

pub open spec fn in_room(r: Room, gx: int, gy: int) -> bool {
    r.x <= gx < r.x + r.width && r.y <= gy < r.y + r.height
}

impl Room {
    pub fn new(x: usize, y: usize, width: usize, height: usize) -> (r: Room)
        ensures
            r == (Room { x, y, width, height }),
    {
        Room { x, y, width, height }
    }

    /// The room's middle cell (rounding down).
    pub fn center(&self) -> (r: (usize, usize))
        requires
            room_ok(*self),
        ensures
            r == ((self.x + self.width / 2) as usize, (self.y + self.height / 2) as usize),
    {
        (self.x + self.width / 2, self.y + self.height / 2)
    }

    /// Whether the two rooms, each grown by `margin` cells, overlap.
    pub fn overlaps(&self, other: &Room, margin: usize) -> (r: bool)
        requires
            room_ok(*self),
            room_ok(*other),
            margin <= MAX_MAZE_SIDE,
        ensures
            r == (self.x < other.x + other.width + margin && self.x + self.width + margin > other.x
                && self.y < other.y + other.height + margin && self.y + self.height + margin > other.y),
    {
        self.x < other.x + other.width + margin && self.x + self.width + margin > other.x && self.y
            < other.y + other.height + margin && self.y + self.height + margin > other.y
    }

    /// Opens every maze cell of the room that lies on the grid.
    pub fn carve(&self, maze: &mut Maze)
        requires
            room_ok(*self),
            maze_wf(old(maze)@),
        ensures
            only_opened(old(maze)@, final(maze)@),
            maze_wf(final(maze)@),
            forall|gx: int, gy: int|
                in_room(*self, gx, gy) && in_grid(old(maze)@, gx, gy) ==> #[trigger] cell(final(maze)@, gx, gy) == OPEN,
    {
        let ghost m0 = maze@;
        let height = maze.len();
        let width = maze[0].len();
        let mut y = self.y;
        while y < self.y + self.height
            invariant
                room_ok(*self),
                maze_wf(maze@),
                height == maze_height(m0),
                width == maze_width(m0),
                maze@.len() == height,
                maze_width(maze@) == width,
                only_opened(m0, maze@),
                self.y <= y <= self.y + self.height,
                forall|gx: int, gy: int|
                    in_room(*self, gx, gy) && gy < y && in_grid(m0, gx, gy) ==> #[trigger] cell(maze@, gx, gy) == OPEN,
            decreases self.y + self.height - y,
        {
            let mut x = self.x;
            while x < self.x + self.width
                invariant
                    room_ok(*self),
                    maze_wf(maze@),
                    height == maze_height(m0),
                    width == maze_width(m0),
                    maze@.len() == height,
                    maze_width(maze@) == width,
                    only_opened(m0, maze@),
                    self.y <= y < self.y + self.height,
                    self.x <= x <= self.x + self.width,
                    forall|gx: int, gy: int|
                        in_room(*self, gx, gy) && (gy < y || (gy == y && gx < x)) && in_grid(m0, gx, gy)
                            ==> #[trigger] cell(maze@, gx, gy) == OPEN,
                decreases self.x + self.width - x,
            {
                let ghost before = maze@;
                if y < height && x < width {
                    open_cell(maze, y, x);
                    assert(maze_wf(maze@)) by {
                        assert forall|i: int| 0 <= i < maze@.len() implies (#[trigger] maze@[i])@.len() == maze@[0]@.len() by {
                            assert(before[i]@.len() == before[0]@.len());
                        }
                    }
                }
                assert forall|gx: int, gy: int|
                    in_room(*self, gx, gy) && (gy < y || (gy == y && gx < x + 1)) && in_grid(m0, gx, gy)
                        implies #[trigger] cell(maze@, gx, gy) == OPEN by {
                    if !(gx == x && gy == y) {
                        assert(cell(before, gx, gy) == OPEN);
                    }
                }
                x = x + 1;
            }
            y = y + 1;
        }
    }
}

/// A `height` by `width` grid of rock.
fn solid_grid(width: usize, height: usize) -> (r: Maze)
    requires
        0 < width,
        0 < height,
    ensures
        maze_wf(r@),
        maze_width(r@) == width,
        maze_height(r@) == height,
        forall|gx: int, gy: int| in_grid(r@, gx, gy) ==> #[trigger] cell(r@, gx, gy) == ROCK,
{
    let mut maze: Maze = Vec::new();
    let mut i: usize = 0;
    while i < height
        invariant
            i <= height,
            maze@.len() == i,
            forall|k: int| 0 <= k < i ==> (#[trigger] maze@[k])@ == Seq::new(width as nat, |j: int| ROCK),
        decreases height - i,
    {
        let mut row: Vec<char> = Vec::new();
        let mut j: usize = 0;
        while j < width
            invariant
                j <= width,
                row@ == Seq::new(j as nat, |k: int| ROCK),
            decreases width - j,
        {
            row.push(ROCK);
            j = j + 1;
        }
        maze.push(row);
        i = i + 1;
    }
    maze
}

/// A visit grid of `height` rows of `width` unvisited cells.
fn unvisited_grid(width: usize, height: usize) -> (r: Vec<Vec<bool>>)
    ensures
        r@.len() == height,
        forall|i: int| 0 <= i < height ==> (#[trigger] r@[i])@ == Seq::new(width as nat, |j: int| false),
{
    let mut grid: Vec<Vec<bool>> = Vec::new();
    let mut i: usize = 0;
    while i < height
        invariant
            i <= height,
            grid@.len() == i,
            forall|k: int| 0 <= k < i ==> (#[trigger] grid@[k])@ == Seq::new(width as nat, |j: int| false),
        decreases height - i,
    {
        let mut row: Vec<bool> = Vec::new();
        let mut j: usize = 0;
        while j < width
            invariant
                j <= width,
                row@ == Seq::new(j as nat, |k: int| false),
            decreases width - j,
        {
            row.push(false);
            j = j + 1;
        }
        grid.push(row);
        i = i + 1;
    }
    grid
}

/// Sets the cell at row `i`, column `j` to `c`.
fn put_cell(maze: &mut Maze, i: usize, j: usize, c: char)
    requires
        maze_wf(old(maze)@),
        i < old(maze)@.len(),
        j < maze_width(old(maze)@),
    ensures
        maze_wf(final(maze)@),
        maze_width(final(maze)@) == maze_width(old(maze)@),
        maze_height(final(maze)@) == maze_height(old(maze)@),
        forall|gx: int, gy: int|
            in_grid(old(maze)@, gx, gy) ==> #[trigger] cell(final(maze)@, gx, gy) == if gx == j && gy == i {
                c
            } else {
                cell(old(maze)@, gx, gy)
            },
{
    let ghost before = maze@;
    let mut row = maze[i].clone();
    row.set(j, c);
    maze.set(i, row);
    assert forall|k: int| 0 <= k < maze@.len() implies (#[trigger] maze@[k])@.len() == maze@[0]@.len() by {
        assert(before[k]@.len() == before[0]@.len());
    }
}

/// Makes every border cell rock.
fn close_border(maze: &mut Maze)
    requires
        maze_wf(old(maze)@),
    ensures
        maze_wf(final(maze)@),
        maze_width(final(maze)@) == maze_width(old(maze)@),
        maze_height(final(maze)@) == maze_height(old(maze)@),
        has_solid_border(final(maze)@),
        forall|gx: int, gy: int|
            in_grid(old(maze)@, gx, gy) ==> #[trigger] cell(final(maze)@, gx, gy) == if gx == 0 || gy == 0 || gx
                == maze_width(old(maze)@) - 1 || gy == maze_height(old(maze)@) - 1 {
                ROCK
            } else {
                cell(old(maze)@, gx, gy)
            },
{
    let ghost m0 = maze@;
    let height = maze.len();
    let width = maze[0].len();
    let mut x: usize = 0;
    while x < width
        invariant
            maze_wf(maze@),
            maze_width(maze@) == width,
            maze_height(maze@) == height,
            width == maze_width(m0),
            height == maze_height(m0),
            x <= width,
            forall|gx: int, gy: int|
                in_grid(m0, gx, gy) ==> #[trigger] cell(maze@, gx, gy) == if (gy == 0 || gy == height - 1) && gx < x {
                    ROCK
                } else {
                    cell(m0, gx, gy)
                },
        decreases width - x,
    {
        put_cell(maze, 0, x, ROCK);
        put_cell(maze, height - 1, x, ROCK);
        x = x + 1;
    }
    let mut y: usize = 0;
    while y < height
        invariant
            maze_wf(maze@),
            maze_width(maze@) == width,
            maze_height(maze@) == height,
            width == maze_width(m0),
            height == maze_height(m0),
            y <= height,
            forall|gx: int, gy: int|
                in_grid(m0, gx, gy) ==> #[trigger] cell(maze@, gx, gy) == if gy == 0 || gy == height - 1 || ((gx == 0
                    || gx == width - 1) && gy < y) {
                    ROCK
                } else {
                    cell(m0, gx, gy)
                },
        decreases height - y,
    {
        put_cell(maze, y, 0, ROCK);
        put_cell(maze, y, width - 1, ROCK);
        y = y + 1;
    }
}

/// Every cell is rock or open.
pub open spec fn rock_or_open(m: Seq<Vec<char>>) -> bool {
    forall|gx: int, gy: int| in_grid(m, gx, gy) ==> #[trigger] cell(m, gx, gy) == ROCK || cell(m, gx, gy) == OPEN
}

/// A room placed inside the border of a `w` by `h` maze, with at least one cell.
pub open spec fn room_inside(r: Room, w: int, h: int) -> bool {
    &&& room_ok(r)
    &&& 1 <= r.x
    &&& 1 <= r.y
    &&& 1 <= r.width
    &&& 1 <= r.height
    &&& r.x + r.width <= w - 2
    &&& r.y + r.height <= h - 2
}

pub open spec fn room_center(r: Room) -> (int, int) {
    (r.x + r.width / 2, r.y + r.height / 2)
}

/// Where the player starts when no room was placed and no random probe found
/// open floor.
pub open spec fn fallback_start(b: int) -> Vec2 {
    Vec2 { x: (2 * b) as i64, y: (2 * b) as i64 }
}

proof fn lemma_cell_of_corner(c: int, b: int)
    requires
        c >= 0,
        b > 0,
    ensures
        (c * b) / b == c,
        (c * b + b / 2) / b == c,
{
    vstd::arithmetic::div_mod::lemma_div_multiples_vanish(c, b);
    assert(c * b == b * c) by (nonlinear_arith);
    vstd::arithmetic::div_mod::lemma_div_pos_is_pos(b, 2);
    assert(0 <= b / 2 < b) by {
        vstd::arithmetic::div_mod::lemma_fundamental_div_mod(b, 2);
        vstd::arithmetic::div_mod::lemma_mod_bound(b, 2);
    }
    vstd::arithmetic::div_mod::lemma_fundamental_div_mod_converse_div(c * b + b / 2, b, c, b / 2);
}

/// A random open cell's centre, probing up to a thousand cells two or more in
/// from the edges; `fallback_start` when none of the probes is open.
pub fn find_starting_position(maze: &Maze, block_size: usize) -> (r: Vec2)
    requires
        maze_wf(maze@),
        maze_width(maze@) >= 5,
        maze_height(maze@) >= 5,
        0 < block_size,
        maze_width(maze@) * block_size <= COORD_LIMIT,
        maze_height(maze@) * block_size <= COORD_LIMIT,
    ensures
        walkable(maze@, r.x as int, r.y as int, block_size as int) || r == fallback_start(block_size as int),
{
    let height = maze.len();
    let width = maze[0].len();
    let ghost bb = block_size as int;
    assert(block_size <= COORD_LIMIT && width <= COORD_LIMIT && height <= COORD_LIMIT) by (nonlinear_arith)
        requires
            width * bb <= COORD_LIMIT,
            height * bb <= COORD_LIMIT,
            width >= 5,
            bb >= 1,
            bb == block_size,
    ;
    let mut tries: usize = 0;
    while tries < 1000
        invariant
            maze_wf(maze@),
            width == maze_width(maze@),
            height == maze_height(maze@),
            width >= 5,
            height >= 5,
            bb == block_size,
            0 < block_size <= COORD_LIMIT,
            width * bb <= COORD_LIMIT,
            height * bb <= COORD_LIMIT,
        decreases 1000 - tries,
    {
        let x = 2 + random_up_to(width - 5);
        let y = 2 + random_up_to(height - 5);
        if maze[y][x] == OPEN {
            assert(x * bb + bb <= COORD_LIMIT && y * bb + bb <= COORD_LIMIT) by (nonlinear_arith)
                requires
                    x < width,
                    y < height,
                    width * bb <= COORD_LIMIT,
                    height * bb <= COORD_LIMIT,
                    bb > 0,
            ;
            let half = (block_size / 2) as u64;
            let r = Vec2::new((x as u64 * block_size as u64 + half) as i64, (y as u64 * block_size as u64 + half) as i64);
            proof {
                lemma_cell_of_corner(x as int, bb);
                lemma_cell_of_corner(y as int, bb);
            }
            return r;
        }
        tries = tries + 1;
    }
    let b2 = (2 * block_size as u64) as i64;
    Vec2::new(b2, b2)
}

/// Generates a maze: rock everywhere, then up to `num_rooms` random rooms that
/// keep two cells apart, corridors carved by randomized depth-first search from
/// the first room, and a rock border. The player starts at the corner of a
/// random room's middle cell (or, with no room, see `find_starting_position`).
pub fn generate_maze(config: &MazeConfig, block_size: usize) -> (r: (Maze, Vec2))
    requires
        1 <= config.min_room_size <= config.max_room_size,
        config.max_room_size + 3 <= config.width <= MAX_MAZE_SIDE,
        config.max_room_size + 3 <= config.height <= MAX_MAZE_SIDE,
        5 <= config.width,
        5 <= config.height,
        0 < block_size,
        config.width * block_size <= COORD_LIMIT,
        config.height * block_size <= COORD_LIMIT,
    ensures
        maze_wf(r.0@),
        maze_width(r.0@) == config.width,
        maze_height(r.0@) == config.height,
        has_solid_border(r.0@),
        rock_or_open(r.0@),
        walkable(r.0@, r.1.x as int, r.1.y as int, block_size as int) || r.1 == fallback_start(block_size as int),
{
    let w = config.width;
    let h = config.height;
    let ghost bb = block_size as int;
    let mut maze = solid_grid(w, h);
    let mut rooms: Vec<Room> = Vec::new();
    let mut k: usize = 0;
    while k < config.num_rooms
        invariant
            maze_wf(maze@),
            maze_width(maze@) == w,
            maze_height(maze@) == h,
            rock_or_open(maze@),
            1 <= config.min_room_size <= config.max_room_size,
            config.max_room_size + 3 <= w <= MAX_MAZE_SIDE,
            config.max_room_size + 3 <= h <= MAX_MAZE_SIDE,
            w == config.width,
            h == config.height,
            5 <= w,
            5 <= h,
            forall|i: int| 0 <= i < rooms@.len() ==> room_inside(#[trigger] rooms@[i], w as int, h as int),
            forall|i: int|
                0 <= i < rooms@.len() ==> cell(maze@, room_center(#[trigger] rooms@[i]).0, room_center(rooms@[i]).1)
                    == OPEN,
        decreases config.num_rooms - k,
    {
        let rw = config.min_room_size + random_up_to(config.max_room_size - config.min_room_size);
        let rh = config.min_room_size + random_up_to(config.max_room_size - config.min_room_size);
        let x = 1 + random_up_to(w - rw - 3);
        let y = 1 + random_up_to(h - rh - 3);
        let room = Room::new(x, y, rw, rh);
        let mut overlapping = false;
        let mut j: usize = 0;
        while j < rooms.len()
            invariant
                0 <= j <= rooms@.len(),
                room_ok(room),
                forall|i: int| 0 <= i < rooms@.len() ==> room_inside(#[trigger] rooms@[i], w as int, h as int),
            decreases rooms@.len() - j,
        {
            if room.overlaps(&rooms[j], 2) {
                overlapping = true;
            }
            j = j + 1;
        }
        if !overlapping {
            let ghost before = maze@;
            room.carve(&mut maze);
            proof {
                assert forall|i: int|
                    0 <= i < rooms@.len() implies cell(maze@, room_center(#[trigger] rooms@[i]).0, room_center(rooms@[i]).1)
                    == OPEN by {
                    let (cx, cy) = room_center(rooms@[i]);
                    assert(cell(before, cx, cy) == OPEN);
                    assert(in_grid(before, cx, cy));
                }
                assert forall|gx: int, gy: int| in_grid(maze@, gx, gy) implies #[trigger] cell(maze@, gx, gy) == ROCK
                    || cell(maze@, gx, gy) == OPEN by {
                    assert(cell(before, gx, gy) == ROCK || cell(before, gx, gy) == OPEN);
                }
                let (cx, cy) = room_center(room);
                assert(in_room(room, cx, cy) && in_grid(before, cx, cy));
            }
            rooms.push(room);
        }
        k = k + 1;
    }
    if rooms.len() > 0 {
        let mut visited = unvisited_grid(w / 2, h / 2);
        let (sx, sy) = rooms[0].center();
        let ghost before = maze@;
        carve_passages(&mut maze, &mut visited, sx / 2, sy / 2, &config.wall_types);
        proof {
            assert forall|i: int| 0 <= i < maze@.len() implies (#[trigger] maze@[i])@.len() == maze@[0]@.len() by {
                assert(before[i]@.len() == before[0]@.len());
            }
            assert forall|gx: int, gy: int| in_grid(maze@, gx, gy) implies #[trigger] cell(maze@, gx, gy) == ROCK
                || cell(maze@, gx, gy) == OPEN by {
                assert(cell(before, gx, gy) == ROCK || cell(before, gx, gy) == OPEN);
            }
            assert forall|i: int|
                0 <= i < rooms@.len() implies cell(maze@, room_center(#[trigger] rooms@[i]).0, room_center(rooms@[i]).1)
                == OPEN by {
                let (cx, cy) = room_center(rooms@[i]);
                assert(cell(before, cx, cy) == OPEN);
            }
        }
    }
    let ghost before_border = maze@;
    close_border(&mut maze);
    assert(rock_or_open(maze@)) by {
        assert forall|gx: int, gy: int| in_grid(maze@, gx, gy) implies #[trigger] cell(maze@, gx, gy) == ROCK
            || cell(maze@, gx, gy) == OPEN by {
            assert(cell(before_border, gx, gy) == ROCK || cell(before_border, gx, gy) == OPEN);
        }
    }
    if rooms.len() > 0 {
        let pick = random_up_to(rooms.len() - 1);
        let room = rooms[pick];
        let (cx, cy) = room.center();
        proof {
            assert(room_inside(rooms@[pick as int], w as int, h as int));
            assert(cell(before_border, cx as int, cy as int) == OPEN);
            assert(cx * bb <= COORD_LIMIT && cy * bb <= COORD_LIMIT) by (nonlinear_arith)
                requires
                    cx < w,
                    cy < h,
                    w * bb <= COORD_LIMIT,
                    h * bb <= COORD_LIMIT,
                    bb > 0,
            ;
            lemma_cell_of_corner(cx as int, bb);
            lemma_cell_of_corner(cy as int, bb);
        }
        let start = Vec2::new((cx as u64 * block_size as u64) as i64, (cy as u64 * block_size as u64) as i64);
        (maze, start)
    } else {
        let start = find_starting_position(&maze, block_size);
        (maze, start)
    }
}

/// Every cell is open or one of the four wall materials.
pub open spec fn textured(m: Seq<Vec<char>>) -> bool {
    forall|gx: int, gy: int|
        in_grid(m, gx, gy) ==> #[trigger] cell(m, gx, gy) == OPEN || cell(m, gx, gy) == '1' || cell(m, gx, gy) == '2'
            || cell(m, gx, gy) == '3' || cell(m, gx, gy) == '4'
}

/// A 35 by 35 maze with up to six rooms of side 4 to 8, its walls given random
/// materials: about 65% `1`, 10% `2`, 20% `3` and 5% `4`.
pub fn generate_large_maze(block_size: usize) -> (r: (Maze, Vec2))
    requires
        0 < block_size,
        35 * block_size <= COORD_LIMIT,
    ensures
        maze_wf(r.0@),
        maze_width(r.0@) == 35,
        maze_height(r.0@) == 35,
        has_solid_border(r.0@),
        textured(r.0@),
        walkable(r.0@, r.1.x as int, r.1.y as int, block_size as int) || r.1 == fallback_start(block_size as int),
{
    let config = MazeConfig::new(35, 35).with_wall_types(vec!['1', '2', '3', '4']).with_rooms(6, 4, 8);
    let (mut maze, start) = generate_maze(&config, block_size);
    let ghost m0 = maze@;
    let mut i: usize = 0;
    while i < 35
        invariant
            maze_wf(maze@),
            maze_width(maze@) == 35,
            maze_height(maze@) == 35,
            maze_wf(m0),
            maze_width(m0) == 35,
            maze_height(m0) == 35,
            rock_or_open(m0),
            i <= 35,
            forall|gx: int, gy: int|
                in_grid(m0, gx, gy) ==> (#[trigger] cell(maze@, gx, gy) == OPEN) == (cell(m0, gx, gy) == OPEN),
            forall|gx: int, gy: int|
                in_grid(m0, gx, gy) && gy < i ==> #[trigger] cell(maze@, gx, gy) == OPEN || cell(maze@, gx, gy) == '1'
                    || cell(maze@, gx, gy) == '2' || cell(maze@, gx, gy) == '3' || cell(maze@, gx, gy) == '4',
            forall|gx: int, gy: int| in_grid(m0, gx, gy) && gy >= i ==> #[trigger] cell(maze@, gx, gy) == cell(m0, gx, gy),
        decreases 35 - i,
    {
        let mut j: usize = 0;
        while j < 35
            invariant
                maze_wf(maze@),
                maze_width(maze@) == 35,
                maze_height(maze@) == 35,
                maze_wf(m0),
                maze_width(m0) == 35,
                maze_height(m0) == 35,
                rock_or_open(m0),
                i < 35,
                j <= 35,
                forall|gx: int, gy: int|
                    in_grid(m0, gx, gy) ==> (#[trigger] cell(maze@, gx, gy) == OPEN) == (cell(m0, gx, gy) == OPEN),
                forall|gx: int, gy: int|
                    in_grid(m0, gx, gy) && (gy < i || (gy == i && gx < j)) ==> #[trigger] cell(maze@, gx, gy) == OPEN
                        || cell(maze@, gx, gy) == '1' || cell(maze@, gx, gy) == '2' || cell(maze@, gx, gy) == '3'
                        || cell(maze@, gx, gy) == '4',
                forall|gx: int, gy: int|
                    in_grid(m0, gx, gy) && (gy > i || (gy == i && gx >= j)) ==> #[trigger] cell(maze@, gx, gy) == cell(
                        m0,
                        gx,
                        gy,
                    ),
            decreases 35 - j,
        {
            if maze[i][j] != OPEN {
                let roll = random_up_to(99);
                let material = if roll < 65 {
                    '1'
                } else if roll < 75 {
                    '2'
                } else if roll < 95 {
                    '3'
                } else {
                    '4'
                };
                put_cell(&mut maze, i, j, material);
            }
            j = j + 1;
        }
        i = i + 1;
    }
    proof {
        assert forall|gx: int, gy: int| in_grid(maze@, gx, gy) && (gx == 0 || gy == 0 || gx == maze_width(maze@) - 1 || gy
            == maze_height(maze@) - 1) implies #[trigger] cell(maze@, gx, gy) != OPEN by {
            assert(cell(m0, gx, gy) != OPEN);
        }
        if walkable(m0, start.x as int, start.y as int, block_size as int) {
            let gx = start.x as int / block_size as int;
            let gy = start.y as int / block_size as int;
            assert(cell(m0, gx, gy) == OPEN);
            assert(cell(maze@, gx, gy) == OPEN);
        }
    }
    (maze, start)
}

} // verus!
