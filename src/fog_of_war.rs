use vstd::prelude::*;
use crate::geometry::{Vec2, COORD_LIMIT, point_ok, floor_div, floor_sqrt, isqrt};
use crate::grid::{Maze, OPEN, maze_wf, maze_width, maze_height, in_grid, cell, world_to_grid};
use crate::player::Player;
use crate::ray::Ray;
use crate::raycaster::world_fits;
use crate::enemy::scaled_step;

verus! {

/// Which grid cells the player has seen; once seen, a cell stays seen until an
/// explicit reset.
pub struct FogOfWar {
    pub explored: Vec<Vec<bool>>,
    pub width: usize,
    pub height: usize,
    pub block_size: usize,
    /// How far the player sees, in world units.
    pub vision_radius: i64,
}

/// World coordinate of the centre of grid line `g`'s cell.
pub open spec fn cell_center(g: int, b: int) -> int {
    g * b + b / 2
}

/// Distance between samples of a sight line: half a cell.
pub open spec fn sight_step(b: int) -> int {
    if b >= 2 { b / 2 } else { 1 }
}

/// Walks the sight line from `p` toward the centre of cell `(tx, ty)` (offset
/// `(dx, dy)`, length `len` rounded down), sample `i` onward: blocked by a
/// sample outside the grid or in a wall other than the target itself.
pub open spec fn los_walk(
    m: Seq<Vec<char>>,
    b: int,
    p: Vec2,
    tx: int,
    ty: int,
    dx: int,
    dy: int,
    len: int,
    n: int,
    i: int,
) -> bool
    decreases n - i,
{
    if i >= n {
        true
    } else {
        let sx = p.x as int + scaled_step(dx, sight_step(b) * i, len);
        let sy = p.y as int + scaled_step(dy, sight_step(b) * i, len);
        if sx < 0 || sy < 0 || !in_grid(m, sx / b, sy / b) {
            false
        } else if cell(m, sx / b, sy / b) != OPEN {
            sx / b == tx && sy / b == ty
        } else {
            los_walk(m, b, p, tx, ty, dx, dy, len, n, i + 1)
        }
    }
}

/// Nothing blocks the view from `p` to cell `(tx, ty)`: the player stands in
/// it, or every half-cell sample along the line to its centre, short of the
/// centre, is open (a wall that is the target itself is seen).
pub open spec fn line_of_sight(m: Seq<Vec<char>>, b: int, p: Vec2, tx: int, ty: int) -> bool {
    let dx = cell_center(tx, b) - p.x as int;
    let dy = cell_center(ty, b) - p.y as int;
    let len = floor_sqrt(dx * dx + dy * dy);
    if p.x >= 0 && p.y >= 0 && p.x as int / b == tx && p.y as int / b == ty {
        true
    } else if len == 0 {
        true
    } else {
        los_walk(m, b, p, tx, ty, dx, dy, len, (len + sight_step(b) - 1) / sight_step(b), 1)
    }
}

/// Cell `(gx, gy)` is revealed from `p`: within the square scan window, on the
/// grid, its centre within the vision radius, and in line of sight.
pub open spec fn visible(m: Seq<Vec<char>>, b: int, radius: int, p: Vec2, gx: int, gy: int) -> bool {
    let rc = (radius + b - 1) / b;
    let pgx = p.x as int / b;
    let pgy = p.y as int / b;
    let cx = cell_center(gx, b) - p.x as int;
    let cy = cell_center(gy, b) - p.y as int;
    &&& pgx - rc <= gx <= pgx + rc
    &&& pgy - rc <= gy <= pgy + rc
    &&& in_grid(m, gx, gy)
    &&& cx * cx + cy * cy <= radius * radius
    &&& line_of_sight(m, b, p, gx, gy)
}

impl FogOfWar {
    pub open spec fn explored_at(&self, gx: int, gy: int) -> bool {
        0 <= gx < self.width && 0 <= gy < self.height && self.explored@[gy]@[gx]
    }

    /// The explored grid has the fog's dimensions.
    pub open spec fn wf(&self) -> bool {
        &&& self.explored@.len() == self.height
        &&& forall|i: int| 0 <= i < self.height ==> (#[trigger] self.explored@[i])@.len() == self.width
    }

    /// The fog fits a maze whose arithmetic the library can hold.
    pub open spec fn fits(&self, m: Seq<Vec<char>>) -> bool {
        &&& self.wf()
        &&& maze_wf(m)
        &&& self.width == maze_width(m)
        &&& self.height == maze_height(m)
        &&& self.block_size > 0
        &&& world_fits(m, self.block_size as int)
        &&& 0 <= self.vision_radius <= COORD_LIMIT
    }

    /// An unexplored fog over `maze`.
    pub fn new(maze: &Maze, block_size: usize, vision_radius: i64) -> (r: FogOfWar)
        ensures
            r.wf(),
            r.height == maze@.len(),
            r.width == (if maze@.len() > 0 { maze@[0]@.len() } else { 0 }),
            r.block_size == block_size,
            r.vision_radius == vision_radius,
            forall|gx: int, gy: int| !r.explored_at(gx, gy),
    {
        let height = maze.len();
        let width = if height > 0 { maze[0].len() } else { 0 };
        let mut explored: Vec<Vec<bool>> = Vec::new();
        let mut i: usize = 0;
        while i < height
            invariant
                i <= height,
                explored@.len() == i,
                forall|k: int|
                    0 <= k < i ==> (#[trigger] explored@[k])@ == Seq::new(width as nat, |j: int| false),
            decreases height - i,
        {
            let mut row: Vec<bool> = Vec::new();
            let mut j: usize = 0;
            while j < width
                invariant
                    j <= width,
                    row@ == Seq::new(j as nat, |k: int| false),
                decreases width - j,
            {
                row.push(false);
                j = j + 1;
            }
            explored.push(row);
            i = i + 1;
        }
        FogOfWar { explored, width, height, block_size, vision_radius }
    }

    pub fn width(&self) -> (r: usize)
        ensures
            r == self.width,
    {
        self.width
    }

    pub fn height(&self) -> (r: usize)
        ensures
            r == self.height,
    {
        self.height
    }

    pub fn block_size(&self) -> (r: usize)
        ensures
            r == self.block_size,
    {
        self.block_size
    }

    pub fn vision_radius(&self) -> (r: i64)
        ensures
            r == self.vision_radius,
    {
        self.vision_radius
    }

    pub fn set_vision_radius(&mut self, radius: i64)
        ensures
            final(self).vision_radius == radius,
            final(self).explored == old(self).explored,
            final(self).width == old(self).width,
            final(self).height == old(self).height,
            final(self).block_size == old(self).block_size,
    {
        self.vision_radius = radius;
    }

    /// Whether cell `(grid_x, grid_y)` has been seen; `false` off the grid.
    pub fn is_explored(&self, grid_x: usize, grid_y: usize) -> (r: bool)
        requires
            self.wf(),
        ensures
            r == self.explored_at(grid_x as int, grid_y as int),
    {
        if grid_y >= self.height || grid_x >= self.width {
            return false;
        }
        self.explored[grid_y][grid_x]
    }

    /// Marks cell `(grid_x, grid_y)` as seen; off the grid nothing changes.
    pub fn mark_explored(&mut self, grid_x: usize, grid_y: usize)
        requires
            old(self).wf(),
        ensures
            final(self).wf(),
            final(self).width == old(self).width,
            final(self).height == old(self).height,
            final(self).block_size == old(self).block_size,
            final(self).vision_radius == old(self).vision_radius,
            forall|gx: int, gy: int|
                #[trigger] final(self).explored_at(gx, gy) == (old(self).explored_at(gx, gy) || (gx
                    == grid_x && gy == grid_y && gx < old(self).width && gy < old(self).height)),
    {
        if grid_y < self.height && grid_x < self.width {
            let mut row = self.explored[grid_y].clone();
            row.set(grid_x, true);
            self.explored.set(grid_y, row);
        }
    }

    /// Forgets everything seen.
    pub fn reset(&mut self)
        requires
            old(self).wf(),
        ensures
            final(self).wf(),
            final(self).width == old(self).width,
            final(self).height == old(self).height,
            final(self).block_size == old(self).block_size,
            final(self).vision_radius == old(self).vision_radius,
            forall|gx: int, gy: int| !final(self).explored_at(gx, gy),
    {
        let mut i: usize = 0;
        while i < self.height
            invariant
                self.wf(),
                i <= self.height,
                self.width == old(self).width,
                self.height == old(self).height,
                self.block_size == old(self).block_size,
                self.vision_radius == old(self).vision_radius,
                forall|gx: int, gy: int| 0 <= gy < i ==> !#[trigger] self.explored_at(gx, gy),
            decreases self.height - i,
        {
            let mut row: Vec<bool> = Vec::new();
            let mut j: usize = 0;
            while j < self.width
                invariant
                    j <= self.width,
                    row@ == Seq::new(j as nat, |k: int| false),
                decreases self.width - j,
            {
                row.push(false);
                j = j + 1;
            }
            let ghost before = self.explored@;
            let ghost pre = *self;
            self.explored.set(i, row);
            assert forall|gx: int, gy: int| 0 <= gy < i + 1 implies !#[trigger] self.explored_at(
                gx,
                gy,
            ) by {
                if gy < i {
                    assert(!pre.explored_at(gx, gy));
                    assert(self.explored@[gy] == before[gy]);
                }
            }
            i = i + 1;
        }
    }

    /// The explored grid, row by row.
    pub fn explored_grid(&self) -> (r: &Vec<Vec<bool>>)
        ensures
            r == &self.explored,
    {
        &self.explored
    }
}

/// `d * k / len` rounded toward zero, for `0 <= k <= len`.
fn sample_offset(d: i64, k: i64, len: i64) -> (r: i64)
    requires
        -4 * COORD_LIMIT <= d <= 4 * COORD_LIMIT,
        0 <= k <= len,
        1 <= len <= 8 * COORD_LIMIT,
    ensures
        r == scaled_step(d as int, k as int, len as int),
        -4 * COORD_LIMIT <= r <= 4 * COORD_LIMIT,
{
    let mag: i128 = if d < 0 { -(d as i128) } else { d as i128 };
    assert(0 <= mag * k <= mag * len) by (nonlinear_arith)
        requires
            0 <= k <= len,
            mag >= 0,
    ;
    assert(mag * len <= 32 * COORD_LIMIT * COORD_LIMIT) by (nonlinear_arith)
        requires
            0 <= mag <= 4 * COORD_LIMIT,
            1 <= len <= 8 * COORD_LIMIT,
    ;
    let q = mag * k as i128 / len as i128;
    assert(0 <= q <= mag) by {
        vstd::arithmetic::div_mod::lemma_div_is_ordered(mag * k, mag * len, len as int);
        assert(mag * len == mag * len);
        vstd::arithmetic::div_mod::lemma_div_multiples_vanish(mag as int, len as int);
        assert(len * mag == mag * len) by (nonlinear_arith);
        vstd::arithmetic::div_mod::lemma_div_is_ordered(0, mag * k, len as int);
    }
    if d < 0 {
        -(q as i64)
    } else {
        q as i64
    }
}

/// Dividing by a positive number keeps a value within `[-c, c]`.
proof fn lemma_div_within(a: int, b: int, c: int)
    requires
        b >= 1,
        -c <= a <= c,
    ensures
        -c <= a / b <= c,
{
    vstd::arithmetic::div_mod::lemma_fundamental_div_mod(a, b);
    vstd::arithmetic::div_mod::lemma_mod_bound(a, b);
    let q = a / b;
    let r = a % b;
    assert(-c <= q <= c) by (nonlinear_arith)
        requires
            a == b * q + r,
            0 <= r < b,
            b >= 1,
            -c <= a <= c,
    {
        if q > c {
            assert(b * q >= q) by (nonlinear_arith)
                requires
                    q > 0,
                    b >= 1,
            ;
        }
        if q < -c {
            assert(b * q <= q * 1 + (b - 1) * q) by (nonlinear_arith);
            assert(b * q + r < q + 1) by (nonlinear_arith)
                requires
                    q < 0,
                    b >= 1,
                    0 <= r < b,
            ;
        }
    }
}

/// The cell a ray struck is revealed by it.
pub open spec fn ray_hit_cell(rays: Seq<Option<Ray>>, gx: int, gy: int) -> bool {
    exists|i: int| 0 <= i < rays.len() && #[trigger] struck(rays[i], gx, gy)
}

/// Column slot `slot` holds a ray that struck cell `(gx, gy)`.
pub open spec fn struck(slot: Option<Ray>, gx: int, gy: int) -> bool {
    match slot {
        Some(r) => r.cell_x == gx && r.cell_y == gy,
        None => false,
    }
}

/// `after` is `before` after one `update` from `p` with `rays` over maze `m`:
/// the same grid, with every visible or ray-struck cell added.
pub open spec fn fog_step(before: FogOfWar, after: FogOfWar, m: Seq<Vec<char>>, p: Vec2, rays: Seq<
    Option<Ray>,
>) -> bool {
    &&& after.width == before.width
    &&& after.height == before.height
    &&& after.block_size == before.block_size
    &&& after.vision_radius == before.vision_radius
    &&& forall|gx: int, gy: int|
        #[trigger] after.explored_at(gx, gy) == (before.explored_at(gx, gy) || visible(
            m,
            before.block_size as int,
            before.vision_radius as int,
            p,
            gx,
            gy,
        ) || (ray_hit_cell(rays, gx, gy) && 0 <= gx < before.width && 0 <= gy < before.height))
}

/// Over any run of updates, a cell once explored stays explored, however the
/// player moves: if each state follows from the one before by `update`, every
/// cell explored in state `i` is explored in every later state `j`.
pub proof fn lemma_fog_monotone(
    states: Seq<FogOfWar>,
    m: Seq<Vec<char>>,
    poses: Seq<Vec2>,
    rays: Seq<Seq<Option<Ray>>>,
    i: int,
    j: int,
    gx: int,
    gy: int,
)
    requires
        forall|k: int|
            0 <= k < states.len() - 1 ==> fog_step(
                #[trigger] states[k],
                states[k + 1],
                m,
                poses[k],
                rays[k],
            ),
        0 <= i <= j < states.len(),
        states[i].explored_at(gx, gy),
    ensures
        states[j].explored_at(gx, gy),
    decreases j - i,
{
    if i < j {
        lemma_fog_monotone(states, m, poses, rays, i, j - 1, gx, gy);
        assert(fog_step(states[j - 1], states[j], m, poses[j - 1], rays[j - 1]));
        assert(states[j].explored_at(gx, gy));
    }
}

impl FogOfWar {
    /// Whether cell `(target_x, target_y)` can be seen from the player's
    /// position (see `line_of_sight`).
    pub fn has_line_of_sight(&self, player: &Player, target_x: usize, target_y: usize, maze: &Maze) -> (r:
        bool)
        requires
            self.fits(maze@),
            point_ok(player.position),
            target_x < self.width,
            target_y < self.height,
        ensures
            r == line_of_sight(
                maze@,
                self.block_size as int,
                player.position,
                target_x as int,
                target_y as int,
            ),
    {
        let ghost m = maze@;
        let height = maze.len();
        let width = maze[0].len();
        let bs = self.block_size;
        let ghost bb = bs as int;
        assert(target_x * bb + bb <= COORD_LIMIT && target_y * bb + bb <= COORD_LIMIT && bb
            <= COORD_LIMIT && target_x <= COORD_LIMIT && target_y <= COORD_LIMIT) by (nonlinear_arith)
            requires
                target_x < maze_width(m),
                target_y < maze_height(m),
                maze_width(m) * bb <= COORD_LIMIT,
                maze_height(m) * bb <= COORD_LIMIT,
                bb > 0,
        ;
        let b = bs as i64;
        assert(b == bb);
        let px = player.position.x;
        let py = player.position.y;
        let tx = target_x as i64;
        let ty = target_y as i64;
        if px >= 0 && py >= 0 && px as u64 / bs as u64 == target_x as u64 && py as u64 / bs as u64
            == target_y as u64 {
            return true;
        }
        let half = (bs / 2) as i64;
        let dx = tx * b + half - px;
        let dy = ty * b + half - py;
        assert(0 <= dx as i128 * dx as i128 <= 16 * COORD_LIMIT * COORD_LIMIT && 0 <= dy as i128
            * dy as i128 <= 16 * COORD_LIMIT * COORD_LIMIT) by (nonlinear_arith)
            requires
                -4 * COORD_LIMIT <= dx <= 4 * COORD_LIMIT,
                -4 * COORD_LIMIT <= dy <= 4 * COORD_LIMIT,
        ;
        let d2 = dx as i128 * dx as i128 + dy as i128 * dy as i128;
        let len64 = isqrt(d2 as u128);
        assert(len64 <= 8 * COORD_LIMIT) by (nonlinear_arith)
            requires
                len64 * len64 <= d2,
                d2 <= 32 * COORD_LIMIT * COORD_LIMIT,
                len64 >= 0,
        {
            if len64 > 8 * COORD_LIMIT {
                assert(len64 * len64 > 64 * COORD_LIMIT * COORD_LIMIT) by (nonlinear_arith)
                    requires
                        len64 > 8 * COORD_LIMIT,
                ;
            }
        }
        if len64 == 0 {
            return true;
        }
        let len = len64 as i64;
        assert(len <= 8 * COORD_LIMIT);
        let step: i64 = if b >= 2 { half } else { 1 };
        let n = ((len + step - 1) as u64 / step as u64) as i64;
        assert(step * n <= len + step - 1) by {
            vstd::arithmetic::div_mod::lemma_fundamental_div_mod((len + step - 1) as int, step as int);
            vstd::arithmetic::div_mod::lemma_mod_pos_bound((len + step - 1) as int, step as int);
        }
        assert(len == floor_sqrt(dx * dx + dy * dy));
        let mut i: i64 = 1;
        while i < n
            invariant
                m == maze@,
                height == maze_height(m),
                width == maze_width(m),
                maze_wf(m),
                bb == bs,
                bs == self.block_size,
                b == bs,
                b > 0,
                step == sight_step(bb),
                1 <= i,
                step * n <= len + step - 1,
                1 <= len <= 8 * COORD_LIMIT,
                tx == target_x,
                ty == target_y,
                line_of_sight(m, bb, player.position, tx as int, ty as int) == los_walk(m, bb, player.position, tx as int, ty as int, dx as int, dy as int, len as int, n as int, 1),
                -4 * COORD_LIMIT <= dx <= 4 * COORD_LIMIT,
                -4 * COORD_LIMIT <= dy <= 4 * COORD_LIMIT,
                point_ok(player.position),
                px == player.position.x,
                py == player.position.y,
                los_walk(m, bb, player.position, tx as int, ty as int, dx as int, dy as int, len as int, n as int, i as int)
                    == los_walk(m, bb, player.position, tx as int, ty as int, dx as int, dy as int, len as int, n as int, 1),
            decreases n - i,
        {
            assert(step * i <= len) by (nonlinear_arith)
                requires
                    i < n,
                    step * n <= len + step - 1,
                    step >= 1,
            ;
            let k = step * i;
            let sx = px + sample_offset(dx, k, len);
            let sy = py + sample_offset(dy, k, len);
            let ghost walk_i = los_walk(m, bb, player.position, tx as int, ty as int, dx as int, dy as int, len as int, n as int, i as int);
            assert(walk_i == if sx < 0 || sy < 0 || !in_grid(m, sx as int / bb, sy as int / bb) {
                false
            } else if cell(m, sx as int / bb, sy as int / bb) != OPEN {
                sx as int / bb == tx && sy as int / bb == ty
            } else {
                los_walk(m, bb, player.position, tx as int, ty as int, dx as int, dy as int, len as int, n as int, i + 1)
            });
            match (world_to_grid(sx, bs), world_to_grid(sy, bs)) {
                (Some(gx), Some(gy)) => {
                    if gy >= height || gx >= width {
                        return false;
                    }
                    if maze[gy][gx] != OPEN {
                        return gx == target_x && gy == target_y;
                    }
                },
                _ => {
                    return false;
                },
            }
            i = i + 1;
        }
        true
    }

    /// Reveals every cell within the vision radius of the player that is in
    /// line of sight.
    pub fn update_from_position(&mut self, player: &Player, maze: &Maze)
        requires
            old(self).fits(maze@),
            point_ok(player.position),
        ensures
            final(self).fits(maze@),
            final(self).width == old(self).width,
            final(self).height == old(self).height,
            final(self).block_size == old(self).block_size,
            final(self).vision_radius == old(self).vision_radius,
            forall|gx: int, gy: int|
                #[trigger] final(self).explored_at(gx, gy) == (old(self).explored_at(gx, gy)
                    || visible(
                    maze@,
                    old(self).block_size as int,
                    old(self).vision_radius as int,
                    player.position,
                    gx,
                    gy,
                )),
    {
        let ghost m = maze@;
        let ghost bb = self.block_size as int;
        let ghost radius = self.vision_radius as int;
        let ghost p = player.position;
        let ghost orig = *self;
        let width = self.width;
        let height = self.height;
        assert(bb <= COORD_LIMIT && width * bb <= COORD_LIMIT && height * bb <= COORD_LIMIT)
            by (nonlinear_arith)
            requires
                maze_width(m) >= 1,
                width == maze_width(m),
                height == maze_height(m),
                maze_width(m) * bb <= COORD_LIMIT,
                maze_height(m) * bb <= COORD_LIMIT,
                bb > 0,
        ;
        let b = self.block_size as i64;
        let r = self.vision_radius;
        let px = player.position.x;
        let py = player.position.y;
        let pgx = floor_div(px, b);
        let pgy = floor_div(py, b);
        proof {
            lemma_div_within(px as int, b as int, COORD_LIMIT as int);
            lemma_div_within(py as int, b as int, COORD_LIMIT as int);
        }
        let rc = (r + b - 1) / b;
        assert(0 <= rc <= COORD_LIMIT + 1) by {
            vstd::arithmetic::div_mod::lemma_div_is_ordered((r + b - 1) as int, (COORD_LIMIT + b) as int, b as int);
            vstd::arithmetic::div_mod::lemma_div_is_ordered(0, (r + b - 1) as int, b as int);
            assert((COORD_LIMIT + b) as int / b as int <= COORD_LIMIT + 1) by (nonlinear_arith)
                requires
                    b >= 1,
            {
                vstd::arithmetic::div_mod::lemma_fundamental_div_mod((COORD_LIMIT + b) as int, b as int);
                vstd::arithmetic::div_mod::lemma_mod_bound((COORD_LIMIT + b) as int, b as int);
            }
        }
        let half = (self.block_size / 2) as i64;
        assert(width <= COORD_LIMIT && height <= COORD_LIMIT) by (nonlinear_arith)
            requires
                width * bb <= COORD_LIMIT,
                height * bb <= COORD_LIMIT,
                bb >= 1,
        ;
        let mut dy: i64 = -rc;
        while dy <= rc
            invariant
                self.fits(m),
                m == maze@,
                self.width == orig.width,
                self.height == orig.height,
                self.block_size == orig.block_size,
                self.vision_radius == orig.vision_radius,
                width == self.width,
                height == self.height,
                bb == b,
                b > 0,
                radius == r,
                r == self.vision_radius,
                bb == self.block_size,
                p == player.position,
                point_ok(p),
                px == p.x,
                py == p.y,
                pgx == px as int / bb,
                pgy == py as int / bb,
                rc == (radius + bb - 1) / bb,
                0 <= rc <= COORD_LIMIT + 1,
                -COORD_LIMIT <= pgx <= COORD_LIMIT,
                -COORD_LIMIT <= pgy <= COORD_LIMIT,
                width * bb <= COORD_LIMIT,
                height * bb <= COORD_LIMIT,
                width <= COORD_LIMIT,
                height <= COORD_LIMIT,
                half == bb / 2,
                -rc <= dy <= rc + 1,
                forall|gx: int, gy: int|
                    #[trigger] self.explored_at(gx, gy) == (orig.explored_at(gx, gy) || (visible(
                        m,
                        bb,
                        radius,
                        p,
                        gx,
                        gy,
                    ) && gy < pgy + dy)),
            decreases rc + 1 - dy,
        {
            let mut dx: i64 = -rc;
            while dx <= rc
                invariant
                    self.fits(m),
                    m == maze@,
                    self.width == orig.width,
                    self.height == orig.height,
                    self.block_size == orig.block_size,
                    self.vision_radius == orig.vision_radius,
                    width == self.width,
                    height == self.height,
                    bb == b,
                    b > 0,
                    radius == r,
                    r == self.vision_radius,
                    bb == self.block_size,
                    p == player.position,
                    point_ok(p),
                    px == p.x,
                    py == p.y,
                    pgx == px as int / bb,
                    pgy == py as int / bb,
                    rc == (radius + bb - 1) / bb,
                    0 <= rc <= COORD_LIMIT + 1,
                    -COORD_LIMIT <= pgx <= COORD_LIMIT,
                    -COORD_LIMIT <= pgy <= COORD_LIMIT,
                    width * bb <= COORD_LIMIT,
                    height * bb <= COORD_LIMIT,
                    width <= COORD_LIMIT,
                    height <= COORD_LIMIT,
                    half == bb / 2,
                    -rc <= dy <= rc,
                    -rc <= dx <= rc + 1,
                    forall|gx: int, gy: int|
                        #[trigger] self.explored_at(gx, gy) == (orig.explored_at(gx, gy) || (visible(
                            m,
                            bb,
                            radius,
                            p,
                            gx,
                            gy,
                        ) && (gy < pgy + dy || (gy == pgy + dy && gx < pgx + dx)))),
                decreases rc + 1 - dx,
            {
                let gx = pgx + dx;
                let gy = pgy + dy;
                let ghost pre = *self;
                let ghost seen = false;
                if gx >= 0 && gy >= 0 && gx < width as i64 && gy < height as i64 {
                    assert(gx * b + b <= COORD_LIMIT && gy * b + b <= COORD_LIMIT) by (nonlinear_arith)
                        requires
                            0 <= gx < width,
                            0 <= gy < height,
                            width * b <= COORD_LIMIT,
                            height * b <= COORD_LIMIT,
                            b > 0,
                    ;
                    let cx = (gx * b + half - px) as i128;
                    let cy = (gy * b + half - py) as i128;
                    assert(cx == cell_center(gx as int, bb) - p.x && cy == cell_center(gy as int, bb) - p.y);
                    assert(0 <= cx * cx <= 4 * COORD_LIMIT * COORD_LIMIT && 0 <= cy * cy <= 4 * COORD_LIMIT
                        * COORD_LIMIT) by (nonlinear_arith)
                        requires
                            -2 * COORD_LIMIT <= cx <= 2 * COORD_LIMIT,
                            -2 * COORD_LIMIT <= cy <= 2 * COORD_LIMIT,
                    ;
                    assert(0 <= r as i128 * r as i128 <= COORD_LIMIT * COORD_LIMIT) by (nonlinear_arith)
                        requires
                            0 <= r <= COORD_LIMIT,
                    ;
                    let in_radius = cx * cx + cy * cy <= r as i128 * r as i128;
                    if in_radius && self.has_line_of_sight(player, gx as usize, gy as usize, maze) {
                        self.mark_explored(gx as usize, gy as usize);
                        proof {
                            seen = true;
                        }
                    }
                    assert(pgx - rc <= gx <= pgx + rc && pgy - rc <= gy <= pgy + rc);
                    assert(in_grid(m, gx as int, gy as int));
                    assert(in_radius == ((cell_center(gx as int, bb) - p.x) * (cell_center(gx as int, bb) - p.x) + (cell_center(gy as int, bb) - p.y) * (cell_center(gy as int, bb) - p.y) <= radius * radius));
                    assert(seen == visible(m, bb, radius, p, gx as int, gy as int));
                } else {
                    assert(!visible(m, bb, radius, p, gx as int, gy as int));
                }
                assert(seen == visible(m, bb, radius, p, gx as int, gy as int));
                assert(forall|x: int, y: int|
                    #[trigger] self.explored_at(x, y) == (pre.explored_at(x, y) || (seen && x == gx && y == gy)));
                assert forall|x: int, y: int|
                    #[trigger] self.explored_at(x, y) == (orig.explored_at(x, y) || (visible(
                        m,
                        bb,
                        radius,
                        p,
                        x,
                        y,
                    ) && (y < pgy + dy || (y == pgy + dy && x < pgx + dx + 1)))) by {
                    assert(pre.explored_at(x, y) == (orig.explored_at(x, y) || (visible(
                        m,
                        bb,
                        radius,
                        p,
                        x,
                        y,
                    ) && (y < pgy + dy || (y == pgy + dy && x < pgx + dx)))));
                }
                dx = dx + 1;
            }
            assert forall|x: int, y: int|
                #[trigger] self.explored_at(x, y) == (orig.explored_at(x, y) || (visible(
                    m,
                    bb,
                    radius,
                    p,
                    x,
                    y,
                ) && y < pgy + dy + 1)) by {
                assert(self.explored_at(x, y) == (orig.explored_at(x, y) || (visible(
                    m,
                    bb,
                    radius,
                    p,
                    x,
                    y,
                ) && (y < pgy + dy || (y == pgy + dy && x < pgx + dx)))));
            }
            dy = dy + 1;
        }
        assert forall|x: int, y: int|
            #[trigger] self.explored_at(x, y) == (orig.explored_at(x, y) || visible(
                m,
                bb,
                radius,
                p,
                x,
                y,
            )) by {
            assert(self.explored_at(x, y) == (orig.explored_at(x, y) || (visible(
                m,
                bb,
                radius,
                p,
                x,
                y,
            ) && y < pgy + dy)));
        }
    }

    /// Reveals the cell each ray struck.
    pub fn update_from_rays(&mut self, rays: &Vec<Option<Ray>>)
        requires
            old(self).wf(),
        ensures
            final(self).wf(),
            final(self).width == old(self).width,
            final(self).height == old(self).height,
            final(self).block_size == old(self).block_size,
            final(self).vision_radius == old(self).vision_radius,
            forall|gx: int, gy: int|
                #[trigger] final(self).explored_at(gx, gy) == (old(self).explored_at(gx, gy) || (
                ray_hit_cell(rays@, gx, gy) && 0 <= gx < old(self).width && 0 <= gy
                    < old(self).height)),
    {
        let ghost orig = *self;
        let mut i: usize = 0;
        while i < rays.len()
            invariant
                self.wf(),
                i <= rays@.len(),
                self.width == orig.width,
                self.height == orig.height,
                self.block_size == orig.block_size,
                self.vision_radius == orig.vision_radius,
                forall|gx: int, gy: int|
                    #[trigger] self.explored_at(gx, gy) == (orig.explored_at(gx, gy) || (ray_hit_cell(
                        rays@.subrange(0, i as int),
                        gx,
                        gy,
                    ) && 0 <= gx < orig.width && 0 <= gy < orig.height)),
            decreases rays@.len() - i,
        {
            let ghost pre = *self;
            let slot = rays[i];
            if let Some(ray) = slot {
                self.mark_explored(ray.cell_x, ray.cell_y);
            }
            assert forall|gx: int, gy: int|
                #[trigger] self.explored_at(gx, gy) == (orig.explored_at(gx, gy) || (ray_hit_cell(
                    rays@.subrange(0, i + 1),
                    gx,
                    gy,
                ) && 0 <= gx < orig.width && 0 <= gy < orig.height)) by {
                assert(pre.explored_at(gx, gy) == (orig.explored_at(gx, gy) || (ray_hit_cell(
                    rays@.subrange(0, i as int),
                    gx,
                    gy,
                ) && 0 <= gx < orig.width && 0 <= gy < orig.height)));
                let s0 = rays@.subrange(0, i as int);
                let s1 = rays@.subrange(0, i + 1);
                if ray_hit_cell(s0, gx, gy) {
                    let k = choose|k: int| 0 <= k < s0.len() && #[trigger] struck(s0[k], gx, gy);
                    assert(s1[k] == s0[k]);
                }
                if ray_hit_cell(s1, gx, gy) && !struck(slot, gx, gy) {
                    let k = choose|k: int| 0 <= k < s1.len() && #[trigger] struck(s1[k], gx, gy);
                    assert(s0[k] == s1[k]);
                }
                if struck(slot, gx, gy) {
                    assert(s1[i as int] == slot);
                }
            }
            i = i + 1;
        }
        assert(rays@.subrange(0, rays@.len() as int) == rays@);
    }

    /// One frame of fog: reveals what is visible from the player and what the
    /// frame's rays struck.
    pub fn update(&mut self, player: &Player, rays: &Vec<Option<Ray>>, maze: &Maze)
        requires
            old(self).fits(maze@),
            point_ok(player.position),
        ensures
            final(self).fits(maze@),
            fog_step(*old(self), *final(self), maze@, player.position, rays@),
    {
        self.update_from_position(player, maze);
        self.update_from_rays(rays);
    }
}

} // verus!
