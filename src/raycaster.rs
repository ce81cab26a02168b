use vstd::prelude::*;
use crate::geometry::{Vec2, DIR_SCALE, COORD_LIMIT, abs, dir_ok, dist_sq, floor_div};
use crate::grid::{Maze, OPEN, maze_wf, maze_width, maze_height, in_grid, cell, world_to_grid};
use crate::player::Player;
use crate::ray::{Ray, Side};

verus! {

/// Most grid cells a ray steps through before it is given up as a miss.
pub const MAX_DDA_STEPS: u32 = 100;

/// The traversal's state: the cell it stands in, how far (along each axis,
/// from the ray's origin) the next vertical and horizontal grid lines lie, and
/// which line family the last step crossed and at what axis distance.
pub struct DdaCursor {
    pub map_x: int,
    pub map_y: int,
    pub next_x: int,
    pub next_y: int,
    pub side: Side,
    pub crossing: int,
}

/// The whole grid, in world units, fits the library's coordinate range.
pub open spec fn world_fits(m: Seq<Vec<char>>, block_size: int) -> bool {
    maze_width(m) * block_size <= COORD_LIMIT && maze_height(m) * block_size <= COORD_LIMIT
}

/// The ray meets the next vertical grid line strictly before the next
/// horizontal one. A zero component never reaches its lines (its reciprocal is
/// infinite); ties go to the horizontal line.
pub open spec fn steps_x(c: DdaCursor, dx: int, dy: int) -> bool {
    if dx == 0 {
        false
    } else if dy == 0 {
        true
    } else {
        c.next_x * abs(dy) < c.next_y * abs(dx)
    }
}

pub open spec fn step_of(d: int) -> int {
    if d < 0 { -1 } else { 1 }
}

/// One DDA step: into the neighbouring cell across the nearer grid line.
pub open spec fn advance(c: DdaCursor, dx: int, dy: int, b: int) -> DdaCursor {
    if steps_x(c, dx, dy) {
        DdaCursor {
            map_x: c.map_x + step_of(dx),
            next_x: c.next_x + b,
            side: Side::Vertical,
            crossing: c.next_x,
            ..c
        }
    } else {
        DdaCursor {
            map_y: c.map_y + step_of(dy),
            next_y: c.next_y + b,
            side: Side::Horizontal,
            crossing: c.next_y,
            ..c
        }
    }
}

/// Steps until a wall cell is entered (`Some`), the grid is left or the step
/// budget runs out (`None`).
pub open spec fn trace(m: Seq<Vec<char>>, b: int, dx: int, dy: int, c: DdaCursor, fuel: nat) -> Option<
    DdaCursor,
>
    decreases fuel,
{
    if fuel == 0 {
        None
    } else {
        let n = advance(c, dx, dy, b);
        if !in_grid(m, n.map_x, n.map_y) {
            None
        } else if cell(m, n.map_x, n.map_y) != OPEN {
            Some(n)
        } else {
            trace(m, b, dx, dy, n, (fuel - 1) as nat)
        }
    }
}

/// The traversal's state at the ray's origin.
pub open spec fn start_cursor(pos: Vec2, d: Vec2, b: int) -> DdaCursor {
    let mx = pos.x as int / b;
    let my = pos.y as int / b;
    DdaCursor {
        map_x: mx,
        map_y: my,
        next_x: if d.x < 0 { pos.x - mx * b } else { (mx + 1) * b - pos.x as int },
        next_y: if d.y < 0 { pos.y - my * b } else { (my + 1) * b - pos.y as int },
        side: Side::Vertical,
        crossing: 0,
    }
}

/// `a / b` rounded toward zero, for `b > 0`.
pub open spec fn div_toward_zero(a: int, b: int) -> int {
    if a >= 0 { a / b } else { -((-a) / b) }
}

/// The ray that a finished traversal reports, for a camera facing `h`. With
/// `t = crossing / |d_axis|` the ray parameter at the struck line, the hit
/// point is `pos + t * d` (rounded down) and the distance is the depth of that
/// point along the camera heading, `t * (d . h) / DIR_SCALE` (rounded toward
/// zero): the perpendicular distance to the camera plane, free of fisheye.
pub open spec fn ray_from_cursor(m: Seq<Vec<char>>, pos: Vec2, d: Vec2, h: Vec2, c: DdaCursor) -> Ray {
    let axis = if c.side == Side::Vertical { abs(d.x as int) } else { abs(d.y as int) };
    Ray {
        distance: div_toward_zero(c.crossing * (d.x * h.x + d.y * h.y), axis * DIR_SCALE) as i64,
        hit_point: Vec2 {
            x: ((pos.x as int * axis + d.x as int * c.crossing) / axis) as i64,
            y: ((pos.y as int * axis + d.y as int * c.crossing) / axis) as i64,
        },
        wall_type: cell(m, c.map_x, c.map_y),
        side_hit: c.side,
        cell_x: c.map_x as usize,
        cell_y: c.map_y as usize,
    }
}

/// The raycast from `pos` along column heading `d`, for a camera facing `h`:
/// `None` when the origin is outside the grid, the heading is zero, or no wall
/// is met within `MAX_DDA_STEPS` cells.
pub open spec fn cast_spec(m: Seq<Vec<char>>, b: int, pos: Vec2, d: Vec2, h: Vec2) -> Option<Ray> {
    if pos.x < 0 || pos.y < 0 || !in_grid(m, pos.x as int / b, pos.y as int / b) || (d.x == 0 && d.y == 0) {
        None
    } else {
        match trace(m, b, d.x as int, d.y as int, start_cursor(pos, d, b), MAX_DDA_STEPS as nat) {
            Some(c) => Some(ray_from_cursor(m, pos, d, h, c)),
            None => None,
        }
    }
}

/// What a finished traversal guarantees: it stands in a wall cell of the grid,
/// at most `fuel` cells (in Manhattan distance) from where it began, having
/// crossed a line family whose heading component is nonzero.
pub proof fn lemma_trace_facts(
    m: Seq<Vec<char>>,
    b: int,
    dx: int,
    dy: int,
    c: DdaCursor,
    fuel: nat,
    k: int,
)
    requires
        0 <= c.next_x <= k * b,
        0 <= c.next_y <= k * b,
        b > 0,
    ensures
        trace(m, b, dx, dy, c, fuel) matches Some(n) ==> {
            &&& in_grid(m, n.map_x, n.map_y)
            &&& cell(m, n.map_x, n.map_y) != OPEN
            &&& abs(n.map_x - c.map_x) + abs(n.map_y - c.map_y) <= fuel
            &&& 0 <= n.crossing <= (k + fuel) * b
            &&& (n.side == Side::Vertical ==> dx != 0)
            &&& (n.side == Side::Horizontal ==> dy != 0 || dx == 0)
            &&& (dy == 0 && dx != 0 ==> n.side == Side::Vertical)
            &&& (dx == 0 ==> n.side == Side::Horizontal)
        },
    decreases fuel,
{
    if fuel > 0 {
        let n = advance(c, dx, dy, b);
        assert(k * b + b == (k + 1) * b) by (nonlinear_arith);
        assert(k * b <= (k + fuel) * b) by (nonlinear_arith)
            requires
                fuel >= 0,
                b > 0,
        ;
        lemma_trace_facts(m, b, dx, dy, n, (fuel - 1) as nat, k + 1);
    }
}

/// Everything `cast_ray` promises beyond `cast_spec` itself.
pub open spec fn cast_facts(m: Seq<Vec<char>>, b: int, pos: Vec2, d: Vec2, h: Vec2, r: Option<Ray>) -> bool {
    r matches Some(ray) ==> {
        &&& in_grid(m, ray.cell_x as int, ray.cell_y as int)
        &&& cell(m, ray.cell_x as int, ray.cell_y as int) != OPEN
        &&& ray.wall_type == cell(m, ray.cell_x as int, ray.cell_y as int)
        &&& -MAX_RAY_DISTANCE <= ray.distance <= MAX_RAY_DISTANCE
        &&& (d.x * h.x + d.y * h.y >= 0 ==> ray.distance >= 0)
        &&& abs(ray.cell_x - pos.x as int / b) + abs(ray.cell_y - pos.y as int / b) <= MAX_DDA_STEPS as int
        // Facing along x, a column that meets a vertical face reports the
        // x-distance to it, whatever the column's own heading.
        &&& (h.y == 0 && abs(h.x as int) == DIR_SCALE && d.x * h.x > 0 && ray.side_hit == Side::Vertical ==> {
            &&& ray.distance == abs(ray.hit_point.x - pos.x)
        })
        &&& (h.x == 0 && abs(h.y as int) == DIR_SCALE && d.y * h.y > 0 && ray.side_hit == Side::Horizontal ==> {
            &&& ray.distance == abs(ray.hit_point.y - pos.y)
        })
        &&& (d == h && d.y == 0 && abs(d.x as int) == DIR_SCALE ==> {
            &&& ray.side_hit == Side::Vertical
            &&& ray.hit_point.y == pos.y
            &&& ray.distance == abs(ray.hit_point.x - pos.x)
            &&& ray.distance * ray.distance == dist_sq(ray.hit_point, pos)
        })
        &&& (d == h && d.x == 0 && abs(d.y as int) == DIR_SCALE ==> {
            &&& ray.side_hit == Side::Horizontal
            &&& ray.hit_point.x == pos.x
            &&& ray.distance == abs(ray.hit_point.y - pos.y)
            &&& ray.distance * ray.distance == dist_sq(ray.hit_point, pos)
        })
    }
}

/// Largest magnitude of a reported distance.
pub const MAX_RAY_DISTANCE: i64 = 0x0CA0_0000_0000_0000;

/// Along the struck axis, a column whose component there agrees in sign with
/// a unit heading on that axis reports the crossing itself, and the hit point
/// lies exactly `crossing` along that axis.
proof fn lemma_on_axis(p: int, dcomp: int, hcomp: int, crossing: int)
    requires
        hcomp == DIR_SCALE || hcomp == -DIR_SCALE,
        dcomp * hcomp > 0,
        crossing >= 0,
    ensures
        div_toward_zero(crossing * (dcomp * hcomp), abs(dcomp) * DIR_SCALE) == crossing,
        (p * abs(dcomp) + dcomp * crossing) / abs(dcomp) == p + (if dcomp < 0 { -crossing } else { crossing }),
{
    let a = abs(dcomp);
    assert(dcomp * hcomp == a * DIR_SCALE) by (nonlinear_arith)
        requires
            hcomp == DIR_SCALE || hcomp == -DIR_SCALE,
            dcomp * hcomp > 0,
            a == abs(dcomp),
    ;
    assert(a * DIR_SCALE > 0) by (nonlinear_arith)
        requires
            a > 0,
    ;
    assert(crossing * (a * DIR_SCALE) >= 0) by (nonlinear_arith)
        requires
            crossing >= 0,
            a > 0,
    ;
    vstd::arithmetic::div_mod::lemma_div_multiples_vanish(crossing, a * DIR_SCALE);
    assert(crossing * (a * DIR_SCALE) == (a * DIR_SCALE) * crossing) by (nonlinear_arith);
    let sgn: int = if dcomp < 0 { -1 } else { 1 };
    assert(p * a + dcomp * crossing == a * (p + sgn * crossing)) by (nonlinear_arith)
        requires
            a == abs(dcomp),
            sgn == (if dcomp < 0 { -1int } else { 1 }),
    ;
    vstd::arithmetic::div_mod::lemma_div_multiples_vanish(p + sgn * crossing, a);
    if dcomp < 0 {
        assert(sgn * crossing == -crossing) by (nonlinear_arith)
            requires
                sgn == -1,
        ;
    } else {
        assert(sgn * crossing == crossing) by (nonlinear_arith)
            requires
                sgn == 1,
        ;
    }
}

proof fn lemma_axis_ray(p: int, q: int, crossing: int, s: int, sign: int)
    requires
        s == DIR_SCALE,
        sign == 1 || sign == -1,
        crossing >= 0,
    ensures
        crossing * DIR_SCALE / s == crossing,
        (p * s + sign * s * crossing) / s == p + sign * crossing,
        (q * s + 0 * crossing) / s == q,
{
    vstd::arithmetic::div_mod::lemma_div_multiples_vanish(crossing, s);
    assert(p * s + sign * s * crossing == (p + sign * crossing) * s) by (nonlinear_arith);
    vstd::arithmetic::div_mod::lemma_div_multiples_vanish(p + sign * crossing, s);
    assert(crossing * DIR_SCALE == s * crossing) by (nonlinear_arith)
        requires
            s == DIR_SCALE,
    ;
    assert(q * s + 0 * crossing == s * q) by (nonlinear_arith);
    vstd::arithmetic::div_mod::lemma_div_multiples_vanish(q, s);
}

/// The reported distance stays within `MAX_RAY_DISTANCE`, and is not negative
/// when the column heading points into the camera's half-plane.
proof fn lemma_distance_bounds(crossing: int, d: Vec2, h: Vec2, axis: int)
    requires
        0 <= crossing <= 101 * COORD_LIMIT,
        dir_ok(d),
        dir_ok(h),
        1 <= axis,
    ensures
        -MAX_RAY_DISTANCE <= div_toward_zero(crossing * (d.x * h.x + d.y * h.y), axis * DIR_SCALE)
            <= MAX_RAY_DISTANCE,
        d.x * h.x + d.y * h.y >= 0 ==> div_toward_zero(crossing * (d.x * h.x + d.y * h.y), axis * DIR_SCALE) >= 0,
{
    let dot = d.x * h.x + d.y * h.y;
    let mag = abs(dot);
    assert(mag <= 2 * DIR_SCALE * DIR_SCALE) by (nonlinear_arith)
        requires
            -DIR_SCALE <= d.x <= DIR_SCALE,
            -DIR_SCALE <= d.y <= DIR_SCALE,
            -DIR_SCALE <= h.x <= DIR_SCALE,
            -DIR_SCALE <= h.y <= DIR_SCALE,
            mag == abs(d.x * h.x + d.y * h.y),
    ;
    let num = crossing * mag;
    assert(0 <= num <= 101 * COORD_LIMIT * (2 * DIR_SCALE * DIR_SCALE)) by (nonlinear_arith)
        requires
            0 <= crossing <= 101 * COORD_LIMIT,
            0 <= mag <= 2 * DIR_SCALE * DIR_SCALE,
            num == crossing * mag,
    ;
    assert(axis * DIR_SCALE >= DIR_SCALE) by (nonlinear_arith)
        requires
            axis >= 1,
    ;
    vstd::arithmetic::div_mod::lemma_div_is_ordered_by_denominator(num, DIR_SCALE as int, axis * DIR_SCALE);
    vstd::arithmetic::div_mod::lemma_div_is_ordered(num, 101 * COORD_LIMIT * (2 * DIR_SCALE * DIR_SCALE), DIR_SCALE as int);
    assert(101 * COORD_LIMIT * (2 * DIR_SCALE * DIR_SCALE) == (202 * COORD_LIMIT * DIR_SCALE) * DIR_SCALE) by (nonlinear_arith);
    vstd::arithmetic::div_mod::lemma_div_multiples_vanish(202 * COORD_LIMIT * DIR_SCALE, DIR_SCALE as int);
    assert(DIR_SCALE * (202 * COORD_LIMIT * DIR_SCALE) == (202 * COORD_LIMIT * DIR_SCALE) * DIR_SCALE) by (nonlinear_arith);
    vstd::arithmetic::div_mod::lemma_div_pos_is_pos(num, axis * DIR_SCALE);
    if dot >= 0 {
        assert(crossing * dot == num);
    } else {
        assert(crossing * dot == -num) by (nonlinear_arith)
            requires
                mag == -dot,
                num == crossing * mag,
        ;
    }
}

/// `cast_spec` meets `cast_facts` on every input `cast_ray` admits.
proof fn lemma_cast_facts(m: Seq<Vec<char>>, b: int, pos: Vec2, d: Vec2, h: Vec2)
    requires
        b > 0,
        dir_ok(d),
        dir_ok(h),
        maze_wf(m),
        world_fits(m, b),
        maze_width(m) <= usize::MAX,
        maze_height(m) <= usize::MAX,
    ensures
        cast_facts(m, b, pos, d, h, cast_spec(m, b, pos, d, h)),
{
    if !(pos.x < 0 || pos.y < 0 || !in_grid(m, pos.x as int / b, pos.y as int / b) || (d.x == 0 && d.y == 0)) {
        let c0 = start_cursor(pos, d, b);
        let mx = pos.x as int / b;
        let my = pos.y as int / b;
        assert(mx * b <= pos.x < (mx + 1) * b) by {
            vstd::arithmetic::div_mod::lemma_fundamental_div_mod(pos.x as int, b);
            vstd::arithmetic::div_mod::lemma_mod_bound(pos.x as int, b);
            assert(mx * b == b * mx) by (nonlinear_arith);
            assert((mx + 1) * b == b * mx + b) by (nonlinear_arith);
        }
        assert(my * b <= pos.y < (my + 1) * b) by {
            vstd::arithmetic::div_mod::lemma_fundamental_div_mod(pos.y as int, b);
            vstd::arithmetic::div_mod::lemma_mod_bound(pos.y as int, b);
            assert(my * b == b * my) by (nonlinear_arith);
            assert((my + 1) * b == b * my + b) by (nonlinear_arith);
        }
        assert((mx + 1) * b == mx * b + b) by (nonlinear_arith);
        assert((my + 1) * b == my * b + b) by (nonlinear_arith);
        assert(c0.next_x <= 1 * b && c0.next_y <= 1 * b);
        assert(b <= COORD_LIMIT) by (nonlinear_arith)
            requires
                maze_width(m) * b <= COORD_LIMIT,
                maze_width(m) >= 1,
                b > 0,
        ;
        lemma_trace_facts(m, b, d.x as int, d.y as int, c0, MAX_DDA_STEPS as nat, 1);
        match trace(m, b, d.x as int, d.y as int, c0, MAX_DDA_STEPS as nat) {
            Some(c) => {
                let s = DIR_SCALE as int;
                assert(pos.x < maze_width(m) * b && pos.y < maze_height(m) * b) by (nonlinear_arith)
                    requires
                        pos.x < (mx + 1) * b,
                        pos.y < (my + 1) * b,
                        mx + 1 <= maze_width(m),
                        my + 1 <= maze_height(m),
                        b > 0,
                ;
                assert(c.crossing <= 101 * COORD_LIMIT) by (nonlinear_arith)
                    requires
                        0 <= c.crossing <= 101 * b,
                        b <= COORD_LIMIT,
                ;
                let ray = ray_from_cursor(m, pos, d, h, c);
                lemma_distance_bounds(c.crossing, d, h, if c.side == Side::Vertical { abs(d.x as int) } else { abs(d.y as int) });
                if h.y == 0 && abs(h.x as int) == DIR_SCALE && d.x * h.x > 0 && c.side == Side::Vertical {
                    lemma_on_axis(pos.x as int, d.x as int, h.x as int, c.crossing);
                    assert(d.x * h.x + d.y * h.y == d.x * h.x) by (nonlinear_arith)
                        requires
                            h.y == 0,
                    ;
                }
                if h.x == 0 && abs(h.y as int) == DIR_SCALE && d.y * h.y > 0 && c.side == Side::Horizontal {
                    lemma_on_axis(pos.y as int, d.y as int, h.y as int, c.crossing);
                    assert(d.x * h.x + d.y * h.y == d.y * h.y) by (nonlinear_arith)
                        requires
                            h.x == 0,
                    ;
                }
                if d == h && d.y == 0 && abs(d.x as int) == DIR_SCALE {
                    let sign: int = if d.x < 0 { -1 } else { 1 };
                    assert(d.x == sign * s);
                    assert(d.x * h.x > 0) by (nonlinear_arith)
                        requires
                            d == h,
                            d.x == sign * s,
                            sign == 1 || sign == -1,
                            s == DIR_SCALE,
                    ;
                    lemma_on_axis(pos.x as int, d.x as int, h.x as int, c.crossing);
                    assert(d.x * h.x + d.y * h.y == d.x * h.x);
                    lemma_axis_ray(pos.x as int, pos.y as int, c.crossing, s, sign);
                    assert(d.x * c.crossing == sign * s * c.crossing) by (nonlinear_arith)
                        requires
                            d.x == sign * s,
                    ;
                    assert(ray.hit_point.x == pos.x + sign * c.crossing);
                    assert(ray.distance == c.crossing);
                    assert(ray.distance * ray.distance == dist_sq(ray.hit_point, pos)) by (nonlinear_arith)
                        requires
                            ray.hit_point.x - pos.x == sign * ray.distance,
                            ray.hit_point.y == pos.y,
                            sign == 1 || sign == -1,
                    ;
                }
                if d == h && d.x == 0 && abs(d.y as int) == DIR_SCALE {
                    let sign: int = if d.y < 0 { -1 } else { 1 };
                    assert(d.y == sign * s);
                    assert(d.y * h.y > 0) by (nonlinear_arith)
                        requires
                            d == h,
                            d.y == sign * s,
                            sign == 1 || sign == -1,
                            s == DIR_SCALE,
                    ;
                    lemma_on_axis(pos.y as int, d.y as int, h.y as int, c.crossing);
                    assert(d.x * h.x + d.y * h.y == d.y * h.y);
                    lemma_axis_ray(pos.y as int, pos.x as int, c.crossing, s, sign);
                    assert(d.y * c.crossing == sign * s * c.crossing) by (nonlinear_arith)
                        requires
                            d.y == sign * s,
                    ;
                    assert(ray.hit_point.y == pos.y + sign * c.crossing);
                    assert(ray.distance == c.crossing);
                    assert(ray.distance * ray.distance == dist_sq(ray.hit_point, pos)) by (nonlinear_arith)
                        requires
                            ray.hit_point.y - pos.y == sign * ray.distance,
                            ray.hit_point.x == pos.x,
                            sign == 1 || sign == -1,
                    ;
                }
            },
            None => {},
        }
    }
}

/// Casts one ray from the player's position along `direction` by DDA: steps
/// one grid cell at a time across whichever grid line comes first, until a
/// wall cell is entered. `None` when no wall is met within `MAX_DDA_STEPS`
/// cells, the grid is left, the origin is outside the grid or the heading is
/// zero.
pub fn cast_ray(player: &Player, maze: &Maze, block_size: usize, direction: Vec2) -> (r: Option<Ray>)
    requires
        maze_wf(maze@),
        block_size > 0,
        world_fits(maze@, block_size as int),
        dir_ok(direction),
        dir_ok(player.direction),
    ensures
        r == cast_spec(maze@, block_size as int, player.position, direction, player.direction),
        cast_facts(maze@, block_size as int, player.position, direction, player.direction, r),
{
    let height = maze.len();
    let width = maze[0].len();
    proof {
        lemma_cast_facts(maze@, block_size as int, player.position, direction, player.direction);
    }
    trace_ray(player, maze, block_size, direction)
}

fn trace_ray(player: &Player, maze: &Maze, block_size: usize, direction: Vec2) -> (r: Option<Ray>)
    requires
        maze_wf(maze@),
        block_size > 0,
        world_fits(maze@, block_size as int),
        dir_ok(direction),
        dir_ok(player.direction),
    ensures
        r == cast_spec(maze@, block_size as int, player.position, direction, player.direction),
{
    let height = maze.len();
    let width = maze[0].len();
    let ghost m = maze@;
    let ghost bb = block_size as int;
    assert(block_size <= COORD_LIMIT) by (nonlinear_arith)
        requires
            maze_width(m) * bb <= COORD_LIMIT,
            maze_width(m) >= 1,
            bb == block_size,
            bb > 0,
    ;
    assert(width <= COORD_LIMIT && height <= COORD_LIMIT) by (nonlinear_arith)
        requires
            maze_width(m) * bb <= COORD_LIMIT,
            maze_height(m) * bb <= COORD_LIMIT,
            width == maze_width(m),
            height == maze_height(m),
            bb >= 1,
    ;
    let b = block_size as i64;
    let px = player.position.x;
    let py = player.position.y;
    let dx = direction.x;
    let dy = direction.y;
    if dx == 0 && dy == 0 {
        return None;
    }
    let (sx, sy) = match (world_to_grid(px, block_size), world_to_grid(py, block_size)) {
        (Some(gx), Some(gy)) => (gx, gy),
        _ => {
            return None;
        },
    };
    if sy >= height || sx >= width {
        return None;
    }
    let mut map_x: i64 = sx as i64;
    let mut map_y: i64 = sy as i64;
    assert(map_x * b <= px < (map_x + 1) * b && map_y * b <= py < (map_y + 1) * b) by {
        vstd::arithmetic::div_mod::lemma_fundamental_div_mod(px as int, bb);
        vstd::arithmetic::div_mod::lemma_mod_bound(px as int, bb);
        vstd::arithmetic::div_mod::lemma_fundamental_div_mod(py as int, bb);
        vstd::arithmetic::div_mod::lemma_mod_bound(py as int, bb);
        assert(map_x * b == b * map_x) by (nonlinear_arith);
        assert((map_x + 1) * b == b * map_x + b) by (nonlinear_arith);
        assert(map_y * b == b * map_y) by (nonlinear_arith);
        assert((map_y + 1) * b == b * map_y + b) by (nonlinear_arith);
    }
    assert((map_x + 1) * b <= COORD_LIMIT && (map_y + 1) * b <= COORD_LIMIT) by (nonlinear_arith)
        requires
            map_x + 1 <= width,
            map_y + 1 <= height,
            width * b <= COORD_LIMIT,
            height * b <= COORD_LIMIT,
            b > 0,
    ;
    assert((map_x + 1) * b == map_x * b + b && (map_y + 1) * b == map_y * b + b) by (nonlinear_arith);
    let step_x: i64 = if dx < 0 { -1 } else { 1 };
    let step_y: i64 = if dy < 0 { -1 } else { 1 };
    let abs_dx: i64 = if dx < 0 { -dx } else { dx };
    let abs_dy: i64 = if dy < 0 { -dy } else { dy };
    let mut next_x: i64 = if dx < 0 { px - map_x * b } else { (map_x + 1) * b - px };
    let mut next_y: i64 = if dy < 0 { py - map_y * b } else { (map_y + 1) * b - py };
    let mut side = Side::Vertical;
    let mut crossing: i64 = 0;
    let mut iterations: u32 = 0;
    assert((iterations + 1) * b == b) by (nonlinear_arith)
        requires
            iterations == 0,
    ;
    assert(0 <= next_x <= b && 0 <= next_y <= b);
    let ghost c0 = start_cursor(player.position, direction, bb);
    assert(c0 == (DdaCursor {
        map_x: map_x as int,
        map_y: map_y as int,
        next_x: next_x as int,
        next_y: next_y as int,
        side,
        crossing: crossing as int,
    }));
    while iterations < MAX_DDA_STEPS
        invariant
            m == maze@,
            bb == b,
            bb == block_size as int,
            b > 0,
            b <= COORD_LIMIT,
            maze_wf(m),
            height == maze_height(m),
            width == maze_width(m),
            width <= COORD_LIMIT,
            height <= COORD_LIMIT,
            0 <= map_x < width,
            0 <= map_y < height,
            iterations <= MAX_DDA_STEPS,
            0 <= next_x <= (iterations + 1) * b,
            0 <= next_y <= (iterations + 1) * b,
            dx == direction.x,
            dy == direction.y,
            dir_ok(direction),
            dir_ok(player.direction),
            abs_dx == abs(dx as int),
            abs_dy == abs(dy as int),
            step_x == step_of(dx as int),
            step_y == step_of(dy as int),
            px == player.position.x,
            py == player.position.y,
            0 <= px <= COORD_LIMIT,
            0 <= py <= COORD_LIMIT,
            !(dx == 0 && dy == 0),
            trace(
                m,
                bb,
                dx as int,
                dy as int,
                DdaCursor {
                    map_x: map_x as int,
                    map_y: map_y as int,
                    next_x: next_x as int,
                    next_y: next_y as int,
                    side,
                    crossing: crossing as int,
                },
                (MAX_DDA_STEPS - iterations) as nat,
            ) == trace(m, bb, dx as int, dy as int, c0, MAX_DDA_STEPS as nat),
            cast_spec(m, bb, player.position, direction, player.direction) == match trace(
                m,
                bb,
                dx as int,
                dy as int,
                c0,
                MAX_DDA_STEPS as nat,
            ) {
                Some(c) => Some(ray_from_cursor(m, player.position, direction, player.direction, c)),
                None => None,
            },
        decreases MAX_DDA_STEPS - iterations,
    {
        let ghost cur = DdaCursor {
            map_x: map_x as int,
            map_y: map_y as int,
            next_x: next_x as int,
            next_y: next_y as int,
            side,
            crossing: crossing as int,
        };
        assert(next_x * abs_dy <= 101 * COORD_LIMIT * DIR_SCALE && next_y * abs_dx <= 101
            * COORD_LIMIT * DIR_SCALE) by (nonlinear_arith)
            requires
                0 <= next_x <= (iterations + 1) * b,
                0 <= next_y <= (iterations + 1) * b,
                iterations <= 100,
                0 < b <= COORD_LIMIT,
                0 <= abs_dx <= DIR_SCALE,
                0 <= abs_dy <= DIR_SCALE,
        ;
        let x_first = if dx == 0 {
            false
        } else if dy == 0 {
            true
        } else {
            next_x * abs_dy < next_y * abs_dx
        };
        assert((iterations + 1) * b + b == (iterations + 2) * b) by (nonlinear_arith);
        assert((iterations + 2) * b <= 102 * COORD_LIMIT) by (nonlinear_arith)
            requires
                iterations <= 100,
                0 < b <= COORD_LIMIT,
        ;
        if x_first {
            crossing = next_x;
            next_x = next_x + b;
            map_x = map_x + step_x;
            side = Side::Vertical;
        } else {
            crossing = next_y;
            next_y = next_y + b;
            map_y = map_y + step_y;
            side = Side::Horizontal;
        }
        let ghost n = DdaCursor {
            map_x: map_x as int,
            map_y: map_y as int,
            next_x: next_x as int,
            next_y: next_y as int,
            side,
            crossing: crossing as int,
        };
        assert(n == advance(cur, dx as int, dy as int, bb));
        let ghost fuel = (MAX_DDA_STEPS - iterations) as nat;
        assert(trace(m, bb, dx as int, dy as int, cur, fuel) == if !in_grid(m, n.map_x, n.map_y) {
            None
        } else if cell(m, n.map_x, n.map_y) != OPEN {
            Some(n)
        } else {
            trace(m, bb, dx as int, dy as int, n, (fuel - 1) as nat)
        });
        if map_x < 0 || map_y < 0 || map_y >= height as i64 || map_x >= width as i64 {
            return None;
        }
        let wall = maze[map_y as usize][map_x as usize];
        if wall != OPEN {
            let axis: i64 = if x_first { abs_dx } else { abs_dy };
            assert(crossing * DIR_SCALE <= 101 * COORD_LIMIT * DIR_SCALE) by (nonlinear_arith)
                requires
                    0 <= crossing <= (iterations + 1) * b,
                    iterations <= 100,
                    0 < b <= COORD_LIMIT,
            ;
            assert(crossing <= 101 * COORD_LIMIT) by (nonlinear_arith)
                requires
                    0 <= crossing <= (iterations + 1) * b,
                    iterations <= 100,
                    0 < b <= COORD_LIMIT,
            ;
            let hx = player.direction.x as i128;
            let hy = player.direction.y as i128;
            assert(-DIR_SCALE * DIR_SCALE <= dx * hx <= DIR_SCALE * DIR_SCALE && -DIR_SCALE * DIR_SCALE
                <= dy * hy <= DIR_SCALE * DIR_SCALE) by (nonlinear_arith)
                requires
                    -DIR_SCALE <= dx <= DIR_SCALE,
                    -DIR_SCALE <= dy <= DIR_SCALE,
                    -DIR_SCALE <= hx <= DIR_SCALE,
                    -DIR_SCALE <= hy <= DIR_SCALE,
            ;
            let dot = dx as i128 * hx + dy as i128 * hy;
            proof {
                lemma_distance_bounds(crossing as int, direction, player.direction, axis as int);
            }
            let mag: i128 = if dot < 0 { -dot } else { dot };
            assert(mag <= 2 * DIR_SCALE * DIR_SCALE) by (nonlinear_arith)
                requires
                    -DIR_SCALE <= dx <= DIR_SCALE,
                    -DIR_SCALE <= dy <= DIR_SCALE,
                    -DIR_SCALE <= hx <= DIR_SCALE,
                    -DIR_SCALE <= hy <= DIR_SCALE,
                    dot == dx * hx + dy * hy,
                    mag == abs(dot as int),
            ;
            assert(0 <= crossing * mag <= 101 * COORD_LIMIT * (2 * DIR_SCALE * DIR_SCALE)) by (nonlinear_arith)
                requires
                    0 <= crossing <= 101 * COORD_LIMIT,
                    0 <= mag <= 2 * DIR_SCALE * DIR_SCALE,
            ;
            assert(axis as i128 * (DIR_SCALE as i128) > 0) by (nonlinear_arith)
                requires
                    axis > 0,
            ;
            let q = (crossing as i128 * mag) / (axis as i128 * DIR_SCALE as i128);
            proof {
                if dot < 0 {
                    assert(crossing * dot == -(crossing * mag)) by (nonlinear_arith)
                        requires
                            mag == -dot,
                    ;
                }
            }
            let distance = (if dot < 0 { -q } else { q }) as i64;
            assert(px * axis <= COORD_LIMIT * DIR_SCALE && py * axis <= COORD_LIMIT * DIR_SCALE)
                by (nonlinear_arith)
                requires
                    0 <= px <= COORD_LIMIT,
                    0 <= py <= COORD_LIMIT,
                    0 < axis <= DIR_SCALE,
            ;
            assert(-101 * COORD_LIMIT * DIR_SCALE <= dx * crossing <= 101 * COORD_LIMIT * DIR_SCALE
                && -101 * COORD_LIMIT * DIR_SCALE <= dy * crossing <= 101 * COORD_LIMIT * DIR_SCALE)
                by (nonlinear_arith)
                requires
                    0 <= crossing <= 101 * COORD_LIMIT,
                    -DIR_SCALE <= dx <= DIR_SCALE,
                    -DIR_SCALE <= dy <= DIR_SCALE,
            ;
            let hit_x = floor_div(px * axis + dx * crossing, axis);
            let hit_y = floor_div(py * axis + dy * crossing, axis);
            let ray = Ray::new(
                distance,
                Vec2::new(hit_x, hit_y),
                wall,
                side,
                map_x as usize,
                map_y as usize,
            );
            assert(ray == ray_from_cursor(m, player.position, direction, player.direction, n));
            return Some(ray);
        }
        iterations = iterations + 1;
    }
    None
}

/// One cast per column heading in `dirs`, for a camera facing `h`; a column
/// whose ray meets no wall holds `None`.
pub open spec fn cast_all(m: Seq<Vec<char>>, b: int, pos: Vec2, h: Vec2, dirs: Seq<Vec2>) -> Seq<Option<Ray>> {
    Seq::new(dirs.len(), |i: int| cast_spec(m, b, pos, dirs[i], h))
}

/// Casts one ray per screen column, `directions[i]` being column `i`'s heading;
/// the result keeps one slot per column, `None` where no wall was met.
pub fn cast_rays(player: &Player, maze: &Maze, block_size: usize, directions: &Vec<Vec2>) -> (r: Vec<
    Option<Ray>,
>)
    requires
        maze_wf(maze@),
        block_size > 0,
        world_fits(maze@, block_size as int),
        dir_ok(player.direction),
        forall|i: int| 0 <= i < directions@.len() ==> dir_ok(#[trigger] directions@[i]),
    ensures
        r@ == cast_all(maze@, block_size as int, player.position, player.direction, directions@),
        forall|i: int|
            0 <= i < r@.len() ==> cast_facts(
                maze@,
                block_size as int,
                player.position,
                directions@[i],
                player.direction,
                #[trigger] r@[i],
            ),
{
    let mut rays: Vec<Option<Ray>> = Vec::new();
    let mut i: usize = 0;
    while i < directions.len()
        invariant
            0 <= i <= directions@.len(),
            maze_wf(maze@),
            block_size > 0,
            world_fits(maze@, block_size as int),
            dir_ok(player.direction),
            forall|j: int| 0 <= j < directions@.len() ==> dir_ok(#[trigger] directions@[j]),
            rays@.len() == i,
            forall|j: int|
                0 <= j < i ==> #[trigger] rays@[j] == cast_spec(
                    maze@,
                    block_size as int,
                    player.position,
                    directions@[j],
                    player.direction,
                ) && cast_facts(maze@, block_size as int, player.position, directions@[j], player.direction, rays@[j]),
        decreases directions@.len() - i,
    {
        let ray = cast_ray(player, maze, block_size, directions[i]);
        rays.push(ray);
        i = i + 1;
    }
    assert(rays@ == cast_all(maze@, block_size as int, player.position, player.direction, directions@));
    rays
}

/// Casts one ray straight along the player's heading.
pub fn cast_single_ray(player: &Player, maze: &Maze, block_size: usize) -> (r: Option<Ray>)
    requires
        maze_wf(maze@),
        block_size > 0,
        world_fits(maze@, block_size as int),
        dir_ok(player.direction),
    ensures
        r == cast_spec(maze@, block_size as int, player.position, player.direction, player.direction),
        cast_facts(maze@, block_size as int, player.position, player.direction, player.direction, r),
{
    cast_ray(player, maze, block_size, player.direction)
}

} // verus!
