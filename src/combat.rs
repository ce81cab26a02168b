use vstd::prelude::*;
use crate::geometry::{Vec2, COORD_LIMIT, DIR_SCALE, point_ok, dir_ok, dist_sq, distance_squared, abs};
use crate::grid::{Maze, maze_wf};
use crate::player::Player;
use crate::enemy::{Enemy, EnemyState, EnemyAudioEvent, anim_wf, hit_enemy, lemma_dist_sq_ok};
use crate::raycaster::{cast_single_ray, cast_spec, world_fits};

verus! {

/// Aiming tolerance as a slope: a target is in the sights when the sine of the
/// angle between heading and target, over its cosine, is below
/// `AIM_NUM / AIM_DEN` = 0.100335, the tangent of 0.1 radian (0.1003347...)
/// rounded up at the sixth decimal.
pub const AIM_NUM: i128 = 100335;
pub const AIM_DEN: i128 = 1000000;

/// Which enemy a shot strikes when several are in the sights.
#[derive(Debug, Clone, Copy, PartialEq, Eq, Structural)]
pub enum HitPolicy {
    /// The first qualifying enemy in collection order.
    FirstMatch,
    /// The qualifying enemy nearest the shooter (the first of equals).
    Nearest,
}

/// An enemy struck by a shot.
#[derive(Debug, Clone, Copy, PartialEq, Eq, Structural)]
pub struct ShotHit {
    /// Its place in the enemy collection.
    pub index: usize,
    /// Whether the shot killed it.
    pub killed: bool,
}

/// The point `e` lies within the aiming tolerance of heading `d` from `p`
/// (strictly in front of the shooter).
pub open spec fn aimed_at(p: Vec2, d: Vec2, e: Vec2) -> bool {
    let vx = e.x - p.x;
    let vy = e.y - p.y;
    let dot = d.x * vx + d.y * vy;
    let cross = d.x * vy - d.y * vx;
    AIM_DEN * abs(cross) < AIM_NUM * dot
}

/// A shot from `p` along `d` that meets a wall at `wall_distance` can strike `e`:
/// alive, in the sights, and nearer than the wall.
pub open spec fn shootable(e: Enemy, p: Vec2, d: Vec2, wall_distance: int) -> bool {
    &&& e.state != EnemyState::Dead
    &&& aimed_at(p, d, e.position)
    &&& dist_sq(e.position, p) < wall_distance * wall_distance
}

/// The enemy that policy `policy` picks at index `i`, among `es`.
pub open spec fn picked(
    es: Seq<Enemy>,
    i: int,
    p: Vec2,
    d: Vec2,
    wall_distance: int,
    policy: HitPolicy,
) -> bool {
    &&& 0 <= i < es.len()
    &&& shootable(es[i], p, d, wall_distance)
    &&& forall|j: int|
        #![trigger es[j]]
        0 <= j < i ==> !shootable(es[j], p, d, wall_distance) || (policy == HitPolicy::Nearest
            && dist_sq(es[j].position, p) > dist_sq(es[i].position, p))
    &&& (policy == HitPolicy::Nearest ==> forall|j: int|
        #![trigger es[j]]
        i < j < es.len() && shootable(es[j], p, d, wall_distance) ==> dist_sq(es[j].position, p)
            >= dist_sq(es[i].position, p))
}

/// An enemy a shot can be resolved against: its position fits the library's
/// arithmetic, its animation is well formed, its health is not negative.
pub open spec fn target_ok(e: Enemy) -> bool {
    point_ok(e.position) && anim_wf(e.animation) && e.health >= 0
}

/// Whether the enemy at `target` is in the sights of a shooter at `p` facing `d`.
pub fn is_aimed_at(p: Vec2, d: Vec2, target: Vec2) -> (r: bool)
    requires
        point_ok(p),
        point_ok(target),
        dir_ok(d),
    ensures
        r == aimed_at(p, d, target),
{
    let vx = target.x as i128 - p.x as i128;
    let vy = target.y as i128 - p.y as i128;
    let dx = d.x as i128;
    let dy = d.y as i128;
    assert(-0x2000_0000_0000_0000 <= dx * vx <= 0x2000_0000_0000_0000 && -0x2000_0000_0000_0000 <= dy
        * vy <= 0x2000_0000_0000_0000 && -0x2000_0000_0000_0000 <= dx * vy <= 0x2000_0000_0000_0000
        && -0x2000_0000_0000_0000 <= dy * vx <= 0x2000_0000_0000_0000) by (nonlinear_arith)
        requires
            -2 * COORD_LIMIT <= vx <= 2 * COORD_LIMIT,
            -2 * COORD_LIMIT <= vy <= 2 * COORD_LIMIT,
            -DIR_SCALE <= dx <= DIR_SCALE,
            -DIR_SCALE <= dy <= DIR_SCALE,
    ;
    let dot = dx * vx + dy * vy;
    let cross = dx * vy - dy * vx;
    let abs_cross = if cross < 0 { -cross } else { cross };
    AIM_DEN * abs_cross < AIM_NUM * dot
}

/// Resolves one shot from `player` whose forward ray met a wall at
/// `wall_distance`: the enemy that `policy` picks among the shootable ones
/// takes `damage`; no other enemy changes. `None` when no enemy is shootable.
pub fn resolve_shot(
    enemies: &mut Vec<Enemy>,
    player: &Player,
    wall_distance: i64,
    damage: i32,
    policy: HitPolicy,
) -> (r: Option<ShotHit>)
    requires
        point_ok(player.position),
        dir_ok(player.direction),
        0 <= wall_distance <= 0x1000_0000_0000_0000,
        0 <= damage,
        forall|i: int| 0 <= i < old(enemies)@.len() ==> target_ok(#[trigger] old(enemies)@[i]),
    ensures
        final(enemies)@.len() == old(enemies)@.len(),
        match r {
            Some(hit) => {
                &&& picked(
                    old(enemies)@,
                    hit.index as int,
                    player.position,
                    player.direction,
                    wall_distance as int,
                    policy,
                )
                &&& final(enemies)@ == old(enemies)@.update(
                    hit.index as int,
                    hit_enemy(old(enemies)@[hit.index as int], damage),
                )
                &&& hit.killed == (old(enemies)@[hit.index as int].health - damage <= 0)
            },
            None => {
                &&& forall|i: int|
                    0 <= i < old(enemies)@.len() ==> !shootable(
                        #[trigger] old(enemies)@[i],
                        player.position,
                        player.direction,
                        wall_distance as int,
                    )
                &&& final(enemies)@ == old(enemies)@
            },
        },
{
    let ghost es = enemies@;
    let ghost p = player.position;
    let ghost d = player.direction;
    let w = wall_distance as i128;
    let mut best: Option<usize> = None;
    let mut best_d2: i128 = 0;
    let mut i: usize = 0;
    while i < enemies.len()
        invariant
            es == enemies@,
            es == old(enemies)@,
            p == player.position,
            d == player.direction,
            point_ok(p),
            dir_ok(d),
            w == wall_distance,
            0 <= wall_distance <= 0x1000_0000_0000_0000,
            0 <= i <= es.len(),
            forall|k: int| 0 <= k < es.len() ==> target_ok(#[trigger] es[k]),
            0 <= damage,
            match best {
                Some(b) => {
                    &&& b < i
                    &&& best_d2 == dist_sq(es[b as int].position, p)
                    &&& shootable(es[b as int], p, d, wall_distance as int)
                    &&& forall|j: int|
                        #![trigger es[j]]
                        0 <= j < b ==> !shootable(es[j], p, d, wall_distance as int) || (policy
                            == HitPolicy::Nearest && dist_sq(es[j].position, p) > best_d2)
                    &&& (policy == HitPolicy::Nearest ==> forall|j: int|
                        #![trigger es[j]]
                        b < j < i && shootable(es[j], p, d, wall_distance as int) ==> dist_sq(
                            es[j].position,
                            p,
                        ) >= best_d2)
                    &&& policy == HitPolicy::Nearest
                },
                None => forall|j: int|
                    #![trigger es[j]]
                    0 <= j < i ==> !shootable(es[j], p, d, wall_distance as int),
            },
        decreases es.len() - i,
    {
        let e = enemies[i];
        if e.is_alive() {
            proof {
                lemma_dist_sq_ok(e.position, p);
            }
            let d2 = distance_squared(e.position, player.position);
            assert(w * w <= 0x100_0000_0000_0000_0000_0000_0000_0000) by (nonlinear_arith)
                requires
                    0 <= w <= 0x1000_0000_0000_0000,
            ;
            if is_aimed_at(player.position, player.direction, e.position) && d2 < w * w {
                let better = match best {
                    None => true,
                    Some(_) => d2 < best_d2,
                };
                if policy == HitPolicy::FirstMatch {
                    let mut target = e;
                    let event = target.take_damage(damage);
                    enemies.set(i, target);
                    return Some(ShotHit { index: i, killed: event == Some(EnemyAudioEvent::Death) });
                }
                if better {
                    best = Some(i);
                    best_d2 = d2;
                }
            }
        }
        i = i + 1;
    }
    match best {
        None => None,
        Some(b) => {
            let mut target = enemies[b];
            let event = target.take_damage(damage);
            enemies.set(b, target);
            Some(ShotHit { index: b, killed: event == Some(EnemyAudioEvent::Death) })
        },
    }
}

/// Fires along the player's heading: casts the forward ray and, when it meets
/// a wall, resolves the shot against that wall distance. A ray that meets no
/// wall strikes nothing.
pub fn fire_shot(
    enemies: &mut Vec<Enemy>,
    player: &Player,
    maze: &Maze,
    block_size: usize,
    damage: i32,
    policy: HitPolicy,
) -> (r: Option<ShotHit>)
    requires
        maze_wf(maze@),
        block_size > 0,
        world_fits(maze@, block_size as int),
        point_ok(player.position),
        dir_ok(player.direction),
        0 <= damage,
        forall|i: int| 0 <= i < old(enemies)@.len() ==> target_ok(#[trigger] old(enemies)@[i]),
    ensures
        final(enemies)@.len() == old(enemies)@.len(),
        match cast_spec(maze@, block_size as int, player.position, player.direction, player.direction) {
            None => r is None && final(enemies)@ == old(enemies)@,
            Some(ray) => match r {
                Some(hit) => {
                    &&& picked(
                        old(enemies)@,
                        hit.index as int,
                        player.position,
                        player.direction,
                        ray.distance as int,
                        policy,
                    )
                    &&& final(enemies)@ == old(enemies)@.update(
                        hit.index as int,
                        hit_enemy(old(enemies)@[hit.index as int], damage),
                    )
                    &&& hit.killed == (old(enemies)@[hit.index as int].health - damage <= 0)
                },
                None => {
                    &&& forall|i: int|
                        0 <= i < old(enemies)@.len() ==> !shootable(
                            #[trigger] old(enemies)@[i],
                            player.position,
                            player.direction,
                            ray.distance as int,
                        )
                    &&& final(enemies)@ == old(enemies)@
                },
            },
        },
{
    let d = player.direction;
    assert(d.x * d.x + d.y * d.y >= 0) by (nonlinear_arith);
    match cast_single_ray(player, maze, block_size) {
        None => None,
        Some(ray) => resolve_shot(enemies, player, ray.distance, damage, policy),
    }
}

} // verus!
