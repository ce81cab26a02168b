use vstd::prelude::*;
use crate::geometry::{Vec2, COORD_LIMIT, point_ok, dist_sq, distance, distance_squared};
use crate::grid::{Maze, OPEN, maze_wf, maze_width, maze_height, in_grid, cell};
use crate::raycaster::world_fits;
use crate::enemy::{center_of, lemma_dist_sq_ok};
use crate::random::{random_up_to, shuffle};

verus! {

broadcast use vstd::seq_lib::group_to_multiset_ensures;

/// What a sprite is for.
#[derive(Debug, Clone, Copy, PartialEq, Eq, Structural)]
pub enum SpriteType {
    /// Scenery: never collected.
    Decoration,
    /// A collectible item of the given kind.
    Pickup(PickupType),
}

/// The kinds of collectible item.
#[derive(Debug, Clone, Copy, PartialEq, Eq, Structural)]
pub enum PickupType {
    Health,
    Ammo,
    Key,
    Treasure,
}

/// Pickup radius of a decoration, in world units.
pub const DECORATION_PICKUP_RADIUS: i64 = 32;

/// Pickup radius of a collectible item, in world units.
pub const ITEM_PICKUP_RADIUS: i64 = 48;

/// Display scale of a collectible item, in percent.
pub const ITEM_SCALE_PERCENT: u32 = 80;

/// A billboard in the world: a decoration or a collectible item.
#[derive(Debug, Clone, Copy, PartialEq, Eq, Structural)]
pub struct Sprite {
    pub position: Vec2,
    pub texture_index: usize,
    /// Display scale in percent of a full cell height.
    pub scale: u32,
    pub active: bool,
    pub sprite_type: SpriteType,
    /// Distance within which the player collects it, in world units.
    pub pickup_radius: i64,
}

/// The player at `p` can collect sprite `s`: it is an active pickup within its
/// pickup radius (inclusive).
pub open spec fn pickup_in_reach(s: Sprite, p: Vec2) -> bool {
    &&& s.active
    &&& s.sprite_type is Pickup
    &&& dist_sq(s.position, p) <= s.pickup_radius * s.pickup_radius
}

impl Sprite {
    /// A full-size decoration.
    pub fn new(position: Vec2, texture_index: usize) -> (r: Sprite)
        ensures
            r == (Sprite {
                position,
                texture_index,
                scale: 100,
                active: true,
                sprite_type: SpriteType::Decoration,
                pickup_radius: DECORATION_PICKUP_RADIUS,
            }),
    {
        Sprite {
            position,
            texture_index,
            scale: 100,
            active: true,
            sprite_type: SpriteType::Decoration,
            pickup_radius: DECORATION_PICKUP_RADIUS,
        }
    }

    /// A decoration drawn at `scale` percent.
    pub fn with_scale(position: Vec2, texture_index: usize, scale: u32) -> (r: Sprite)
        ensures
            r == (Sprite {
                position,
                texture_index,
                scale,
                active: true,
                sprite_type: SpriteType::Decoration,
                pickup_radius: DECORATION_PICKUP_RADIUS,
            }),
    {
        Sprite {
            position,
            texture_index,
            scale,
            active: true,
            sprite_type: SpriteType::Decoration,
            pickup_radius: DECORATION_PICKUP_RADIUS,
        }
    }

    /// A collectible item: drawn a little smaller, collected from further away.
    pub fn new_pickup(position: Vec2, texture_index: usize, pickup_type: PickupType) -> (r: Sprite)
        ensures
            r == (Sprite {
                position,
                texture_index,
                scale: ITEM_SCALE_PERCENT,
                active: true,
                sprite_type: SpriteType::Pickup(pickup_type),
                pickup_radius: ITEM_PICKUP_RADIUS,
            }),
    {
        Sprite {
            position,
            texture_index,
            scale: ITEM_SCALE_PERCENT,
            active: true,
            sprite_type: SpriteType::Pickup(pickup_type),
            pickup_radius: ITEM_PICKUP_RADIUS,
        }
    }

    pub fn position(&self) -> (r: Vec2)
        ensures
            r == self.position,
    {
        self.position
    }

    pub fn x(&self) -> (r: i64)
        ensures
            r == self.position.x,
    {
        self.position.x
    }

    pub fn y(&self) -> (r: i64)
        ensures
            r == self.position.y,
    {
        self.position.y
    }

    pub fn texture_index(&self) -> (r: usize)
        ensures
            r == self.texture_index,
    {
        self.texture_index
    }

    pub fn scale(&self) -> (r: u32)
        ensures
            r == self.scale,
    {
        self.scale
    }

    pub fn is_active(&self) -> (r: bool)
        ensures
            r == self.active,
    {
        self.active
    }

    pub fn sprite_type(&self) -> (r: SpriteType)
        ensures
            r == self.sprite_type,
    {
        self.sprite_type
    }

    pub fn pickup_radius(&self) -> (r: i64)
        ensures
            r == self.pickup_radius,
    {
        self.pickup_radius
    }

    pub fn set_position(&mut self, position: Vec2)
        ensures
            *final(self) == (Sprite { position, ..*old(self) }),
    {
        self.position = position;
    }

    pub fn set_texture_index(&mut self, index: usize)
        ensures
            *final(self) == (Sprite { texture_index: index, ..*old(self) }),
    {
        self.texture_index = index;
    }

    pub fn set_scale(&mut self, scale: u32)
        ensures
            *final(self) == (Sprite { scale, ..*old(self) }),
    {
        self.scale = scale;
    }

    pub fn set_active(&mut self, active: bool)
        ensures
            *final(self) == (Sprite { active, ..*old(self) }),
    {
        self.active = active;
    }

    /// Distance from the sprite to `(player_x, player_y)`, rounded down.
    pub fn distance_to(&self, player_x: i64, player_y: i64) -> (r: u64)
        requires
            point_ok(self.position),
            point_ok(Vec2 { x: player_x, y: player_y }),
        ensures
            r * r <= dist_sq(self.position, Vec2 { x: player_x, y: player_y }) < (r + 1) * (r
                + 1),
    {
        distance(self.position, Vec2 { x: player_x, y: player_y })
    }

    /// Whether the player at `(player_x, player_y)` can collect this sprite.
    pub fn can_pickup(&self, player_x: i64, player_y: i64) -> (r: bool)
        requires
            point_ok(self.position),
            point_ok(Vec2 { x: player_x, y: player_y }),
            -0x1_0000_0000 <= self.pickup_radius <= 0x1_0000_0000,
        ensures
            r == pickup_in_reach(*self, Vec2 { x: player_x, y: player_y }),
    {
        if !self.active {
            return false;
        }
        match self.sprite_type {
            SpriteType::Decoration => false,
            SpriteType::Pickup(_) => {
                let d = distance_squared(self.position, Vec2 { x: player_x, y: player_y });
                let r = self.pickup_radius as i128;
                assert(0 <= r * r <= 0x1_0000_0000_0000_0000) by (nonlinear_arith)
                    requires
                        -0x1_0000_0000 <= r <= 0x1_0000_0000,
                ;
                d <= r * r
            },
        }
    }

    /// Collects this sprite if it is an active pickup: it becomes inactive and
    /// its kind is returned.
    pub fn collect(&mut self) -> (r: Option<PickupType>)
        ensures
            match old(self).sprite_type {
                SpriteType::Pickup(k) if old(self).active => {
                    &&& r == Some(k)
                    &&& *final(self) == (Sprite { active: false, ..*old(self) })
                },
                _ => r is None && *final(self) == *old(self),
            },
    {
        if !self.active {
            return None;
        }
        match self.sprite_type {
            SpriteType::Decoration => None,
            SpriteType::Pickup(pickup_type) => {
                self.active = false;
                Some(pickup_type)
            },
        }
    }

    /// Whether this sprite is a collectible item.
    pub fn is_pickup(&self) -> (r: bool)
        ensures
            r == (self.sprite_type is Pickup),
    {
        match self.sprite_type {
            SpriteType::Pickup(_) => true,
            SpriteType::Decoration => false,
        }
    }
}

/// A sprite whose geometry the library's arithmetic can hold.
pub open spec fn sprite_ok(s: Sprite) -> bool {
    point_ok(s.position) && -0x1_0000_0000 <= s.pickup_radius <= 0x1_0000_0000
}

/// The kinds collected, in order, when the player at `p` sweeps `sprites`.
pub open spec fn pickups_collected(sprites: Seq<Sprite>, p: Vec2) -> Seq<PickupType>
    decreases sprites.len(),
{
    if sprites.len() == 0 {
        Seq::empty()
    } else {
        let rest = pickups_collected(sprites.drop_last(), p);
        let s = sprites.last();
        if pickup_in_reach(s, p) {
            rest.push(s.sprite_type->Pickup_0)
        } else {
            rest
        }
    }
}

/// Sprite `s` after the player at `p` has swept it.
pub open spec fn after_sweep(s: Sprite, p: Vec2) -> Sprite {
    if pickup_in_reach(s, p) {
        Sprite { active: false, ..s }
    } else {
        s
    }
}

/// Collects every sprite the player at `(player_x, player_y)` can reach and
/// returns their kinds in order.
pub fn process_pickups(sprites: &mut Vec<Sprite>, player_x: i64, player_y: i64) -> (r: Vec<
    PickupType,
>)
    requires
        forall|i: int| 0 <= i < old(sprites)@.len() ==> sprite_ok(#[trigger] old(sprites)@[i]),
        point_ok(Vec2 { x: player_x, y: player_y }),
    ensures
        final(sprites)@.len() == old(sprites)@.len(),
        forall|i: int|
            0 <= i < old(sprites)@.len() ==> #[trigger] final(sprites)@[i] == after_sweep(
                old(sprites)@[i],
                Vec2 { x: player_x, y: player_y },
            ),
        r@ == pickups_collected(old(sprites)@, Vec2 { x: player_x, y: player_y }),
{
    let ghost p = Vec2 { x: player_x, y: player_y };
    let ghost orig = sprites@;
    let mut collected: Vec<PickupType> = Vec::new();
    let mut i: usize = 0;
    while i < sprites.len()
        invariant
            0 <= i <= sprites@.len(),
            sprites@.len() == orig.len(),
            p == (Vec2 { x: player_x, y: player_y }),
            point_ok(p),
            forall|j: int| 0 <= j < orig.len() ==> sprite_ok(#[trigger] orig[j]),
            forall|j: int| 0 <= j < i ==> #[trigger] sprites@[j] == after_sweep(orig[j], p),
            forall|j: int| i <= j < orig.len() ==> #[trigger] sprites@[j] == orig[j],
            collected@ == pickups_collected(orig.subrange(0, i as int), p),
        decreases orig.len() - i,
    {
        assert(orig.subrange(0, i + 1).drop_last() == orig.subrange(0, i as int));
        assert(orig.subrange(0, i + 1).last() == orig[i as int]);
        let mut s = sprites[i];
        if s.can_pickup(player_x, player_y) {
            if let Some(kind) = s.collect() {
                collected.push(kind);
            }
        }
        sprites.set(i, s);
        i = i + 1;
    }
    assert(orig.subrange(0, orig.len() as int) == orig);
    collected
}

/// How many sprites of each kind to spawn, how far apart, and how many
/// decoration textures there are to pick from.
#[derive(Debug, Clone, Copy, PartialEq, Eq, Structural)]
pub struct SpriteSpawnConfig {
    pub num_decorations: usize,
    pub num_pickups: usize,
    /// Least distance between two spawned sprites, in world units.
    pub min_spacing: i64,
    pub num_textures: usize,
}

impl Default for SpriteSpawnConfig {
    fn default() -> (r: Self)
        ensures
            r == (SpriteSpawnConfig { num_decorations: 15, num_pickups: 10, min_spacing: 64, num_textures: 4 }),
    {
        SpriteSpawnConfig { num_decorations: 15, num_pickups: 10, min_spacing: 64, num_textures: 4 }
    }
}

/// The texture slot of each kind of pickup.
pub open spec fn pickup_texture(kind: PickupType) -> usize {
    match kind {
        PickupType::Health => 4,
        PickupType::Ammo => 5,
        PickupType::Key => 6,
        PickupType::Treasure => 7,
    }
}

/// Some wall lies within `radius` cells of `(x, y)` (a square neighbourhood).
pub open spec fn wall_nearby(m: Seq<Vec<char>>, x: int, y: int, radius: int) -> bool {
    exists|nx: int, ny: int|
        x - radius <= nx <= x + radius && y - radius <= ny <= y + radius && in_grid(m, nx, ny) && #[trigger] cell(
            m,
            nx,
            ny,
        ) != OPEN
}

/// Cell `(gx, gy)` may hold a sprite: open, off the border, near a wall.
pub open spec fn sprite_spawn_cell(m: Seq<Vec<char>>, gx: int, gy: int) -> bool {
    &&& 1 <= gx < maze_width(m) - 1
    &&& 1 <= gy < maze_height(m) - 1
    &&& cell(m, gx, gy) == OPEN
    &&& wall_nearby(m, gx, gy, 2)
}

pub open spec fn sprite_spawn_point(m: Seq<Vec<char>>, b: int, v: Vec2) -> bool {
    exists|gx: int, gy: int| #[trigger] sprite_spawn_cell(m, gx, gy) && v == center_of(gx, gy, b)
}

pub open spec fn is_key(s: Sprite) -> bool {
    s.sprite_type == SpriteType::Pickup(PickupType::Key)
}

/// Whether some wall lies within `radius` cells of `(x, y)`.
pub fn check_nearby_walls(maze: &Maze, x: usize, y: usize, radius: usize) -> (r: bool)
    requires
        maze_wf(maze@),
        x < maze_width(maze@),
        y < maze_height(maze@),
        radius <= 0x1_0000,
        maze_width(maze@) <= COORD_LIMIT,
        maze_height(maze@) <= COORD_LIMIT,
    ensures
        r == wall_nearby(maze@, x as int, y as int, radius as int),
{
    let ghost m = maze@;
    let height_us = maze.len();
    let width_us = maze[0].len();
    let height = height_us as i64;
    let width = width_us as i64;
    let rr = radius as i64;
    let mut dy: i64 = -rr;
    while dy <= rr
        invariant
            m == maze@,
            maze_wf(m),
            height == maze_height(m),
            width == maze_width(m),
            height <= COORD_LIMIT,
            width <= COORD_LIMIT,
            height == height_us,
            width == width_us,
            rr == radius,
            radius <= 0x1_0000,
            x < width,
            y < height,
            -rr <= dy <= rr + 1,
            forall|nx: int, ny: int|
                x - rr <= nx <= x + rr && y - rr <= ny < y + dy && in_grid(m, nx, ny) ==> #[trigger] cell(
                    m,
                    nx,
                    ny,
                ) == OPEN,
        decreases rr + 1 - dy,
    {
        let mut dx: i64 = -rr;
        while dx <= rr
            invariant
                m == maze@,
                maze_wf(m),
                height == maze_height(m),
                width == maze_width(m),
                height <= COORD_LIMIT,
                width <= COORD_LIMIT,
                height == height_us,
                width == width_us,
                rr == radius,
                radius <= 0x1_0000,
                x < width,
                y < height,
                -rr <= dy <= rr,
                -rr <= dx <= rr + 1,
                forall|nx: int, ny: int|
                    x - rr <= nx <= x + rr && y - rr <= ny < y + dy && in_grid(m, nx, ny) ==> #[trigger] cell(
                        m,
                        nx,
                        ny,
                    ) == OPEN,
                forall|nx: int|
                    x - rr <= nx < x + dx && in_grid(m, nx, y + dy) ==> #[trigger] cell(m, nx, y + dy)
                        == OPEN,
            decreases rr + 1 - dx,
        {
            let nx = x as i64 + dx;
            let ny = y as i64 + dy;
            if nx >= 0 && ny >= 0 && ny < height && nx < width {
                if maze[ny as usize][nx as usize] != OPEN {
                    assert(cell(m, nx as int, ny as int) != OPEN);
                    return true;
                }
            }
            dx = dx + 1;
        }
        dy = dy + 1;
    }
    false
}

/// Centres of the cells that may hold a sprite, row by row.
pub fn sprite_spawn_candidates(maze: &Maze, block_size: usize) -> (r: Vec<Vec2>)
    requires
        maze_wf(maze@),
        block_size > 0,
        world_fits(maze@, block_size as int),
    ensures
        forall|i: int| 0 <= i < r@.len() ==> sprite_spawn_point(maze@, block_size as int, #[trigger] r@[i]),
        forall|i: int| 0 <= i < r@.len() ==> point_ok(#[trigger] r@[i]),
        forall|gx: int, gy: int|
            #[trigger] sprite_spawn_cell(maze@, gx, gy) ==> r@.contains(center_of(gx, gy, block_size as int)),
{
    let ghost m = maze@;
    let ghost bb = block_size as int;
    let height = maze.len();
    let width = maze[0].len();
    assert(width <= COORD_LIMIT && height <= COORD_LIMIT && bb <= COORD_LIMIT) by (nonlinear_arith)
        requires
            maze_width(m) * bb <= COORD_LIMIT,
            maze_height(m) * bb <= COORD_LIMIT,
            width >= 1,
            bb >= 1,
            width == maze_width(m),
            height == maze_height(m),
    ;
    let b = block_size as i64;
    let half = (block_size / 2) as i64;
    let y_end: usize = if height >= 1 { height - 1 } else { 0 };
    let x_end: usize = if width >= 1 { width - 1 } else { 0 };
    let mut out: Vec<Vec2> = Vec::new();
    let mut y: usize = 1;
    while y < y_end
        invariant
            m == maze@,
            bb == b,
            b == block_size,
            half == bb / 2,
            maze_wf(m),
            height == maze_height(m),
            width == maze_width(m),
            width * bb <= COORD_LIMIT,
            height * bb <= COORD_LIMIT,
            width <= COORD_LIMIT,
            height <= COORD_LIMIT,
            0 < b <= COORD_LIMIT,
            1 <= y,
            y_end == (if height >= 1 { height - 1 } else { 0 }),
            x_end == (if width >= 1 { width - 1 } else { 0 }),
            forall|i: int| 0 <= i < out@.len() ==> sprite_spawn_point(m, bb, #[trigger] out@[i]),
            forall|i: int| 0 <= i < out@.len() ==> point_ok(#[trigger] out@[i]),
            forall|gx: int, gy: int|
                #[trigger] sprite_spawn_cell(m, gx, gy) && gy < y ==> out@.contains(center_of(gx, gy, bb)),
        decreases height - y,
    {
        let mut x: usize = 1;
        while x < x_end
            invariant
                m == maze@,
                bb == b,
                b == block_size,
                half == bb / 2,
                maze_wf(m),
                height == maze_height(m),
                width == maze_width(m),
                width * bb <= COORD_LIMIT,
                height * bb <= COORD_LIMIT,
                width <= COORD_LIMIT,
                height <= COORD_LIMIT,
                0 < b <= COORD_LIMIT,
                1 <= x,
                1 <= y < y_end,
                y_end == (if height >= 1 { height - 1 } else { 0 }),
                x_end == (if width >= 1 { width - 1 } else { 0 }),
                forall|i: int| 0 <= i < out@.len() ==> sprite_spawn_point(m, bb, #[trigger] out@[i]),
                forall|i: int| 0 <= i < out@.len() ==> point_ok(#[trigger] out@[i]),
                forall|gx: int, gy: int|
                    #[trigger] sprite_spawn_cell(m, gx, gy) && (gy < y || (gy == y && gx < x)) ==> out@.contains(
                        center_of(gx, gy, bb),
                    ),
            decreases width - x,
        {
            let ghost before = out@;
            if maze[y][x] == OPEN && check_nearby_walls(maze, x, y, 2) {
                assert(x * b + b <= COORD_LIMIT && y * b + b <= COORD_LIMIT) by (nonlinear_arith)
                    requires
                        x < width,
                        y < height,
                        width * b <= COORD_LIMIT,
                        height * b <= COORD_LIMIT,
                        b > 0,
                ;
                let c = Vec2 { x: x as i64 * b + half, y: y as i64 * b + half };
                assert(c == center_of(x as int, y as int, bb));
                assert(sprite_spawn_cell(m, x as int, y as int));
                out.push(c);
                assert(out@[out@.len() - 1] == c);
            } else {
                assert(!sprite_spawn_cell(m, x as int, y as int));
            }
            assert forall|gx: int, gy: int|
                #[trigger] sprite_spawn_cell(m, gx, gy) && (gy < y || (gy == y && gx < x + 1)) implies out@.contains(
                    center_of(gx, gy, bb),
                ) by {
                if !(gx == x && gy == y) {
                    assert(before.contains(center_of(gx, gy, bb)));
                    let k = choose|k: int| 0 <= k < before.len() && before[k] == center_of(gx, gy, bb);
                    assert(out@[k] == before[k]);
                } else {
                    assert(out@[out@.len() - 1] == center_of(gx, gy, bb));
                }
            }
            x = x + 1;
        }
        y = y + 1;
    }
    out
}

/// Every sprite in `sprites` lies at least `sqrt(min_sq / scale)` from `p`.
fn far_from_all(sprites: &Vec<Sprite>, p: Vec2, min_sq: i128, scale: i128) -> (r: bool)
    requires
        point_ok(p),
        forall|k: int| 0 <= k < sprites@.len() ==> point_ok(#[trigger] sprites@[k].position),
        1 <= scale <= 4,
    ensures
        r == forall|k: int| 0 <= k < sprites@.len() ==> scale * dist_sq(#[trigger] sprites@[k].position, p) >= min_sq,
{
    let mut k: usize = 0;
    while k < sprites.len()
        invariant
            0 <= k <= sprites@.len(),
            point_ok(p),
            forall|q: int| 0 <= q < sprites@.len() ==> point_ok(#[trigger] sprites@[q].position),
            1 <= scale <= 4,
            forall|q: int| 0 <= q < k ==> scale * dist_sq(#[trigger] sprites@[q].position, p) >= min_sq,
        decreases sprites@.len() - k,
    {
        proof {
            lemma_dist_sq_ok(sprites@[k as int].position, p);
        }
        let d2 = distance_squared(sprites[k].position, p);
        assert(0 <= scale * d2 <= 4 * 0x1000_0000_0000_0000_0000) by (nonlinear_arith)
            requires
                0 <= d2 <= 0x1000_0000_0000_0000_0000,
                1 <= scale <= 4,
        ;
        if scale * d2 < min_sq {
            return false;
        }
        k = k + 1;
    }
    true
}

/// Some sprite of `s` stands at `c` or within `sqrt(min_sq)` of it.
pub open spec fn covered(s: Seq<Sprite>, c: Vec2, min_sq: int) -> bool {
    exists|j: int| 0 <= j < s.len() && ((#[trigger] s[j]).position == c || dist_sq(s[j].position, c) < min_sq)
}

proof fn lemma_covered_push(s: Seq<Sprite>, x: Sprite, c: Vec2, min_sq: int)
    requires
        covered(s, c, min_sq),
    ensures
        covered(s.push(x), c, min_sq),
{
    let j = choose|j: int| 0 <= j < s.len() && ((#[trigger] s[j]).position == c || dist_sq(s[j].position, c) < min_sq);
    assert(s.push(x)[j] == s[j]);
}

/// What every sprite spawn guarantees about the sprites it places.
pub open spec fn spawned_well(s: Seq<Sprite>, m: Seq<Vec<char>>, b: int, config: SpriteSpawnConfig) -> bool {
    &&& forall|i: int| 0 <= i < s.len() ==> sprite_spawn_point(m, b, (#[trigger] s[i]).position)
    &&& forall|i: int| 0 <= i < s.len() ==> point_ok((#[trigger] s[i]).position)
    &&& forall|i: int| 0 <= i < s.len() ==> (#[trigger] s[i]).active
    &&& forall|i: int|
        0 <= i < s.len() ==> match (#[trigger] s[i]).sprite_type {
            SpriteType::Decoration => s[i].texture_index < config.num_textures && s[i].scale == 100
                && s[i].pickup_radius == DECORATION_PICKUP_RADIUS,
            SpriteType::Pickup(k) => s[i].texture_index == pickup_texture(k) && s[i].scale
                == ITEM_SCALE_PERCENT && s[i].pickup_radius == ITEM_PICKUP_RADIUS,
        }
    &&& forall|i: int, j: int| 0 <= i < j < s.len() && is_key(#[trigger] s[i]) ==> !is_key(#[trigger] s[j])
    &&& forall|i: int, j: int|
        0 <= i < j < s.len() ==> 4 * dist_sq((#[trigger] s[i]).position, (#[trigger] s[j]).position)
            >= config.min_spacing * config.min_spacing
}

/// Spawns decorations and pickups at random cells next to walls: first up to
/// `num_decorations` decorations, then up to `num_pickups` pickups of random
/// kinds (at most one key) from the remaining cells, each at least
/// `min_spacing` from those before; if no key was placed, one more is placed
/// at the first remaining cell at least half that far from all others.
pub fn spawn_sprites_with_config(maze: &Maze, block_size: usize, config: &SpriteSpawnConfig) -> (r: Vec<Sprite>)
    requires
        maze_wf(maze@),
        block_size > 0,
        world_fits(maze@, block_size as int),
        config.num_textures > 0,
        0 <= config.min_spacing <= 2 * COORD_LIMIT,
    ensures
        spawned_well(r@, maze@, block_size as int, *config),
        r@.len() <= config.num_decorations + config.num_pickups + 1,
        r@.len() < config.num_decorations ==> forall|gx: int, gy: int|
            #[trigger] sprite_spawn_cell(maze@, gx, gy) ==> covered(
                r@,
                center_of(gx, gy, block_size as int),
                config.min_spacing * config.min_spacing,
            ),
{
    let ghost m = maze@;
    let ghost bb = block_size as int;
    let mut valid = sprite_spawn_candidates(maze, block_size);
    let ghost before = valid@;
    shuffle(&mut valid);
    assert forall|i: int| 0 <= i < valid@.len() implies sprite_spawn_point(m, bb, #[trigger] valid@[i]) && point_ok(
        valid@[i],
    ) by {
        assert(valid@.to_multiset().count(valid@[i]) > 0);
        assert(before.to_multiset().count(valid@[i]) > 0);
        assert(before.contains(valid@[i]));
    }
    let sp = config.min_spacing as i128;
    assert(0 <= sp * sp <= 4 * COORD_LIMIT * COORD_LIMIT) by (nonlinear_arith)
        requires
            0 <= sp <= 2 * COORD_LIMIT,
    ;
    let min_sq = sp * sp;
    let mut sprites: Vec<Sprite> = Vec::new();
    let mut key_spawned = false;
    let n = valid.len();
    let mut i: usize = 0;
    while i < n
        invariant
            n == valid@.len(),
            0 <= i <= n,
            forall|q: int| 0 <= q < valid@.len() ==> sprite_spawn_point(m, bb, #[trigger] valid@[q]) && point_ok(valid@[q]),
            min_sq == config.min_spacing * config.min_spacing,
            config.num_textures > 0,
            spawned_well(sprites@, m, bb, *config),
            sprites@.len() <= config.num_decorations,
            !key_spawned,
            forall|q: int| 0 <= q < sprites@.len() ==> !is_key(#[trigger] sprites@[q]),
            forall|k: int| 0 <= k < i ==> covered(sprites@, #[trigger] valid@[k], min_sq as int),
        ensures
            sprites@.len() < config.num_decorations ==> i == n,
        decreases n - i,
    {
        if sprites.len() >= config.num_decorations {
            break;
        }
        let pos = valid[i];
        let ghost pre = sprites@;
        if far_from_all(&sprites, pos, min_sq, 1) {
            let texture_index = random_up_to(config.num_textures - 1);
            let s = Sprite::new(pos, texture_index);
            let ghost old_s = sprites@;
            sprites.push(s);
            assert(sprites@ == old_s.push(s));
            assert forall|a: int, c: int| 0 <= a < c < sprites@.len() implies 4 * dist_sq((#[trigger] sprites@[a]).position, (#[trigger] sprites@[c]).position)
                >= config.min_spacing * config.min_spacing by {
                if c == sprites@.len() - 1 {
                    assert(1 * dist_sq(old_s[a].position, pos) >= min_sq);
                    assert(dist_sq(old_s[a].position, pos) >= 0) by (nonlinear_arith);
                }
            }
            assert forall|k: int| 0 <= k < i + 1 implies covered(sprites@, #[trigger] valid@[k], min_sq as int) by {
                if k < i {
                    lemma_covered_push(pre, s, valid@[k], min_sq as int);
                } else {
                    assert(sprites@[sprites@.len() - 1].position == pos);
                }
            }
        } else {
            proof {
                let q = choose|q: int| 0 <= q < pre.len() && !(1 * dist_sq(#[trigger] pre[q].position, pos) >= min_sq);
                assert(covered(sprites@, valid@[i as int], min_sq as int));
            }
        }
        i = i + 1;
    }
    let ghost short = sprites@.len() < config.num_decorations;
    assert(short ==> forall|k: int| 0 <= k < n ==> covered(sprites@, #[trigger] valid@[k], min_sq as int));
    let mut pickups: usize = 0;
    let mut j: usize = config.num_decorations;
    while j < n
        invariant
            n == valid@.len(),
            forall|q: int| 0 <= q < valid@.len() ==> sprite_spawn_point(m, bb, #[trigger] valid@[q]) && point_ok(valid@[q]),
            min_sq == config.min_spacing * config.min_spacing,
            config.num_textures > 0,
            spawned_well(sprites@, m, bb, *config),
            sprites@.len() <= config.num_decorations + pickups,
            pickups <= config.num_pickups,
            !key_spawned ==> forall|q: int| 0 <= q < sprites@.len() ==> !is_key(#[trigger] sprites@[q]),
            short ==> forall|q: int| 0 <= q < n ==> covered(sprites@, #[trigger] valid@[q], min_sq as int),
            !short ==> sprites@.len() >= config.num_decorations,
        decreases n - j,
    {
        if pickups >= config.num_pickups {
            break;
        }
        let pos = valid[j];
        if far_from_all(&sprites, pos, min_sq, 1) {
            let pickup_type = if !key_spawned && random_up_to(3) == 2 {
                key_spawned = true;
                PickupType::Key
            } else {
                match random_up_to(2) {
                    0 => PickupType::Health,
                    1 => PickupType::Ammo,
                    _ => PickupType::Treasure,
                }
            };
            let texture_index: usize = match pickup_type {
                PickupType::Health => 4,
                PickupType::Ammo => 5,
                PickupType::Key => 6,
                PickupType::Treasure => 7,
            };
            let s = Sprite::new_pickup(pos, texture_index, pickup_type);
            let ghost old_s = sprites@;
            sprites.push(s);
            assert(sprites@ == old_s.push(s));
            assert forall|a: int, c: int| 0 <= a < c < sprites@.len() implies 4 * dist_sq((#[trigger] sprites@[a]).position, (#[trigger] sprites@[c]).position)
                >= config.min_spacing * config.min_spacing by {
                if c == sprites@.len() - 1 {
                    assert(1 * dist_sq(old_s[a].position, pos) >= min_sq);
                    assert(dist_sq(old_s[a].position, pos) >= 0) by (nonlinear_arith);
                }
            }
            assert forall|a: int, c: int| 0 <= a < c < sprites@.len() && is_key(#[trigger] sprites@[a]) implies !is_key(#[trigger] sprites@[c]) by {
                if c == sprites@.len() - 1 && pickup_type == PickupType::Key {
                    assert(!is_key(old_s[a]));
                }
            }
            assert forall|q: int| short && 0 <= q < n implies covered(sprites@, #[trigger] valid@[q], min_sq as int) by {
                lemma_covered_push(old_s, s, valid@[q], min_sq as int);
            }
            pickups = pickups + 1;
        }
        j = j + 1;
    }
    if !key_spawned {
        let mut found: Option<usize> = None;
        let mut k: usize = config.num_decorations;
        while k < n && found.is_none()
            invariant
                n == valid@.len(),
                forall|q: int| 0 <= q < valid@.len() ==> point_ok(#[trigger] valid@[q]),
                spawned_well(sprites@, m, bb, *config),
                short ==> forall|q: int| 0 <= q < n ==> covered(sprites@, #[trigger] valid@[q], min_sq as int),
                !short ==> sprites@.len() >= config.num_decorations,
                match found {
                    Some(f) => f < n && forall|q: int|
                        0 <= q < sprites@.len() ==> 4 * dist_sq(#[trigger] sprites@[q].position, valid@[f as int])
                            >= min_sq,
                    None => true,
                },
            decreases n - k,
        {
            if far_from_all(&sprites, valid[k], min_sq, 4) {
                found = Some(k);
            }
            k = k + 1;
        }
        if let Some(f) = found {
            let pos = valid[f];
            let s = Sprite::new_pickup(pos, 6, PickupType::Key);
            let ghost old_s = sprites@;
            sprites.push(s);
            assert(sprites@ == old_s.push(s));
            assert forall|a: int, c: int| 0 <= a < c < sprites@.len() implies 4 * dist_sq((#[trigger] sprites@[a]).position, (#[trigger] sprites@[c]).position)
                >= config.min_spacing * config.min_spacing by {
                if c == sprites@.len() - 1 {
                    assert(4 * dist_sq(old_s[a].position, pos) >= min_sq);
                }
            }
            assert forall|a: int, c: int| 0 <= a < c < sprites@.len() && is_key(#[trigger] sprites@[a]) implies !is_key(#[trigger] sprites@[c]) by {
                assert(!is_key(old_s[a]) || a == sprites@.len() - 1);
            }
            assert forall|q: int| short && 0 <= q < n implies covered(sprites@, #[trigger] valid@[q], min_sq as int) by {
                lemma_covered_push(old_s, s, valid@[q], min_sq as int);
            }
        }
    }
    proof {
        if sprites@.len() < config.num_decorations {
            assert forall|gx: int, gy: int| #[trigger] sprite_spawn_cell(maze@, gx, gy) implies covered(
                sprites@,
                center_of(gx, gy, bb),
                config.min_spacing * config.min_spacing,
            ) by {
                let v = center_of(gx, gy, bb);
                assert(before.contains(v));
                assert(before.to_multiset().count(v) > 0);
                assert(valid@.to_multiset().count(v) > 0);
                assert(valid@.contains(v));
                let k = choose|k: int| 0 <= k < valid@.len() && valid@[k] == v;
                assert(covered(sprites@, valid@[k], min_sq as int));
            }
        }
    }
    sprites
}

/// Spawns about `num_sprites` sprites: three fifths decorations, two fifths
/// pickups, one and a half cells apart, among four decoration textures.
pub fn spawn_sprites_in_maze(maze: &Maze, block_size: usize, num_sprites: usize) -> (r: Vec<Sprite>)
    requires
        maze_wf(maze@),
        block_size > 0,
        world_fits(maze@, block_size as int),
        num_sprites <= 0x1000_0000,
    ensures
        spawned_well(
            r@,
            maze@,
            block_size as int,
            SpriteSpawnConfig {
                num_decorations: (num_sprites * 3 / 5) as usize,
                num_pickups: (num_sprites * 2 / 5) as usize,
                min_spacing: (block_size * 3 / 2) as i64,
                num_textures: 4,
            },
        ),
{
    assert(block_size <= COORD_LIMIT) by (nonlinear_arith)
        requires
            maze_width(maze@) * block_size <= COORD_LIMIT,
            maze_width(maze@) >= 1,
            block_size > 0,
    ;
    let config = SpriteSpawnConfig {
        num_decorations: num_sprites * 3 / 5,
        num_pickups: num_sprites * 2 / 5,
        min_spacing: block_size as i64 * 3 / 2,
        num_textures: 4,
    };
    spawn_sprites_with_config(maze, block_size, &config)
}

} // verus!
