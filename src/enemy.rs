use vstd::prelude::*;
use crate::geometry::{Vec2, COORD_LIMIT, point_ok, dist_sq, distance, distance_squared, floor_sqrt, abs};
use crate::grid::{Maze, OPEN, maze_wf, maze_width, maze_height, cell, walkable, is_walkable};
use crate::random::shuffle;
use crate::raycaster::world_fits;

verus! {

broadcast use vstd::seq_lib::group_to_multiset_ensures;

/// Kinds of enemy.
#[derive(Debug, Clone, Copy, PartialEq, Eq, Structural)]
pub enum EnemyType {
    Rat,
}

/// The enemy's behaviour state.
#[derive(Debug, Clone, Copy, PartialEq, Eq, Structural)]
pub enum EnemyState {
    Idle,
    Chase,
    Attack,
    Dead,
}

/// Which animation an enemy plays.
#[derive(Debug, Clone, Copy, PartialEq, Eq, Structural)]
pub enum AnimationType {
    Walk,
    Attack,
    Death,
}

/// Sounds an enemy asks for.
#[derive(Debug, Clone, Copy, PartialEq, Eq, Structural)]
pub enum EnemyAudioEvent {
    /// The enemy has just spotted the player.
    StartChase,
    /// The enemy strikes.
    Attack,
    /// The enemy dies.
    Death,
}

/// Longest frame duration and longest timer, in milliseconds.
pub const MAX_TIMER_MS: i64 = 0x8000_0000;

/// Fastest enemy, in world units per second.
pub const MAX_SPEED: i64 = 0x10_0000;

/// Frame count, first texture slot and looping of each animation.
pub open spec fn anim_layout(kind: AnimationType) -> (usize, usize, bool) {
    match kind {
        AnimationType::Walk => (4, 0, true),
        AnimationType::Attack => (3, 4, true),
        AnimationType::Death => (3, 7, false),
    }
}

fn layout_of(kind: AnimationType) -> (r: (usize, usize, bool))
    ensures
        r == anim_layout(kind),
{
    match kind {
        AnimationType::Walk => (4, 0, true),
        AnimationType::Attack => (3, 4, true),
        AnimationType::Death => (3, 7, false),
    }
}

/// An animation in progress: which frame shows and how long it has shown.
#[derive(Debug, Clone, Copy, PartialEq, Eq, Structural)]
pub struct AnimationState {
    pub current_type: AnimationType,
    pub frame_index: usize,
    /// Time the current frame has shown, in milliseconds.
    pub frame_timer: i64,
    /// Time each frame shows, in milliseconds.
    pub frame_duration: i64,
    pub num_frames: usize,
    pub base_index: usize,
    pub loop_animation: bool,
    /// A non-looping animation that has reached its last frame.
    pub finished: bool,
}

pub open spec fn anim_wf(a: AnimationState) -> bool {
    &&& 0 < a.frame_duration <= MAX_TIMER_MS
    &&& 0 <= a.frame_timer < a.frame_duration
    &&& (a.num_frames, a.base_index, a.loop_animation) == anim_layout(a.current_type)
    &&& a.frame_index < a.num_frames
}

/// Animation `kind` from its first frame.
pub open spec fn anim_start(kind: AnimationType, frame_duration: i64) -> AnimationState {
    AnimationState {
        current_type: kind,
        frame_index: 0,
        frame_timer: 0,
        frame_duration,
        num_frames: anim_layout(kind).0,
        base_index: anim_layout(kind).1,
        loop_animation: anim_layout(kind).2,
        finished: false,
    }
}

/// The animation after `dt` milliseconds: the frame advances once its time is
/// up; a looping animation wraps to its first frame, another stops on its last.
pub open spec fn anim_advance(a: AnimationState, dt: int) -> AnimationState {
    if a.finished {
        a
    } else if a.frame_timer + dt >= a.frame_duration {
        if a.frame_index + 1 >= a.num_frames {
            if a.loop_animation {
                AnimationState { frame_index: 0, frame_timer: 0, ..a }
            } else {
                AnimationState {
                    frame_index: (a.num_frames - 1) as usize,
                    frame_timer: 0,
                    finished: true,
                    ..a
                }
            }
        } else {
            AnimationState { frame_index: (a.frame_index + 1) as usize, frame_timer: 0, ..a }
        }
    } else {
        AnimationState { frame_timer: (a.frame_timer + dt) as i64, ..a }
    }
}

/// Switches to animation `kind`, restarting it unless it is already playing.
pub open spec fn anim_switch(a: AnimationState, kind: AnimationType) -> AnimationState {
    if a.current_type == kind && !a.finished {
        a
    } else {
        anim_start(kind, a.frame_duration)
    }
}

impl AnimationState {
    pub fn new(anim_type: AnimationType, frame_duration: i64) -> (r: AnimationState)
        ensures
            r == anim_start(anim_type, frame_duration),
    {
        let (num_frames, base_index, loop_animation) = layout_of(anim_type);
        AnimationState {
            current_type: anim_type,
            frame_index: 0,
            frame_timer: 0,
            frame_duration,
            num_frames,
            base_index,
            loop_animation,
            finished: false,
        }
    }

    /// Advances the animation by `delta_time` milliseconds.
    pub fn update(&mut self, delta_time: u32)
        requires
            anim_wf(*old(self)),
        ensures
            *final(self) == anim_advance(*old(self), delta_time as int),
            anim_wf(*final(self)),
    {
        if self.finished {
            return;
        }
        let t = self.frame_timer + delta_time as i64;
        if t >= self.frame_duration {
            self.frame_timer = 0;
            self.frame_index = self.frame_index + 1;
            if self.frame_index >= self.num_frames {
                if self.loop_animation {
                    self.frame_index = 0;
                } else {
                    self.frame_index = self.num_frames - 1;
                    self.finished = true;
                }
            }
        } else {
            self.frame_timer = t;
        }
    }

    /// Plays animation `anim_type`, restarting it unless it is already playing.
    pub fn set_animation(&mut self, anim_type: AnimationType)
        requires
            anim_wf(*old(self)),
        ensures
            *final(self) == anim_switch(*old(self), anim_type),
            anim_wf(*final(self)),
    {
        if self.current_type == anim_type && !self.finished {
            return;
        }
        let (num_frames, base_index, loop_animation) = layout_of(anim_type);
        self.current_type = anim_type;
        self.frame_index = 0;
        self.frame_timer = 0;
        self.num_frames = num_frames;
        self.base_index = base_index;
        self.loop_animation = loop_animation;
        self.finished = false;
    }

    /// The texture slot of the frame on show.
    pub fn current_texture_index(&self) -> (r: usize)
        requires
            anim_wf(*self),
        ensures
            r == self.base_index + self.frame_index,
    {
        self.base_index + self.frame_index
    }
}

/// An enemy in the world.
#[derive(Debug, Clone, Copy, PartialEq, Eq, Structural)]
pub struct Enemy {
    pub position: Vec2,
    pub enemy_type: EnemyType,
    pub state: EnemyState,
    pub health: i32,
    pub max_health: i32,
    /// Display scale in percent of a full cell height.
    pub scale: u32,
    pub animation: AnimationState,
    /// Time left of the red flash after a hit, in milliseconds.
    pub damage_flash_timer: i64,
    pub damage_flash_duration: i64,
    /// Distance within which an idle enemy notices the player, in world units.
    pub detection_radius: i64,
    /// Distance within which a chasing enemy starts its attack, in world units.
    pub attack_range: i64,
    /// World units per second.
    pub move_speed: i64,
    pub attack_damage: i32,
    /// Time between strikes, in milliseconds.
    pub attack_cooldown: i64,
    /// Time until the next strike is allowed, in milliseconds.
    pub attack_timer: i64,
}

/// What one frame of an enemy's behaviour produced.
#[derive(Debug, Clone, Copy, PartialEq, Eq, Structural)]
pub struct EnemyUpdateResult {
    pub damage: Option<i32>,
    pub audio_event: Option<EnemyAudioEvent>,
}

impl EnemyUpdateResult {
    fn none() -> (r: Self)
        ensures
            r == (EnemyUpdateResult { damage: None, audio_event: None }),
    {
        EnemyUpdateResult { damage: None, audio_event: None }
    }

    fn audio_only(event: EnemyAudioEvent) -> (r: Self)
        ensures
            r == (EnemyUpdateResult { damage: None, audio_event: Some(event) }),
    {
        EnemyUpdateResult { damage: None, audio_event: Some(event) }
    }

    fn both(damage: i32, event: EnemyAudioEvent) -> (r: Self)
        ensures
            r == (EnemyUpdateResult { damage: Some(damage), audio_event: Some(event) }),
    {
        EnemyUpdateResult { damage: Some(damage), audio_event: Some(event) }
    }
}

/// An enemy whose numbers the library's arithmetic can hold.
pub open spec fn enemy_ok(e: Enemy) -> bool {
    &&& point_ok(e.position)
    &&& anim_wf(e.animation)
    &&& 0 <= e.detection_radius <= COORD_LIMIT
    &&& 0 <= e.attack_range <= COORD_LIMIT
    &&& 0 <= e.move_speed <= MAX_SPEED
    &&& -0x1_0000_0000 <= e.damage_flash_timer <= MAX_TIMER_MS
    &&& -0x1_0000_0000 <= e.attack_timer <= MAX_TIMER_MS
    &&& 0 <= e.damage_flash_duration <= MAX_TIMER_MS
    &&& 0 <= e.attack_cooldown <= MAX_TIMER_MS
}

/// The behaviour state after one frame in which the squared distance to the
/// player is `d2`. Leaving a state takes a wider margin than entering it:
/// a chase is dropped only beyond 1.5 times the detection radius, an attack
/// only beyond 1.2 times the attack range.
pub open spec fn ai_transition(state: EnemyState, d2: int, detect: int, attack: int) -> EnemyState {
    match state {
        EnemyState::Idle => if d2 < detect * detect {
            EnemyState::Chase
        } else {
            EnemyState::Idle
        },
        EnemyState::Chase => if d2 < attack * attack {
            EnemyState::Attack
        } else if 4 * d2 > 9 * (detect * detect) {
            EnemyState::Idle
        } else {
            EnemyState::Chase
        },
        EnemyState::Attack => if 25 * d2 > 36 * (attack * attack) {
            EnemyState::Chase
        } else {
            EnemyState::Attack
        },
        EnemyState::Dead => EnemyState::Dead,
    }
}

/// A squared distance the library's arithmetic can hold.
pub open spec fn dist_sq_ok(d2: int) -> bool {
    0 <= d2 <= 0x1000_0000_0000_0000_0000
}

/// The behaviour state after one frame at squared distance `d2` from the player.
pub fn next_state(state: EnemyState, d2: i128, detect: i64, attack: i64) -> (r: EnemyState)
    requires
        dist_sq_ok(d2 as int),
        0 <= detect <= COORD_LIMIT,
        0 <= attack <= COORD_LIMIT,
    ensures
        r == ai_transition(state, d2 as int, detect as int, attack as int),
{
    let dr = detect as i128;
    let ar = attack as i128;
    assert(0 <= dr * dr <= 0x100_0000_0000_0000_0000 && 0 <= ar * ar <= 0x100_0000_0000_0000_0000)
        by (nonlinear_arith)
        requires
            0 <= dr <= COORD_LIMIT,
            0 <= ar <= COORD_LIMIT,
    ;
    match state {
        EnemyState::Idle => if d2 < dr * dr {
            EnemyState::Chase
        } else {
            EnemyState::Idle
        },
        EnemyState::Chase => if d2 < ar * ar {
            EnemyState::Attack
        } else if 4 * d2 > 9 * (dr * dr) {
            EnemyState::Idle
        } else {
            EnemyState::Chase
        },
        EnemyState::Attack => if 25 * d2 > 36 * (ar * ar) {
            EnemyState::Chase
        } else {
            EnemyState::Attack
        },
        EnemyState::Dead => EnemyState::Dead,
    }
}

/// At the boundary itself, or anywhere inside the band between the detection
/// radius and 1.5 times it, neither an idle nor a chasing enemy changes state
/// (a chasing one still outside its attack range): an enemy hovering at the
/// detection radius cannot flip between idle and chase from frame to frame.
pub proof fn lemma_detection_hysteresis(d2: int, detect: int, attack: int)
    requires
        detect >= 0,
        detect * detect <= d2,
        4 * d2 <= 9 * (detect * detect),
        d2 >= attack * attack,
    ensures
        ai_transition(EnemyState::Idle, d2, detect, attack) == EnemyState::Idle,
        ai_transition(EnemyState::Chase, d2, detect, attack) == EnemyState::Chase,
{
}

/// The square root of `n >= 0` rounded up.
pub open spec fn ceil_sqrt(n: int) -> int {
    if floor_sqrt(n) * floor_sqrt(n) == n { floor_sqrt(n) } else { floor_sqrt(n) + 1 }
}

/// The behaviour state after the first `n` frames of a run in which the
/// squared distances to the player are `ds`, starting from `s0`.
pub open spec fn state_after(s0: EnemyState, ds: Seq<int>, n: nat, detect: int, attack: int) -> EnemyState
    decreases n,
{
    if n == 0 {
        s0
    } else {
        ai_transition(state_after(s0, ds, (n - 1) as nat, detect, attack), ds[n - 1], detect, attack)
    }
}

/// Over any run of frames in which the enemy stays outside its attack range
/// and within 1.5 times its detection radius (for instance hovering just
/// inside and just outside the detection radius), a chase once begun never
/// lapses: from the first frame in the chase state, every later frame is
/// still in it, so the enemy never thrashes between idle and chase.
pub proof fn lemma_chase_persists(s0: EnemyState, ds: Seq<int>, detect: int, attack: int, i: nat, j: nat)
    requires
        detect >= 0,
        i <= j <= ds.len(),
        forall|k: int| 0 <= k < ds.len() ==> attack * attack <= #[trigger] ds[k] && 4 * ds[k] <= 9 * (detect * detect),
        state_after(s0, ds, i, detect, attack) == EnemyState::Chase,
    ensures
        state_after(s0, ds, j, detect, attack) == EnemyState::Chase,
    decreases j - i,
{
    if i < j {
        lemma_chase_persists(s0, ds, detect, attack, i, (j - 1) as nat);
        let d = ds[j - 1];
        assert(attack * attack <= d && 4 * d <= 9 * (detect * detect));
    }
}

/// A step of `move_dist` along the direction of `(dx, dy)`, whose length
/// rounded up is `len`, each component rounded toward zero (so the step is
/// never longer than `move_dist`).
pub open spec fn scaled_step(d: int, move_dist: int, len: int) -> int {
    if d < 0 {
        -((-d) * move_dist / len)
    } else {
        d * move_dist / len
    }
}

/// Where a chasing enemy at `pos` ends up after moving `move_dist` toward
/// `target`: the full step if that point is open, else the step along x alone,
/// else along y alone, else nowhere.
pub open spec fn chase_step(
    pos: Vec2,
    target: Vec2,
    move_dist: int,
    m: Seq<Vec<char>>,
    b: int,
) -> Vec2 {
    let len = ceil_sqrt(dist_sq(target, pos));
    if len < 1 {
        pos
    } else {
        let nx = pos.x + scaled_step(target.x - pos.x, move_dist, len);
        let ny = pos.y + scaled_step(target.y - pos.y, move_dist, len);
        if walkable(m, nx, ny, b) {
            Vec2 { x: nx as i64, y: ny as i64 }
        } else if walkable(m, nx, pos.y as int, b) {
            Vec2 { x: nx as i64, y: pos.y }
        } else if walkable(m, pos.x as int, ny, b) {
            Vec2 { x: pos.x, y: ny as i64 }
        } else {
            pos
        }
    }
}

/// Distance covered in `dt` milliseconds at `speed` units per second.
pub open spec fn move_distance(speed: int, dt: int) -> int {
    speed * dt / 1000
}

/// A countdown after `dt` milliseconds: it runs only while positive.
pub open spec fn count_down(t: int, dt: int) -> int {
    if t > 0 { t - dt } else { t }
}

/// One frame of an enemy's behaviour: the enemy afterwards and what it produced.
pub open spec fn enemy_step(
    e: Enemy,
    dt: int,
    player: Vec2,
    m: Seq<Vec<char>>,
    b: int,
) -> (Enemy, EnemyUpdateResult) {
    let none = EnemyUpdateResult { damage: None, audio_event: None };
    let a1 = anim_advance(e.animation, dt);
    let e1 = Enemy {
        animation: a1,
        damage_flash_timer: count_down(e.damage_flash_timer as int, dt) as i64,
        ..e
    };
    if e.state == EnemyState::Dead {
        (e1, none)
    } else {
        let e2 = Enemy { attack_timer: count_down(e.attack_timer as int, dt) as i64, ..e1 };
        let d2 = dist_sq(player, e.position);
        let next = ai_transition(e.state, d2, e.detection_radius as int, e.attack_range as int);
        match e.state {
            EnemyState::Idle => {
                let e3 = Enemy { state: next, animation: anim_switch(a1, AnimationType::Walk), ..e2 };
                if next == EnemyState::Chase {
                    (e3, EnemyUpdateResult { damage: None, audio_event: Some(EnemyAudioEvent::StartChase) })
                } else {
                    (e3, none)
                }
            },
            EnemyState::Chase => {
                let a2 = anim_switch(a1, AnimationType::Walk);
                if next == EnemyState::Attack {
                    (Enemy { state: next, animation: anim_switch(a2, AnimationType::Attack), ..e2 }, none)
                } else if next == EnemyState::Idle {
                    (Enemy { state: next, animation: a2, ..e2 }, none)
                } else {
                    let p = chase_step(
                        e.position,
                        player,
                        move_distance(e.move_speed as int, dt),
                        m,
                        b,
                    );
                    (Enemy { animation: a2, position: p, ..e2 }, none)
                }
            },
            _ => {
                let a2 = anim_switch(a1, AnimationType::Attack);
                if next == EnemyState::Chase {
                    (Enemy { state: next, animation: a2, ..e2 }, none)
                } else if e2.attack_timer <= 0 && a2.frame_index == 1 {
                    (
                        Enemy { animation: a2, attack_timer: e.attack_cooldown, ..e2 },
                        EnemyUpdateResult {
                            damage: Some(e.attack_damage),
                            audio_event: Some(EnemyAudioEvent::Attack),
                        },
                    )
                } else {
                    (Enemy { animation: a2, ..e2 }, none)
                }
            },
        }
    }
}

/// Squared distances between points the library accepts fit its arithmetic.
pub proof fn lemma_dist_sq_ok(a: Vec2, b: Vec2)
    requires
        point_ok(a),
        point_ok(b),
    ensures
        dist_sq_ok(dist_sq(a, b)),
{
    let dx = a.x - b.x;
    let dy = a.y - b.y;
    assert(0 <= dx * dx <= 4 * COORD_LIMIT * COORD_LIMIT && 0 <= dy * dy <= 4 * COORD_LIMIT
        * COORD_LIMIT) by (nonlinear_arith)
        requires
            -2 * COORD_LIMIT <= dx <= 2 * COORD_LIMIT,
            -2 * COORD_LIMIT <= dy <= 2 * COORD_LIMIT,
    ;
}

/// A walkable point lies within the world.
pub proof fn lemma_walkable_in_world(m: Seq<Vec<char>>, x: int, y: int, b: int)
    requires
        b > 0,
        world_fits(m, b),
        walkable(m, x, y, b),
    ensures
        0 <= x <= COORD_LIMIT,
        0 <= y <= COORD_LIMIT,
{
    let gx = x / b;
    let gy = y / b;
    vstd::arithmetic::div_mod::lemma_fundamental_div_mod(x, b);
    vstd::arithmetic::div_mod::lemma_fundamental_div_mod(y, b);
    vstd::arithmetic::div_mod::lemma_mod_bound(x, b);
    vstd::arithmetic::div_mod::lemma_mod_bound(y, b);
    assert(x < (gx + 1) * b && y < (gy + 1) * b) by (nonlinear_arith)
        requires
            x == b * gx + x % b,
            y == b * gy + y % b,
            x % b < b,
            y % b < b,
    ;
    assert((gx + 1) * b <= crate::grid::maze_width(m) * b && (gy + 1) * b <= crate::grid::maze_height(m)
        * b) by (nonlinear_arith)
        requires
            gx + 1 <= crate::grid::maze_width(m),
            gy + 1 <= crate::grid::maze_height(m),
            b > 0,
    ;
}

impl Enemy {
    /// A rat standing idle at `position`.
    pub fn new_rat(position: Vec2) -> (r: Enemy)
        ensures
            r == rat_at(position),
    {
        Enemy {
            position,
            enemy_type: EnemyType::Rat,
            state: EnemyState::Idle,
            health: 20,
            max_health: 20,
            scale: 70,
            animation: AnimationState::new(AnimationType::Walk, 150),
            damage_flash_timer: 0,
            damage_flash_duration: 200,
            detection_radius: 300,
            attack_range: 40,
            move_speed: 80,
            attack_damage: 10,
            attack_cooldown: 1000,
            attack_timer: 0,
        }
    }

    pub fn position(&self) -> (r: Vec2)
        ensures
            r == self.position,
    {
        self.position
    }

    pub fn x(&self) -> (r: i64)
        ensures
            r == self.position.x,
    {
        self.position.x
    }

    pub fn y(&self) -> (r: i64)
        ensures
            r == self.position.y,
    {
        self.position.y
    }

    pub fn state(&self) -> (r: EnemyState)
        ensures
            r == self.state,
    {
        self.state
    }

    pub fn is_alive(&self) -> (r: bool)
        ensures
            r == (self.state != EnemyState::Dead),
    {
        self.state != EnemyState::Dead
    }

    pub fn texture_index(&self) -> (r: usize)
        requires
            anim_wf(self.animation),
        ensures
            r == self.animation.base_index + self.animation.frame_index,
    {
        self.animation.current_texture_index()
    }

    pub fn scale(&self) -> (r: u32)
        ensures
            r == self.scale,
    {
        self.scale
    }

    pub fn health(&self) -> (r: i32)
        ensures
            r == self.health,
    {
        self.health
    }

    /// Whether the enemy is still showing the flash of a recent hit.
    pub fn is_flashing(&self) -> (r: bool)
        ensures
            r == (self.damage_flash_timer > 0),
    {
        self.damage_flash_timer > 0
    }

    /// One frame of behaviour, `delta_time` milliseconds long, with the player
    /// at `player_pos`.
    pub fn update(&mut self, delta_time: u32, player_pos: Vec2, maze: &Maze, block_size: usize) -> (r:
        EnemyUpdateResult)
        requires
            enemy_ok(*old(self)),
            point_ok(player_pos),
            maze_wf(maze@),
            block_size > 0,
            world_fits(maze@, block_size as int),
        ensures
            (*final(self), r) == enemy_step(
                *old(self),
                delta_time as int,
                player_pos,
                maze@,
                block_size as int,
            ),
            enemy_ok(*final(self)),
    {
        self.animation.update(delta_time);
        if self.damage_flash_timer > 0 {
            self.damage_flash_timer = self.damage_flash_timer - delta_time as i64;
        }
        if !self.is_alive() {
            return EnemyUpdateResult::none();
        }
        if self.attack_timer > 0 {
            self.attack_timer = self.attack_timer - delta_time as i64;
        }
        proof {
            lemma_dist_sq_ok(player_pos, self.position);
        }
        let d2 = distance_squared(player_pos, self.position);
        let next = next_state(self.state, d2, self.detection_radius, self.attack_range);
        match self.state {
            EnemyState::Idle => {
                self.animation.set_animation(AnimationType::Walk);
                self.state = next;
                if next == EnemyState::Chase {
                    return EnemyUpdateResult::audio_only(EnemyAudioEvent::StartChase);
                }
            },
            EnemyState::Chase => {
                self.animation.set_animation(AnimationType::Walk);
                if next == EnemyState::Attack {
                    self.state = next;
                    self.animation.set_animation(AnimationType::Attack);
                } else if next == EnemyState::Idle {
                    self.state = next;
                } else {
                    self.move_toward_player(delta_time, player_pos, maze, block_size);
                }
            },
            _ => {
                self.animation.set_animation(AnimationType::Attack);
                if next == EnemyState::Chase {
                    self.state = next;
                } else if self.attack_timer <= 0 && self.animation.frame_index == 1 {
                    self.attack_timer = self.attack_cooldown;
                    return EnemyUpdateResult::both(self.attack_damage, EnemyAudioEvent::Attack);
                }
            },
        }
        EnemyUpdateResult::none()
    }

    fn move_toward_player(&mut self, delta_time: u32, player_pos: Vec2, maze: &Maze, block_size: usize)
        requires
            point_ok(old(self).position),
            point_ok(player_pos),
            0 <= old(self).move_speed <= MAX_SPEED,
            maze_wf(maze@),
            block_size > 0,
            world_fits(maze@, block_size as int),
        ensures
            *final(self) == (Enemy {
                position: chase_step(
                    old(self).position,
                    player_pos,
                    move_distance(old(self).move_speed as int, delta_time as int),
                    maze@,
                    block_size as int,
                ),
                ..*old(self)
            }),
            point_ok(final(self).position),
    {
        let pos = self.position;
        let floor_len = distance(player_pos, pos);
        let d2 = distance_squared(player_pos, pos);
        proof {
            lemma_dist_sq_ok(player_pos, pos);
        }
        assert(floor_len * floor_len <= d2 < (floor_len + 1) * (floor_len + 1));
        assert(floor_len <= 0x1_0000_0000_0000) by (nonlinear_arith)
            requires
                floor_len * floor_len <= d2,
                d2 <= 0x1000_0000_0000_0000_0000,
                floor_len >= 0,
        {
            if floor_len > 0x1_0000_0000_0000 {
                assert(floor_len * floor_len > 0x1_0000_0000_0000 * 0x1_0000_0000_0000) by (nonlinear_arith)
                    requires
                        floor_len > 0x1_0000_0000_0000,
                ;
            }
        }
        let len: u64 = if (floor_len as i128) * (floor_len as i128) == d2 { floor_len } else { floor_len + 1 };
        assert(len == ceil_sqrt(dist_sq(player_pos, pos)));
        assert(d2 <= len * len) by (nonlinear_arith)
            requires
                len == floor_len || (len == floor_len + 1 && d2 < (floor_len + 1) * (floor_len + 1)),
                len == floor_len ==> floor_len * floor_len == d2,
        ;
        if len < 1 {
            return;
        }
        assert(0 <= self.move_speed * delta_time <= MAX_SPEED * 0xFFFF_FFFF) by (nonlinear_arith)
            requires
                0 <= self.move_speed <= MAX_SPEED,
                0 <= delta_time <= 0xFFFF_FFFF,
        ;
        let move_dist = self.move_speed * delta_time as i64 / 1000;
        assert(move_dist <= MAX_SPEED * 0xFFFF_FFFF);
        let dx = player_pos.x - pos.x;
        let dy = player_pos.y - pos.y;
        assert(dx * dx <= dist_sq(player_pos, pos) && dy * dy <= dist_sq(player_pos, pos)) by (nonlinear_arith)
            requires
                dx == player_pos.x - pos.x,
                dy == player_pos.y - pos.y,
        ;
        let step_x = scale_toward(dx, move_dist, len);
        let step_y = scale_toward(dy, move_dist, len);
        let new_x = pos.x + step_x;
        let new_y = pos.y + step_y;
        if is_walkable(maze, new_x, new_y, block_size) {
            proof {
                lemma_walkable_in_world(maze@, new_x as int, new_y as int, block_size as int);
            }
            self.position = Vec2 { x: new_x, y: new_y };
        } else if is_walkable(maze, new_x, pos.y, block_size) {
            proof {
                lemma_walkable_in_world(maze@, new_x as int, pos.y as int, block_size as int);
            }
            self.position = Vec2 { x: new_x, y: pos.y };
        } else if is_walkable(maze, pos.x, new_y, block_size) {
            proof {
                lemma_walkable_in_world(maze@, pos.x as int, new_y as int, block_size as int);
            }
            self.position = Vec2 { x: pos.x, y: new_y };
        }
    }

    /// Takes a hit: health drops by `damage`; at zero or below the enemy dies
    /// (and says so). A dead enemy ignores hits.
    pub fn take_damage(&mut self, damage: i32) -> (r: Option<EnemyAudioEvent>)
        requires
            anim_wf(old(self).animation),
            i32::MIN <= old(self).health - damage <= i32::MAX,
        ensures
            *final(self) == hit_enemy(*old(self), damage),
            r == (if old(self).state != EnemyState::Dead && old(self).health - damage <= 0 {
                Some(EnemyAudioEvent::Death)
            } else {
                None
            }),
            anim_wf(final(self).animation),
    {
        if !self.is_alive() {
            return None;
        }
        self.health = self.health - damage;
        self.damage_flash_timer = self.damage_flash_duration;
        if self.health <= 0 {
            self.health = 0;
            self.state = EnemyState::Dead;
            self.animation.set_animation(AnimationType::Death);
            return Some(EnemyAudioEvent::Death);
        }
        None
    }

    /// Distance from the enemy to `(x, y)`, rounded down.
    pub fn distance_to(&self, x: i64, y: i64) -> (r: u64)
        requires
            point_ok(self.position),
            point_ok(Vec2 { x, y }),
        ensures
            r == floor_sqrt(dist_sq(self.position, Vec2 { x, y })),
    {
        distance(self.position, Vec2 { x, y })
    }
}

/// Enemy `e` after a hit of `damage`.
pub open spec fn hit_enemy(e: Enemy, damage: i32) -> Enemy {
    if e.state == EnemyState::Dead {
        e
    } else if e.health - damage <= 0 {
        Enemy {
            health: 0,
            state: EnemyState::Dead,
            damage_flash_timer: e.damage_flash_duration,
            animation: anim_switch(e.animation, AnimationType::Death),
            ..e
        }
    } else {
        Enemy {
            health: (e.health - damage) as i32,
            damage_flash_timer: e.damage_flash_duration,
            ..e
        }
    }
}

/// `d * move_dist / len`, rounded toward zero.
fn scale_toward(d: i64, move_dist: i64, len: u64) -> (r: i64)
    requires
        -2 * COORD_LIMIT <= d <= 2 * COORD_LIMIT,
        0 <= move_dist <= MAX_SPEED * 0xFFFF_FFFF,
        1 <= len <= 0x1_0000_0000_0001,
        d * d <= len * len,
    ensures
        r == scaled_step(d as int, move_dist as int, len as int),
        -move_dist <= r <= move_dist,
{
    let mag: i128 = if d < 0 { -(d as i128) } else { d as i128 };
    assert(mag * mag == d * d) by (nonlinear_arith)
        requires
            mag == d || mag == -d,
    ;
    assert(mag <= len) by (nonlinear_arith)
        requires
            mag * mag <= len * len,
            mag >= 0,
            len >= 1,
    ;
    assert(0 <= mag * move_dist <= len * move_dist) by (nonlinear_arith)
        requires
            0 <= mag <= len,
            move_dist >= 0,
    ;
    assert(len * move_dist <= 0x1_0000_0000_0000_0000 * 0x10_0000_0000_0000) by (nonlinear_arith)
        requires
            len <= 0xFFFF_FFFF_FFFF_FFFF,
            0 <= move_dist <= MAX_SPEED * 0xFFFF_FFFF,
    ;
    let q = mag * move_dist as i128 / len as i128;
    assert(0 <= q <= move_dist) by {
        vstd::arithmetic::div_mod::lemma_div_is_ordered(mag * move_dist, len * move_dist, len as int);
        assert(len * move_dist == move_dist * len) by (nonlinear_arith);
        vstd::arithmetic::div_mod::lemma_div_multiples_vanish(move_dist as int, len as int);
        vstd::arithmetic::div_mod::lemma_div_is_ordered(0, mag * move_dist, len as int);
    }
    if d < 0 {
        -(q as i64)
    } else {
        q as i64
    }
}

/// Runs one frame for every enemy and gathers the damage they deal (summed,
/// capped at `i32::MAX`) and the sounds they ask for, in order.
pub fn update_enemies(
    enemies: &mut Vec<Enemy>,
    delta_time: u32,
    player_pos: Vec2,
    maze: &Maze,
    block_size: usize,
) -> (r: (i32, Vec<EnemyAudioEvent>))
    requires
        forall|i: int| 0 <= i < old(enemies)@.len() ==> enemy_ok(#[trigger] old(enemies)@[i]),
        point_ok(player_pos),
        maze_wf(maze@),
        block_size > 0,
        world_fits(maze@, block_size as int),
    ensures
        final(enemies)@.len() == old(enemies)@.len(),
        forall|i: int|
            0 <= i < old(enemies)@.len() ==> #[trigger] final(enemies)@[i] == enemy_step(
                old(enemies)@[i],
                delta_time as int,
                player_pos,
                maze@,
                block_size as int,
            ).0,
        forall|i: int| 0 <= i < final(enemies)@.len() ==> enemy_ok(#[trigger] final(enemies)@[i]),
        r.0 == at_most_i32(
            total_damage(
                old(enemies)@.map_values(
                    |e: Enemy| enemy_step(e, delta_time as int, player_pos, maze@, block_size as int).1,
                ),
            ),
        ),
        r.1@ == audio_events(
            old(enemies)@.map_values(
                |e: Enemy| enemy_step(e, delta_time as int, player_pos, maze@, block_size as int).1,
            ),
        ),
{
    let ghost orig = enemies@;
    let ghost results = orig.map_values(
        |e: Enemy| enemy_step(e, delta_time as int, player_pos, maze@, block_size as int).1,
    );
    let mut total: i64 = 0;
    let mut events: Vec<EnemyAudioEvent> = Vec::new();
    let mut i: usize = 0;
    while i < enemies.len()
        invariant
            0 <= i <= enemies@.len(),
            enemies@.len() == orig.len(),
            results == orig.map_values(
                |e: Enemy| enemy_step(e, delta_time as int, player_pos, maze@, block_size as int).1,
            ),
            point_ok(player_pos),
            maze_wf(maze@),
            block_size > 0,
            world_fits(maze@, block_size as int),
            forall|j: int| 0 <= j < orig.len() ==> enemy_ok(#[trigger] orig[j]),
            forall|j: int|
                0 <= j < i ==> #[trigger] enemies@[j] == enemy_step(
                    orig[j],
                    delta_time as int,
                    player_pos,
                    maze@,
                    block_size as int,
                ).0,
            forall|j: int| 0 <= j < i ==> enemy_ok(#[trigger] enemies@[j]),
            forall|j: int| i <= j < orig.len() ==> #[trigger] enemies@[j] == orig[j],
            total == at_most_i32(total_damage(results.subrange(0, i as int))),
            events@ == audio_events(results.subrange(0, i as int)),
        decreases orig.len() - i,
    {
        assert(results.subrange(0, i + 1).drop_last() == results.subrange(0, i as int));
        assert(results.subrange(0, i + 1).last() == results[i as int]);
        let mut enemy = enemies[i];
        let result = enemy.update(delta_time, player_pos, maze, block_size);
        enemies.set(i, enemy);
        if let Some(damage) = result.damage {
            let sum = total + damage as i64;
            total = if sum > i32::MAX as i64 { i32::MAX as i64 } else if sum < i32::MIN as i64 {
                i32::MIN as i64
            } else {
                sum
            };
        }
        if let Some(event) = result.audio_event {
            events.push(event);
        }
        i = i + 1;
    }
    assert(results.subrange(0, orig.len() as int) == results);
    (total as i32, events)
}

/// Damage summed over frame results, each partial sum held within `i32`.
pub open spec fn total_damage(results: Seq<EnemyUpdateResult>) -> int
    decreases results.len(),
{
    if results.len() == 0 {
        0
    } else {
        let rest = at_most_i32(total_damage(results.drop_last()));
        match results.last().damage {
            Some(d) => rest + d,
            None => rest,
        }
    }
}

/// `v` clamped into the range of `i32`.
pub open spec fn at_most_i32(v: int) -> int {
    if v > i32::MAX {
        i32::MAX as int
    } else if v < i32::MIN {
        i32::MIN as int
    } else {
        v
    }
}

/// The sounds asked for, in order.
pub open spec fn audio_events(results: Seq<EnemyUpdateResult>) -> Seq<EnemyAudioEvent>
    decreases results.len(),
{
    if results.len() == 0 {
        Seq::empty()
    } else {
        let rest = audio_events(results.drop_last());
        match results.last().audio_event {
            Some(ev) => rest.push(ev),
            None => rest,
        }
    }
}

/// A freshly spawned rat at `position`.
pub open spec fn rat_at(position: Vec2) -> Enemy {
    Enemy {
        position,
        enemy_type: EnemyType::Rat,
        state: EnemyState::Idle,
        health: 20,
        max_health: 20,
        scale: 70,
        animation: anim_start(AnimationType::Walk, 150),
        damage_flash_timer: 0,
        damage_flash_duration: 200,
        detection_radius: 300,
        attack_range: 40,
        move_speed: 80,
        attack_damage: 10,
        attack_cooldown: 1000,
        attack_timer: 0,
    }
}

/// The centre of grid cell `(gx, gy)` in world coordinates.
pub open spec fn center_of(gx: int, gy: int, b: int) -> Vec2 {
    Vec2 { x: (gx * b + b / 2) as i64, y: (gy * b + b / 2) as i64 }
}

/// Cell `(gx, gy)` may receive an enemy: open, at least two cells in from
/// every edge, its centre more than five cells from the player.
pub open spec fn enemy_spawn_cell(m: Seq<Vec<char>>, b: int, player: Vec2, gx: int, gy: int) -> bool {
    &&& 2 <= gx < maze_width(m) - 2
    &&& 2 <= gy < maze_height(m) - 2
    &&& cell(m, gx, gy) == OPEN
    &&& dist_sq(center_of(gx, gy, b), player) > 25 * b * b
}

/// A point is the centre of a cell that may receive an enemy.
pub open spec fn enemy_spawn_point(m: Seq<Vec<char>>, b: int, player: Vec2, v: Vec2) -> bool {
    exists|gx: int, gy: int| #[trigger] enemy_spawn_cell(m, b, player, gx, gy) && v == center_of(gx, gy, b)
}

/// Points taken in order, each kept when fewer than `num` are kept so far and
/// it lies at least `sqrt(min_sq)` from every kept one.
pub open spec fn spaced_greedy(cands: Seq<Vec2>, min_sq: int, num: int) -> Seq<Vec2>
    decreases cands.len(),
{
    if cands.len() == 0 {
        Seq::empty()
    } else {
        let prev = spaced_greedy(cands.drop_last(), min_sq, num);
        let c = cands.last();
        if prev.len() < num && forall|k: int| 0 <= k < prev.len() ==> dist_sq(#[trigger] prev[k], c) >= min_sq {
            prev.push(c)
        } else {
            prev
        }
    }
}

/// Short of `num` points, `spaced_greedy` left out no candidate that stands
/// clear of every kept point: each candidate lies within `sqrt(min_sq)` of one.
pub proof fn lemma_spaced_greedy_maximal(cands: Seq<Vec2>, min_sq: int, num: int)
    requires
        min_sq > 0,
        spaced_greedy(cands, min_sq, num).len() < num,
    ensures
        forall|k: int|
            #![trigger cands[k]]
            0 <= k < cands.len() ==> exists|i: int|
                0 <= i < spaced_greedy(cands, min_sq, num).len() && dist_sq(
                    #[trigger] spaced_greedy(cands, min_sq, num)[i],
                    cands[k],
                ) < min_sq,
    decreases cands.len(),
{
    if cands.len() > 0 {
        let rest = cands.drop_last();
        let prev = spaced_greedy(rest, min_sq, num);
        let g = spaced_greedy(cands, min_sq, num);
        let c = cands.last();
        assert(prev.len() <= g.len());
        lemma_spaced_greedy_maximal(rest, min_sq, num);
        assert(forall|i: int| 0 <= i < prev.len() ==> g[i] == prev[i]);
        assert forall|k: int| #![trigger cands[k]] 0 <= k < cands.len() implies exists|i: int|
            0 <= i < g.len() && dist_sq(#[trigger] g[i], cands[k]) < min_sq by {
            if k < rest.len() {
                assert(cands[k] == rest[k]);
                let i = choose|i: int| 0 <= i < prev.len() && dist_sq(#[trigger] prev[i], rest[k]) < min_sq;
                assert(g[i] == prev[i]);
            } else if g.len() > prev.len() {
                let last = g.len() - 1;
                assert(g[last] == c);
                assert(dist_sq(c, c) == 0) by (nonlinear_arith)
                    requires
                        dist_sq(c, c) == (c.x - c.x) * (c.x - c.x) + (c.y - c.y) * (c.y - c.y),
                ;
            } else {
                let i = choose|i: int| 0 <= i < prev.len() && dist_sq(#[trigger] prev[i], c) < min_sq;
                assert(g[i] == prev[i]);
            }
        }
    }
}

/// What `spaced_greedy` keeps: at most `num` points, each a candidate, each
/// pair at least `sqrt(min_sq)` apart.
pub proof fn lemma_spaced_greedy(cands: Seq<Vec2>, min_sq: int, num: int)
    requires
        num >= 0,
    ensures
        spaced_greedy(cands, min_sq, num).len() <= num,
        forall|i: int|
            0 <= i < spaced_greedy(cands, min_sq, num).len() ==> cands.contains(
                #[trigger] spaced_greedy(cands, min_sq, num)[i],
            ),
        forall|i: int, j: int|
            0 <= i < j < spaced_greedy(cands, min_sq, num).len() ==> dist_sq(
                #[trigger] spaced_greedy(cands, min_sq, num)[i],
                #[trigger] spaced_greedy(cands, min_sq, num)[j],
            ) >= min_sq,
    decreases cands.len(),
{
    if cands.len() > 0 {
        let rest = cands.drop_last();
        lemma_spaced_greedy(rest, min_sq, num);
        let prev = spaced_greedy(rest, min_sq, num);
        let g = spaced_greedy(cands, min_sq, num);
        assert forall|i: int| 0 <= i < g.len() implies cands.contains(#[trigger] g[i]) by {
            if i < prev.len() {
                assert(rest.contains(prev[i]));
                let k = choose|k: int| 0 <= k < rest.len() && rest[k] == prev[i];
                assert(cands[k] == rest[k]);
            } else {
                assert(cands[cands.len() - 1] == g[i]);
            }
        }
    }
}

/// Centres of the cells that may receive an enemy, row by row.
pub fn enemy_spawn_candidates(maze: &Maze, block_size: usize, player_pos: Vec2) -> (r: Vec<Vec2>)
    requires
        maze_wf(maze@),
        block_size > 0,
        world_fits(maze@, block_size as int),
        point_ok(player_pos),
    ensures
        forall|i: int| 0 <= i < r@.len() ==> enemy_spawn_point(maze@, block_size as int, player_pos, #[trigger] r@[i]),
        forall|i: int| 0 <= i < r@.len() ==> point_ok(#[trigger] r@[i]),
        forall|gx: int, gy: int|
            #[trigger] enemy_spawn_cell(maze@, block_size as int, player_pos, gx, gy) ==> r@.contains(
                center_of(gx, gy, block_size as int),
            ),
{
    let ghost m = maze@;
    let ghost bb = block_size as int;
    let height = maze.len();
    let width = maze[0].len();
    assert(width <= COORD_LIMIT && height <= COORD_LIMIT && bb <= COORD_LIMIT) by (nonlinear_arith)
        requires
            maze_width(m) * bb <= COORD_LIMIT,
            maze_height(m) * bb <= COORD_LIMIT,
            width >= 1,
            bb >= 1,
            width == maze_width(m),
            height == maze_height(m),
    ;
    let b = block_size as i64;
    let mut out: Vec<Vec2> = Vec::new();
    let y_end: usize = if height >= 2 { height - 2 } else { 0 };
    let x_end: usize = if width >= 2 { width - 2 } else { 0 };
    let mut y: usize = 2;
    while y < y_end
        invariant
            m == maze@,
            bb == b,
            b == block_size,
            maze_wf(m),
            height == maze_height(m),
            width == maze_width(m),
            width * bb <= COORD_LIMIT,
            height * bb <= COORD_LIMIT,
            width <= COORD_LIMIT,
            height <= COORD_LIMIT,
            0 < b <= COORD_LIMIT,
            2 <= y <= height + 2,
            y_end == (if height >= 2 { height - 2 } else { 0 }),
            x_end == (if width >= 2 { width - 2 } else { 0 }),
            point_ok(player_pos),
            forall|i: int| 0 <= i < out@.len() ==> enemy_spawn_point(m, bb, player_pos, #[trigger] out@[i]),
            forall|i: int| 0 <= i < out@.len() ==> point_ok(#[trigger] out@[i]),
            forall|gx: int, gy: int|
                #[trigger] enemy_spawn_cell(m, bb, player_pos, gx, gy) && gy < y ==> out@.contains(
                    center_of(gx, gy, bb),
                ),
        decreases height + 2 - y,
    {
        let mut x: usize = 2;
        while x < x_end
            invariant
                m == maze@,
                bb == b,
                b == block_size,
                maze_wf(m),
                height == maze_height(m),
                width == maze_width(m),
                width * bb <= COORD_LIMIT,
                height * bb <= COORD_LIMIT,
                0 < b <= COORD_LIMIT,
                width <= COORD_LIMIT,
                height <= COORD_LIMIT,
                2 <= x <= width + 2,
                2 <= y,
                y + 2 < height,
                x_end == (if width >= 2 { width - 2 } else { 0 }),
                point_ok(player_pos),
                forall|i: int| 0 <= i < out@.len() ==> enemy_spawn_point(m, bb, player_pos, #[trigger] out@[i]),
                forall|i: int| 0 <= i < out@.len() ==> point_ok(#[trigger] out@[i]),
                forall|gx: int, gy: int|
                    #[trigger] enemy_spawn_cell(m, bb, player_pos, gx, gy) && (gy < y || (gy == y && gx < x))
                        ==> out@.contains(center_of(gx, gy, bb)),
                y_end == (if height >= 2 { height - 2 } else { 0 }),
                y < y_end,
            decreases width + 2 - x,
        {
            let ghost before = out@;
            if maze[y][x] == OPEN {
                assert(cell(m, x as int, y as int) == OPEN);
                assert(x * b + b <= COORD_LIMIT && y * b + b <= COORD_LIMIT) by (nonlinear_arith)
                    requires
                        x < width,
                        y < height,
                        width * b <= COORD_LIMIT,
                        height * b <= COORD_LIMIT,
                        b > 0,
                ;
                let half = (block_size / 2) as i64;
                let c = Vec2 { x: x as i64 * b + half, y: y as i64 * b + half };
                proof {
                    lemma_dist_sq_ok(c, player_pos);
                }
                let d2 = distance_squared(c, player_pos);
                assert(0 <= 25 * (b as i128) * (b as i128) <= 25 * COORD_LIMIT * COORD_LIMIT) by (nonlinear_arith)
                    requires
                        0 < b <= COORD_LIMIT,
                ;
                assert(c == center_of(x as int, y as int, bb));
                if d2 > 25 * (b as i128) * (b as i128) {
                    assert(enemy_spawn_cell(m, bb, player_pos, x as int, y as int));
                    out.push(c);
                    assert(out@[out@.len() - 1] == c);
                } else {
                    assert(!enemy_spawn_cell(m, bb, player_pos, x as int, y as int));
                }
            }
            assert forall|gx: int, gy: int|
                #[trigger] enemy_spawn_cell(m, bb, player_pos, gx, gy) && (gy < y || (gy == y && gx < x + 1))
                    implies out@.contains(center_of(gx, gy, bb)) by {
                if !(gx == x && gy == y) {
                    assert(before.contains(center_of(gx, gy, bb)));
                    let k = choose|k: int| 0 <= k < before.len() && before[k] == center_of(gx, gy, bb);
                    assert(out@[k] == before[k]);
                } else {
                    assert(out@[out@.len() - 1] == center_of(gx, gy, bb));
                }
            }
            x = x + 1;
        }
        y = y + 1;
    }
    out
}

/// Rats at the points that `spaced_greedy` keeps from `candidates`, spaced
/// at least three cells apart, at most `num_enemies` of them.
pub fn place_enemies(candidates: &Vec<Vec2>, block_size: usize, num_enemies: usize) -> (r: Vec<Enemy>)
    requires
        0 < block_size <= COORD_LIMIT,
        forall|i: int| 0 <= i < candidates@.len() ==> point_ok(#[trigger] candidates@[i]),
    ensures
        r@.len() == spaced_greedy(candidates@, 9 * block_size * block_size, num_enemies as int).len(),
        forall|i: int|
            0 <= i < r@.len() ==> #[trigger] r@[i] == rat_at(
                spaced_greedy(candidates@, 9 * block_size * block_size, num_enemies as int)[i],
            ),
{
    let ghost min_sq = 9 * block_size * block_size;
    let b = block_size as i128;
    assert(0 <= 9 * b * b <= 9 * COORD_LIMIT * COORD_LIMIT) by (nonlinear_arith)
        requires
            0 < b <= COORD_LIMIT,
    ;
    let min_sq_exec = 9 * b * b;
    let mut enemies: Vec<Enemy> = Vec::new();
    let mut i: usize = 0;
    while i < candidates.len()
        invariant
            0 <= i <= candidates@.len(),
            min_sq == 9 * block_size * block_size,
            min_sq_exec == min_sq,
            forall|k: int| 0 <= k < candidates@.len() ==> point_ok(#[trigger] candidates@[k]),
            enemies@.len() == spaced_greedy(candidates@.subrange(0, i as int), min_sq, num_enemies as int).len(),
            forall|k: int|
                0 <= k < enemies@.len() ==> #[trigger] enemies@[k] == rat_at(
                    spaced_greedy(candidates@.subrange(0, i as int), min_sq, num_enemies as int)[k],
                ),
            forall|k: int| 0 <= k < enemies@.len() ==> point_ok(#[trigger] enemies@[k].position),
        decreases candidates@.len() - i,
    {
        let ghost prev = spaced_greedy(candidates@.subrange(0, i as int), min_sq, num_enemies as int);
        assert(candidates@.subrange(0, i + 1).drop_last() == candidates@.subrange(0, i as int));
        assert(candidates@.subrange(0, i + 1).last() == candidates@[i as int]);
        let c = candidates[i];
        if enemies.len() < num_enemies {
            let mut too_close = false;
            let mut k: usize = 0;
            while k < enemies.len()
                invariant
                    0 <= k <= enemies@.len(),
                    point_ok(c),
                    forall|q: int| 0 <= q < enemies@.len() ==> point_ok(#[trigger] enemies@[q].position),
                    forall|q: int| 0 <= q < enemies@.len() ==> #[trigger] enemies@[q].position == prev[q],
                    enemies@.len() == prev.len(),
                    min_sq_exec == min_sq,
                    !too_close ==> forall|q: int| 0 <= q < k ==> dist_sq(#[trigger] prev[q], c) >= min_sq,
                    too_close ==> exists|q: int| 0 <= q < prev.len() && dist_sq(#[trigger] prev[q], c) < min_sq,
                decreases enemies@.len() - k,
            {
                let e = &enemies[k];
                proof {
                    lemma_dist_sq_ok(e.position, c);
                }
                if distance_squared(e.position, c) < min_sq_exec {
                    too_close = true;
                }
                k = k + 1;
            }
            if !too_close {
                enemies.push(Enemy::new_rat(c));
            }
        }
        i = i + 1;
    }
    assert(candidates@.subrange(0, candidates@.len() as int) == candidates@);
    enemies
}

/// Spawns up to `num_enemies` rats, each at the centre of an open cell two or
/// more cells in from the edges and more than five cells from the player,
/// every two at least three cells apart; which cells are chosen is random.
pub fn spawn_enemies(maze: &Maze, block_size: usize, player_pos: Vec2, num_enemies: usize) -> (r: Vec<Enemy>)
    requires
        maze_wf(maze@),
        block_size > 0,
        world_fits(maze@, block_size as int),
        point_ok(player_pos),
    ensures
        r@.len() <= num_enemies,
        forall|i: int|
            0 <= i < r@.len() ==> enemy_spawn_point(maze@, block_size as int, player_pos, (#[trigger] r@[i]).position)
                && r@[i] == rat_at(r@[i].position),
        forall|i: int, j: int|
            0 <= i < j < r@.len() ==> dist_sq((#[trigger] r@[i]).position, (#[trigger] r@[j]).position) >= 9
                * block_size * block_size,
        r@.len() < num_enemies ==> forall|gx: int, gy: int|
            #[trigger] enemy_spawn_cell(maze@, block_size as int, player_pos, gx, gy) ==> exists|i: int|
                0 <= i < r@.len() && dist_sq(
                    (#[trigger] r@[i]).position,
                    center_of(gx, gy, block_size as int),
                ) < 9 * block_size * block_size,
{
    let ghost bb = block_size as int;
    assert(block_size <= COORD_LIMIT) by (nonlinear_arith)
        requires
            maze_width(maze@) * bb <= COORD_LIMIT,
            maze_width(maze@) >= 1,
            bb == block_size,
            bb > 0,
    ;
    let mut candidates = enemy_spawn_candidates(maze, block_size, player_pos);
    let ghost before = candidates@;
    shuffle(&mut candidates);
    assert forall|i: int| 0 <= i < candidates@.len() implies enemy_spawn_point(maze@, bb, player_pos, #[trigger] candidates@[i])
        && point_ok(candidates@[i]) by {
        assert(candidates@.to_multiset().count(candidates@[i]) > 0);
        assert(before.to_multiset().count(candidates@[i]) > 0);
        assert(before.contains(candidates@[i]));
    }
    let enemies = place_enemies(&candidates, block_size, num_enemies);
    proof {
        lemma_spaced_greedy(candidates@, 9 * bb * bb, num_enemies as int);
        let g = spaced_greedy(candidates@, 9 * bb * bb, num_enemies as int);
        assert forall|i: int| 0 <= i < enemies@.len() implies enemy_spawn_point(maze@, bb, player_pos, (#[trigger] enemies@[i]).position)
            && enemies@[i] == rat_at(enemies@[i].position) by {
            assert(candidates@.contains(g[i]));
        }
        assert forall|i: int, j: int| 0 <= i < j < enemies@.len() implies dist_sq((#[trigger] enemies@[i]).position, (#[trigger] enemies@[j]).position) >= 9 * bb * bb by {
            assert(enemies@[i].position == g[i] && enemies@[j].position == g[j]);
        }
        if enemies@.len() < num_enemies {
            assert(9 * bb * bb > 0) by (nonlinear_arith)
                requires
                    bb > 0,
            ;
            lemma_spaced_greedy_maximal(candidates@, 9 * bb * bb, num_enemies as int);
            assert forall|gx: int, gy: int|
                #[trigger] enemy_spawn_cell(maze@, bb, player_pos, gx, gy) implies exists|i: int|
                    0 <= i < enemies@.len() && dist_sq((#[trigger] enemies@[i]).position, center_of(gx, gy, bb)) < 9
                        * bb * bb by {
                let v = center_of(gx, gy, bb);
                assert(before.contains(v));
                assert(before.to_multiset().count(v) > 0);
                assert(candidates@.to_multiset().count(v) > 0);
                assert(candidates@.contains(v));
                let k = choose|k: int| 0 <= k < candidates@.len() && candidates@[k] == v;
                let i = choose|i: int| 0 <= i < g.len() && dist_sq(#[trigger] g[i], candidates@[k]) < 9 * bb * bb;
                assert(enemies@[i].position == g[i]);
            }
        }
    }
    enemies
}

} // verus!
