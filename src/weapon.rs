use vstd::prelude::*;
use crate::geometry::Vec2;

verus! {

/// Kinds of weapon.
#[derive(Debug, Clone, Copy, PartialEq, Eq, Structural)]
pub enum WeaponType {
    MachineGun,
}

/// Which animation the weapon plays.
#[derive(Debug, Clone, Copy, PartialEq, Eq, Structural)]
pub enum WeaponAnimationType {
    Idle,
    Firing,
}

/// Longest timer the weapon holds, in milliseconds.
pub const MAX_WEAPON_TIMER_MS: i64 = 0x8000_0000;

/// Frame count, first texture slot and looping of each weapon animation.
pub open spec fn weapon_layout(kind: WeaponAnimationType) -> (usize, usize, bool) {
    match kind {
        WeaponAnimationType::Idle => (1, 0, true),
        WeaponAnimationType::Firing => (3, 1, true),
    }
}

/// The weapon's animation in progress.
#[derive(Debug, Clone, Copy, PartialEq, Eq, Structural)]
pub struct WeaponAnimation {
    pub current_type: WeaponAnimationType,
    pub frame_index: usize,
    pub frame_timer: i64,
    pub frame_duration: i64,
    pub num_frames: usize,
    pub base_index: usize,
    pub loop_animation: bool,
}

pub open spec fn weapon_anim_wf(a: WeaponAnimation) -> bool {
    &&& 0 < a.frame_duration <= MAX_WEAPON_TIMER_MS
    &&& 0 <= a.frame_timer < a.frame_duration
    &&& (a.num_frames, a.base_index, a.loop_animation) == weapon_layout(a.current_type)
    &&& a.frame_index < a.num_frames
}

/// The animation after `dt` milliseconds.
pub open spec fn weapon_anim_advance(a: WeaponAnimation, dt: int) -> WeaponAnimation {
    if a.frame_timer + dt >= a.frame_duration {
        if a.frame_index + 1 >= a.num_frames {
            if a.loop_animation {
                WeaponAnimation { frame_index: 0, frame_timer: 0, ..a }
            } else {
                WeaponAnimation { frame_index: (a.num_frames - 1) as usize, frame_timer: 0, ..a }
            }
        } else {
            WeaponAnimation { frame_index: (a.frame_index + 1) as usize, frame_timer: 0, ..a }
        }
    } else {
        WeaponAnimation { frame_timer: (a.frame_timer + dt) as i64, ..a }
    }
}

/// Switches to animation `kind`, restarting it unless it is already playing.
pub open spec fn weapon_anim_switch(a: WeaponAnimation, kind: WeaponAnimationType) -> WeaponAnimation {
    if a.current_type == kind {
        a
    } else {
        WeaponAnimation {
            current_type: kind,
            frame_index: 0,
            frame_timer: 0,
            num_frames: weapon_layout(kind).0,
            base_index: weapon_layout(kind).1,
            loop_animation: weapon_layout(kind).2,
            ..a
        }
    }
}

fn weapon_layout_of(kind: WeaponAnimationType) -> (r: (usize, usize, bool))
    ensures
        r == weapon_layout(kind),
{
    match kind {
        WeaponAnimationType::Idle => (1, 0, true),
        WeaponAnimationType::Firing => (3, 1, true),
    }
}

impl WeaponAnimation {
    pub fn new(anim_type: WeaponAnimationType, frame_duration: i64) -> (r: WeaponAnimation)
        ensures
            r == (WeaponAnimation {
                current_type: anim_type,
                frame_index: 0,
                frame_timer: 0,
                frame_duration,
                num_frames: weapon_layout(anim_type).0,
                base_index: weapon_layout(anim_type).1,
                loop_animation: weapon_layout(anim_type).2,
            }),
    {
        let (num_frames, base_index, loop_animation) = weapon_layout_of(anim_type);
        WeaponAnimation {
            current_type: anim_type,
            frame_index: 0,
            frame_timer: 0,
            frame_duration,
            num_frames,
            base_index,
            loop_animation,
        }
    }

    pub fn update(&mut self, delta_time: u32)
        requires
            weapon_anim_wf(*old(self)),
        ensures
            *final(self) == weapon_anim_advance(*old(self), delta_time as int),
            weapon_anim_wf(*final(self)),
    {
        let t = self.frame_timer + delta_time as i64;
        if t >= self.frame_duration {
            self.frame_timer = 0;
            self.frame_index = self.frame_index + 1;
            if self.frame_index >= self.num_frames {
                if self.loop_animation {
                    self.frame_index = 0;
                } else {
                    self.frame_index = self.num_frames - 1;
                }
            }
        } else {
            self.frame_timer = t;
        }
    }

    pub fn set_animation(&mut self, anim_type: WeaponAnimationType)
        requires
            weapon_anim_wf(*old(self)),
        ensures
            *final(self) == weapon_anim_switch(*old(self), anim_type),
            weapon_anim_wf(*final(self)),
    {
        if self.current_type == anim_type {
            return;
        }
        let (num_frames, base_index, loop_animation) = weapon_layout_of(anim_type);
        self.current_type = anim_type;
        self.frame_index = 0;
        self.frame_timer = 0;
        self.num_frames = num_frames;
        self.base_index = base_index;
        self.loop_animation = loop_animation;
    }

    pub fn current_texture_index(&self) -> (r: usize)
        requires
            weapon_anim_wf(*self),
        ensures
            r == self.base_index + self.frame_index,
    {
        self.base_index + self.frame_index
    }

    /// Back to the first frame of the current animation.
    pub fn reset(&mut self)
        ensures
            *final(self) == (WeaponAnimation { frame_index: 0, frame_timer: 0, ..*old(self) }),
    {
        self.frame_index = 0;
        self.frame_timer = 0;
    }
}

/// The player's weapon.
#[derive(Debug, Clone, Copy, PartialEq, Eq, Structural)]
pub struct Weapon {
    pub weapon_type: WeaponType,
    pub animation: WeaponAnimation,
    pub damage: i32,
    /// Time between shots, in milliseconds.
    pub fire_rate: i64,
    /// Time until the next shot is allowed, in milliseconds.
    pub fire_timer: i64,
    pub is_firing: bool,
}

pub open spec fn weapon_wf(w: Weapon) -> bool {
    &&& weapon_anim_wf(w.animation)
    &&& 0 <= w.fire_rate <= MAX_WEAPON_TIMER_MS
    &&& -0x1_0000_0000 <= w.fire_timer <= MAX_WEAPON_TIMER_MS
}

impl Weapon {
    /// A machine gun: fast animation, light damage, twenty shots a second.
    pub fn new_machine_gun() -> (r: Weapon)
        ensures
            weapon_wf(r),
            r.weapon_type == WeaponType::MachineGun,
            r.animation.current_type == WeaponAnimationType::Idle,
            r.animation.frame_index == 0,
            r.animation.frame_duration == 50,
            r.damage == 5,
            r.fire_rate == 50,
            r.fire_timer == 0,
            !r.is_firing,
    {
        Weapon {
            weapon_type: WeaponType::MachineGun,
            animation: WeaponAnimation::new(WeaponAnimationType::Idle, 50),
            damage: 5,
            fire_rate: 50,
            fire_timer: 0,
            is_firing: false,
        }
    }

    /// One frame, `delta_time` milliseconds long: the cooldown runs down and
    /// the animation follows the firing state.
    pub fn update(&mut self, delta_time: u32)
        requires
            weapon_wf(*old(self)),
        ensures
            weapon_wf(*final(self)),
            final(self).fire_timer == if old(self).fire_timer > 0 {
                old(self).fire_timer - delta_time
            } else {
                old(self).fire_timer as int
            },
            final(self).animation == weapon_anim_advance(
                weapon_anim_switch(
                    old(self).animation,
                    if old(self).is_firing {
                        WeaponAnimationType::Firing
                    } else {
                        WeaponAnimationType::Idle
                    },
                ),
                delta_time as int,
            ),
            final(self).is_firing == old(self).is_firing,
            final(self).damage == old(self).damage,
            final(self).fire_rate == old(self).fire_rate,
            final(self).weapon_type == old(self).weapon_type,
    {
        if self.fire_timer > 0 {
            self.fire_timer = self.fire_timer - delta_time as i64;
        }
        if self.is_firing {
            self.animation.set_animation(WeaponAnimationType::Firing);
        } else {
            self.animation.set_animation(WeaponAnimationType::Idle);
        }
        self.animation.update(delta_time);
    }

    /// Fires if the cooldown has run out: restarts the cooldown and the
    /// firing animation, and says whether a shot left the barrel.
    pub fn try_fire(&mut self) -> (r: bool)
        requires
            weapon_wf(*old(self)),
        ensures
            weapon_wf(*final(self)),
            r == (old(self).fire_timer <= 0),
            r ==> *final(self) == (Weapon {
                fire_timer: old(self).fire_rate,
                is_firing: true,
                animation: WeaponAnimation { frame_index: 0, frame_timer: 0, ..old(self).animation },
                ..*old(self)
            }),
            !r ==> *final(self) == *old(self),
    {
        if self.fire_timer <= 0 {
            self.fire_timer = self.fire_rate;
            self.is_firing = true;
            self.animation.reset();
            return true;
        }
        false
    }

    /// Stops firing (the trigger was released).
    pub fn stop_firing(&mut self)
        ensures
            *final(self) == (Weapon { is_firing: false, ..*old(self) }),
    {
        self.is_firing = false;
    }

    pub fn texture_index(&self) -> (r: usize)
        requires
            weapon_anim_wf(self.animation),
        ensures
            r == self.animation.base_index + self.animation.frame_index,
    {
        self.animation.current_texture_index()
    }

    pub fn damage(&self) -> (r: i32)
        ensures
            r == self.damage,
    {
        self.damage
    }

    pub fn is_firing(&self) -> (r: bool)
        ensures
            r == self.is_firing,
    {
        self.is_firing
    }
}

/// The outcome of one shot.
#[derive(Debug, Clone, Copy, PartialEq, Eq, Structural)]
pub struct ShotResult {
    pub hit: bool,
    pub distance: i64,
    pub hit_position: Vec2,
    pub damage: i32,
}

impl ShotResult {
    pub fn new(hit: bool, distance: i64, hit_position: Vec2, damage: i32) -> (r: Self)
        ensures
            r == (ShotResult { hit, distance, hit_position, damage }),
    {
        ShotResult { hit, distance, hit_position, damage }
    }

    /// A shot that struck nothing: no damage, an endless distance.
    pub fn miss() -> (r: Self)
        ensures
            r == (ShotResult { hit: false, distance: i64::MAX, hit_position: Vec2 { x: 0, y: 0 }, damage: 0 }),
    {
        ShotResult { hit: false, distance: i64::MAX, hit_position: Vec2 { x: 0, y: 0 }, damage: 0 }
    }
}

} // verus!
