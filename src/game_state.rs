use vstd::prelude::*;
use vstd::string::StringExecFns;
use crate::sprite::PickupType;
use crate::text::{append_decimal, signed_decimal};

verus! {

/// Health gained from a health pickup (capped at the maximum).
pub const HEALTH_PICKUP: i32 = 25;
/// Ammunition gained from an ammo pickup.
pub const AMMO_PICKUP: i32 = 20;
/// Score for an ammo pickup, a key, a treasure and a kill.
pub const AMMO_SCORE: i32 = 10;
pub const KEY_SCORE: i32 = 50;
pub const TREASURE_SCORE: i32 = 100;
pub const KILL_SCORE: i32 = 25;

/// The player's inventory and progress.
#[derive(Debug, Clone, Copy)]
pub struct GameState {
    pub health: i32,
    pub max_health: i32,
    pub ammo: i32,
    pub keys: i32,
    pub treasure: i32,
    pub score: i32,
    pub kills: i32,
}

/// `a` clamped below at `lo`.
pub open spec fn at_least(a: int, lo: int) -> int {
    if a < lo { lo } else { a }
}

/// `a` clamped above at `hi`.
pub open spec fn at_most(a: int, hi: int) -> int {
    if a > hi { hi } else { a }
}

impl GameState {
    /// Full health, a starting supply of ammunition, nothing else.
    pub fn new() -> (r: GameState)
        ensures
            r.health == 100,
            r.max_health == 100,
            r.ammo == 200,
            r.keys == 0,
            r.treasure == 0,
            r.score == 0,
            r.kills == 0,
    {
        GameState { health: 100, max_health: 100, ammo: 200, keys: 0, treasure: 0, score: 0, kills: 0 }
    }

    /// Applies a collected item and returns the message to show.
    pub fn collect_pickup(&mut self, pickup_type: PickupType) -> (r: String)
        requires
            pickup_type == PickupType::Health ==> old(self).health + HEALTH_PICKUP <= i32::MAX,
            pickup_type == PickupType::Ammo ==> old(self).ammo + AMMO_PICKUP <= i32::MAX
                && old(self).score + AMMO_SCORE <= i32::MAX,
            pickup_type == PickupType::Key ==> old(self).keys + 1 <= i32::MAX && old(self).score
                + KEY_SCORE <= i32::MAX,
            pickup_type == PickupType::Treasure ==> old(self).treasure + 1 <= i32::MAX
                && old(self).score + TREASURE_SCORE <= i32::MAX,
        ensures
            final(self).max_health == old(self).max_health,
            final(self).kills == old(self).kills,
            match pickup_type {
                PickupType::Health => {
                    &&& final(self).health == at_most(
                        old(self).health + HEALTH_PICKUP,
                        old(self).max_health as int,
                    )
                    &&& final(self).ammo == old(self).ammo
                    &&& final(self).keys == old(self).keys
                    &&& final(self).treasure == old(self).treasure
                    &&& final(self).score == old(self).score
                    &&& r@ == "Health +"@ + signed_decimal(final(self).health - old(self).health)
                },
                PickupType::Ammo => {
                    &&& final(self).health == old(self).health
                    &&& final(self).ammo == old(self).ammo + AMMO_PICKUP
                    &&& final(self).keys == old(self).keys
                    &&& final(self).treasure == old(self).treasure
                    &&& final(self).score == old(self).score + AMMO_SCORE
                    &&& r@ == "Ammo +20"@
                },
                PickupType::Key => {
                    &&& final(self).health == old(self).health
                    &&& final(self).ammo == old(self).ammo
                    &&& final(self).keys == old(self).keys + 1
                    &&& final(self).treasure == old(self).treasure
                    &&& final(self).score == old(self).score + KEY_SCORE
                    &&& r@ == "Key collected!"@
                },
                PickupType::Treasure => {
                    &&& final(self).health == old(self).health
                    &&& final(self).ammo == old(self).ammo
                    &&& final(self).keys == old(self).keys
                    &&& final(self).treasure == old(self).treasure + 1
                    &&& final(self).score == old(self).score + TREASURE_SCORE
                    &&& r@ == "Treasure +100 points!"@
                },
            },
    {
        match pickup_type {
            PickupType::Health => {
                let old_health = self.health;
                let raised = self.health + HEALTH_PICKUP;
                self.health = if raised > self.max_health { self.max_health } else { raised };
                let gained = self.health as i64 - old_health as i64;
                let mut message = String::from_str("Health +");
                append_decimal(&mut message, gained);
                message
            },
            PickupType::Ammo => {
                self.ammo = self.ammo + AMMO_PICKUP;
                self.score = self.score + AMMO_SCORE;
                String::from_str("Ammo +20")
            },
            PickupType::Key => {
                self.keys = self.keys + 1;
                self.score = self.score + KEY_SCORE;
                String::from_str("Key collected!")
            },
            PickupType::Treasure => {
                self.treasure = self.treasure + 1;
                self.score = self.score + TREASURE_SCORE;
                String::from_str("Treasure +100 points!")
            },
        }
    }

    pub fn health(&self) -> (r: i32)
        ensures
            r == self.health,
    {
        self.health
    }

    pub fn max_health(&self) -> (r: i32)
        ensures
            r == self.max_health,
    {
        self.max_health
    }

    pub fn ammo(&self) -> (r: i32)
        ensures
            r == self.ammo,
    {
        self.ammo
    }

    pub fn keys(&self) -> (r: i32)
        ensures
            r == self.keys,
    {
        self.keys
    }

    pub fn treasure(&self) -> (r: i32)
        ensures
            r == self.treasure,
    {
        self.treasure
    }

    pub fn score(&self) -> (r: i32)
        ensures
            r == self.score,
    {
        self.score
    }

    pub fn kills(&self) -> (r: i32)
        ensures
            r == self.kills,
    {
        self.kills
    }

    /// Loses `damage` health, never going below zero.
    pub fn take_damage(&mut self, damage: i32)
        requires
            i32::MIN <= old(self).health - damage <= i32::MAX,
        ensures
            final(self).health == at_least(old(self).health - damage, 0),
            final(self).max_health == old(self).max_health,
            final(self).ammo == old(self).ammo,
            final(self).keys == old(self).keys,
            final(self).treasure == old(self).treasure,
            final(self).score == old(self).score,
            final(self).kills == old(self).kills,
    {
        let h = self.health - damage;
        self.health = if h < 0 { 0 } else { h };
    }

    /// Whether the player has no health left.
    pub fn is_dead(&self) -> (r: bool)
        ensures
            r == (self.health <= 0),
    {
        self.health <= 0
    }

    /// Counts a kill and its score.
    pub fn add_kill(&mut self)
        requires
            old(self).kills + 1 <= i32::MAX,
            old(self).score + KILL_SCORE <= i32::MAX,
        ensures
            final(self).kills == old(self).kills + 1,
            final(self).score == old(self).score + KILL_SCORE,
            final(self).health == old(self).health,
            final(self).max_health == old(self).max_health,
            final(self).ammo == old(self).ammo,
            final(self).keys == old(self).keys,
            final(self).treasure == old(self).treasure,
    {
        self.kills = self.kills + 1;
        self.score = self.score + KILL_SCORE;
    }

    /// The one-line status shown by the interface.
    pub fn format_stats(&self) -> (r: String)
        ensures
            r@ == "Health: "@ + signed_decimal(self.health as int) + "/"@ + signed_decimal(
                self.max_health as int,
            ) + " | Ammo: "@ + signed_decimal(self.ammo as int) + " | Keys: "@ + signed_decimal(
                self.keys as int,
            ) + " | Treasure: "@ + signed_decimal(self.treasure as int) + " | Score: "@
                + signed_decimal(self.score as int),
    {
        let mut s = String::from_str("Health: ");
        append_decimal(&mut s, self.health as i64);
        s.append("/");
        append_decimal(&mut s, self.max_health as i64);
        s.append(" | Ammo: ");
        append_decimal(&mut s, self.ammo as i64);
        s.append(" | Keys: ");
        append_decimal(&mut s, self.keys as i64);
        s.append(" | Treasure: ");
        append_decimal(&mut s, self.treasure as i64);
        s.append(" | Score: ");
        append_decimal(&mut s, self.score as i64);
        s
    }

    /// Spends `amount` ammunition, never going below zero.
    pub fn use_ammo(&mut self, amount: i32)
        requires
            i32::MIN <= old(self).ammo - amount <= i32::MAX,
        ensures
            final(self).ammo == at_least(old(self).ammo - amount, 0),
            final(self).health == old(self).health,
            final(self).max_health == old(self).max_health,
            final(self).keys == old(self).keys,
            final(self).treasure == old(self).treasure,
            final(self).score == old(self).score,
            final(self).kills == old(self).kills,
    {
        let a = self.ammo - amount;
        self.ammo = if a < 0 { 0 } else { a };
    }
}

impl Default for GameState {
    fn default() -> (r: GameState)
        ensures
            r.health == 100,
            r.max_health == 100,
            r.ammo == 200,
            r.keys == 0,
            r.treasure == 0,
            r.score == 0,
            r.kills == 0,
    {
        GameState::new()
    }
}

} // verus!
