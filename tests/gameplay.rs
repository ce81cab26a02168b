use maze_raycaster::combat::{fire_shot, is_aimed_at, resolve_shot, HitPolicy, ShotHit};
use maze_raycaster::enemy::{
    next_state, spawn_enemies, update_enemies, AnimationState, AnimationType, Enemy, EnemyAudioEvent,
    EnemyState,
};
use maze_raycaster::fog_of_war::FogOfWar;
use maze_raycaster::geometry::{Vec2, DIR_SCALE};
use maze_raycaster::grid::Maze;
use maze_raycaster::player::Player;
use maze_raycaster::random::shuffle;
use maze_raycaster::ray::{Ray, Side};
use maze_raycaster::weapon::{ShotResult, Weapon};

const B: usize = 64;

fn room(n: usize) -> Maze {
    let mut m = Vec::new();
    for y in 0..n {
        let mut row = Vec::new();
        for x in 0..n {
            row.push(if x == 0 || y == 0 || x == n - 1 || y == n - 1 { '1' } else { ' ' });
        }
        m.push(row);
    }
    m
}

fn center(gx: i64, gy: i64) -> Vec2 {
    Vec2::new(gx * 64 + 32, gy * 64 + 32)
}

#[test]
fn enemy_detects_then_holds_chase_across_boundary() {
    let maze = room(20);
    let player = Vec2::new(640, 640);
    // One unit inside the detection radius: idle -> chase.
    let mut e = Enemy::new_rat(Vec2::new(640 + 299, 640));
    let r = e.update(16, player, &maze, B);
    assert_eq!(e.state(), EnemyState::Chase);
    assert_eq!(r.audio_event, Some(EnemyAudioEvent::StartChase));
    assert_eq!(r.damage, None);
    // One unit outside it on the next frame: still chasing (the band is 1.5x).
    e.position = Vec2::new(640 + 301, 640);
    let r2 = e.update(16, player, &maze, B);
    assert_eq!(e.state(), EnemyState::Chase);
    assert_eq!(r2.audio_event, None);
}

#[test]
fn enemy_at_exact_detection_radius_does_not_flip() {
    let d2 = 300i128 * 300;
    assert_eq!(next_state(EnemyState::Idle, d2, 300, 40), EnemyState::Idle);
    assert_eq!(next_state(EnemyState::Chase, d2, 300, 40), EnemyState::Chase);
    // Beyond 1.5 times the radius the chase is dropped.
    assert_eq!(next_state(EnemyState::Chase, 451 * 451, 300, 40), EnemyState::Idle);
    assert_eq!(next_state(EnemyState::Chase, 450 * 450, 300, 40), EnemyState::Chase);
    // Attack range and its 1.2x band.
    assert_eq!(next_state(EnemyState::Chase, 39 * 39, 300, 40), EnemyState::Attack);
    assert_eq!(next_state(EnemyState::Attack, 48 * 48, 300, 40), EnemyState::Attack);
    assert_eq!(next_state(EnemyState::Attack, 49 * 49, 300, 40), EnemyState::Chase);
    assert_eq!(next_state(EnemyState::Dead, 0, 300, 40), EnemyState::Dead);
}

#[test]
fn enemy_oscillating_at_radius_never_thrashes() {
    let maze = room(20);
    let player = Vec2::new(640, 640);
    let mut e = Enemy::new_rat(Vec2::new(640 + 300, 640));
    e.state = EnemyState::Chase;
    e.move_speed = 0;
    for k in 0..20 {
        e.position = Vec2::new(640 + 300 + (k % 2), 640);
        e.update(16, player, &maze, B);
        assert_eq!(e.state(), EnemyState::Chase);
    }
}

#[test]
fn chasing_enemy_steps_toward_player() {
    let maze = room(20);
    let player = Vec2::new(640, 640);
    let mut e = Enemy::new_rat(Vec2::new(840, 640));
    e.state = EnemyState::Chase;
    // 80 units per second for half a second: 40 units closer.
    e.update(500, player, &maze, B);
    assert_eq!(e.position(), Vec2::new(800, 640));
}

#[test]
fn attacking_enemy_strikes_on_impact_frame_once_per_cooldown() {
    let maze = room(20);
    let player = Vec2::new(640, 640);
    let mut e = Enemy::new_rat(Vec2::new(660, 640));
    e.state = EnemyState::Attack;
    e.animation = AnimationState::new(AnimationType::Attack, 150);
    // Frame 0: no strike yet.
    let r0 = e.update(10, player, &maze, B);
    assert_eq!(r0.damage, None);
    // The frame advances to 1: strike.
    let r1 = e.update(150, player, &maze, B);
    assert_eq!(e.animation.frame_index, 1);
    assert_eq!(r1.damage, Some(10));
    assert_eq!(r1.audio_event, Some(EnemyAudioEvent::Attack));
    assert_eq!(e.attack_timer, 1000);
    // Still on frame 1, cooldown running: no second strike.
    let r2 = e.update(10, player, &maze, B);
    assert_eq!(r2.damage, None);
}

#[test]
fn update_enemies_sums_damage_and_collects_events() {
    let maze = room(20);
    let player = Vec2::new(640, 640);
    let mut a = Enemy::new_rat(Vec2::new(660, 640));
    a.state = EnemyState::Attack;
    a.animation = AnimationState::new(AnimationType::Attack, 150);
    a.animation.frame_index = 1;
    let b = a;
    let far = Enemy::new_rat(Vec2::new(640 + 200, 640));
    let mut enemies = vec![a, b, far];
    let (damage, events) = update_enemies(&mut enemies, 1, player, &maze, B);
    assert_eq!(damage, 20);
    assert_eq!(events, vec![EnemyAudioEvent::Attack, EnemyAudioEvent::Attack, EnemyAudioEvent::StartChase]);
}

#[test]
fn enemy_dies_at_zero_health_and_stays_dead() {
    let mut e = Enemy::new_rat(Vec2::new(0, 0));
    assert_eq!(e.take_damage(5), None);
    assert_eq!(e.health(), 15);
    assert!(e.is_flashing());
    assert_eq!(e.take_damage(15), Some(EnemyAudioEvent::Death));
    assert_eq!(e.state(), EnemyState::Dead);
    assert_eq!(e.health(), 0);
    assert!(!e.is_alive());
    assert_eq!(e.texture_index(), 7);
    assert_eq!(e.take_damage(5), None);
    assert_eq!(e.health(), 0);
}

#[test]
fn death_animation_holds_last_frame() {
    let mut a = AnimationState::new(AnimationType::Death, 100);
    for _ in 0..10 {
        a.update(100);
    }
    assert_eq!(a.frame_index, 2);
    assert!(a.finished);
    assert_eq!(a.current_texture_index(), 9);
    let mut w = AnimationState::new(AnimationType::Walk, 100);
    for _ in 0..4 {
        w.update(100);
    }
    assert_eq!(w.frame_index, 0);
}

#[test]
fn shot_through_wall_deals_no_damage() {
    // Player at x = 96 facing east; wall at column 3; enemy beyond it at column 5.
    let maze: Maze = vec!["1111111".chars().collect(), "1  1  1".chars().collect(), "1111111".chars().collect()];
    let player = Player::new(center(1, 1), Vec2::new(DIR_SCALE, 0));
    let mut enemies = vec![Enemy::new_rat(center(5, 1))];
    let hit = fire_shot(&mut enemies, &player, &maze, B, 5, HitPolicy::FirstMatch);
    assert_eq!(hit, None);
    assert_eq!(enemies[0].health(), 20);
}

#[test]
fn shot_at_enemy_in_front_of_wall_hits() {
    let maze: Maze = vec!["1111111".chars().collect(), "1     1".chars().collect(), "1111111".chars().collect()];
    let player = Player::new(center(1, 1), Vec2::new(DIR_SCALE, 0));
    let mut enemies = vec![Enemy::new_rat(center(4, 1))];
    let hit = fire_shot(&mut enemies, &player, &maze, B, 5, HitPolicy::FirstMatch);
    assert_eq!(hit, Some(ShotHit { index: 0, killed: false }));
    assert_eq!(enemies[0].health(), 15);
}

#[test]
fn first_match_and_nearest_policies_differ() {
    let player = Player::new(Vec2::new(0, 0), Vec2::new(DIR_SCALE, 0));
    let far = Enemy::new_rat(Vec2::new(500, 0));
    let near = Enemy::new_rat(Vec2::new(100, 0));
    let mut a = vec![far, near];
    assert_eq!(resolve_shot(&mut a, &player, 1000, 5, HitPolicy::FirstMatch), Some(ShotHit { index: 0, killed: false }));
    let mut b = vec![far, near];
    assert_eq!(resolve_shot(&mut b, &player, 1000, 5, HitPolicy::Nearest), Some(ShotHit { index: 1, killed: false }));
    assert_eq!(b[0].health(), 20);
    assert_eq!(b[1].health(), 15);
}

#[test]
fn dead_and_off_aim_enemies_are_not_hit() {
    let player = Player::new(Vec2::new(0, 0), Vec2::new(DIR_SCALE, 0));
    let mut dead = Enemy::new_rat(Vec2::new(100, 0));
    dead.take_damage(100);
    let aside = Enemy::new_rat(Vec2::new(100, 20));
    let behind = Enemy::new_rat(Vec2::new(-100, 0));
    let mut es = vec![dead, aside, behind];
    assert_eq!(resolve_shot(&mut es, &player, 1000, 5, HitPolicy::FirstMatch), None);
    // About 0.0998 rad off: inside the tolerance; 0.1003 rad: outside.
    assert!(is_aimed_at(Vec2::new(0, 0), Vec2::new(DIR_SCALE, 0), Vec2::new(10000, 1000)));
    assert!(!is_aimed_at(Vec2::new(0, 0), Vec2::new(DIR_SCALE, 0), Vec2::new(10000, 1004)));
}

#[test]
fn lethal_shot_reports_kill() {
    let player = Player::new(Vec2::new(0, 0), Vec2::new(DIR_SCALE, 0));
    let mut es = vec![Enemy::new_rat(Vec2::new(100, 0))];
    assert_eq!(resolve_shot(&mut es, &player, 1000, 20, HitPolicy::FirstMatch), Some(ShotHit { index: 0, killed: true }));
    assert_eq!(es[0].state(), EnemyState::Dead);
}

#[test]
fn fog_stays_explored_after_player_leaves() {
    let maze = room(20);
    let mut fog = FogOfWar::new(&maze, B, 4 * 64);
    assert!(!fog.is_explored(3, 3));
    let here = Player::new(center(3, 3), Vec2::new(DIR_SCALE, 0));
    fog.update(&here, &Vec::new(), &maze);
    assert!(fog.is_explored(3, 3));
    assert!(fog.is_explored(5, 3));
    assert!(!fog.is_explored(16, 16));
    let there = Player::new(center(16, 16), Vec2::new(DIR_SCALE, 0));
    fog.update(&there, &Vec::new(), &maze);
    assert!(fog.is_explored(3, 3));
    assert!(fog.is_explored(16, 16));
    fog.reset();
    assert!(!fog.is_explored(3, 3));
}

#[test]
fn fog_respects_radius_and_walls() {
    // A wall column at x = 4 blocks the view east of it.
    let mut rows: Vec<Vec<char>> = Vec::new();
    for y in 0..10 {
        let mut row = Vec::new();
        for x in 0..10 {
            row.push(if x == 0 || y == 0 || x == 9 || y == 9 || x == 4 { '1' } else { ' ' });
        }
        rows.push(row);
    }
    let mut fog = FogOfWar::new(&rows, B, 4 * 64);
    let p = Player::new(center(2, 5), Vec2::new(DIR_SCALE, 0));
    fog.update_from_position(&p, &rows);
    assert!(fog.is_explored(4, 5), "the facing wall is seen");
    assert!(!fog.is_explored(5, 5), "behind the wall stays dark");
    assert!(!fog.is_explored(7, 5));
}

#[test]
fn fog_reveals_cells_struck_by_rays() {
    let maze = room(30);
    let mut fog = FogOfWar::new(&maze, B, 64);
    let ray = Ray::new(1000, Vec2::new(29 * 64, 500), '1', Side::Vertical, 29, 7);
    fog.update_from_rays(&vec![None, Some(ray)]);
    assert!(fog.is_explored(29, 7));
    assert!(!fog.is_explored(28, 7));
    fog.mark_explored(100, 100);
    assert!(!fog.is_explored(100, 100));
}

#[test]
fn weapon_fires_on_cooldown_only() {
    let mut w = Weapon::new_machine_gun();
    assert!(w.try_fire());
    assert!(w.is_firing());
    assert!(!w.try_fire());
    w.update(30);
    assert!(!w.try_fire());
    w.update(30);
    assert!(w.try_fire());
    assert_eq!(w.damage(), 5);
    w.stop_firing();
    w.update(10);
    assert_eq!(w.texture_index(), 0);
    let miss = ShotResult::miss();
    assert!(!miss.hit);
    assert_eq!(miss.damage, 0);
}

#[test]
fn firing_animation_cycles_through_frames() {
    let mut w = Weapon::new_machine_gun();
    w.try_fire();
    w.update(10);
    assert_eq!(w.texture_index(), 1);
    w.update(50);
    assert_eq!(w.texture_index(), 2);
    w.update(50);
    assert_eq!(w.texture_index(), 3);
    w.update(50);
    assert_eq!(w.texture_index(), 1);
}

#[test]
fn spawned_enemies_keep_their_distances() {
    let maze = room(30);
    let player = center(3, 3);
    let enemies = spawn_enemies(&maze, B, player, 50);
    assert!(!enemies.is_empty());
    assert!(enemies.len() <= 50);
    for (i, a) in enemies.iter().enumerate() {
        let gx = a.x() / 64;
        let gy = a.y() / 64;
        assert!(gx >= 2 && gy >= 2 && gx < 28 && gy < 28);
        let d = a.distance_to(player.x, player.y);
        assert!(d >= 5 * 64);
        assert_eq!(a.state(), EnemyState::Idle);
        for b in enemies.iter().skip(i + 1) {
            assert!(a.distance_to(b.x(), b.y()) >= 3 * 64);
        }
    }
    assert!(spawn_enemies(&maze, B, player, 0).is_empty());
}

#[test]
fn shuffle_permutes() {
    let numbers: Vec<u32> = (0..100).collect();
    let mut v = numbers.clone();
    shuffle(&mut v);
    let mut sorted = v.clone();
    sorted.sort();
    assert_eq!(sorted, numbers);
    assert_ne!(v, numbers);
}

#[test]
fn lone_spawn_cell_always_gets_its_rat() {
    // In a 5x5 room only cell (2, 2) lies two cells in from every edge.
    let maze = room(5);
    let enemies = spawn_enemies(&maze, B, Vec2::new(10_000, 10_000), 5);
    assert_eq!(enemies.len(), 1);
    assert_eq!(enemies[0].position(), Vec2::new(160, 160));
}
