use maze_raycaster::conway::{Cell, Matrix};
use maze_raycaster::enemy::Enemy;
use maze_raycaster::framebuffer::{Color, Framebuffer, Texture};
use maze_raycaster::game_state::GameState;
use maze_raycaster::geometry::{isqrt, Vec2, DIR_SCALE};
use maze_raycaster::grid::Maze;
use maze_raycaster::player::Player;
use maze_raycaster::ray::{Ray, Side};
use maze_raycaster::sprite::{
    check_nearby_walls, process_pickups, spawn_sprites_in_maze, spawn_sprites_with_config, PickupType, Sprite,
    SpriteSpawnConfig, SpriteType,
};
use maze_raycaster::sprite_renderer::{sort_by_depth, SpriteProjection, SpriteRenderer};
use maze_raycaster::text::{decimal_string, signed_decimal_string};
use maze_raycaster::wall_renderer::WallRenderer;

const W: usize = 40;
const H: usize = 20;
const BLACK: Color = Color { r: 0, g: 0, b: 0, a: 255 };

fn solid(c: Color) -> Texture {
    Texture { width: 4, height: 4, pixels: vec![c; 16] }
}

fn far_wall_rays(n: usize, distance: i64) -> Vec<Option<Ray>> {
    (0..n).map(|i| Some(Ray::new(distance, Vec2::new(i as i64, 0), '1', Side::Vertical, 0, 0))).collect()
}

fn room(n: usize) -> Maze {
    let mut m = Vec::new();
    for y in 0..n {
        let mut row = Vec::new();
        for x in 0..n {
            row.push(if x == 0 || y == 0 || x == n - 1 || y == n - 1 { '1' } else { ' ' });
        }
        m.push(row);
    }
    m
}

fn px(fb: &Framebuffer, x: usize, y: usize) -> Color {
    fb.pixels[y * fb.width() + x]
}

#[test]
fn projection_places_sprite_ahead_at_screen_centre() {
    let r = SpriteRenderer::new(W, H, vec![], vec![]);
    let player = Player::new(Vec2::new(0, 0), Vec2::new(DIR_SCALE, 0));
    let p = r.project_at_position(Vec2::new(100, 0), 3, 100, &player, 64).unwrap();
    assert_eq!(p.screen_x, 20);
    assert_eq!(p.transform_y, 100 * DIR_SCALE);
    // 20 rows * 64 / 100 units away, at full scale.
    assert_eq!(p.sprite_height, 12);
    assert_eq!(p.sprite_width, 12);
    assert_eq!(p.sprite_index, 3);
    // Behind the camera: not projected.
    assert!(r.project_at_position(Vec2::new(-100, 0), 3, 100, &player, 64).is_none());
    // Offset sideways: right of centre (y grows downward, heading east).
    let side = r.project_at_position(Vec2::new(100, 33), 3, 100, &player, 64).unwrap();
    assert_eq!(side.screen_x, 30);
}

#[test]
fn sprite_behind_wall_is_not_drawn() {
    let red = Color::new(200, 0, 0, 255);
    let r = SpriteRenderer::new(W, H, vec![solid(red)], vec![]);
    let player = Player::new(Vec2::new(0, 0), Vec2::new(DIR_SCALE, 0));
    let sprites = vec![Sprite::new(Vec2::new(100, 0), 0)];
    let mut fb = Framebuffer::new(W, H, BLACK);
    // Walls 50 units ahead in every column: the sprite at 100 is hidden.
    r.render_sprites(&mut fb, &sprites, &player, &far_wall_rays(W, 50), 64);
    assert!(fb.pixels.iter().all(|&c| c == BLACK));
    // Walls 500 units ahead: the sprite shows.
    r.render_sprites(&mut fb, &sprites, &player, &far_wall_rays(W, 500), 64);
    assert_eq!(px(&fb, 20, 10), red);
}

#[test]
fn nearer_sprite_wins_shared_pixels() {
    let red = Color::new(200, 0, 0, 255);
    let blue = Color::new(0, 0, 200, 255);
    let r = SpriteRenderer::new(W, H, vec![solid(red), solid(blue)], vec![]);
    let player = Player::new(Vec2::new(0, 0), Vec2::new(DIR_SCALE, 0));
    let rays = far_wall_rays(W, 1000);
    // Near red listed first, far blue second: red must still end on top.
    let sprites = vec![Sprite::new(Vec2::new(100, 0), 0), Sprite::new(Vec2::new(200, 0), 1)];
    let mut fb = Framebuffer::new(W, H, BLACK);
    r.render_sprites(&mut fb, &sprites, &player, &rays, 64);
    assert_eq!(px(&fb, 20, 10), red);
    let swapped = vec![sprites[1], sprites[0]];
    let mut fb2 = Framebuffer::new(W, H, BLACK);
    r.render_sprites(&mut fb2, &swapped, &player, &rays, 64);
    assert_eq!(px(&fb2, 20, 10), red);
}

#[test]
fn transparent_texels_and_missing_textures_draw_nothing() {
    let key = Color::new(0, 255, 255, 255);
    let clear = Color::new(10, 10, 10, 100);
    let r = SpriteRenderer::new(W, H, vec![solid(key), solid(clear)], vec![]);
    let player = Player::new(Vec2::new(0, 0), Vec2::new(DIR_SCALE, 0));
    let rays = far_wall_rays(W, 1000);
    let sprites = vec![Sprite::new(Vec2::new(100, 0), 0), Sprite::new(Vec2::new(120, 0), 1), Sprite::new(Vec2::new(140, 0), 9)];
    let mut fb = Framebuffer::new(W, H, BLACK);
    r.render_sprites(&mut fb, &sprites, &player, &rays, 64);
    assert!(fb.pixels.iter().all(|&c| c == BLACK));
}

#[test]
fn sort_by_depth_orders_far_to_near() {
    let mk = |d: i64| SpriteProjection { screen_x: 0, distance: d, sprite_height: 1, sprite_width: 1, sprite_index: 0, transform_y: d };
    let sorted = sort_by_depth(vec![mk(3), mk(9), mk(1), mk(9), mk(5)]);
    let depths: Vec<i64> = sorted.iter().map(|p| p.transform_y).collect();
    assert_eq!(depths, vec![9, 9, 5, 3, 1]);
}

#[test]
fn walls_are_taller_when_nearer() {
    let wr = WallRenderer::new_untextured(W, H);
    let mut fb = Framebuffer::new(W, H, BLACK);
    wr.render_floor_ceiling(&mut fb);
    assert_eq!(px(&fb, 0, 0), Color::new(60, 60, 60, 255));
    assert_eq!(px(&fb, 0, H - 1), Color::new(80, 80, 80, 255));
    // Two strips: the left one near (full height), the right one far (short).
    let near = Ray::new(64, Vec2::new(0, 0), '1', Side::Vertical, 0, 0);
    let far = Ray::new(640, Vec2::new(0, 0), '2', Side::Horizontal, 0, 0);
    let viewer = Player::new(Vec2::new(0, 0), Vec2::new(DIR_SCALE, 0));
    wr.render_3d_view(&mut fb, &vec![Some(near), Some(far)], &viewer, 64);
    let red = Color::new(180, 50, 50, 255);
    let dark_green = Color::new(25, 90, 25, 255);
    assert_eq!(px(&fb, 5, 0), red);
    assert_eq!(px(&fb, 5, H - 1), red);
    // Far wall: height 20 * 64 / 640 = 2 rows around the centre.
    assert_eq!(px(&fb, 30, 9), dark_green);
    assert_eq!(px(&fb, 30, 10), dark_green);
    assert_eq!(px(&fb, 30, 8), Color::new(60, 60, 60, 255));
    assert_eq!(px(&fb, 30, 11), Color::new(80, 80, 80, 255));
}

#[test]
fn textured_wall_picks_variant_and_column() {
    let mut texs = Vec::new();
    for i in 0..8u8 {
        texs.push(Texture { width: 4, height: 4, pixels: (0..16u8).map(|k| Color::new(i, k, 0, 255)).collect() });
    }
    let wr = WallRenderer::new(W, H, texs);
    let ray = Ray::new(64, Vec2::new(100, 16), '3', Side::Horizontal, 0, 0);
    assert_eq!(wr.get_texture_index(&ray), 6);
    // Horizontal face: x = 100 is 36 into its cell, so column 36 * 4 / 64 = 2.
    assert_eq!(wr.calculate_texture_x(&ray, 64, 4), 2);
    let vray = Ray::new(64, Vec2::new(128, 16), '3', Side::Vertical, 0, 0);
    assert_eq!(wr.get_texture_index(&vray), 2);
    // Vertical face: y = 16 is a quarter in, column 1, mirrored to 2.
    assert_eq!(wr.calculate_texture_x(&vray, 64, 4), 2);
    let mut fb = Framebuffer::new(W, H, BLACK);
    wr.render_wall_strip(&mut fb, &ray, 0, 1, 64);
    assert_eq!(px(&fb, 7, 0), Color::new(6, 2, 0, 255));
    assert_eq!(px(&fb, 7, H - 1), Color::new(6, 14, 0, 255));
}

#[test]
fn framebuffer_ignores_off_screen_pixels() {
    let mut fb = Framebuffer::new(4, 3, BLACK);
    fb.set_foreground_color(Color::new(1, 2, 3, 4));
    fb.set_pixel(-1, 0);
    fb.set_pixel(4, 0);
    assert!(fb.pixels.iter().all(|&c| c == BLACK));
    fb.set_pixel(3, 2);
    assert_eq!(px(&fb, 3, 2), Color::new(1, 2, 3, 4));
    fb.clear();
    assert!(fb.pixels.iter().all(|&c| c == BLACK));
}

#[test]
fn pickups_are_collected_once_within_radius() {
    let mut sprites = vec![
        Sprite::new_pickup(Vec2::new(40, 0), 4, PickupType::Health),
        Sprite::new_pickup(Vec2::new(49, 0), 6, PickupType::Key),
        Sprite::new(Vec2::new(0, 0), 1),
    ];
    let got = process_pickups(&mut sprites, 0, 0);
    assert_eq!(got, vec![PickupType::Health]);
    assert!(!sprites[0].is_active());
    assert!(sprites[1].is_active());
    assert!(sprites[2].is_active());
    assert_eq!(process_pickups(&mut sprites, 0, 0), vec![]);
    assert_eq!(sprites[1].collect(), Some(PickupType::Key));
    assert_eq!(sprites[1].collect(), None);
    assert_eq!(sprites[2].collect(), None);
    assert_eq!(sprites[0].distance_to(0, 3), 40);
}

#[test]
fn spawned_sprites_sit_next_to_walls_with_one_key() {
    let maze = room(24);
    let config = SpriteSpawnConfig { num_decorations: 8, num_pickups: 6, min_spacing: 96, num_textures: 4 };
    let sprites = spawn_sprites_with_config(&maze, 64, &config);
    assert!(!sprites.is_empty());
    assert!(sprites.len() <= 15);
    let keys = sprites.iter().filter(|s| s.sprite_type() == SpriteType::Pickup(PickupType::Key)).count();
    assert!(keys <= 1);
    for (i, s) in sprites.iter().enumerate() {
        let gx = (s.x() / 64) as usize;
        let gy = (s.y() / 64) as usize;
        assert_eq!(maze[gy][gx], ' ');
        assert!(check_nearby_walls(&maze, gx, gy, 2));
        match s.sprite_type() {
            SpriteType::Decoration => assert!(s.texture_index() < 4),
            SpriteType::Pickup(k) => assert_eq!(s.texture_index(), 4 + k as usize),
        }
        for t in sprites.iter().skip(i + 1) {
            assert!(2 * s.distance_to(t.x(), t.y()) + 1 >= 96);
        }
    }
    let more = spawn_sprites_in_maze(&maze, 64, 25);
    assert!(more.len() <= 26);
    assert_eq!(SpriteSpawnConfig::default().num_decorations, 15);
}

#[test]
fn nearby_wall_check_looks_two_cells_out() {
    let maze = room(9);
    assert!(check_nearby_walls(&maze, 2, 4, 2));
    assert!(!check_nearby_walls(&maze, 4, 4, 2));
}

#[test]
fn game_state_tracks_pickups_damage_and_kills() {
    let mut g = GameState::new();
    assert_eq!(g.collect_pickup(PickupType::Health), "Health +0");
    g.take_damage(30);
    assert_eq!(g.health(), 70);
    assert_eq!(g.collect_pickup(PickupType::Health), "Health +25");
    assert_eq!(g.health(), 95);
    assert_eq!(g.collect_pickup(PickupType::Health), "Health +5");
    assert_eq!(g.collect_pickup(PickupType::Ammo), "Ammo +20");
    assert_eq!((g.ammo(), g.score()), (220, 10));
    assert_eq!(g.collect_pickup(PickupType::Key), "Key collected!");
    assert_eq!(g.collect_pickup(PickupType::Treasure), "Treasure +100 points!");
    assert_eq!((g.keys(), g.treasure(), g.score()), (1, 1, 160));
    g.add_kill();
    assert_eq!((g.kills(), g.score()), (1, 185));
    g.use_ammo(500);
    assert_eq!(g.ammo(), 0);
    assert_eq!(g.format_stats(), "Health: 100/100 | Ammo: 0 | Keys: 1 | Treasure: 1 | Score: 185");
    g.take_damage(250);
    assert_eq!(g.health(), 0);
    assert!(g.is_dead());
    assert_eq!(g.max_health(), 100);
    assert_eq!(GameState::default().ammo(), 200);
}

#[test]
fn decimal_text_is_exact() {
    assert_eq!(decimal_string(0), "0");
    assert_eq!(decimal_string(1234567890), "1234567890");
    assert_eq!(signed_decimal_string(-42), "-42");
    assert_eq!(signed_decimal_string(i64::MIN), "-9223372036854775808");
    assert_eq!(isqrt(99), 9);
    assert_eq!(isqrt(100), 10);
}

#[test]
fn blinker_oscillates() {
    let mut m = Matrix::new(5, 5);
    m.set_cell(1, 2, Cell::Alive);
    m.set_cell(2, 2, Cell::Alive);
    m.set_cell(3, 2, Cell::Alive);
    let mut next = m.calculate_next_generation();
    assert!(matches!(next.get_cell(2, 1), Cell::Alive));
    assert!(matches!(next.get_cell(2, 2), Cell::Alive));
    assert!(matches!(next.get_cell(2, 3), Cell::Alive));
    assert!(matches!(next.get_cell(1, 2), Cell::Dead));
    let mut back = next.calculate_next_generation();
    assert!(matches!(back.get_cell(1, 2), Cell::Alive));
    assert!(matches!(back.get_cell(2, 1), Cell::Dead));
    assert_eq!(Cell::Alive.to_string(), "0");
    assert_eq!(Cell::Dead.to_string(), "X");
}

#[test]
fn lone_cell_dies_and_corner_block_survives() {
    let mut m = Matrix::new(3, 3);
    m.set_cell(0, 0, Cell::Alive);
    m.set_cell(1, 0, Cell::Alive);
    m.set_cell(0, 1, Cell::Alive);
    m.set_cell(1, 1, Cell::Alive);
    let mut n = m.calculate_next_generation();
    assert!(matches!(n.get_cell(0, 0), Cell::Alive));
    assert!(matches!(n.get_cell(1, 1), Cell::Alive));
    assert!(matches!(n.get_cell(2, 2), Cell::Dead));
    let mut lone = Matrix::new(3, 3);
    lone.set_cell(1, 1, Cell::Alive);
    let mut after = lone.calculate_next_generation();
    assert!(matches!(after.get_cell(1, 1), Cell::Dead));
}

#[test]
fn missing_column_leaves_floor_and_ceiling() {
    let wr = WallRenderer::new_untextured(W, H);
    let mut fb = Framebuffer::new(W, H, BLACK);
    wr.render_floor_ceiling(&mut fb);
    let near = Ray::new(64, Vec2::new(0, 0), '1', Side::Vertical, 0, 0);
    let viewer = Player::new(Vec2::new(0, 0), Vec2::new(DIR_SCALE, 0));
    wr.render_3d_view(&mut fb, &vec![None, Some(near)], &viewer, 64);
    assert_eq!(px(&fb, 5, 0), Color::new(60, 60, 60, 255));
    assert_eq!(px(&fb, 5, H - 1), Color::new(80, 80, 80, 255));
    assert_eq!(px(&fb, 30, 0), Color::new(180, 50, 50, 255));
}

#[test]
fn empty_wall_texture_set_selects_slot_zero() {
    let wr = WallRenderer::new_untextured(W, H);
    let ray = Ray::new(64, Vec2::new(0, 0), '3', Side::Horizontal, 0, 0);
    assert_eq!(wr.get_texture_index(&ray), 0);
}

#[test]
fn dead_enemies_are_drawn_as_corpses() {
    let mut texs: Vec<Texture> = (0..10u8).map(|i| solid(Color::new(i, 100, 0, 255))).collect();
    texs[7] = solid(Color::new(7, 7, 7, 255));
    let r = SpriteRenderer::new(W, H, vec![], texs);
    let player = Player::new(Vec2::new(0, 0), Vec2::new(DIR_SCALE, 0));
    let mut corpse = Enemy::new_rat(Vec2::new(100, 0));
    corpse.take_damage(100);
    let mut fb = Framebuffer::new(W, H, BLACK);
    r.render_enemies(&mut fb, &vec![corpse], &player, &far_wall_rays(W, 1000), 64);
    assert_eq!(px(&fb, 20, 10), Color::new(7, 7, 7, 255));
}

#[test]
fn sprites_centre_on_the_view_not_the_framebuffer() {
    let red = Color::new(200, 0, 0, 255);
    let r = SpriteRenderer::new(W, H, vec![solid(red)], vec![]);
    let player = Player::new(Vec2::new(0, 0), Vec2::new(DIR_SCALE, 0));
    let mut fb = Framebuffer::new(W, H + 10, BLACK);
    r.render_sprites(&mut fb, &vec![Sprite::new(Vec2::new(100, 0), 0)], &player, &far_wall_rays(W, 1000), 64);
    // Height 12 centred on row 10 of the 20-row view: rows 4..16.
    assert_eq!(px(&fb, 20, 4), red);
    assert_eq!(px(&fb, 20, 15), red);
    assert_eq!(px(&fb, 20, 16), BLACK);
    assert_eq!(px(&fb, 20, 25), BLACK);
}
