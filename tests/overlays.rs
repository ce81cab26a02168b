use maze_raycaster::conway::{Cell, Matrix};
use maze_raycaster::enemy::Enemy;
use maze_raycaster::fog_of_war::FogOfWar;
use maze_raycaster::framebuffer::{Color, Framebuffer, Texture};
use maze_raycaster::geometry::{Vec2, DIR_SCALE};
use maze_raycaster::player::Player;
use maze_raycaster::renderer::{fill_rect, Renderer};
use maze_raycaster::sprite::Sprite;
use maze_raycaster::weapon::Weapon;
use maze_raycaster::weapon_renderer::WeaponRenderer;

const BLACK: Color = Color { r: 0, g: 0, b: 0, a: 255 };

fn px(fb: &Framebuffer, x: usize, y: usize) -> Color {
    fb.pixels[y * fb.width() + x]
}

#[test]
fn matrix_text_lists_rows() {
    let mut m = Matrix::new(2, 2);
    m.set_cell(0, 0, Cell::Alive);
    m.set_cell(1, 1, Cell::Alive);
    assert_eq!(m.to_string(), "\n0 X \nX 0 \n");
}

#[test]
fn weapon_is_drawn_enlarged_above_the_hud() {
    let red = Color::new(200, 0, 0, 255);
    let idle = Texture { width: 1, height: 1, pixels: vec![red] };
    let wr = WeaponRenderer::new(40, 30, vec![idle]);
    let mut fb = Framebuffer::new(40, 30, BLACK);
    wr.render_weapon(&mut fb, &Weapon::new_machine_gun(), 5);
    // An 8x8 block: columns 16..24, rows 17..25.
    assert_eq!(px(&fb, 16, 17), red);
    assert_eq!(px(&fb, 23, 24), red);
    assert_eq!(px(&fb, 15, 17), BLACK);
    assert_eq!(px(&fb, 16, 25), BLACK);
}

#[test]
fn transparent_weapon_texels_are_skipped() {
    let key = Color::new(0, 255, 255, 255);
    let wr = WeaponRenderer::new(40, 30, vec![Texture { width: 1, height: 1, pixels: vec![key] }]);
    let mut fb = Framebuffer::new(40, 30, BLACK);
    wr.render_weapon(&mut fb, &Weapon::new_machine_gun(), 5);
    assert!(fb.pixels.iter().all(|&c| c == BLACK));
}

#[test]
fn minimap_shows_explored_cells_and_player() {
    let maze: Vec<Vec<char>> = vec!["11".chars().collect(), "1 ".chars().collect()];
    let mut fog = FogOfWar::new(&maze, 64, 64);
    fog.mark_explored(0, 0);
    fog.mark_explored(1, 1);
    let player = Player::new(Vec2::new(100, 100), Vec2::new(DIR_SCALE, 0));
    let r = Renderer::new(64);
    let mut fb = Framebuffer::new(30, 30, BLACK);
    r.render_minimap(&mut fb, &maze, &fog, &player, 0, 0, 20);
    // Cells are 10 pixels: (0,0) an explored wall, (1,0) unexplored,
    // (1,1) explored floor with the player's 3-pixel marker in its corner.
    assert_eq!(px(&fb, 5, 5), Color::new(100, 50, 150, 255));
    assert_eq!(px(&fb, 15, 5), Color::new(20, 20, 20, 255));
    assert_eq!(px(&fb, 15, 15), Color::new(220, 220, 220, 255));
    assert_eq!(px(&fb, 11, 11), Color::new(253, 249, 0, 255));
    assert_eq!(px(&fb, 25, 25), BLACK);
}

#[test]
fn minimap_markers_cover_entity_cells() {
    let r = Renderer::new(64);
    let mut fb = Framebuffer::new(30, 30, BLACK);
    let mut sprites = vec![Sprite::new(Vec2::new(70, 10), 0), Sprite::new(Vec2::new(10, 70), 0)];
    sprites[1].set_active(false);
    r.render_sprites_minimap(&mut fb, &sprites, 0, 0, 8);
    assert_eq!(px(&fb, 8, 0), Color::new(255, 161, 0, 255));
    assert_eq!(px(&fb, 0, 8), BLACK);
    let mut dead = Enemy::new_rat(Vec2::new(10, 10));
    dead.take_damage(100);
    let enemies = vec![Enemy::new_rat(Vec2::new(140, 140)), dead];
    r.render_enemies_minimap(&mut fb, &enemies, 0, 0, 9);
    assert_eq!(px(&fb, 18, 18), Color::new(230, 41, 55, 255));
    assert_eq!(px(&fb, 0, 0), BLACK);
}

#[test]
fn fill_rect_clips_to_the_image() {
    let mut fb = Framebuffer::new(4, 4, BLACK);
    let c = Color::new(9, 9, 9, 255);
    fill_rect(&mut fb, -2, 2, 4, 10, c);
    assert_eq!(px(&fb, 0, 2), c);
    assert_eq!(px(&fb, 1, 3), c);
    assert_eq!(px(&fb, 2, 2), BLACK);
    assert_eq!(px(&fb, 0, 1), BLACK);
}

#[test]
fn player_marker_is_an_eleven_pixel_square() {
    let r = Renderer::new(64);
    let mut fb = Framebuffer::new(20, 20, BLACK);
    r.render_player(&mut fb, &Player::new(Vec2::new(10, 10), Vec2::new(DIR_SCALE, 0)));
    let green = Color::new(173, 255, 47, 255);
    assert_eq!(px(&fb, 5, 5), green);
    assert_eq!(px(&fb, 15, 15), green);
    assert_eq!(px(&fb, 4, 5), BLACK);
    assert_eq!(px(&fb, 16, 15), BLACK);
}

#[test]
fn top_down_view_paints_one_square_per_cell() {
    let maze: Vec<Vec<char>> = vec!["1 ".chars().collect(), "  ".chars().collect()];
    let r = Renderer::new(3);
    let mut fb = Framebuffer::new(10, 10, BLACK);
    r.render_maze(&mut fb, &maze);
    assert_eq!(px(&fb, 0, 0), Color::new(200, 122, 255, 255));
    assert_eq!(px(&fb, 2, 2), Color::new(200, 122, 255, 255));
    assert_eq!(px(&fb, 4, 0), Color::new(245, 245, 245, 255));
    assert_eq!(px(&fb, 5, 5), Color::new(245, 245, 245, 255));
    assert_eq!(px(&fb, 6, 0), BLACK);
    assert_eq!(px(&fb, 0, 6), BLACK);
}
