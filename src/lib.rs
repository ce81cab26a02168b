//! Pseudo-3D raycasting over a tile maze: grid model, DDA raycaster, wall and
//! billboard compositing, fog of war, and the enemy state machine that shares
//! the raycaster's geometry.
//!
//! All geometry is integer: world coordinates are `i64` world units, and
//! headings are fixed-point direction vectors whose length is `DIR_SCALE`.

pub mod geometry;
pub mod grid;
pub mod player;
pub mod ray;
pub mod raycaster;
pub mod text;
pub mod sprite;
pub mod game_state;
pub mod conway;
pub mod enemy;
pub mod combat;
pub mod fog_of_war;
pub mod framebuffer;
pub mod sprite_renderer;
pub mod wall_renderer;
pub mod weapon;
pub mod weapon_renderer;
pub mod renderer;
pub mod random;
pub mod maze_generator;
