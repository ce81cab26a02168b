use vstd::prelude::*;
use crate::geometry::floor_div;
use crate::framebuffer::{Color, Texture, Framebuffer, MAX_SIDE};
use crate::sprite_renderer::{transparent, textures_wf};
use crate::wall_renderer::or_keep;
use crate::weapon::{Weapon, weapon_anim_wf};

verus! {

/// How many screen pixels each weapon texel covers, across and down.
pub const WEAPON_SCALE: i64 = 8;

/// Draws the weapon, enlarged, centred at the bottom of the view above the HUD.
pub struct WeaponRenderer {
    pub screen_width: i64,
    pub screen_height: i64,
    /// One texture per weapon animation frame.
    pub textures: Vec<Texture>,
}

/// Left edge of the weapon on a `sw`-wide screen.
pub open spec fn weapon_left(sw: int, t: Texture) -> int {
    (sw - t.width * WEAPON_SCALE) / 2
}

/// Top edge of the weapon on a `sh`-high screen whose HUD is `hud` high.
pub open spec fn weapon_top(sh: int, hud: int, t: Texture) -> int {
    sh - hud - t.height * WEAPON_SCALE
}

/// What the enlarged texture `t`, placed with its top-left corner at
/// `(left, top)`, paints at `(x, y)`: the covering texel unless transparent.
pub open spec fn weapon_pixel(t: Texture, left: int, top: int, x: int, y: int) -> Option<Color> {
    if left <= x < left + t.width * WEAPON_SCALE && top <= y < top + t.height * WEAPON_SCALE {
        let c = t.texel((x - left) / (WEAPON_SCALE as int), (y - top) / (WEAPON_SCALE as int));
        if transparent(c) {
            None
        } else {
            Some(c)
        }
    } else {
        None
    }
}

impl WeaponRenderer {
    pub open spec fn wf(&self) -> bool {
        &&& 0 <= self.screen_width <= MAX_SIDE
        &&& 0 <= self.screen_height <= MAX_SIDE
        &&& textures_wf(self.textures@)
    }

    pub fn new(screen_width: i64, screen_height: i64, textures: Vec<Texture>) -> (r: WeaponRenderer)
        ensures
            r.screen_width == screen_width,
            r.screen_height == screen_height,
            r.textures@ == textures@,
    {
        WeaponRenderer { screen_width, screen_height, textures }
    }

    /// Draws the weapon's current frame; nothing when that frame has no
    /// texture.
    pub fn render_weapon(&self, framebuffer: &mut Framebuffer, weapon: &Weapon, hud_height: i64)
        requires
            self.wf(),
            old(framebuffer).wf(),
            weapon_anim_wf(weapon.animation),
            0 <= hud_height <= MAX_SIDE,
        ensures
            final(framebuffer).wf(),
            final(framebuffer).width == old(framebuffer).width,
            final(framebuffer).height == old(framebuffer).height,
            forall|x: int, y: int|
                final(framebuffer).on_screen(x, y) ==> #[trigger] final(framebuffer).at(x, y) == {
                    let idx = weapon.animation.base_index + weapon.animation.frame_index;
                    if idx < self.textures@.len() {
                        let t = self.textures@[idx];
                        or_keep(
                            weapon_pixel(
                                t,
                                weapon_left(self.screen_width as int, t),
                                weapon_top(self.screen_height as int, hud_height as int, t),
                                x,
                                y,
                            ),
                            old(framebuffer).at(x, y),
                        )
                    } else {
                        old(framebuffer).at(x, y)
                    }
                },
    {
        let ghost orig = *framebuffer;
        let index = weapon.texture_index();
        if index >= self.textures.len() {
            return;
        }
        let t = &self.textures[index];
        let tw = t.width as i64;
        let th = t.height as i64;
        let left = floor_div(self.screen_width - tw * WEAPON_SCALE, 2);
        let top = self.screen_height - hud_height - th * WEAPON_SCALE;
        let right = left + tw * WEAPON_SCALE;
        let bottom = top + th * WEAPON_SCALE;
        let fw = framebuffer.width as i64;
        let fh = framebuffer.height as i64;
        let x0 = if left > 0 { left } else { 0 };
        let x1 = if right < fw { right } else { fw };
        let y0 = if top > 0 { top } else { 0 };
        let y1 = if bottom < fh { bottom } else { fh };
        let mut y = y0;
        while y < y1
            invariant
                framebuffer.wf(),
                framebuffer.width == orig.width,
                framebuffer.height == orig.height,
                fw == orig.width,
                fh == orig.height,
                t.wf(),
                tw == t.width,
                th == t.height,
                left == weapon_left(self.screen_width as int, *t),
                top == weapon_top(self.screen_height as int, hud_height as int, *t),
                right == left + tw * WEAPON_SCALE,
                bottom == top + th * WEAPON_SCALE,
                x0 == (if left > 0 { left } else { 0 }),
                x1 == (if right < fw { right } else { fw }),
                y0 <= y,
                y0 == (if top > 0 { top } else { 0 }),
                y1 == (if bottom < fh { bottom } else { fh }),
                forall|px: int, py: int|
                    framebuffer.on_screen(px, py) ==> #[trigger] framebuffer.at(px, py) == if py < y {
                        or_keep(weapon_pixel(*t, left as int, top as int, px, py), orig.at(px, py))
                    } else {
                        orig.at(px, py)
                    },
            decreases y1 - y,
        {
            let mut x = x0;
            while x < x1
                invariant
                    framebuffer.wf(),
                    framebuffer.width == orig.width,
                    framebuffer.height == orig.height,
                    fw == orig.width,
                    fh == orig.height,
                    t.wf(),
                    tw == t.width,
                    th == t.height,
                    right == left + tw * WEAPON_SCALE,
                    bottom == top + th * WEAPON_SCALE,
                    x0 == (if left > 0 { left } else { 0 }),
                    x1 == (if right < fw { right } else { fw }),
                    x0 <= x,
                    y0 <= y < y1,
                    y0 == (if top > 0 { top } else { 0 }),
                    y1 == (if bottom < fh { bottom } else { fh }),
                    forall|px: int, py: int|
                        framebuffer.on_screen(px, py) ==> #[trigger] framebuffer.at(px, py) == if py < y
                            || (py == y && px < x) {
                            or_keep(weapon_pixel(*t, left as int, top as int, px, py), orig.at(px, py))
                        } else {
                            orig.at(px, py)
                        },
                decreases x1 - x,
            {
                let tx = ((x - left) as u64 / WEAPON_SCALE as u64) as usize;
                let ty = ((y - top) as u64 / WEAPON_SCALE as u64) as usize;
                assert(tx < t.width && ty < t.height) by {
                    vstd::arithmetic::div_mod::lemma_div_is_ordered((x - left) as int, tw * WEAPON_SCALE - 1, WEAPON_SCALE as int);
                    vstd::arithmetic::div_mod::lemma_div_is_ordered((y - top) as int, th * WEAPON_SCALE - 1, WEAPON_SCALE as int);
                    vstd::arithmetic::div_mod::lemma_fundamental_div_mod(tw * WEAPON_SCALE - 1, WEAPON_SCALE as int);
                    vstd::arithmetic::div_mod::lemma_fundamental_div_mod(th * WEAPON_SCALE - 1, WEAPON_SCALE as int);
                }
                let c = t.get(tx, ty);
                if !((c.r == 0 && c.g == 255 && c.b == 255) || c.a < 128) {
                    framebuffer.put_pixel(x, y, c);
                }
                x = x + 1;
            }
            y = y + 1;
        }
    }
}

} // verus!
