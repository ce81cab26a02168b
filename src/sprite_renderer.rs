use vstd::prelude::*;
use crate::geometry::{Vec2, DIR_SCALE, COORD_LIMIT, point_ok, dir_ok, floor_div_wide};
use crate::player::Player;
use crate::ray::Ray;
use crate::sprite::Sprite;
use crate::enemy::{Enemy, EnemyState, anim_wf};
use crate::framebuffer::{Color, Texture, Framebuffer, MAX_SIDE};

verus! {

broadcast use vstd::seq_lib::group_to_multiset_ensures;

/// Largest display scale of a billboard, in percent.
pub const MAX_SCALE: u32 = 1000;

/// How far off either screen edge a billboard's centre may project and still
/// be kept, in pixels.
pub const SCREEN_MARGIN: i64 = 100;

/// A billboard placed on screen for one frame.
#[derive(Debug, Clone, Copy, PartialEq, Eq, Structural)]
pub struct SpriteProjection {
    /// Screen column of its centre.
    pub screen_x: i64,
    /// Its depth, as `transform_y`.
    pub distance: i64,
    pub sprite_height: i64,
    pub sprite_width: i64,
    /// Which texture it shows.
    pub sprite_index: usize,
    /// Camera-space depth in world units times `DIR_SCALE`: the billboard's
    /// offset from the camera projected on the heading.
    pub transform_y: i64,
}

/// Where a billboard at `pos` lands on a `sw` by `sh` screen seen by `player`;
/// `None` behind (or within half a unit of) the camera, or too far off screen.
/// The camera plane is 0.66 of the heading's length wide on each side.
pub open spec fn projection_of(
    pos: Vec2,
    tex: usize,
    scale: int,
    player: Player,
    b: int,
    sw: int,
    sh: int,
) -> Option<SpriteProjection> {
    let sx = pos.x - player.position.x;
    let sy = pos.y - player.position.y;
    let d = player.direction;
    let dot = d.x * sx + d.y * sy;
    let cross = d.x * sy - d.y * sx;
    if 2 * dot <= DIR_SCALE {
        None
    } else {
        let screen_x = (66 * sw * dot + 100 * sw * cross) / (132 * dot);
        if screen_x < -SCREEN_MARGIN || screen_x > sw + SCREEN_MARGIN {
            None
        } else {
            let h = sh * b * DIR_SCALE * scale / (100 * dot);
            Some(
                SpriteProjection {
                    screen_x: screen_x as i64,
                    distance: dot as i64,
                    sprite_height: h as i64,
                    sprite_width: h as i64,
                    sprite_index: tex,
                    transform_y: dot as i64,
                },
            )
        }
    }
}

/// The ray that screen column `x` of a `sw`-wide screen uses as its depth,
/// among `n` rays.
pub open spec fn column_ray(x: int, sw: int, n: int) -> int {
    let ri = x * n / sw;
    if ri > n - 1 { n - 1 } else { ri }
}

/// The wall in front of column `x` is nearer than billboard `p` (with a
/// one-unit allowance): the column is hidden.
pub open spec fn occluded(p: SpriteProjection, rays: Seq<Option<Ray>>, x: int, sw: int) -> bool {
    match rays[column_ray(x, sw, rays.len() as int)] {
        Some(r) => p.transform_y >= (r.distance + 1) * DIR_SCALE,
        None => false,
    }
}

/// The chroma-key colour and anything mostly transparent are not drawn.
pub open spec fn transparent(c: Color) -> bool {
    (c.r == 0 && c.g == 255 && c.b == 255) || c.a < 128
}

pub open spec fn left_edge(p: SpriteProjection) -> int {
    p.screen_x - p.sprite_width as int / 2
}

pub open spec fn right_edge(p: SpriteProjection) -> int {
    p.screen_x + p.sprite_width as int / 2
}

pub open spec fn top_edge(p: SpriteProjection, sh: int) -> int {
    sh / 2 - p.sprite_height as int / 2
}

pub open spec fn bottom_edge(p: SpriteProjection, sh: int) -> int {
    sh / 2 + p.sprite_height as int / 2
}

/// What billboard `p` paints at pixel `(x, y)`, if anything.
pub open spec fn sprite_pixel(
    p: SpriteProjection,
    rays: Seq<Option<Ray>>,
    textures: Seq<Texture>,
    sw: int,
    sh: int,
    x: int,
    y: int,
) -> Option<Color> {
    if !(p.sprite_index < textures.len()) {
        None
    } else if !(0 <= x < sw && left_edge(p) <= x < right_edge(p) && 0 <= y < sh && top_edge(p, sh)
        <= y < bottom_edge(p, sh)) {
        None
    } else if occluded(p, rays, x, sw) {
        None
    } else {
        let t = textures[p.sprite_index as int];
        let tx = (x - left_edge(p)) * t.width / (p.sprite_width as int);
        let ty = (y - top_edge(p, sh)) * t.height / (p.sprite_height as int);
        if !(0 <= tx < t.width && 0 <= ty < t.height) {
            None
        } else if transparent(t.texel(tx, ty)) {
            None
        } else {
            Some(t.texel(tx, ty))
        }
    }
}

/// The colour at `(x, y)` after drawing `projs` in order over `base`: the
/// last billboard that paints the pixel wins.
pub open spec fn painted(
    base: Color,
    projs: Seq<SpriteProjection>,
    rays: Seq<Option<Ray>>,
    textures: Seq<Texture>,
    sw: int,
    sh: int,
    x: int,
    y: int,
) -> Color
    decreases projs.len(),
{
    if projs.len() == 0 {
        base
    } else {
        match sprite_pixel(projs.last(), rays, textures, sw, sh, x, y) {
            Some(c) => c,
            None => painted(base, projs.drop_last(), rays, textures, sw, sh, x, y),
        }
    }
}

/// Farthest first: depth never increases along the sequence.
pub open spec fn back_to_front(projs: Seq<SpriteProjection>) -> bool {
    forall|i: int, j: int|
        0 <= i < j < projs.len() ==> #[trigger] projs[i].transform_y >= #[trigger] projs[j].transform_y
}

/// A wall nearer than a billboard hides it: on a column whose ray meets a wall
/// in front of the billboard, the billboard paints no pixel.
pub proof fn lemma_occluded_column_hidden(
    p: SpriteProjection,
    rays: Seq<Option<Ray>>,
    textures: Seq<Texture>,
    sw: int,
    sh: int,
    x: int,
    y: int,
)
    requires
        occluded(p, rays, x, sw),
    ensures
        sprite_pixel(p, rays, textures, sw, sh, x, y) is None,
{
}

/// Drawing back to front leaves each pixel to the nearest billboard that
/// paints it: when billboards at depths `d1 < d2` both paint a pixel, the
/// final colour there is painted by a billboard no deeper than `d1`, never by
/// the one at `d2`.
pub proof fn lemma_nearest_painted_last(
    base: Color,
    projs: Seq<SpriteProjection>,
    rays: Seq<Option<Ray>>,
    textures: Seq<Texture>,
    sw: int,
    sh: int,
    x: int,
    y: int,
    near: int,
)
    requires
        back_to_front(projs),
        0 <= near < projs.len(),
        sprite_pixel(projs[near], rays, textures, sw, sh, x, y) is Some,
    ensures
        exists|k: int|
            #![trigger projs[k]]
            0 <= k < projs.len() && near <= k && projs[k].transform_y <= projs[near].transform_y
                && sprite_pixel(projs[k], rays, textures, sw, sh, x, y) == Some(
                painted(base, projs, rays, textures, sw, sh, x, y),
            ),
    decreases projs.len(),
{
    let last = projs.len() - 1;
    match sprite_pixel(projs.last(), rays, textures, sw, sh, x, y) {
        Some(c) => {
            assert(projs[last].transform_y <= projs[near].transform_y || last == near);
            assert(sprite_pixel(projs[last], rays, textures, sw, sh, x, y) == Some(
                painted(base, projs, rays, textures, sw, sh, x, y),
            ));
        },
        None => {
            let rest = projs.drop_last();
            assert(near < last);
            assert(rest[near] == projs[near]);
            lemma_nearest_painted_last(base, rest, rays, textures, sw, sh, x, y, near);
            let k = choose|k: int|
                #![trigger rest[k]]
                0 <= k < rest.len() && near <= k && rest[k].transform_y <= rest[near].transform_y
                    && sprite_pixel(rest[k], rays, textures, sw, sh, x, y) == Some(
                    painted(base, rest, rays, textures, sw, sh, x, y),
                );
            assert(projs[k] == rest[k]);
        },
    }
}

/// Draws billboards over walls: projects, orders back to front, and composites
/// with a per-column depth test against the frame's rays.
pub struct SpriteRenderer {
    pub screen_width: usize,
    pub screen_height: usize,
    /// Textures of decorations and pickups.
    pub textures: Vec<Texture>,
    /// Textures of enemy animation frames.
    pub enemy_textures: Vec<Texture>,
}

pub open spec fn textures_wf(ts: Seq<Texture>) -> bool {
    forall|i: int| 0 <= i < ts.len() ==> (#[trigger] ts[i]).wf()
}

/// A projection whose numbers the compositing arithmetic can hold (every
/// result of `projection_of` is one).
pub open spec fn projection_ok(p: SpriteProjection) -> bool {
    &&& -0x1_0000_0000 <= p.screen_x <= 0x1_0000_0000
    &&& 0 <= p.sprite_width <= 0x4000_0000_0000_0000
    &&& 0 <= p.sprite_height <= 0x4000_0000_0000_0000
}

/// The screen after `p` is drawn over `fb`: every pixel it paints changes.
pub open spec fn drawn_over(
    before: Framebuffer,
    after: Framebuffer,
    p: SpriteProjection,
    rays: Seq<Option<Ray>>,
    textures: Seq<Texture>,
    sw: int,
    sh: int,
) -> bool {
    &&& after.wf()
    &&& after.width == before.width
    &&& after.height == before.height
    &&& after.foreground_color == before.foreground_color
    &&& after.background_color == before.background_color
    &&& forall|x: int, y: int|
        after.on_screen(x, y) ==> #[trigger] after.at(x, y) == match sprite_pixel(
            p,
            rays,
            textures,
            sw,
            sh,
            x,
            y,
        ) {
            Some(c) => c,
            None => before.at(x, y),
        }
}

/// Draws billboard `p` onto the `view_width` by `view_height` view at the top
/// left of `fb`, testing each column against its ray.
pub fn draw_projection(
    fb: &mut Framebuffer,
    p: &SpriteProjection,
    rays: &Vec<Option<Ray>>,
    textures: &Vec<Texture>,
    view_width: usize,
    view_height: usize,
)
    requires
        old(fb).wf(),
        0 < view_width <= old(fb).width,
        0 < view_height <= old(fb).height,
        rays@.len() > 0,
        projection_ok(*p),
        textures_wf(textures@),
    ensures
        drawn_over(*old(fb), *final(fb), *p, rays@, textures@, view_width as int, view_height as int),
{
    let ghost orig = *fb;
    let ghost sw_i = view_width as int;
    let ghost sh_i = view_height as int;
    if p.sprite_index >= textures.len() {
        return;
    }
    let sw = view_width as i64;
    let sh = view_height as i64;
    let half_w = (p.sprite_width as u64 / 2) as i64;
    let half_h = (p.sprite_height as u64 / 2) as i64;
    let left = p.screen_x - half_w;
    let right = p.screen_x + half_w;
    let top = (view_height / 2) as i64 - half_h;
    let bottom = (view_height / 2) as i64 + half_h;
    assert(left == left_edge(*p) && right == right_edge(*p) && top == top_edge(*p, sh_i) && bottom
        == bottom_edge(*p, sh_i));
    let x0 = if left > 0 { left } else { 0 };
    let x1 = if right < sw { right } else { sw };
    let y0 = if top > 0 { top } else { 0 };
    let y1 = if bottom < sh { bottom } else { sh };
    let tex = &textures[p.sprite_index];
    let n = rays.len();
    let mut x = x0;
    while x < x1
        invariant
            fb.wf(),
            fb.width == orig.width,
            fb.height == orig.height,
            fb.foreground_color == orig.foreground_color,
            fb.background_color == orig.background_color,
            sw <= fb.width,
            sh <= fb.height,
            sw_i == sw,
            sh_i == sh,
            0 < sw <= MAX_SIDE,
            0 < sh <= MAX_SIDE,
            n == rays@.len(),
            n > 0,
            projection_ok(*p),
            p.sprite_index < textures@.len(),
            *tex == textures@[p.sprite_index as int],
            tex.wf(),
            left == left_edge(*p),
            right == right_edge(*p),
            top == top_edge(*p, sh_i),
            bottom == bottom_edge(*p, sh_i),
            x0 <= x,
            x0 == (if left > 0 { left } else { 0 }),
            x1 == (if right < sw { right } else { sw }),
            y0 == (if top > 0 { top } else { 0 }),
            y1 == (if bottom < sh { bottom } else { sh }),
            forall|px: int, py: int|
                fb.on_screen(px, py) ==> #[trigger] fb.at(px, py) == if px < x {
                    match sprite_pixel(*p, rays@, textures@, sw_i, sh_i, px, py) {
                        Some(c) => c,
                        None => orig.at(px, py),
                    }
                } else {
                    orig.at(px, py)
                },
        decreases x1 - x,
    {
        assert(0 <= x * n <= MAX_SIDE * n) by (nonlinear_arith)
            requires
                0 <= x < MAX_SIDE,
                n >= 0,
        ;
        let q = x as u128 * n as u128 / sw as u128;
        let mut ri: usize = if q >= n as u128 { n - 1 } else { q as usize };
        assert(ri == column_ray(x as int, sw_i, n as int));
        let hidden = match &rays[ri] {
            Some(r) => p.transform_y as i128 >= (r.distance as i128 + 1) * (DIR_SCALE as i128),
            None => false,
        };
        let ghost xi = x as int;
        if !hidden {
            assert(!occluded(*p, rays@, xi, sw_i));
            assert(0 <= (x - left) * tex.width <= 0x4000_0000_0000_0000 * MAX_SIDE) by (nonlinear_arith)
                requires
                    0 <= x - left <= 0x4000_0000_0000_0000,
                    tex.width <= MAX_SIDE,
            ;
            let tex_x_wide = (x - left) as u128 * tex.width as u128 / p.sprite_width as u128;
            if tex_x_wide < tex.width as u128 {
                let tex_x = tex_x_wide as usize;
                let mut y = y0;
                while y < y1
                    invariant
                        fb.wf(),
                        fb.width == orig.width,
                        fb.height == orig.height,
                        fb.foreground_color == orig.foreground_color,
                        fb.background_color == orig.background_color,
                        sw <= fb.width,
                        sh <= fb.height,
                        sw_i == sw,
                        sh_i == sh,
                        0 < sw <= MAX_SIDE,
                        0 < sh <= MAX_SIDE,
                        projection_ok(*p),
                        p.sprite_index < textures@.len(),
                        *tex == textures@[p.sprite_index as int],
                        tex.wf(),
                        left == left_edge(*p),
                        right == right_edge(*p),
                        top == top_edge(*p, sh_i),
                        bottom == bottom_edge(*p, sh_i),
                        x0 <= x < x1,
                        xi == x,
                        x1 == (if right < sw { right } else { sw }),
                        x0 == (if left > 0 { left } else { 0 }),
                        y0 <= y,
                        y0 == (if top > 0 { top } else { 0 }),
                        y1 == (if bottom < sh { bottom } else { sh }),
                        !occluded(*p, rays@, xi, sw_i),
                        tex_x < tex.width,
                        tex_x == (xi - left_edge(*p)) * tex.width / (p.sprite_width as int),
                        forall|px: int, py: int|
                            fb.on_screen(px, py) ==> #[trigger] fb.at(px, py) == if px < x || (px
                                == x && py < y) {
                                match sprite_pixel(*p, rays@, textures@, sw_i, sh_i, px, py) {
                                    Some(c) => c,
                                    None => orig.at(px, py),
                                }
                            } else {
                                orig.at(px, py)
                            },
                    decreases y1 - y,
                {
                    assert(0 <= (y - top) * tex.height <= 0x4000_0000_0000_0000 * MAX_SIDE)
                        by (nonlinear_arith)
                        requires
                            0 <= y - top <= 0x4000_0000_0000_0000,
                            tex.height <= MAX_SIDE,
                    ;
                    let tex_y_wide = (y - top) as u128 * tex.height as u128 / p.sprite_height as u128;
                    let ghost before = *fb;
                    if tex_y_wide < tex.height as u128 {
                        let c = tex.get(tex_x, tex_y_wide as usize);
                        if !((c.r == 0 && c.g == 255 && c.b == 255) || c.a < 128) {
                            fb.put_pixel(x, y, c);
                        }
                    }
                    y = y + 1;
                }
            }
        }
        x = x + 1;
    }
}

/// A billboard whose numbers the projection's arithmetic can hold.
pub open spec fn billboard_ok(pos: Vec2, scale: int) -> bool {
    point_ok(pos) && 0 <= scale <= MAX_SCALE
}

impl SpriteRenderer {
    pub open spec fn wf(&self) -> bool {
        &&& 0 < self.screen_width <= MAX_SIDE
        &&& 0 < self.screen_height <= MAX_SIDE
        &&& textures_wf(self.textures@)
        &&& textures_wf(self.enemy_textures@)
    }

    pub fn new(
        screen_width: usize,
        screen_height: usize,
        textures: Vec<Texture>,
        enemy_textures: Vec<Texture>,
    ) -> (r: SpriteRenderer)
        ensures
            r.screen_width == screen_width,
            r.screen_height == screen_height,
            r.textures@ == textures@,
            r.enemy_textures@ == enemy_textures@,
    {
        SpriteRenderer { screen_width, screen_height, textures, enemy_textures }
    }

    /// Places a billboard on screen (see `projection_of`).
    pub fn project_at_position(
        &self,
        position: Vec2,
        texture_index: usize,
        scale: u32,
        player: &Player,
        block_size: usize,
    ) -> (r: Option<SpriteProjection>)
        requires
            self.wf(),
            billboard_ok(position, scale as int),
            point_ok(player.position),
            dir_ok(player.direction),
            0 < block_size <= COORD_LIMIT,
        ensures
            r == projection_of(
                position,
                texture_index,
                scale as int,
                *player,
                block_size as int,
                self.screen_width as int,
                self.screen_height as int,
            ),
    {
        let sx = position.x as i128 - player.position.x as i128;
        let sy = position.y as i128 - player.position.y as i128;
        let dx = player.direction.x as i128;
        let dy = player.direction.y as i128;
        assert(-0x2000_0000_0000_0000 <= dx * sx <= 0x2000_0000_0000_0000 && -0x2000_0000_0000_0000
            <= dy * sy <= 0x2000_0000_0000_0000 && -0x2000_0000_0000_0000 <= dx * sy
            <= 0x2000_0000_0000_0000 && -0x2000_0000_0000_0000 <= dy * sx <= 0x2000_0000_0000_0000)
            by (nonlinear_arith)
            requires
                -2 * COORD_LIMIT <= sx <= 2 * COORD_LIMIT,
                -2 * COORD_LIMIT <= sy <= 2 * COORD_LIMIT,
                -DIR_SCALE <= dx <= DIR_SCALE,
                -DIR_SCALE <= dy <= DIR_SCALE,
        ;
        let dot = dx * sx + dy * sy;
        let cross = dx * sy - dy * sx;
        if 2 * dot <= DIR_SCALE as i128 {
            return None;
        }
        let sw = self.screen_width as i128;
        let sh = self.screen_height as i128;
        assert(0 < 66 * sw * dot <= 66 * 0x8000 * 0x4000_0000_0000_0000) by (nonlinear_arith)
            requires
                0 < sw <= MAX_SIDE,
                0 < dot <= 0x4000_0000_0000_0000,
        ;
        assert(-100 * 0x8000 * 0x4000_0000_0000_0000 <= 100 * sw * cross <= 100 * 0x8000
            * 0x4000_0000_0000_0000) by (nonlinear_arith)
            requires
                0 < sw <= MAX_SIDE,
                -0x4000_0000_0000_0000 <= cross <= 0x4000_0000_0000_0000,
        ;
        let screen_x = floor_div_wide(66 * sw * dot + 100 * sw * cross, 132 * dot);
        if screen_x < -(SCREEN_MARGIN as i128) || screen_x > sw + SCREEN_MARGIN as i128 {
            return None;
        }
        let b = block_size as i128;
        let sc = scale as i128;
        assert(0 <= sh * b * (DIR_SCALE as i128) * sc <= 0x8000 * COORD_LIMIT * DIR_SCALE * MAX_SCALE)
            by (nonlinear_arith)
            requires
                0 < sh <= MAX_SIDE,
                0 < b <= COORD_LIMIT,
                0 <= sc <= MAX_SCALE,
        ;
        assert(0 <= sh * b <= 0x8000 * COORD_LIMIT && 0 <= sh * b * (DIR_SCALE as i128) <= 0x8000
            * COORD_LIMIT * DIR_SCALE) by (nonlinear_arith)
            requires
                0 < sh <= MAX_SIDE,
                0 < b <= COORD_LIMIT,
        ;
        let num = sh * b * (DIR_SCALE as i128) * sc;
        let h = num / (100 * dot);
        assert(h <= 0x8000 * COORD_LIMIT * MAX_SCALE) by {
            vstd::arithmetic::div_mod::lemma_div_is_ordered_by_denominator(
                num as int,
                50 * DIR_SCALE as int,
                (100 * dot) as int,
            );
            assert(num == (sh * b * sc) * (DIR_SCALE as int)) by (nonlinear_arith)
                requires
                    num == sh * b * (DIR_SCALE as i128) * sc,
            ;
            assert(num as int / (50 * DIR_SCALE as int) <= sh * b * sc) by (nonlinear_arith)
                requires
                    num == (sh * b * sc) * (DIR_SCALE as int),
                    sh * b * sc >= 0,
            {
                vstd::arithmetic::div_mod::lemma_div_is_ordered_by_denominator(num as int, DIR_SCALE as int, 50 * DIR_SCALE as int);
                vstd::arithmetic::div_mod::lemma_div_multiples_vanish((sh * b * sc) as int, DIR_SCALE as int);
                assert(DIR_SCALE * (sh * b * sc) == (sh * b * sc) * DIR_SCALE) by (nonlinear_arith);
            }
            assert(sh * b * sc <= 0x8000 * COORD_LIMIT * MAX_SCALE) by (nonlinear_arith)
                requires
                    0 < sh <= MAX_SIDE,
                    0 < b <= COORD_LIMIT,
                    0 <= sc <= MAX_SCALE,
            ;
        }
        assert(0 <= h) by {
            vstd::arithmetic::div_mod::lemma_div_pos_is_pos(num as int, (100 * dot) as int);
        }
        Some(
            SpriteProjection {
                screen_x: screen_x as i64,
                distance: dot as i64,
                sprite_height: h as i64,
                sprite_width: h as i64,
                sprite_index: texture_index,
                transform_y: dot as i64,
            },
        )
    }

    /// Places sprite `sprite` on screen.
    pub fn project_sprite(&self, sprite: &Sprite, player: &Player, block_size: usize) -> (r: Option<
        SpriteProjection,
    >)
        requires
            self.wf(),
            billboard_ok(sprite.position, sprite.scale as int),
            point_ok(player.position),
            dir_ok(player.direction),
            0 < block_size <= COORD_LIMIT,
        ensures
            r == projection_of(
                sprite.position,
                sprite.texture_index,
                sprite.scale as int,
                *player,
                block_size as int,
                self.screen_width as int,
                self.screen_height as int,
            ),
    {
        self.project_at_position(sprite.position, sprite.texture_index, sprite.scale, player, block_size)
    }
}

/// Orders billboards farthest first; billboards of equal depth keep their
/// order.
pub fn sort_by_depth(projections: Vec<SpriteProjection>) -> (r: Vec<SpriteProjection>)
    ensures
        back_to_front(r@),
        r@.to_multiset() == projections@.to_multiset(),
{
    let mut out: Vec<SpriteProjection> = Vec::new();
    let mut i: usize = 0;
    while i < projections.len()
        invariant
            0 <= i <= projections@.len(),
            back_to_front(out@),
            out@.to_multiset() == projections@.subrange(0, i as int).to_multiset(),
        decreases projections@.len() - i,
    {
        let p = projections[i];
        let mut j: usize = 0;
        while j < out.len() && out[j].transform_y >= p.transform_y
            invariant
                0 <= j <= out@.len(),
                forall|k: int| 0 <= k < j ==> (#[trigger] out@[k]).transform_y >= p.transform_y,
            decreases out@.len() - j,
        {
            j = j + 1;
        }
        let ghost before = out@;
        out.insert(j, p);
        assert(back_to_front(out@)) by {
            assert forall|a: int, b: int| 0 <= a < b < out@.len() implies #[trigger] out@[a].transform_y
                >= #[trigger] out@[b].transform_y by {
                if j < before.len() {
                    assert(before[j as int].transform_y < p.transform_y);
                }
                if a < j && b == j {
                } else if a == j && b > j {
                    assert(out@[b] == before[b - 1]);
                    assert(before[j as int].transform_y >= before[b - 1].transform_y || b - 1 == j);
                } else if a < j && b > j {
                    assert(out@[b] == before[b - 1]);
                } else if a > j {
                    assert(out@[a] == before[a - 1] && out@[b] == before[b - 1]);
                }
            }
        }
        assert(projections@.subrange(0, i + 1) == projections@.subrange(0, i as int).push(p));
        i = i + 1;
    }
    assert(projections@.subrange(0, projections@.len() as int) == projections@);
    out
}

/// The screen after drawing `projs` in order over `before`.
pub open spec fn painted_over(
    before: Framebuffer,
    after: Framebuffer,
    projs: Seq<SpriteProjection>,
    rays: Seq<Option<Ray>>,
    textures: Seq<Texture>,
    sw: int,
    sh: int,
) -> bool {
    &&& after.wf()
    &&& after.width == before.width
    &&& after.height == before.height
    &&& forall|x: int, y: int|
        after.on_screen(x, y) ==> #[trigger] after.at(x, y) == painted(
            before.at(x, y),
            projs,
            rays,
            textures,
            sw,
            sh,
            x,
            y,
        )
}

/// Draws `projs` in order.
pub fn draw_all(
    fb: &mut Framebuffer,
    projs: &Vec<SpriteProjection>,
    rays: &Vec<Option<Ray>>,
    textures: &Vec<Texture>,
    view_width: usize,
    view_height: usize,
)
    requires
        old(fb).wf(),
        0 < view_width <= old(fb).width,
        0 < view_height <= old(fb).height,
        rays@.len() > 0,
        forall|i: int| 0 <= i < projs@.len() ==> projection_ok(#[trigger] projs@[i]),
        textures_wf(textures@),
    ensures
        painted_over(*old(fb), *final(fb), projs@, rays@, textures@, view_width as int, view_height as int),
{
    let ghost orig = *fb;
    let mut i: usize = 0;
    while i < projs.len()
        invariant
            0 <= i <= projs@.len(),
            fb.wf(),
            fb.width == orig.width,
            fb.height == orig.height,
            0 < view_width <= fb.width,
            0 < view_height <= fb.height,
            rays@.len() > 0,
            forall|k: int| 0 <= k < projs@.len() ==> projection_ok(#[trigger] projs@[k]),
            textures_wf(textures@),
            painted_over(orig, *fb, projs@.subrange(0, i as int), rays@, textures@, view_width as int, view_height as int),
        decreases projs@.len() - i,
    {
        let ghost before = *fb;
        draw_projection(fb, &projs[i], rays, textures, view_width, view_height);
        assert(projs@.subrange(0, i + 1).drop_last() == projs@.subrange(0, i as int));
        assert(projs@.subrange(0, i + 1).last() == projs@[i as int]);
        assert forall|x: int, y: int| fb.on_screen(x, y) implies #[trigger] fb.at(x, y) == painted(
            orig.at(x, y),
            projs@.subrange(0, i + 1),
            rays@,
            textures@,
            view_width as int,
            view_height as int,
            x,
            y,
        ) by {
            assert(before.at(x, y) == painted(
                orig.at(x, y),
                projs@.subrange(0, i as int),
                rays@,
                textures@,
                view_width as int,
                view_height as int,
                x,
                y,
            ));
        }
        i = i + 1;
    }
    assert(projs@.subrange(0, projs@.len() as int) == projs@);
}

/// The projections of the active sprites, in collection order.
pub open spec fn sprite_projections(
    sprites: Seq<Sprite>,
    player: Player,
    b: int,
    sw: int,
    sh: int,
) -> Seq<SpriteProjection>
    decreases sprites.len(),
{
    if sprites.len() == 0 {
        Seq::empty()
    } else {
        let rest = sprite_projections(sprites.drop_last(), player, b, sw, sh);
        let s = sprites.last();
        if !s.active {
            rest
        } else {
            match projection_of(s.position, s.texture_index, s.scale as int, player, b, sw, sh) {
                Some(p) => rest.push(p),
                None => rest,
            }
        }
    }
}

/// The projections of all enemies, in collection order: the living and the
/// dead, whose corpses show their death-animation frame.
pub open spec fn enemy_projections(
    enemies: Seq<Enemy>,
    player: Player,
    b: int,
    sw: int,
    sh: int,
) -> Seq<SpriteProjection>
    decreases enemies.len(),
{
    if enemies.len() == 0 {
        Seq::empty()
    } else {
        let rest = enemy_projections(enemies.drop_last(), player, b, sw, sh);
        let e = enemies.last();
        match projection_of(
            e.position,
            (e.animation.base_index + e.animation.frame_index) as usize,
            e.scale as int,
            player,
            b,
            sw,
            sh,
        ) {
            Some(p) => rest.push(p),
            None => rest,
        }
    }
}

/// Results of `projection_of` fit the compositing arithmetic.
proof fn lemma_projection_ok(
    pos: Vec2,
    tex: usize,
    scale: int,
    player: Player,
    b: int,
    sw: int,
    sh: int,
)
    requires
        billboard_ok(pos, scale),
        point_ok(player.position),
        dir_ok(player.direction),
        0 < b <= COORD_LIMIT,
        0 < sw <= MAX_SIDE,
        0 < sh <= MAX_SIDE,
    ensures
        projection_of(pos, tex, scale, player, b, sw, sh) matches Some(p) ==> projection_ok(p),
{
    let sx = pos.x - player.position.x;
    let sy = pos.y - player.position.y;
    let d = player.direction;
    let dot = d.x * sx + d.y * sy;
    if 2 * dot > DIR_SCALE {
        let num = sh * b * DIR_SCALE * scale;
        assert(num == (sh * b * scale) * DIR_SCALE) by (nonlinear_arith)
            requires
                num == sh * b * DIR_SCALE * scale,
        ;
        assert(0 <= sh * b * scale <= 0x8000 * COORD_LIMIT * MAX_SCALE) by (nonlinear_arith)
            requires
                0 < sh <= MAX_SIDE,
                0 < b <= COORD_LIMIT,
                0 <= scale <= MAX_SCALE,
        ;
        assert(0 <= num / (100 * dot) <= sh * b * scale) by {
            vstd::arithmetic::div_mod::lemma_div_is_ordered_by_denominator(num, DIR_SCALE as int, 100 * dot);
            vstd::arithmetic::div_mod::lemma_div_multiples_vanish(sh * b * scale, DIR_SCALE as int);
            assert(DIR_SCALE * (sh * b * scale) == (sh * b * scale) * DIR_SCALE) by (nonlinear_arith);
            vstd::arithmetic::div_mod::lemma_div_pos_is_pos(num, 100 * dot);
        }
    }
}

impl SpriteRenderer {
    /// Draws one decoration or pickup billboard.
    pub fn render_sprite_projection(
        &self,
        framebuffer: &mut Framebuffer,
        _sprite: &Sprite,
        projection: &SpriteProjection,
        rays: &Vec<Option<Ray>>,
    )
        requires
            self.wf(),
            old(framebuffer).wf(),
            self.screen_width <= old(framebuffer).width,
            self.screen_height <= old(framebuffer).height,
            rays@.len() > 0,
            projection_ok(*projection),
        ensures
            drawn_over(
                *old(framebuffer),
                *final(framebuffer),
                *projection,
                rays@,
                self.textures@,
                self.screen_width as int,
                self.screen_height as int,
            ),
    {
        draw_projection(framebuffer, projection, rays, &self.textures, self.screen_width, self.screen_height);
    }

    /// Draws one enemy billboard.
    pub fn render_projection_direct(&self, framebuffer: &mut Framebuffer, projection: &SpriteProjection, rays: &Vec<Option<Ray>>)
        requires
            self.wf(),
            old(framebuffer).wf(),
            self.screen_width <= old(framebuffer).width,
            self.screen_height <= old(framebuffer).height,
            rays@.len() > 0,
            projection_ok(*projection),
        ensures
            drawn_over(
                *old(framebuffer),
                *final(framebuffer),
                *projection,
                rays@,
                self.enemy_textures@,
                self.screen_width as int,
                self.screen_height as int,
            ),
    {
        draw_projection(framebuffer, projection, rays, &self.enemy_textures, self.screen_width, self.screen_height);
    }

    /// Draws the active sprites farthest first, each column tested against
    /// the frame's rays. With no rays nothing is drawn.
    pub fn render_sprites(
        &self,
        framebuffer: &mut Framebuffer,
        sprites: &Vec<Sprite>,
        player: &Player,
        rays: &Vec<Option<Ray>>,
        block_size: usize,
    )
        requires
            self.wf(),
            old(framebuffer).wf(),
            self.screen_width <= old(framebuffer).width,
            self.screen_height <= old(framebuffer).height,
            forall|i: int|
                0 <= i < sprites@.len() ==> billboard_ok(
                    #[trigger] sprites@[i].position,
                    sprites@[i].scale as int,
                ),
            point_ok(player.position),
            dir_ok(player.direction),
            0 < block_size <= COORD_LIMIT,
        ensures
            rays@.len() == 0 ==> *final(framebuffer) == *old(framebuffer),
            rays@.len() > 0 ==> exists|order: Seq<SpriteProjection>|
                {
                    &&& back_to_front(order)
                    &&& order.to_multiset() == sprite_projections(
                        sprites@,
                        *player,
                        block_size as int,
                        self.screen_width as int,
                        self.screen_height as int,
                    ).to_multiset()
                    &&& painted_over(
                        *old(framebuffer),
                        *final(framebuffer),
                        order,
                        rays@,
                        self.textures@,
                        self.screen_width as int,
                        self.screen_height as int,
                    )
                },
    {
        if rays.len() == 0 {
            return;
        }
        let ghost sw = self.screen_width as int;
        let ghost sh = self.screen_height as int;
        let mut projections: Vec<SpriteProjection> = Vec::new();
        let mut i: usize = 0;
        while i < sprites.len()
            invariant
                self.wf(),
                0 <= i <= sprites@.len(),
                sw == self.screen_width,
                sh == self.screen_height,
                forall|k: int|
                    0 <= k < sprites@.len() ==> billboard_ok(
                        #[trigger] sprites@[k].position,
                        sprites@[k].scale as int,
                    ),
                point_ok(player.position),
                dir_ok(player.direction),
                0 < block_size <= COORD_LIMIT,
                projections@ == sprite_projections(sprites@.subrange(0, i as int), *player, block_size as int, sw, sh),
                forall|k: int| 0 <= k < projections@.len() ==> projection_ok(#[trigger] projections@[k]),
            decreases sprites@.len() - i,
        {
            assert(sprites@.subrange(0, i + 1).drop_last() == sprites@.subrange(0, i as int));
            assert(sprites@.subrange(0, i + 1).last() == sprites@[i as int]);
            let s = &sprites[i];
            assert(billboard_ok(sprites@[i as int].position, sprites@[i as int].scale as int));
            if s.is_active() {
                proof {
                    lemma_projection_ok(s.position, s.texture_index, s.scale as int, *player, block_size as int, sw, sh);
                }
                if let Some(proj) = self.project_sprite(s, player, block_size) {
                    projections.push(proj);
                }
            }
            i = i + 1;
        }
        assert(sprites@.subrange(0, sprites@.len() as int) == sprites@);
        let ghost unsorted = projections@;
        let order = sort_by_depth(projections);
        assert forall|k: int| 0 <= k < order@.len() implies projection_ok(#[trigger] order@[k]) by {
            assert(order@.to_multiset().count(order@[k]) > 0);
            assert(unsorted.to_multiset().count(order@[k]) > 0);
            assert(unsorted.contains(order@[k]));
        }
        draw_all(framebuffer, &order, rays, &self.textures, self.screen_width, self.screen_height);
    }

    /// Draws every enemy, living or dead (a corpse shows its death frame),
    /// farthest first, each column tested against the
    /// frame's rays. With no rays nothing is drawn.
    pub fn render_enemies(
        &self,
        framebuffer: &mut Framebuffer,
        enemies: &Vec<Enemy>,
        player: &Player,
        rays: &Vec<Option<Ray>>,
        block_size: usize,
    )
        requires
            self.wf(),
            old(framebuffer).wf(),
            self.screen_width <= old(framebuffer).width,
            self.screen_height <= old(framebuffer).height,
            forall|i: int|
                0 <= i < enemies@.len() ==> billboard_ok(
                    #[trigger] enemies@[i].position,
                    enemies@[i].scale as int,
                ) && anim_wf(enemies@[i].animation),
            point_ok(player.position),
            dir_ok(player.direction),
            0 < block_size <= COORD_LIMIT,
        ensures
            rays@.len() == 0 ==> *final(framebuffer) == *old(framebuffer),
            rays@.len() > 0 ==> exists|order: Seq<SpriteProjection>|
                {
                    &&& back_to_front(order)
                    &&& order.to_multiset() == enemy_projections(
                        enemies@,
                        *player,
                        block_size as int,
                        self.screen_width as int,
                        self.screen_height as int,
                    ).to_multiset()
                    &&& painted_over(
                        *old(framebuffer),
                        *final(framebuffer),
                        order,
                        rays@,
                        self.enemy_textures@,
                        self.screen_width as int,
                        self.screen_height as int,
                    )
                },
    {
        if rays.len() == 0 {
            return;
        }
        let ghost sw = self.screen_width as int;
        let ghost sh = self.screen_height as int;
        let mut projections: Vec<SpriteProjection> = Vec::new();
        let mut i: usize = 0;
        while i < enemies.len()
            invariant
                self.wf(),
                0 <= i <= enemies@.len(),
                sw == self.screen_width,
                sh == self.screen_height,
                forall|k: int|
                    0 <= k < enemies@.len() ==> billboard_ok(
                        #[trigger] enemies@[k].position,
                        enemies@[k].scale as int,
                    ) && anim_wf(enemies@[k].animation),
                point_ok(player.position),
                dir_ok(player.direction),
                0 < block_size <= COORD_LIMIT,
                projections@ == enemy_projections(enemies@.subrange(0, i as int), *player, block_size as int, sw, sh),
                forall|k: int| 0 <= k < projections@.len() ==> projection_ok(#[trigger] projections@[k]),
            decreases enemies@.len() - i,
        {
            assert(enemies@.subrange(0, i + 1).drop_last() == enemies@.subrange(0, i as int));
            assert(enemies@.subrange(0, i + 1).last() == enemies@[i as int]);
            let e = &enemies[i];
            assert(billboard_ok(enemies@[i as int].position, enemies@[i as int].scale as int));
            let tex = e.texture_index();
            proof {
                lemma_projection_ok(e.position, tex, e.scale as int, *player, block_size as int, sw, sh);
            }
            if let Some(proj) = self.project_at_position(e.position, tex, e.scale, player, block_size) {
                projections.push(proj);
            }
            i = i + 1;
        }
        assert(enemies@.subrange(0, enemies@.len() as int) == enemies@);
        let ghost unsorted = projections@;
        let order = sort_by_depth(projections);
        assert forall|k: int| 0 <= k < order@.len() implies projection_ok(#[trigger] order@[k]) by {
            assert(order@.to_multiset().count(order@[k]) > 0);
            assert(unsorted.to_multiset().count(order@[k]) > 0);
            assert(unsorted.contains(order@[k]));
        }
        draw_all(framebuffer, &order, rays, &self.enemy_textures, self.screen_width, self.screen_height);
    }
}

} // verus!
