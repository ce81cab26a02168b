use vstd::prelude::*;
use crate::geometry::{COORD_LIMIT, floor_div_wide};
use crate::ray::{Ray, Side};
use crate::player::Player;
use crate::framebuffer::{Color, Texture, Framebuffer, MAX_SIDE, lemma_index_in_bounds};

verus! {

/// Draws the walls of the 3D view from one frame's rays: one vertical strip
/// per ray, textured by wall type and shaded by the face struck.
pub struct WallRenderer {
    pub screen_width: usize,
    pub screen_height: usize,
    /// Bright variants first, one per wall type, then the dark variants in
    /// the same order.
    pub textures: Vec<Texture>,
}

pub open spec fn textures_ok(ts: Seq<Texture>) -> bool {
    forall|i: int| 0 <= i < ts.len() ==> (#[trigger] ts[i]).wf() && ts[i].width > 0 && ts[i].height
        > 0
}

/// The material slot of a wall character.
pub open spec fn base_texture(wall_type: char) -> int {
    if wall_type == '2' {
        1
    } else if wall_type == '3' {
        2
    } else if wall_type == '4' {
        3
    } else {
        0
    }
}

/// Texture for a ray: its material, in the dark variant on horizontal faces,
/// limited to the textures there are.
pub open spec fn texture_slot(ray: Ray, count: int) -> int {
    let t = base_texture(ray.wall_type) + if ray.side_hit == Side::Horizontal { 4int } else { 0 };
    let last = if count > 0 { count - 1 } else { 0 };
    if t > last { last } else { t }
}

/// `a` modulo `b > 0`, in `[0, b)`.
pub open spec fn floor_mod(a: int, b: int) -> int {
    a - (a / b) * b
}

/// Texture column for a ray: where along the struck face it landed, scaled to
/// the texture width, mirrored on vertical faces.
pub open spec fn texture_column(ray: Ray, b: int, tw: int) -> int {
    let along = if ray.side_hit == Side::Vertical { ray.hit_point.y as int } else { ray.hit_point.x as int };
    let t = floor_mod(along, b) * tw / b;
    let u = if ray.side_hit == Side::Vertical { tw - t - 1 } else { t };
    if u < 0 { 0 } else if u > tw - 1 { tw - 1 } else { u }
}

/// Flat colour of a wall when there are no textures.
pub open spec fn flat_color(ray: Ray) -> Color {
    let base = if ray.wall_type == '1' {
        Color { r: 180, g: 50, b: 50, a: 255 }
    } else if ray.wall_type == '2' {
        Color { r: 50, g: 180, b: 50, a: 255 }
    } else if ray.wall_type == '3' {
        Color { r: 50, g: 50, b: 180, a: 255 }
    } else if ray.wall_type == '4' {
        Color { r: 180, g: 180, b: 50, a: 255 }
    } else {
        Color { r: 128, g: 128, b: 128, a: 255 }
    };
    if ray.side_hit == Side::Horizontal {
        Color { r: (base.r / 2) as u8, g: (base.g / 2) as u8, b: (base.b / 2) as u8, a: base.a }
    } else {
        base
    }
}

/// On-screen wall height for a ray: inversely proportional to distance.
pub open spec fn wall_height(sh: int, b: int, distance: int) -> int {
    sh * b / distance
}

pub open spec fn wall_top(sh: int, b: int, distance: int) -> int {
    sh / 2 - wall_height(sh, b, distance) / 2
}

pub open spec fn wall_bottom(sh: int, b: int, distance: int) -> int {
    sh / 2 + wall_height(sh, b, distance) / 2
}

/// First and one-past-last screen column of strip `i` of `n`.
pub open spec fn strip_start(i: int, n: int, sw: int) -> int {
    i * sw / n
}

pub open spec fn strip_end(i: int, n: int, sw: int) -> int {
    ((i + 1) * sw + n - 1) / n
}

/// What strip `i` of `n`, drawn for `ray`, paints at `(x, y)`, if anything.
pub open spec fn wall_pixel(
    textures: Seq<Texture>,
    sw: int,
    sh: int,
    b: int,
    ray: Ray,
    i: int,
    n: int,
    x: int,
    y: int,
) -> Option<Color> {
    let top = wall_top(sh, b, ray.distance as int);
    let bottom = wall_bottom(sh, b, ray.distance as int);
    if ray.distance <= 0 {
        None
    } else if !(strip_start(i, n, sw) <= x < strip_end(i, n, sw) && 0 <= x < sw && 0 <= y < sh && top
        <= y < bottom) {
        None
    } else if textures.len() == 0 {
        Some(flat_color(ray))
    } else {
        let t = textures[texture_slot(ray, textures.len() as int)];
        let tx = texture_column(ray, b, t.width as int);
        let v = (y - top) * t.height / (bottom - top);
        let ty = if v > t.height - 1 { t.height - 1 } else { v };
        Some(t.texel(tx, ty))
    }
}

/// What column slot `i` of `n` paints at `(x, y)`: its wall strip, or nothing
/// where the column's ray met no wall (the floor and ceiling show).
pub open spec fn column_pixel(
    textures: Seq<Texture>,
    sw: int,
    sh: int,
    b: int,
    slot: Option<Ray>,
    i: int,
    n: int,
    x: int,
    y: int,
) -> Option<Color> {
    match slot {
        Some(ray) => wall_pixel(textures, sw, sh, b, ray, i, n, x, y),
        None => None,
    }
}

/// The colour at `(x, y)` after the strips of `rays` are drawn in order over
/// `base`; strip `i` stands for `rays[i]`, of `n` strips.
pub open spec fn walls_painted(
    base: Color,
    textures: Seq<Texture>,
    sw: int,
    sh: int,
    b: int,
    rays: Seq<Option<Ray>>,
    n: int,
    x: int,
    y: int,
) -> Color
    decreases rays.len(),
{
    if rays.len() == 0 {
        base
    } else {
        match column_pixel(textures, sw, sh, b, rays.last(), rays.len() - 1, n, x, y) {
            Some(c) => c,
            None => walls_painted(base, textures, sw, sh, b, rays.drop_last(), n, x, y),
        }
    }
}

/// `a` modulo `b > 0`, in `[0, b)`.
fn mod_floor(a: i64, b: i64) -> (r: i64)
    requires
        b > 0,
    ensures
        r == floor_mod(a as int, b as int),
        0 <= r < b,
{
    let q = floor_div_wide(a as i128, b as i128);
    proof {
        vstd::arithmetic::div_mod::lemma_fundamental_div_mod(a as int, b as int);
        vstd::arithmetic::div_mod::lemma_mod_bound(a as int, b as int);
        assert(q * b == b * q) by (nonlinear_arith);
    }
    (a as i128 - q * b as i128) as i64
}

impl WallRenderer {
    pub open spec fn wf(&self) -> bool {
        &&& 0 < self.screen_width <= MAX_SIDE
        &&& 0 < self.screen_height <= MAX_SIDE
        &&& textures_ok(self.textures@)
    }

    /// A renderer that draws textured walls; `textures` holds the bright
    /// variants of the four materials, then their dark variants.
    pub fn new(screen_width: usize, screen_height: usize, textures: Vec<Texture>) -> (r: WallRenderer)
        ensures
            r.screen_width == screen_width,
            r.screen_height == screen_height,
            r.textures@ == textures@,
    {
        WallRenderer { screen_width, screen_height, textures }
    }

    /// A renderer that draws flat-coloured walls.
    pub fn new_untextured(screen_width: usize, screen_height: usize) -> (r: WallRenderer)
        ensures
            r.screen_width == screen_width,
            r.screen_height == screen_height,
            r.textures@.len() == 0,
    {
        WallRenderer { screen_width, screen_height, textures: Vec::new() }
    }

    /// The texture slot for `ray`: material, dark on horizontal faces.
    pub fn get_texture_index(&self, ray: &Ray) -> (r: usize)
        ensures
            r == texture_slot(*ray, self.textures@.len() as int),
    {
        let base: usize = match ray.wall_type {
            '1' => 0,
            '2' => 1,
            '3' => 2,
            '4' => 3,
            _ => 0,
        };
        let t = match ray.side_hit {
            Side::Vertical => base,
            Side::Horizontal => base + 4,
        };
        let last = if self.textures.len() > 0 { self.textures.len() - 1 } else { 0 };
        if t > last {
            last
        } else {
            t
        }
    }

    /// The texture column for `ray` in a texture `texture_width` wide.
    pub fn calculate_texture_x(&self, ray: &Ray, block_size: usize, texture_width: usize) -> (r: usize)
        requires
            0 < block_size <= COORD_LIMIT,
            0 < texture_width <= MAX_SIDE,
        ensures
            r == texture_column(*ray, block_size as int, texture_width as int),
    {
        let b = block_size as i64;
        let along = match ray.side_hit {
            Side::Vertical => ray.hit_point.y,
            Side::Horizontal => ray.hit_point.x,
        };
        let frac = mod_floor(along, b);
        let tw = texture_width as i64;
        assert(0 <= frac * tw <= COORD_LIMIT * MAX_SIDE) by (nonlinear_arith)
            requires
                0 <= frac < b,
                b <= COORD_LIMIT,
                0 < tw <= MAX_SIDE,
        ;
        let t = (frac as u64 * tw as u64 / b as u64) as i64;
        let u = match ray.side_hit {
            Side::Vertical => tw - t - 1,
            Side::Horizontal => t,
        };
        let v = if u < 0 {
            0
        } else if u > tw - 1 {
            tw - 1
        } else {
            u
        };
        v as usize
    }

    /// The flat colour of `ray`'s wall: its material's colour, halved on
    /// horizontal faces.
    pub fn wall_color(&self, ray: &Ray) -> (r: Color)
        ensures
            r == flat_color(*ray),
    {
        let base = match ray.wall_type {
            '1' => Color { r: 180, g: 50, b: 50, a: 255 },
            '2' => Color { r: 50, g: 180, b: 50, a: 255 },
            '3' => Color { r: 50, g: 50, b: 180, a: 255 },
            '4' => Color { r: 180, g: 180, b: 50, a: 255 },
            _ => Color { r: 128, g: 128, b: 128, a: 255 },
        };
        match ray.side_hit {
            Side::Vertical => base,
            Side::Horizontal => Color { r: base.r / 2, g: base.g / 2, b: base.b / 2, a: base.a },
        }
    }
}

/// The colour of the ceiling and of the floor.
pub open spec fn ceiling_color() -> Color {
    Color { r: 60, g: 60, b: 60, a: 255 }
}

pub open spec fn floor_color() -> Color {
    Color { r: 80, g: 80, b: 80, a: 255 }
}

/// `c` where something is painted, else `base`.
pub open spec fn or_keep(c: Option<Color>, base: Color) -> Color {
    match c {
        Some(c) => c,
        None => base,
    }
}

impl WallRenderer {
    /// What strip `i` of `n` drawn for `ray` paints at `(x, y)` on this
    /// renderer's screen.
    pub open spec fn strip_pixel(&self, ray: Ray, i: int, n: int, b: int, x: int, y: int) -> Option<Color> {
        wall_pixel(
            self.textures@,
            self.screen_width as int,
            self.screen_height as int,
            b,
            ray,
            i,
            n,
            x,
            y,
        )
    }
}

/// The frame's walls drawn over `before`.
pub open spec fn walls_over(
    before: Framebuffer,
    after: Framebuffer,
    textures: Seq<Texture>,
    sw: int,
    sh: int,
    b: int,
    rays: Seq<Option<Ray>>,
    n: int,
) -> bool {
    &&& after.wf()
    &&& after.width == before.width
    &&& after.height == before.height
    &&& forall|x: int, y: int|
        after.on_screen(x, y) ==> #[trigger] after.at(x, y) == walls_painted(
            before.at(x, y),
            textures,
            sw,
            sh,
            b,
            rays,
            n,
            x,
            y,
        )
}

impl WallRenderer {
    /// Draws strip `strip_index` of `num_strips` for `ray`: a vertical band
    /// whose height is inversely proportional to the ray's distance, centred
    /// on the view, textured (or flat-coloured) and shaded by face.
    pub fn render_wall_strip(
        &self,
        framebuffer: &mut Framebuffer,
        ray: &Ray,
        strip_index: usize,
        num_strips: usize,
        block_size: usize,
    )
        requires
            self.wf(),
            old(framebuffer).wf(),
            old(framebuffer).width == self.screen_width,
            old(framebuffer).height >= self.screen_height,
            num_strips > 0,
            0 < block_size <= COORD_LIMIT,
        ensures
            final(framebuffer).wf(),
            final(framebuffer).width == old(framebuffer).width,
            final(framebuffer).height == old(framebuffer).height,
            forall|x: int, y: int|
                final(framebuffer).on_screen(x, y) ==> #[trigger] final(framebuffer).at(x, y)
                    == match wall_pixel(
                    self.textures@,
                    self.screen_width as int,
                    self.screen_height as int,
                    block_size as int,
                    *ray,
                    strip_index as int,
                    num_strips as int,
                    x,
                    y,
                ) {
                    Some(c) => c,
                    None => old(framebuffer).at(x, y),
                },
    {
        let ghost orig = *framebuffer;
        let ghost sw_i = self.screen_width as int;
        let ghost sh_i = self.screen_height as int;
        if ray.distance <= 0 {
            return;
        }
        let sw = self.screen_width as i64;
        let sh = self.screen_height as i64;
        assert(0 <= sh * block_size <= MAX_SIDE * COORD_LIMIT) by (nonlinear_arith)
            requires
                0 < sh <= MAX_SIDE,
                0 < block_size <= COORD_LIMIT,
        ;
        let wh = (sh as u64 * block_size as u64 / ray.distance as u64) as i64;
        assert(wh <= sh * block_size) by {
            vstd::arithmetic::div_mod::lemma_div_is_ordered_by_denominator((sh * block_size) as int, 1, ray.distance as int);
        }
        let top = (sh as u64 / 2) as i64 - (wh as u64 / 2) as i64;
        let bottom = (sh as u64 / 2) as i64 + (wh as u64 / 2) as i64;
        assert(top == wall_top(sh_i, block_size as int, ray.distance as int));
        assert(bottom == wall_bottom(sh_i, block_size as int, ray.distance as int));
        let y0 = if top > 0 { top } else { 0 };
        let y1 = if bottom < sh { bottom } else { sh };
        assert(0 <= strip_index * sw <= (strip_index + 1) * sw <= 0x1_0000_0000_0000_0000 * MAX_SIDE) by (nonlinear_arith)
            requires
                0 <= strip_index <= 0xFFFF_FFFF_FFFF_FFFF,
                0 < sw <= MAX_SIDE,
        ;
        let ss = strip_index as u128 * sw as u128 / num_strips as u128;
        let se = ((strip_index as u128 + 1) * sw as u128 + num_strips as u128 - 1) / num_strips as u128;
        let x0: i64 = if ss < sw as u128 { ss as i64 } else { sw };
        let x1: i64 = if se < sw as u128 { se as i64 } else { sw };
        let textured = self.textures.len() > 0;
        let mut slot: usize = 0;
        let mut tex_x: usize = 0;
        if textured {
            slot = self.get_texture_index(ray);
            tex_x = self.calculate_texture_x(ray, block_size, self.textures[slot].width);
        }
        let flat = self.wall_color(ray);
        let mut y = y0;
        while y < y1
            invariant
                self.wf(),
                framebuffer.wf(),
                framebuffer.width == orig.width,
                framebuffer.height == orig.height,
                orig.width == sw,
                orig.height >= sh,
                sw_i == sw,
                sh_i == sh,
                sw_i == self.screen_width,
                sh_i == self.screen_height,
                0 < sw <= MAX_SIDE,
                0 < sh <= MAX_SIDE,
                ray.distance > 0,
                0 < block_size <= COORD_LIMIT,
                num_strips > 0,
                top == wall_top(sh_i, block_size as int, ray.distance as int),
                bottom == wall_bottom(sh_i, block_size as int, ray.distance as int),
                0 <= wh <= MAX_SIDE * COORD_LIMIT,
                top == sh / 2 - wh / 2,
                bottom == sh / 2 + wh / 2,
                y0 <= y,
                y0 == (if top > 0 { top } else { 0 }),
                y1 == (if bottom < sh { bottom } else { sh }),
                ss == strip_start(strip_index as int, num_strips as int, sw_i),
                se == strip_end(strip_index as int, num_strips as int, sw_i),
                x0 == (if ss < sw { ss as int } else { sw as int }),
                x1 == (if se < sw { se as int } else { sw as int }),
                textured == (self.textures@.len() > 0),
                textured ==> slot == texture_slot(*ray, self.textures@.len() as int),
                textured ==> tex_x == texture_column(*ray, block_size as int, self.textures@[slot as int].width as int),
                flat == flat_color(*ray),
                forall|px: int, py: int|
                    framebuffer.on_screen(px, py) ==> #[trigger] framebuffer.at(px, py) == if py < y {
                        or_keep(self.strip_pixel(*ray, strip_index as int, num_strips as int, block_size as int, px, py), orig.at(px, py))
                    } else {
                        orig.at(px, py)
                    },
            decreases y1 - y,
        {
            let color = if textured {
                let t = &self.textures[slot];
                assert(t.wf() && t.width > 0 && t.height > 0);
                assert(0 <= (y - top) * t.height <= 2 * MAX_SIDE * COORD_LIMIT * MAX_SIDE) by (nonlinear_arith)
                    requires
                        0 <= y - top <= 2 * MAX_SIDE * COORD_LIMIT,
                        0 < t.height <= MAX_SIDE,
                ;
                let v = (y - top) as u128 * t.height as u128 / (bottom - top) as u128;
                let ty: usize = if v > (t.height - 1) as u128 { t.height - 1 } else { v as usize };
                assert(tex_x < t.width);
                t.get(tex_x, ty)
            } else {
                flat
            };
            let ghost yi = y as int;
            let ghost sp = strip_start(strip_index as int, num_strips as int, sw_i);
            let ghost ep = strip_end(strip_index as int, num_strips as int, sw_i);
            assert(top <= yi < bottom && 0 <= yi < sh_i);
            assert forall|px: int| x0 <= px < x1 implies #[trigger] or_keep(self.strip_pixel(*ray, strip_index as int, num_strips as int, block_size as int, px, y as int), orig.at(px, y as int)) == color by {
                assert(sp <= px < ep && 0 <= px < sw_i);
                assert(wall_pixel(self.textures@, sw_i, sh_i, block_size as int, *ray, strip_index as int, num_strips as int, px, yi) == Some(color));
            }
            assert forall|px: int| px < x0 || px >= x1 implies #[trigger] or_keep(self.strip_pixel(*ray, strip_index as int, num_strips as int, block_size as int, px, y as int), orig.at(px, y as int)) == orig.at(
                px,
                y as int,
            ) by {
                assert(!(sp <= px < ep && 0 <= px < sw_i));
                assert(wall_pixel(self.textures@, sw_i, sh_i, block_size as int, *ray, strip_index as int, num_strips as int, px, yi) is None);
            }
            let mut x = x0;
            while x < x1
                invariant
                    forall|px: int| x0 <= px < x1 ==> #[trigger] or_keep(self.strip_pixel(*ray, strip_index as int, num_strips as int, block_size as int, px, y as int), orig.at(px, y as int)) == color,
                    forall|px: int| px < x0 || px >= x1 ==> #[trigger] or_keep(self.strip_pixel(*ray, strip_index as int, num_strips as int, block_size as int, px, y as int), orig.at(px, y as int)) == orig.at(
                        px,
                        y as int,
                    ),
                    framebuffer.wf(),
                    framebuffer.width == orig.width,
                    framebuffer.height == orig.height,
                    orig.width == sw,
                    orig.height >= sh,
                    y0 <= y < y1,
                    x0 <= x,
                    forall|px: int, py: int|
                        framebuffer.on_screen(px, py) ==> #[trigger] framebuffer.at(px, py) == if py < y
                            || (py == y && x0 <= px < x) {
                            or_keep(self.strip_pixel(*ray, strip_index as int, num_strips as int, block_size as int, px, py), orig.at(px, py))
                        } else {
                            orig.at(px, py)
                        },
                decreases x1 - x,
            {
                framebuffer.put_pixel(x, y, color);
                x = x + 1;
            }
            y = y + 1;
        }
    }
}

impl WallRenderer {
    /// Draws one strip per ray, strip `i` for `rays[i]`, across the screen.
    pub fn render_3d_view(
        &self,
        framebuffer: &mut Framebuffer,
        rays: &Vec<Option<Ray>>,
        _player: &Player,
        block_size: usize,
    )
        requires
            self.wf(),
            old(framebuffer).wf(),
            old(framebuffer).width == self.screen_width,
            old(framebuffer).height >= self.screen_height,
            0 < block_size <= COORD_LIMIT,
        ensures
            walls_over(
                *old(framebuffer),
                *final(framebuffer),
                self.textures@,
                self.screen_width as int,
                self.screen_height as int,
                block_size as int,
                rays@,
                rays@.len() as int,
            ),
    {
        let ghost orig = *framebuffer;
        let n = rays.len();
        let mut i: usize = 0;
        while i < n
            invariant
                self.wf(),
                n == rays@.len(),
                0 <= i <= n,
                framebuffer.width == self.screen_width,
                framebuffer.height >= self.screen_height,
                0 < block_size <= COORD_LIMIT,
                walls_over(
                    orig,
                    *framebuffer,
                    self.textures@,
                    self.screen_width as int,
                    self.screen_height as int,
                    block_size as int,
                    rays@.subrange(0, i as int),
                    n as int,
                ),
            decreases n - i,
        {
            let ghost before = *framebuffer;
            if let Some(ray) = &rays[i] {
                self.render_wall_strip(framebuffer, ray, i, n, block_size);
            }
            let ghost s1 = rays@.subrange(0, i + 1);
            assert(s1.drop_last() == rays@.subrange(0, i as int));
            assert(s1.last() == rays@[i as int]);
            assert forall|x: int, y: int| framebuffer.on_screen(x, y) implies #[trigger] framebuffer.at(
                x,
                y,
            ) == walls_painted(
                orig.at(x, y),
                self.textures@,
                self.screen_width as int,
                self.screen_height as int,
                block_size as int,
                s1,
                n as int,
                x,
                y,
            ) by {
                assert(before.at(x, y) == walls_painted(
                    orig.at(x, y),
                    self.textures@,
                    self.screen_width as int,
                    self.screen_height as int,
                    block_size as int,
                    rays@.subrange(0, i as int),
                    n as int,
                    x,
                    y,
                ));
            }
            i = i + 1;
        }
        assert(rays@.subrange(0, n as int) == rays@);
    }

    /// Paints the upper half of the view as ceiling and the lower half as
    /// floor.
    pub fn render_floor_ceiling(&self, framebuffer: &mut Framebuffer)
        requires
            self.wf(),
            old(framebuffer).wf(),
            old(framebuffer).width == self.screen_width,
            old(framebuffer).height >= self.screen_height,
        ensures
            final(framebuffer).wf(),
            final(framebuffer).width == old(framebuffer).width,
            final(framebuffer).height == old(framebuffer).height,
            forall|x: int, y: int|
                final(framebuffer).on_screen(x, y) ==> #[trigger] final(framebuffer).at(x, y) == if y
                    < self.screen_height / 2 {
                    ceiling_color()
                } else if y < self.screen_height {
                    floor_color()
                } else {
                    old(framebuffer).at(x, y)
                },
    {
        let ghost orig = *framebuffer;
        let sw = self.screen_width as i64;
        let sh = self.screen_height as i64;
        let half = (self.screen_height / 2) as i64;
        let mut y: i64 = 0;
        while y < sh
            invariant
                framebuffer.wf(),
                framebuffer.width == orig.width,
                framebuffer.height == orig.height,
                orig.width == sw,
                orig.height >= sh,
                sw == self.screen_width,
                sh == self.screen_height,
                half == self.screen_height / 2,
                0 <= y <= sh,
                forall|px: int, py: int|
                    framebuffer.on_screen(px, py) ==> #[trigger] framebuffer.at(px, py) == if py < y {
                        if py < half {
                            ceiling_color()
                        } else {
                            floor_color()
                        }
                    } else {
                        orig.at(px, py)
                    },
            decreases sh - y,
        {
            let color = if y < half {
                Color { r: 60, g: 60, b: 60, a: 255 }
            } else {
                Color { r: 80, g: 80, b: 80, a: 255 }
            };
            let mut x: i64 = 0;
            while x < sw
                invariant
                    framebuffer.wf(),
                    framebuffer.width == orig.width,
                    framebuffer.height == orig.height,
                    orig.width == sw,
                    0 <= x <= sw,
                    0 <= y < sh,
                    orig.height >= sh,
                    color == if y < half { ceiling_color() } else { floor_color() },
                    forall|px: int, py: int|
                        framebuffer.on_screen(px, py) ==> #[trigger] framebuffer.at(px, py) == if py < y
                            || (py == y && px < x) {
                            if py < half {
                                ceiling_color()
                            } else {
                                floor_color()
                            }
                        } else {
                            orig.at(px, py)
                        },
                decreases sw - x,
            {
                framebuffer.put_pixel(x, y, color);
                x = x + 1;
            }
            y = y + 1;
        }
    }
}

} // verus!
