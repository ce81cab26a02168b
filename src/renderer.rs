use vstd::prelude::*;
use crate::geometry::{COORD_LIMIT, point_ok};
use crate::grid::{Maze, maze_wf, maze_width, maze_height, cell, OPEN};
use crate::framebuffer::{Color, Framebuffer, MAX_SIDE};
use crate::fog_of_war::FogOfWar;
use crate::player::Player;
use crate::sprite::Sprite;
use crate::enemy::{Enemy, EnemyState};

verus! {

/// Largest minimap offset or size, in pixels.
pub const MAX_VIEWPORT: i64 = 0x10_0000;

/// Draws the top-down minimap: explored cells by kind, the rest dark, and
/// markers for the player, sprites and enemies.
pub struct Renderer {
    pub block_size: usize,
}

/// `(x, y)` lies in the `w` by `h` rectangle whose top-left corner is `(x0, y0)`.
pub open spec fn in_rect(x0: int, y0: int, w: int, h: int, x: int, y: int) -> bool {
    x0 <= x < x0 + w && y0 <= y < y0 + h
}

/// Paints the `w` by `h` rectangle at `(x0, y0)` with `color`, clipped to the
/// framebuffer.
pub fn fill_rect(framebuffer: &mut Framebuffer, x0: i64, y0: i64, w: i64, h: i64, color: Color)
    requires
        old(framebuffer).wf(),
        -2 * MAX_VIEWPORT <= x0 <= MAX_VIEWPORT,
        -2 * MAX_VIEWPORT <= y0 <= MAX_VIEWPORT,
        0 <= w <= MAX_VIEWPORT,
        0 <= h <= MAX_VIEWPORT,
    ensures
        final(framebuffer).wf(),
        final(framebuffer).width == old(framebuffer).width,
        final(framebuffer).height == old(framebuffer).height,
        forall|x: int, y: int|
            final(framebuffer).on_screen(x, y) ==> #[trigger] final(framebuffer).at(x, y) == if in_rect(
                x0 as int,
                y0 as int,
                w as int,
                h as int,
                x,
                y,
            ) {
                color
            } else {
                old(framebuffer).at(x, y)
            },
{
    let ghost orig = *framebuffer;
    let mut y = y0;
    while y < y0 + h
        invariant
            framebuffer.wf(),
            framebuffer.width == orig.width,
            framebuffer.height == orig.height,
            y0 <= y <= y0 + h,
            -2 * MAX_VIEWPORT <= x0 <= MAX_VIEWPORT,
            -2 * MAX_VIEWPORT <= y0 <= MAX_VIEWPORT,
            0 <= w <= MAX_VIEWPORT,
            0 <= h <= MAX_VIEWPORT,
            forall|px: int, py: int|
                framebuffer.on_screen(px, py) ==> #[trigger] framebuffer.at(px, py) == if in_rect(
                    x0 as int,
                    y0 as int,
                    w as int,
                    (y - y0) as int,
                    px,
                    py,
                ) {
                    color
                } else {
                    orig.at(px, py)
                },
        decreases y0 + h - y,
    {
        let mut x = x0;
        while x < x0 + w
            invariant
                framebuffer.wf(),
                framebuffer.width == orig.width,
                framebuffer.height == orig.height,
                x0 <= x <= x0 + w,
                y0 <= y < y0 + h,
                -2 * MAX_VIEWPORT <= x0 <= MAX_VIEWPORT,
                -2 * MAX_VIEWPORT <= y0 <= MAX_VIEWPORT,
                0 <= w <= MAX_VIEWPORT,
                0 <= h <= MAX_VIEWPORT,
                forall|px: int, py: int|
                    framebuffer.on_screen(px, py) ==> #[trigger] framebuffer.at(px, py) == if in_rect(
                        x0 as int,
                        y0 as int,
                        w as int,
                        (y - y0) as int,
                        px,
                        py,
                    ) || (py == y && x0 <= px < x) {
                        color
                    } else {
                        orig.at(px, py)
                    },
            decreases x0 + w - x,
        {
            framebuffer.put_pixel(x, y, color);
            x = x + 1;
        }
        y = y + 1;
    }
}

/// Minimap colour of a cell: by kind once explored, dark before.
pub open spec fn minimap_color(c: char, explored: bool) -> Color {
    if !explored {
        Color { r: 20, g: 20, b: 20, a: 255 }
    } else if c == OPEN {
        Color { r: 220, g: 220, b: 220, a: 255 }
    } else if c == 'E' {
        Color { r: 255, g: 215, b: 0, a: 255 }
    } else {
        Color { r: 100, g: 50, b: 150, a: 255 }
    }
}

/// Side of one cell on a minimap `size` pixels across.
pub open spec fn minimap_cell(m: Seq<Vec<char>>, size: int) -> int {
    let n = if maze_width(m) > maze_height(m) { maze_width(m) } else { maze_height(m) };
    size / n
}

/// What the map part of the minimap paints at `(x, y)`, if anything.
pub open spec fn map_pixel(m: Seq<Vec<char>>, fog: FogOfWar, vx: int, vy: int, cs: int, x: int, y: int) -> Option<Color> {
    if cs > 0 && in_rect(vx, vy, maze_width(m) * cs, maze_height(m) * cs, x, y) {
        let col = (x - vx) / cs;
        let row = (y - vy) / cs;
        Some(minimap_color(cell(m, col, row), fog.explored_at(col, row)))
    } else {
        None
    }
}

/// Colour of a cell in the top-down view.
pub open spec fn top_down_color(c: char) -> Color {
    if c == OPEN {
        Color { r: 245, g: 245, b: 245, a: 255 }
    } else {
        Color { r: 200, g: 122, b: 255, a: 255 }
    }
}

pub open spec fn player_marker_color() -> Color {
    Color { r: 253, g: 249, b: 0, a: 255 }
}

impl Renderer {
    pub fn new(block_size: usize) -> (r: Renderer)
        ensures
            r.block_size == block_size,
    {
        Renderer { block_size }
    }

    pub fn block_size(&self) -> (r: usize)
        ensures
            r == self.block_size,
    {
        self.block_size
    }

    pub fn set_block_size(&mut self, block_size: usize)
        ensures
            final(self).block_size == block_size,
    {
        self.block_size = block_size;
    }

    /// The grid cell holding a world coordinate, for drawing (negative
    /// coordinates count as cell 0).
    fn marker_cell(&self, coord: i64) -> (r: i64)
        requires
            0 < self.block_size,
            -COORD_LIMIT <= coord <= COORD_LIMIT,
        ensures
            r == if coord < 0 { 0 } else { coord as int / self.block_size as int },
            0 <= r <= COORD_LIMIT,
    {
        if coord < 0 {
            0
        } else {
            let q = coord as u64 / self.block_size as u64;
            assert(q <= coord) by {
                vstd::arithmetic::div_mod::lemma_div_is_ordered_by_denominator(coord as int, 1, self.block_size as int);
            }
            q as i64
        }
    }

    /// Draws the maze as seen so far and the player's marker.
    pub fn render_minimap(
        &self,
        framebuffer: &mut Framebuffer,
        maze: &Maze,
        fog_of_war: &FogOfWar,
        player: &Player,
        viewport_x: i64,
        viewport_y: i64,
        viewport_size: i64,
    )
        requires
            old(framebuffer).wf(),
            maze_wf(maze@),
            fog_of_war.wf(),
            0 < self.block_size,
            point_ok(player.position),
            -MAX_VIEWPORT <= viewport_x <= MAX_VIEWPORT,
            -MAX_VIEWPORT <= viewport_y <= MAX_VIEWPORT,
            0 <= viewport_size <= MAX_VIEWPORT,
        ensures
            final(framebuffer).wf(),
            final(framebuffer).width == old(framebuffer).width,
            final(framebuffer).height == old(framebuffer).height,
            forall|x: int, y: int|
                final(framebuffer).on_screen(x, y) ==> #[trigger] final(framebuffer).at(x, y) == {
                    let cs = minimap_cell(maze@, viewport_size as int);
                    let pgx = if player.position.x < 0 { 0 } else { player.position.x as int / self.block_size as int };
                    let pgy = if player.position.y < 0 { 0 } else { player.position.y as int / self.block_size as int };
                    if in_rect(viewport_x + pgx * cs, viewport_y + pgy * cs, cs / 3, cs / 3, x, y) {
                        player_marker_color()
                    } else {
                        match map_pixel(maze@, *fog_of_war, viewport_x as int, viewport_y as int, cs, x, y) {
                            Some(c) => c,
                            None => old(framebuffer).at(x, y),
                        }
                    }
                },
    {
        let ghost orig = *framebuffer;
        let ghost m = maze@;
        let height = maze.len();
        let width = maze[0].len();
        let n = if width > height { width } else { height };
        let cs: i64 = if n as u64 > viewport_size as u64 { 0 } else { (viewport_size as u64 / n as u64) as i64 };
        assert(cs == minimap_cell(m, viewport_size as int)) by {
            if n > viewport_size {
                vstd::arithmetic::div_mod::lemma_basic_div(viewport_size as int, n as int);
            }
        }
        let ghost vx = viewport_x as int;
        let ghost vy = viewport_y as int;
        if cs > 0 {
            assert(width * cs <= viewport_size && height * cs <= viewport_size) by (nonlinear_arith)
                requires
                    cs == viewport_size as int / (n as int),
                    width <= n,
                    height <= n,
                    n > 0,
                    cs > 0,
            {
                vstd::arithmetic::div_mod::lemma_fundamental_div_mod(viewport_size as int, n as int);
                vstd::arithmetic::div_mod::lemma_mod_pos_bound(viewport_size as int, n as int);
            }
            assert(width * cs <= MAX_VIEWPORT && height * cs <= MAX_VIEWPORT);
            let right = viewport_x + width as i64 * cs;
            let bottom = viewport_y + height as i64 * cs;
            let fw = framebuffer.width as i64;
            let fh = framebuffer.height as i64;
            let x0 = if viewport_x > 0 { viewport_x } else { 0 };
            let x1 = if right < fw { right } else { fw };
            let y0 = if viewport_y > 0 { viewport_y } else { 0 };
            let y1 = if bottom < fh { bottom } else { fh };
            let mut y = y0;
            while y < y1
                invariant
                    framebuffer.wf(),
                    framebuffer.width == orig.width,
                    framebuffer.height == orig.height,
                    fw == orig.width,
                    fh == orig.height,
                    m == maze@,
                    maze_wf(m),
                    fog_of_war.wf(),
                    width == maze_width(m),
                    height == maze_height(m),
                    cs > 0,
                    cs == minimap_cell(m, viewport_size as int),
                    vx == viewport_x,
                    vy == viewport_y,
                    -MAX_VIEWPORT <= viewport_x <= MAX_VIEWPORT,
                    -MAX_VIEWPORT <= viewport_y <= MAX_VIEWPORT,
                    0 <= fw <= MAX_SIDE,
                    0 <= fh <= MAX_SIDE,
                    width * cs <= MAX_VIEWPORT,
                    height * cs <= MAX_VIEWPORT,
                    right == viewport_x + width * cs,
                    bottom == viewport_y + height * cs,
                    x0 == (if viewport_x > 0 { viewport_x } else { 0 }),
                    x1 == (if right < fw { right } else { fw }),
                    y0 <= y,
                    y0 == (if viewport_y > 0 { viewport_y } else { 0 }),
                    y1 == (if bottom < fh { bottom } else { fh }),
                    forall|px: int, py: int|
                        framebuffer.on_screen(px, py) ==> #[trigger] framebuffer.at(px, py) == if py < y {
                            match map_pixel(m, *fog_of_war, vx, vy, cs as int, px, py) {
                                Some(c) => c,
                                None => orig.at(px, py),
                            }
                        } else {
                            orig.at(px, py)
                        },
                decreases y1 - y,
            {
                let row = ((y - viewport_y) as u64 / cs as u64) as usize;
                assert(row < height) by {
                    vstd::arithmetic::div_mod::lemma_div_is_ordered((y - viewport_y) as int, height * cs - 1, cs as int);
                    vstd::arithmetic::div_mod::lemma_fundamental_div_mod(height * cs - 1, cs as int);
                    vstd::arithmetic::div_mod::lemma_mod_pos_bound(height * cs - 1, cs as int);
                    assert(height * cs - 1 == cs * (height - 1) + (cs - 1)) by (nonlinear_arith);
                    vstd::arithmetic::div_mod::lemma_fundamental_div_mod_converse_div(height * cs - 1, cs as int, height - 1, cs - 1);
                }
                let mut x = x0;
                while x < x1
                    invariant
                        framebuffer.wf(),
                        framebuffer.width == orig.width,
                        framebuffer.height == orig.height,
                        fw == orig.width,
                        fh == orig.height,
                        m == maze@,
                        maze_wf(m),
                        fog_of_war.wf(),
                        width == maze_width(m),
                        height == maze_height(m),
                        cs > 0,
                        vx == viewport_x,
                        vy == viewport_y,
                        -MAX_VIEWPORT <= viewport_x <= MAX_VIEWPORT,
                        -MAX_VIEWPORT <= viewport_y <= MAX_VIEWPORT,
                        0 <= fw <= MAX_SIDE,
                        0 <= fh <= MAX_SIDE,
                        width * cs <= MAX_VIEWPORT,
                        height * cs <= MAX_VIEWPORT,
                        right == viewport_x + width * cs,
                        x0 == (if viewport_x > 0 { viewport_x } else { 0 }),
                        x1 == (if right < fw { right } else { fw }),
                        x0 <= x,
                        y0 <= y < y1,
                        y0 == (if viewport_y > 0 { viewport_y } else { 0 }),
                        y1 == (if bottom < fh { bottom } else { fh }),
                        bottom == viewport_y + height * cs,
                        row == (y - viewport_y) / (cs as int),
                        row < height,
                        forall|px: int, py: int|
                            framebuffer.on_screen(px, py) ==> #[trigger] framebuffer.at(px, py) == if py < y
                                || (py == y && px < x) {
                                match map_pixel(m, *fog_of_war, vx, vy, cs as int, px, py) {
                                    Some(c) => c,
                                    None => orig.at(px, py),
                                }
                            } else {
                                orig.at(px, py)
                            },
                    decreases x1 - x,
                {
                    let col = ((x - viewport_x) as u64 / cs as u64) as usize;
                    assert(col < width) by {
                        vstd::arithmetic::div_mod::lemma_div_is_ordered((x - viewport_x) as int, width * cs - 1, cs as int);
                        assert(width * cs - 1 == cs * (width - 1) + (cs - 1)) by (nonlinear_arith);
                        vstd::arithmetic::div_mod::lemma_fundamental_div_mod_converse_div(width * cs - 1, cs as int, width - 1, cs - 1);
                    }
                    let explored = fog_of_war.is_explored(col, row);
                    let c = maze[row][col];
                    let color = if !explored {
                        Color { r: 20, g: 20, b: 20, a: 255 }
                    } else if c == OPEN {
                        Color { r: 220, g: 220, b: 220, a: 255 }
                    } else if c == 'E' {
                        Color { r: 255, g: 215, b: 0, a: 255 }
                    } else {
                        Color { r: 100, g: 50, b: 150, a: 255 }
                    };
                    assert(cell(m, col as int, row as int) == c);
                    framebuffer.put_pixel(x, y, color);
                    x = x + 1;
                }
                y = y + 1;
            }
        }
        let ghost mid = *framebuffer;
        let pgx = self.marker_cell(player.position.x);
        let pgy = self.marker_cell(player.position.y);
        let marker = (cs as u64 / 3) as i64;
        assert(0 <= pgx * cs <= COORD_LIMIT * MAX_VIEWPORT && 0 <= pgy * cs <= COORD_LIMIT * MAX_VIEWPORT) by (nonlinear_arith)
            requires
                0 <= pgx <= COORD_LIMIT,
                0 <= pgy <= COORD_LIMIT,
                0 <= cs <= MAX_VIEWPORT,
        ;
        let mx = viewport_x + pgx * cs;
        let my = viewport_y + pgy * cs;
        if mx <= MAX_VIEWPORT && my <= MAX_VIEWPORT {
            fill_rect(framebuffer, mx, my, marker, marker, Color { r: 253, g: 249, b: 0, a: 255 });
        } else {
            assert forall|x: int, y: int| framebuffer.on_screen(x, y) implies !in_rect(mx as int, my as int, marker as int, marker as int, x, y) by {
                assert(x < MAX_SIDE && y < MAX_SIDE);
            }
        }
    }

    /// Draws the whole maze top-down, one `block_size` square per cell: open
    /// cells light, walls purple.
    pub fn render_maze(&self, framebuffer: &mut Framebuffer, maze: &Maze)
        requires
            old(framebuffer).wf(),
            maze_wf(maze@),
            0 < self.block_size <= MAX_VIEWPORT,
        ensures
            final(framebuffer).wf(),
            final(framebuffer).width == old(framebuffer).width,
            final(framebuffer).height == old(framebuffer).height,
            forall|x: int, y: int|
                final(framebuffer).on_screen(x, y) ==> #[trigger] final(framebuffer).at(x, y) == if x < maze_width(maze@)
                    * self.block_size && y < maze_height(maze@) * self.block_size {
                    top_down_color(cell(maze@, x / self.block_size as int, y / self.block_size as int))
                } else {
                    old(framebuffer).at(x, y)
                },
    {
        let ghost orig = *framebuffer;
        let ghost m = maze@;
        let b = self.block_size;
        let height = maze.len();
        let width = maze[0].len();
        let fw = framebuffer.width;
        let fh = framebuffer.height;
        assert(width as u128 * b as u128 <= 0x1_0000_0000_0000_0000 * MAX_VIEWPORT && height as u128 * b as u128
            <= 0x1_0000_0000_0000_0000 * MAX_VIEWPORT) by (nonlinear_arith)
            requires
                width <= 0xFFFF_FFFF_FFFF_FFFF,
                height <= 0xFFFF_FFFF_FFFF_FFFF,
                0 < b <= MAX_VIEWPORT,
        ;
        let x_end: usize = if width as u128 * b as u128 > fw as u128 { fw } else { width * b };
        let y_end: usize = if height as u128 * b as u128 > fh as u128 { fh } else { height * b };
        let mut y: usize = 0;
        while y < y_end
            invariant
                framebuffer.wf(),
                framebuffer.width == orig.width,
                framebuffer.height == orig.height,
                fw == orig.width,
                fh == orig.height,
                m == maze@,
                maze_wf(m),
                width == maze_width(m),
                height == maze_height(m),
                b == self.block_size,
                0 < b,
                x_end == (if width * b > fw { fw as int } else { width * b }),
                y_end == (if height * b > fh { fh as int } else { height * b }),
                y <= y_end,
                forall|px: int, py: int|
                    framebuffer.on_screen(px, py) ==> #[trigger] framebuffer.at(px, py) == if py < y && px < width * b
                        && py < height * b {
                        top_down_color(cell(m, px / b as int, py / b as int))
                    } else {
                        orig.at(px, py)
                    },
            decreases y_end - y,
        {
            let row = y / b;
            assert(row < height) by {
                vstd::arithmetic::div_mod::lemma_div_is_ordered(y as int, height * b - 1, b as int);
                assert(height * b - 1 == b * (height - 1) + (b - 1)) by (nonlinear_arith)
                    requires
                        height >= 1,
                ;
                vstd::arithmetic::div_mod::lemma_fundamental_div_mod_converse_div(height * b - 1, b as int, height - 1, b - 1);
            }
            let mut x: usize = 0;
            while x < x_end
                invariant
                    framebuffer.wf(),
                    framebuffer.width == orig.width,
                    framebuffer.height == orig.height,
                    fw == orig.width,
                    fh == orig.height,
                    m == maze@,
                    maze_wf(m),
                    width == maze_width(m),
                    height == maze_height(m),
                    b == self.block_size,
                    0 < b,
                    x_end == (if width * b > fw { fw as int } else { width * b }),
                    y < y_end,
                    y_end == (if height * b > fh { fh as int } else { height * b }),
                    row == y / b,
                    row < height,
                    x <= x_end,
                    forall|px: int, py: int|
                        framebuffer.on_screen(px, py) ==> #[trigger] framebuffer.at(px, py) == if (py < y || (py == y
                            && px < x)) && px < width * b && py < height * b {
                            top_down_color(cell(m, px / b as int, py / b as int))
                        } else {
                            orig.at(px, py)
                        },
                decreases x_end - x,
            {
                let col = x / b;
                assert(col < width) by {
                    vstd::arithmetic::div_mod::lemma_div_is_ordered(x as int, width * b - 1, b as int);
                    assert(width * b - 1 == b * (width - 1) + (b - 1)) by (nonlinear_arith)
                        requires
                            width >= 1,
                    ;
                    vstd::arithmetic::div_mod::lemma_fundamental_div_mod_converse_div(width * b - 1, b as int, width - 1, b - 1);
                }
                let color = if maze[row][col] == OPEN {
                    Color { r: 245, g: 245, b: 245, a: 255 }
                } else {
                    Color { r: 200, g: 122, b: 255, a: 255 }
                };
                framebuffer.put_pixel(x as i64, y as i64, color);
                x = x + 1;
            }
            y = y + 1;
        }
    }

    /// Draws the player as an 11-pixel square centred on its position, in a
    /// top-down view at one pixel per world unit.
    pub fn render_player(&self, framebuffer: &mut Framebuffer, player: &Player)
        requires
            old(framebuffer).wf(),
            -MAX_VIEWPORT <= player.position.x <= MAX_VIEWPORT,
            -MAX_VIEWPORT <= player.position.y <= MAX_VIEWPORT,
        ensures
            final(framebuffer).wf(),
            final(framebuffer).width == old(framebuffer).width,
            final(framebuffer).height == old(framebuffer).height,
            forall|x: int, y: int|
                final(framebuffer).on_screen(x, y) ==> #[trigger] final(framebuffer).at(x, y) == if in_rect(
                    player.position.x - 5,
                    player.position.y - 5,
                    11,
                    11,
                    x,
                    y,
                ) {
                    Color { r: 173, g: 255, b: 47, a: 255 }
                } else {
                    old(framebuffer).at(x, y)
                },
    {
        fill_rect(
            framebuffer,
            player.position.x - 5,
            player.position.y - 5,
            11,
            11,
            Color { r: 173, g: 255, b: 47, a: 255 },
        );
    }

    /// Marks each active sprite's cell with a small square.
    pub fn render_sprites_minimap(
        &self,
        framebuffer: &mut Framebuffer,
        sprites: &Vec<Sprite>,
        viewport_x: i64,
        viewport_y: i64,
        cell_size: i64,
    )
        requires
            old(framebuffer).wf(),
            0 < self.block_size,
            forall|i: int| 0 <= i < sprites@.len() ==> point_ok(#[trigger] sprites@[i].position),
            -MAX_VIEWPORT <= viewport_x <= MAX_VIEWPORT,
            -MAX_VIEWPORT <= viewport_y <= MAX_VIEWPORT,
            0 <= cell_size <= MAX_VIEWPORT,
        ensures
            final(framebuffer).wf(),
            final(framebuffer).width == old(framebuffer).width,
            final(framebuffer).height == old(framebuffer).height,
            forall|x: int, y: int|
                final(framebuffer).on_screen(x, y) ==> #[trigger] final(framebuffer).at(x, y) == if exists|i: int|
                    0 <= i < sprites@.len() && sprites@[i].active && #[trigger] self.marked_at(
                        sprites@[i].position.x as int,
                        sprites@[i].position.y as int,
                        viewport_x as int,
                        viewport_y as int,
                        cell_size as int,
                        cell_size / 4,
                        x,
                        y,
                    ) {
                    Color { r: 255, g: 161, b: 0, a: 255 }
                } else {
                    old(framebuffer).at(x, y)
                },
    {
        let ghost orig = *framebuffer;
        let color = Color { r: 255, g: 161, b: 0, a: 255 };
        let size = (cell_size as u64 / 4) as i64;
        let mut i: usize = 0;
        while i < sprites.len()
            invariant
                framebuffer.wf(),
                framebuffer.width == orig.width,
                framebuffer.height == orig.height,
                0 <= i <= sprites@.len(),
                0 < self.block_size,
                forall|k: int| 0 <= k < sprites@.len() ==> point_ok(#[trigger] sprites@[k].position),
                -MAX_VIEWPORT <= viewport_x <= MAX_VIEWPORT,
                -MAX_VIEWPORT <= viewport_y <= MAX_VIEWPORT,
                0 <= cell_size <= MAX_VIEWPORT,
                size == cell_size / 4,
                forall|x: int, y: int|
                    framebuffer.on_screen(x, y) ==> #[trigger] framebuffer.at(x, y) == if exists|k: int|
                        0 <= k < i && sprites@[k].active && #[trigger] self.marked_at(
                            sprites@[k].position.x as int,
                            sprites@[k].position.y as int,
                            viewport_x as int,
                            viewport_y as int,
                            cell_size as int,
                            cell_size / 4,
                            x,
                            y,
                        ) {
                        color
                    } else {
                        orig.at(x, y)
                    },
            decreases sprites@.len() - i,
        {
            let s = &sprites[i];
            let ghost pre = *framebuffer;
            if s.is_active() {
                self.draw_marker(framebuffer, s.position.x, s.position.y, viewport_x, viewport_y, cell_size, size, color);
            }
            assert forall|x: int, y: int| framebuffer.on_screen(x, y) implies #[trigger] framebuffer.at(x, y) == if exists|k: int|
                0 <= k < i + 1 && sprites@[k].active && #[trigger] self.marked_at(
                    sprites@[k].position.x as int,
                    sprites@[k].position.y as int,
                    viewport_x as int,
                    viewport_y as int,
                    cell_size as int,
                    cell_size / 4,
                    x,
                    y,
                ) {
                color
            } else {
                orig.at(x, y)
            } by {
                assert(pre.on_screen(x, y));
                if sprites@[i as int].active && self.marked_at(
                    sprites@[i as int].position.x as int,
                    sprites@[i as int].position.y as int,
                    viewport_x as int,
                    viewport_y as int,
                    cell_size as int,
                    cell_size / 4,
                    x,
                    y,
                ) {
                    assert(framebuffer.at(x, y) == color);
                }
            }
            i = i + 1;
        }
    }

    /// Marks each living enemy's cell with a small square.
    pub fn render_enemies_minimap(
        &self,
        framebuffer: &mut Framebuffer,
        enemies: &Vec<Enemy>,
        viewport_x: i64,
        viewport_y: i64,
        cell_size: i64,
    )
        requires
            old(framebuffer).wf(),
            0 < self.block_size,
            forall|i: int| 0 <= i < enemies@.len() ==> point_ok(#[trigger] enemies@[i].position),
            -MAX_VIEWPORT <= viewport_x <= MAX_VIEWPORT,
            -MAX_VIEWPORT <= viewport_y <= MAX_VIEWPORT,
            0 <= cell_size <= MAX_VIEWPORT,
        ensures
            final(framebuffer).wf(),
            final(framebuffer).width == old(framebuffer).width,
            final(framebuffer).height == old(framebuffer).height,
            forall|x: int, y: int|
                final(framebuffer).on_screen(x, y) ==> #[trigger] final(framebuffer).at(x, y) == if exists|i: int|
                    0 <= i < enemies@.len() && enemies@[i].state != EnemyState::Dead && #[trigger] self.marked_at(
                        enemies@[i].position.x as int,
                        enemies@[i].position.y as int,
                        viewport_x as int,
                        viewport_y as int,
                        cell_size as int,
                        cell_size / 3,
                        x,
                        y,
                    ) {
                    Color { r: 230, g: 41, b: 55, a: 255 }
                } else {
                    old(framebuffer).at(x, y)
                },
    {
        let ghost orig = *framebuffer;
        let color = Color { r: 230, g: 41, b: 55, a: 255 };
        let size = (cell_size as u64 / 3) as i64;
        let mut i: usize = 0;
        while i < enemies.len()
            invariant
                framebuffer.wf(),
                framebuffer.width == orig.width,
                framebuffer.height == orig.height,
                0 <= i <= enemies@.len(),
                0 < self.block_size,
                forall|k: int| 0 <= k < enemies@.len() ==> point_ok(#[trigger] enemies@[k].position),
                -MAX_VIEWPORT <= viewport_x <= MAX_VIEWPORT,
                -MAX_VIEWPORT <= viewport_y <= MAX_VIEWPORT,
                0 <= cell_size <= MAX_VIEWPORT,
                size == cell_size / 3,
                forall|x: int, y: int|
                    framebuffer.on_screen(x, y) ==> #[trigger] framebuffer.at(x, y) == if exists|k: int|
                        0 <= k < i && enemies@[k].state != EnemyState::Dead && #[trigger] self.marked_at(
                            enemies@[k].position.x as int,
                            enemies@[k].position.y as int,
                            viewport_x as int,
                            viewport_y as int,
                            cell_size as int,
                            cell_size / 3,
                            x,
                            y,
                        ) {
                        color
                    } else {
                        orig.at(x, y)
                    },
            decreases enemies@.len() - i,
        {
            let e = &enemies[i];
            let ghost pre = *framebuffer;
            if e.is_alive() {
                self.draw_marker(framebuffer, e.position.x, e.position.y, viewport_x, viewport_y, cell_size, size, color);
            }
            assert forall|x: int, y: int| framebuffer.on_screen(x, y) implies #[trigger] framebuffer.at(x, y) == if exists|k: int|
                0 <= k < i + 1 && enemies@[k].state != EnemyState::Dead && #[trigger] self.marked_at(
                    enemies@[k].position.x as int,
                    enemies@[k].position.y as int,
                    viewport_x as int,
                    viewport_y as int,
                    cell_size as int,
                    cell_size / 3,
                    x,
                    y,
                ) {
                color
            } else {
                orig.at(x, y)
            } by {
                assert(pre.on_screen(x, y));
                if enemies@[i as int].state != EnemyState::Dead && self.marked_at(
                    enemies@[i as int].position.x as int,
                    enemies@[i as int].position.y as int,
                    viewport_x as int,
                    viewport_y as int,
                    cell_size as int,
                    cell_size / 3,
                    x,
                    y,
                ) {
                    assert(framebuffer.at(x, y) == color);
                }
            }
            i = i + 1;
        }
    }

    /// Pixel `(x, y)` lies in the `size`-pixel marker of world point
    /// `(wx, wy)` on a minimap at `(vx, vy)` with `cs`-pixel cells.
    pub open spec fn marked_at(&self, wx: int, wy: int, vx: int, vy: int, cs: int, size: int, x: int, y: int) -> bool {
        let gx = if wx < 0 { 0 } else { wx / self.block_size as int };
        let gy = if wy < 0 { 0 } else { wy / self.block_size as int };
        in_rect(vx + gx * cs, vy + gy * cs, size, size, x, y)
    }

    fn draw_marker(
        &self,
        framebuffer: &mut Framebuffer,
        wx: i64,
        wy: i64,
        viewport_x: i64,
        viewport_y: i64,
        cell_size: i64,
        size: i64,
        color: Color,
    )
        requires
            old(framebuffer).wf(),
            0 < self.block_size,
            point_ok(crate::geometry::Vec2 { x: wx, y: wy }),
            -MAX_VIEWPORT <= viewport_x <= MAX_VIEWPORT,
            -MAX_VIEWPORT <= viewport_y <= MAX_VIEWPORT,
            0 <= cell_size <= MAX_VIEWPORT,
            0 <= size <= MAX_VIEWPORT,
        ensures
            final(framebuffer).wf(),
            final(framebuffer).width == old(framebuffer).width,
            final(framebuffer).height == old(framebuffer).height,
            forall|x: int, y: int|
                final(framebuffer).on_screen(x, y) ==> #[trigger] final(framebuffer).at(x, y) == if self.marked_at(
                    wx as int,
                    wy as int,
                    viewport_x as int,
                    viewport_y as int,
                    cell_size as int,
                    size as int,
                    x,
                    y,
                ) {
                    color
                } else {
                    old(framebuffer).at(x, y)
                },
    {
        let gx = self.marker_cell(wx);
        let gy = self.marker_cell(wy);
        assert(0 <= gx * cell_size <= COORD_LIMIT * MAX_VIEWPORT && 0 <= gy * cell_size <= COORD_LIMIT * MAX_VIEWPORT) by (nonlinear_arith)
            requires
                0 <= gx <= COORD_LIMIT,
                0 <= gy <= COORD_LIMIT,
                0 <= cell_size <= MAX_VIEWPORT,
        ;
        let mx = viewport_x + gx * cell_size;
        let my = viewport_y + gy * cell_size;
        if mx <= MAX_VIEWPORT && my <= MAX_VIEWPORT {
            fill_rect(framebuffer, mx, my, size, size, color);
        } else {
            assert forall|x: int, y: int| framebuffer.on_screen(x, y) implies !in_rect(mx as int, my as int, size as int, size as int, x, y) by {
                assert(x < MAX_SIDE && y < MAX_SIDE);
            }
        }
    }
}

} // verus!
