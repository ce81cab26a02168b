use vstd::prelude::*;
use crate::geometry::{Vec2, DIR_SCALE, COORD_LIMIT, point_ok, dir_ok};
use crate::grid::{Maze, maze_wf, walkable, is_walkable};
use crate::raycaster::world_fits;
use crate::enemy::lemma_walkable_in_world;

verus! {

/// The camera: a position in world units and a fixed-point heading.
#[derive(Debug, Clone, Copy, PartialEq, Eq, Structural)]
pub struct Player {
    pub position: Vec2,
    pub direction: Vec2,
}

impl Player {
    pub fn new(position: Vec2, direction: Vec2) -> (r: Player)
        ensures
            r.position == position,
            r.direction == direction,
    {
        Player { position, direction }
    }

    pub fn position(&self) -> (r: Vec2)
        ensures
            r == self.position,
    {
        self.position
    }

    /// The heading, a vector of length about `DIR_SCALE`.
    pub fn direction(&self) -> (r: Vec2)
        ensures
            r == self.direction,
    {
        self.direction
    }

    pub fn x(&self) -> (r: i64)
        ensures
            r == self.position.x,
    {
        self.position.x
    }

    pub fn y(&self) -> (r: i64)
        ensures
            r == self.position.y,
    {
        self.position.y
    }

    pub fn set_position(&mut self, position: Vec2)
        ensures
            final(self).position == position,
            final(self).direction == old(self).direction,
    {
        self.position = position;
    }

    /// Turns the camera to a new heading.
    pub fn set_direction(&mut self, direction: Vec2)
        ensures
            final(self).position == old(self).position,
            final(self).direction == direction,
    {
        self.direction = direction;
    }
}

/// A movement the player asks for, in world units.
#[derive(Debug, Clone, Copy, PartialEq, Eq, Structural)]
pub enum PlayerCommand {
    MoveForward(i64),
    MoveBackward(i64),
    StrafeLeft(i64),
    StrafeRight(i64),
}

/// Default step of a movement command, in world units.
pub const MOVE_SPEED: i64 = 7;

/// Largest step a movement command may carry, in world units.
pub const MAX_STEP: i64 = 0x1_0000_0000;

impl PlayerCommand {
    pub fn move_forward() -> (r: Self)
        ensures
            r == PlayerCommand::MoveForward(MOVE_SPEED),
    {
        PlayerCommand::MoveForward(MOVE_SPEED)
    }

    pub fn move_backward() -> (r: Self)
        ensures
            r == PlayerCommand::MoveBackward(MOVE_SPEED),
    {
        PlayerCommand::MoveBackward(MOVE_SPEED)
    }

    pub fn strafe_left() -> (r: Self)
        ensures
            r == PlayerCommand::StrafeLeft(MOVE_SPEED),
    {
        PlayerCommand::StrafeLeft(MOVE_SPEED)
    }

    pub fn strafe_right() -> (r: Self)
        ensures
            r == PlayerCommand::StrafeRight(MOVE_SPEED),
    {
        PlayerCommand::StrafeRight(MOVE_SPEED)
    }
}

/// `heading * speed`, in world units, rounded toward zero.
pub open spec fn along(component: int, speed: int) -> int {
    if component < 0 {
        -((-component) * speed / DIR_SCALE as int)
    } else {
        component * speed / DIR_SCALE as int
    }
}

/// The displacement a command asks for, given heading `d`: forward and back
/// along the heading, strafing across it (left is the heading turned a
/// quarter anticlockwise on screen, where y grows downward).
pub open spec fn command_offset(cmd: PlayerCommand, d: Vec2) -> (int, int) {
    match cmd {
        PlayerCommand::MoveForward(s) => (along(d.x as int, s as int), along(d.y as int, s as int)),
        PlayerCommand::MoveBackward(s) => (-along(d.x as int, s as int), -along(d.y as int, s as int)),
        PlayerCommand::StrafeLeft(s) => (along(d.y as int, s as int), -along(d.x as int, s as int)),
        PlayerCommand::StrafeRight(s) => (-along(d.y as int, s as int), along(d.x as int, s as int)),
    }
}

pub open spec fn command_step(cmd: PlayerCommand) -> int {
    match cmd {
        PlayerCommand::MoveForward(s) => s as int,
        PlayerCommand::MoveBackward(s) => s as int,
        PlayerCommand::StrafeLeft(s) => s as int,
        PlayerCommand::StrafeRight(s) => s as int,
    }
}

/// Where a move by `(dx, dy)` from `p` ends, sliding along walls: the full
/// move if its end is open, else the move along x alone, else along y alone,
/// else nowhere.
pub open spec fn moved_to(m: Seq<Vec<char>>, b: int, p: Vec2, dx: int, dy: int) -> Vec2 {
    if walkable(m, p.x + dx, p.y + dy, b) {
        Vec2 { x: (p.x + dx) as i64, y: (p.y + dy) as i64 }
    } else if walkable(m, p.x + dx, p.y as int, b) {
        Vec2 { x: (p.x + dx) as i64, y: p.y }
    } else if walkable(m, p.x as int, p.y + dy, b) {
        Vec2 { x: p.x, y: (p.y + dy) as i64 }
    } else {
        p
    }
}

fn along_exec(component: i64, speed: i64) -> (r: i64)
    requires
        -DIR_SCALE <= component <= DIR_SCALE,
        0 <= speed <= MAX_STEP,
    ensures
        r == along(component as int, speed as int),
        -MAX_STEP <= r <= MAX_STEP,
{
    let mag: i64 = if component < 0 { -component } else { component };
    assert(0 <= mag * speed <= DIR_SCALE * MAX_STEP) by (nonlinear_arith)
        requires
            0 <= mag <= DIR_SCALE,
            0 <= speed <= MAX_STEP,
    ;
    let q = mag * speed / DIR_SCALE;
    assert(q <= MAX_STEP) by {
        vstd::arithmetic::div_mod::lemma_div_is_ordered(mag * speed, DIR_SCALE * MAX_STEP, DIR_SCALE as int);
        vstd::arithmetic::div_mod::lemma_div_multiples_vanish(MAX_STEP as int, DIR_SCALE as int);
        assert(DIR_SCALE * MAX_STEP == MAX_STEP * DIR_SCALE) by (nonlinear_arith);
    }
    if component < 0 {
        -q
    } else {
        q
    }
}

impl Player {
    /// Moves by `(dx, dy)`, sliding along walls: the whole move if it ends in
    /// an open cell, else its x part alone, else its y part alone, else none.
    pub fn try_move(&mut self, dx: i64, dy: i64, maze: &Maze, block_size: usize)
        requires
            point_ok(old(self).position),
            -MAX_STEP <= dx <= MAX_STEP,
            -MAX_STEP <= dy <= MAX_STEP,
            maze_wf(maze@),
            block_size > 0,
            world_fits(maze@, block_size as int),
        ensures
            final(self).direction == old(self).direction,
            final(self).position == moved_to(
                maze@,
                block_size as int,
                old(self).position,
                dx as int,
                dy as int,
            ),
            point_ok(final(self).position),
    {
        let new_x = self.position.x + dx;
        let new_y = self.position.y + dy;
        if is_walkable(maze, new_x, new_y, block_size) {
            proof {
                lemma_walkable_in_world(maze@, new_x as int, new_y as int, block_size as int);
            }
            self.position = Vec2 { x: new_x, y: new_y };
        } else if is_walkable(maze, new_x, self.position.y, block_size) {
            proof {
                lemma_walkable_in_world(maze@, new_x as int, self.position.y as int, block_size as int);
            }
            self.position = Vec2 { x: new_x, y: self.position.y };
        } else if is_walkable(maze, self.position.x, new_y, block_size) {
            proof {
                lemma_walkable_in_world(maze@, self.position.x as int, new_y as int, block_size as int);
            }
            self.position = Vec2 { x: self.position.x, y: new_y };
        }
    }

    /// Carries out a movement command against the maze's walls.
    pub fn execute_command(&mut self, command: PlayerCommand, maze: &Maze, block_size: usize)
        requires
            point_ok(old(self).position),
            dir_ok(old(self).direction),
            0 <= command_step(command) <= MAX_STEP,
            maze_wf(maze@),
            block_size > 0,
            world_fits(maze@, block_size as int),
        ensures
            final(self).direction == old(self).direction,
            final(self).position == moved_to(
                maze@,
                block_size as int,
                old(self).position,
                command_offset(command, old(self).direction).0,
                command_offset(command, old(self).direction).1,
            ),
            point_ok(final(self).position),
    {
        let d = self.direction;
        match command {
            PlayerCommand::MoveForward(speed) => {
                let dx = along_exec(d.x, speed);
                let dy = along_exec(d.y, speed);
                self.try_move(dx, dy, maze, block_size);
            },
            PlayerCommand::MoveBackward(speed) => {
                let dx = along_exec(d.x, speed);
                let dy = along_exec(d.y, speed);
                self.try_move(-dx, -dy, maze, block_size);
            },
            PlayerCommand::StrafeLeft(speed) => {
                let dx = along_exec(d.y, speed);
                let dy = along_exec(d.x, speed);
                self.try_move(dx, -dy, maze, block_size);
            },
            PlayerCommand::StrafeRight(speed) => {
                let dx = along_exec(d.y, speed);
                let dy = along_exec(d.x, speed);
                self.try_move(-dx, dy, maze, block_size);
            },
        }
    }

    /// Moves by `(dx, dy)` regardless of walls.
    pub fn move_by(&mut self, dx: i64, dy: i64)
        requires
            i64::MIN <= old(self).position.x + dx <= i64::MAX,
            i64::MIN <= old(self).position.y + dy <= i64::MAX,
        ensures
            final(self).position == (Vec2 { x: (old(self).position.x + dx) as i64, y: (old(self).position.y + dy) as i64 }),
            final(self).direction == old(self).direction,
    {
        self.position = Vec2 { x: self.position.x + dx, y: self.position.y + dy };
    }
}

} // verus!
