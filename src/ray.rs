use vstd::prelude::*;
use crate::geometry::Vec2;

verus! {

/// Which family of grid lines a ray struck.
#[derive(Debug, Clone, Copy, PartialEq, Eq, Structural)]
pub enum Side {
    /// A horizontal grid line (the top or bottom face of a cell).
    Horizontal,
    /// A vertical grid line (the left or right face of a cell).
    Vertical,
}

/// The result of one raycast: how far the wall is, where it was struck, what
/// it is made of and which face was hit.
#[derive(Debug, Clone, Copy, PartialEq, Eq, Structural)]
pub struct Ray {
    /// Length along the ray to the wall, in world units for a unit heading.
    pub distance: i64,
    /// The struck point in world coordinates (rounded down).
    pub hit_point: Vec2,
    /// The character of the struck wall cell.
    pub wall_type: char,
    /// Which face family was struck.
    pub side_hit: Side,
    /// Grid column of the struck wall cell.
    pub cell_x: usize,
    /// Grid row of the struck wall cell.
    pub cell_y: usize,
}

impl Ray {
    pub fn new(
        distance: i64,
        hit_point: Vec2,
        wall_type: char,
        side_hit: Side,
        cell_x: usize,
        cell_y: usize,
    ) -> (r: Ray)
        ensures
            r == (Ray { distance, hit_point, wall_type, side_hit, cell_x, cell_y }),
    {
        Ray { distance, hit_point, wall_type, side_hit, cell_x, cell_y }
    }

    pub fn distance(&self) -> (r: i64)
        ensures
            r == self.distance,
    {
        self.distance
    }

    pub fn hit_point(&self) -> (r: Vec2)
        ensures
            r == self.hit_point,
    {
        self.hit_point
    }

    pub fn wall_type(&self) -> (r: char)
        ensures
            r == self.wall_type,
    {
        self.wall_type
    }

    pub fn side_hit(&self) -> (r: Side)
        ensures
            r == self.side_hit,
    {
        self.side_hit
    }

    pub fn set_distance(&mut self, distance: i64)
        ensures
            *final(self) == (Ray { distance, ..*old(self) }),
    {
        self.distance = distance;
    }

    pub fn set_hit_point(&mut self, hit_point: Vec2)
        ensures
            *final(self) == (Ray { hit_point, ..*old(self) }),
    {
        self.hit_point = hit_point;
    }

    pub fn set_wall_type(&mut self, wall_type: char)
        ensures
            *final(self) == (Ray { wall_type, ..*old(self) }),
    {
        self.wall_type = wall_type;
    }

    pub fn set_side_hit(&mut self, side_hit: Side)
        ensures
            *final(self) == (Ray { side_hit, ..*old(self) }),
    {
        self.side_hit = side_hit;
    }
}

} // verus!
