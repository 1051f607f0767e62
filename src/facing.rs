use vstd::prelude::*;

verus! {

/// One of the eight compass directions an observer can face.
#[derive(Clone, Copy, Debug, PartialEq, Eq, Structural)]
pub enum Facing {
    Up,
    Left,
    Down,
    Right,
    UpRight,
    DownRight,
    UpLeft,
    DownLeft,
}

/// The grid step of a facing: axis vectors for the cardinals, `(±1, ±1)` for the
/// diagonals (deliberately not normalised).
pub open spec fn dir_of(f: Facing) -> (int, int) {
    match f {
        Facing::Up => (0, 1),
        Facing::UpRight => (1, 1),
        Facing::Right => (1, 0),
        Facing::DownRight => (1, -1),
        Facing::Down => (0, -1),
        Facing::DownLeft => (-1, -1),
        Facing::Left => (-1, 0),
        Facing::UpLeft => (-1, 1),
    }
}

/// The grid step of `facing`.
pub fn facing_dir(facing: Facing) -> (r: (i64, i64))
    ensures
        r.0 as int == dir_of(facing).0,
        r.1 as int == dir_of(facing).1,
{
    match facing {
        Facing::Up => (0, 1),
        Facing::UpRight => (1, 1),
        Facing::Right => (1, 0),
        Facing::DownRight => (1, -1),
        Facing::Down => (0, -1),
        Facing::DownLeft => (-1, -1),
        Facing::Left => (-1, 0),
        Facing::UpLeft => (-1, 1),
    }
}

/// The sprite-sheet column of each facing.
pub open spec fn index_of_facing(f: Facing) -> int {
    match f {
        Facing::Up => 0,
        Facing::Left => 1,
        Facing::Down => 2,
        Facing::Right => 3,
        Facing::UpRight => 4,
        Facing::DownRight => 5,
        Facing::UpLeft => 6,
        Facing::DownLeft => 7,
    }
}

/// The sprite-sheet column of `facing`.
pub fn facing_index(facing: Facing) -> (r: usize)
    ensures
        r == index_of_facing(facing),
        r < 8,
{
    match facing {
        Facing::Up => 0,
        Facing::Left => 1,
        Facing::Down => 2,
        Facing::Right => 3,
        Facing::UpRight => 4,
        Facing::DownRight => 5,
        Facing::UpLeft => 6,
        Facing::DownLeft => 7,
    }
}

/// The movement direction held on the arrow keys: each axis is `-1`, `0` or `1`,
/// and opposite keys cancel.
pub fn input_direction(left: bool, right: bool, up: bool, down: bool) -> (r: (i32, i32))
    ensures
        r.0 == (if right { 1int } else { 0 }) - (if left { 1int } else { 0 }),
        r.1 == (if up { 1int } else { 0 }) - (if down { 1int } else { 0 }),
{
    let mut dx: i32 = 0;
    let mut dy: i32 = 0;
    if left {
        dx = dx - 1;
    }
    if right {
        dx = dx + 1;
    }
    if up {
        dy = dy + 1;
    }
    if down {
        dy = dy - 1;
    }
    (dx, dy)
}

/// The facing a movement in direction `(dx, dy)` turns the observer to: the
/// compass direction of the signs, or none when there is no movement.
pub open spec fn facing_for(dx: int, dy: int) -> Option<Facing> {
    if dx == 0 && dy == 0 {
        None
    } else if dx != 0 && dy != 0 {
        Some(
            if dx > 0 && dy > 0 {
                Facing::UpRight
            } else if dx > 0 && dy < 0 {
                Facing::DownRight
            } else if dx < 0 && dy > 0 {
                Facing::UpLeft
            } else {
                Facing::DownLeft
            },
        )
    } else if dx != 0 {
        Some(if dx > 0 { Facing::Right } else { Facing::Left })
    } else {
        Some(if dy > 0 { Facing::Up } else { Facing::Down })
    }
}

/// The facing after a move in direction `(dx, dy)`; `None` keeps the current one.
pub fn facing_for_direction(dx: i32, dy: i32) -> (r: Option<Facing>)
    ensures
        r == facing_for(dx as int, dy as int),
{
    if dx == 0 && dy == 0 {
        None
    } else if dx != 0 && dy != 0 {
        Some(
            if dx > 0 && dy > 0 {
                Facing::UpRight
            } else if dx > 0 && dy < 0 {
                Facing::DownRight
            } else if dx < 0 && dy > 0 {
                Facing::UpLeft
            } else {
                Facing::DownLeft
            },
        )
    } else if dx != 0 {
        Some(if dx > 0 { Facing::Right } else { Facing::Left })
    } else {
        Some(if dy > 0 { Facing::Up } else { Facing::Down })
    }
}

/// The observer's orientation.
#[derive(Clone, Copy, Debug, PartialEq, Eq, Structural)]
pub struct PlayerState {
    pub facing: Facing,
}

impl PlayerState {
    /// Turns toward a move in direction `(dx, dy)`; standing still keeps the facing.
    pub fn face_move(&mut self, dx: i32, dy: i32)
        ensures
            final(self).facing == (match facing_for(dx as int, dy as int) {
                Some(f) => f,
                None => old(self).facing,
            }),
    {
        if let Some(f) = facing_for_direction(dx, dy) {
            self.facing = f;
        }
    }
}

} // verus!
