use vstd::prelude::*;

verus! {

/// One of the six axis-aligned face directions of a block.
#[derive(Clone, Copy, Debug, PartialEq, Eq, Structural)]
pub enum Direction {
    Down,
    Up,
    Left,
    Right,
    Front,
    Back,
}

/// The six directions in their canonical order: the order in which the
/// mesh builder visits the faces of a block.
pub open spec fn all_dirs() -> Seq<Direction> {
    seq![
        Direction::Down,
        Direction::Up,
        Direction::Left,
        Direction::Right,
        Direction::Front,
        Direction::Back,
    ]
}

impl Direction {
    pub const ALL: [Direction; 6] = [
        Direction::Down,
        Direction::Up,
        Direction::Left,
        Direction::Right,
        Direction::Front,
        Direction::Back,
    ];

    pub open spec fn spec_reverse(self) -> Direction {
        match self {
            Direction::Down => Direction::Up,
            Direction::Up => Direction::Down,
            Direction::Left => Direction::Right,
            Direction::Right => Direction::Left,
            Direction::Front => Direction::Back,
            Direction::Back => Direction::Front,
        }
    }

    /// The opposite face direction.
    pub fn reverse(&self) -> (r: Direction)
        ensures
            r == self.spec_reverse(),
    {
        match self {
            Direction::Down => Direction::Up,
            Direction::Up => Direction::Down,
            Direction::Left => Direction::Right,
            Direction::Right => Direction::Left,
            Direction::Front => Direction::Back,
            Direction::Back => Direction::Front,
        }
    }
}

/// The direction at position `i` of the canonical order.
pub fn dir_at(i: usize) -> (d: Direction)
    requires
        i < 6,
    ensures
        d == all_dirs()[i as int],
{
    if i == 0 {
        Direction::Down
    } else if i == 1 {
        Direction::Up
    } else if i == 2 {
        Direction::Left
    } else if i == 3 {
        Direction::Right
    } else if i == 4 {
        Direction::Front
    } else {
        Direction::Back
    }
}

} // verus!
