use vstd::prelude::*;

verus! {

/// One of the six faces of a block.
#[derive(Clone, Copy, Debug, PartialEq, Eq, Structural, Hash)]
pub enum Direction {
    Down,
    Up,
    North,
    South,
    West,
    East,
}

impl Direction {
    /// North, East, South and West are the horizontal directions.
    pub open spec fn is_horizontal(self) -> bool {
        ||| self is North
        ||| self is East
        ||| self is South
        ||| self is West
    }

    /// Clockwise quarter turns from North (seen from above). A vertical
    /// direction counts as no turn at all.
    pub open spec fn quarter_turns(self) -> int {
        match self {
            Direction::East => 1,
            Direction::South => 2,
            Direction::West => 3,
            _ => 0,
        }
    }

    /// The horizontal direction reached after `n` clockwise quarter turns from North.
    pub open spec fn from_quarter_turns(n: int) -> Direction {
        let m = n % 4;
        if m == 0 {
            Direction::North
        } else if m == 1 {
            Direction::East
        } else if m == 2 {
            Direction::South
        } else {
            Direction::West
        }
    }

    /// A horizontal direction turned clockwise by as many quarter turns as
    /// `rotation` is from North; vertical directions are left as they are.
    pub open spec fn rotated(self, rotation: Direction) -> Direction {
        if self.is_horizontal() {
            Direction::from_quarter_turns(self.quarter_turns() + rotation.quarter_turns())
        } else {
            self
        }
    }

    fn turns(self) -> (n: u8)
        ensures
            n == self.quarter_turns(),
    {
        match self {
            Direction::East => 1,
            Direction::South => 2,
            Direction::West => 3,
            _ => 0,
        }
    }

    /// Turns a horizontal direction clockwise by the quarter turns of
    /// `rotation` (North: none, East: one, South: two, West: three).
    /// Up and Down are not changed.
    pub fn rotate(self, rotation: Direction) -> (r: Direction)
        ensures
            r == self.rotated(rotation),
    {
        match self {
            Direction::Up | Direction::Down => self,
            _ => {
                let n = (self.turns() + rotation.turns()) % 4;
                if n == 0 {
                    Direction::North
                } else if n == 1 {
                    Direction::East
                } else if n == 2 {
                    Direction::South
                } else {
                    Direction::West
                }
            },
        }
    }
}

/// Rotating by North changes nothing.
pub proof fn lemma_rotate_north_identity(d: Direction)
    ensures
        d.rotated(Direction::North) == d,
{
}

/// Rotating by `a` and then by `b` is rotating by `a` rotated by `b`,
/// when `a` is horizontal.
pub proof fn lemma_rotate_compose(d: Direction, a: Direction, b: Direction)
    requires
        a.is_horizontal(),
    ensures
        d.rotated(a).rotated(b) == d.rotated(a.rotated(b)),
{
}

/// A rotation keeps horizontal directions horizontal and vertical ones vertical.
pub proof fn lemma_rotate_keeps_plane(d: Direction, r: Direction)
    ensures
        d.rotated(r).is_horizontal() == d.is_horizontal(),
{
}

} // verus!
