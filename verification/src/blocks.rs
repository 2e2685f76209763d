use vstd::prelude::*;

use crate::direction::Direction;

verus! {

/// A block state: which block it is and, for blocks that face a direction,
/// which way it faces.
#[derive(Clone, Copy, Debug, PartialEq, Eq, Structural, Hash)]
pub enum Blocks {
    Air,
    Stone { variant: u8 },
    Stairs { material: u8, facing: Direction, upside_down: bool },
    Ladder { facing: Direction },
}

impl Blocks {
    /// This block turned by the quarter turns of `rotation`: blocks that face
    /// a direction face it rotated, the others stay as they are.
    pub open spec fn rotated(self, rotation: Direction) -> Blocks {
        match self {
            Blocks::Stairs { material, facing, upside_down } => Blocks::Stairs {
                material,
                facing: facing.rotated(rotation),
                upside_down,
            },
            Blocks::Ladder { facing } => Blocks::Ladder { facing: facing.rotated(rotation) },
            _ => self,
        }
    }

    /// Turns this block by the quarter turns of `rotation`.
    pub fn rotate(&mut self, rotation: Direction)
        ensures
            *final(self) == old(self).rotated(rotation),
    {
        match *self {
            Blocks::Stairs { material, facing, upside_down } => {
                *self = Blocks::Stairs { material, facing: facing.rotate(rotation), upside_down };
            },
            Blocks::Ladder { facing } => {
                *self = Blocks::Ladder { facing: facing.rotate(rotation) };
            },
            _ => {},
        }
    }

    /// Whether this is air.
    pub fn is_air(&self) -> (r: bool)
        ensures
            r == (*self is Air),
    {
        matches!(*self, Blocks::Air)
    }
}

} // verus!
