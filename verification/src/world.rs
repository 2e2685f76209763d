use vstd::prelude::*;

use crate::blocks::Blocks;

verus! {

/// One change to the blocks of the world.
#[derive(Clone, Copy, Debug, PartialEq, Eq, Structural)]
pub enum WorldEdit {
    /// Places `block` at one position.
    SetBlock { block: Blocks, x: i32, y: i32, z: i32 },
    /// Places `block` at every position of the box with corners `from` and `to`.
    Fill { block: Blocks, from_x: i32, from_y: i32, from_z: i32, to_x: i32, to_y: i32, to_z: i32 },
}

/// The world as the rooms see it: the block edits made to it, in order,
/// which the server applies to its chunks.
pub struct World {
    edits: Vec<WorldEdit>,
}

impl View for World {
    type V = Seq<WorldEdit>;

    closed spec fn view(&self) -> Seq<WorldEdit> {
        self.edits@
    }
}

impl World {
    /// A world with no edits.
    pub fn new() -> (w: World)
        ensures
            w@ == Seq::<WorldEdit>::empty(),
    {
        World { edits: Vec::new() }
    }

    /// Places `block` at `(x, y, z)`.
    pub fn set_block_at(&mut self, block: Blocks, x: i32, y: i32, z: i32)
        ensures
            final(self)@ == old(self)@.push(WorldEdit::SetBlock { block, x, y, z }),
    {
        self.edits.push(WorldEdit::SetBlock { block, x, y, z });
    }

    /// Places `block` in every position of the box with corners `from` and `to`.
    pub fn fill_blocks(&mut self, block: Blocks, from: (i32, i32, i32), to: (i32, i32, i32))
        ensures
            final(self)@ == old(self)@.push(
                WorldEdit::Fill {
                    block,
                    from_x: from.0,
                    from_y: from.1,
                    from_z: from.2,
                    to_x: to.0,
                    to_y: to.1,
                    to_z: to.2,
                },
            ),
    {
        self.edits.push(
            WorldEdit::Fill {
                block,
                from_x: from.0,
                from_y: from.1,
                from_z: from.2,
                to_x: to.0,
                to_y: to.1,
                to_z: to.2,
            },
        );
    }

    /// The edits made so far, in order.
    pub fn edits(&self) -> (e: &Vec<WorldEdit>)
        ensures
            e@ == self@,
    {
        &self.edits
    }
}

} // verus!
