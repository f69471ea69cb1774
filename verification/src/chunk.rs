use vstd::prelude::*;

verus! {

/// The alias that stands for "no commit": an empty parent slot, or a lane with nothing in it.
pub const NONE: u32 = 0xffff_ffffu32;

/// One lane of the commit graph at one row: the commit drawn in it and the parents it is
/// still heading for.
#[derive(Clone, Copy, Debug, PartialEq, Eq, Structural)]
pub struct Chunk {
    pub alias: u32,
    pub parent_a: u32,
    pub parent_b: u32,
    pub is_flattened: bool,
}

/// Where a commit landed: the lane index, and whether that lane is the flattened overflow lane.
#[derive(Clone, Copy, Debug, PartialEq, Eq, Structural)]
pub struct LaneRef {
    pub index: usize,
    pub is_flattened: bool,
}

impl LaneRef {
    pub fn new(index: usize, is_flattened: bool) -> (r: LaneRef)
        ensures
            r.index == index,
            r.is_flattened == is_flattened,
    {
        LaneRef { index, is_flattened }
    }
}

/// The empty lane.
pub open spec fn dummy_chunk() -> Chunk {
    Chunk { alias: NONE, parent_a: NONE, parent_b: NONE, is_flattened: false }
}

/// A lane that carries no commit and heads for no parent.
pub open spec fn chunk_is_dummy(c: Chunk) -> bool {
    c.alias == NONE && c.parent_a == NONE && c.parent_b == NONE
}

pub open spec fn chunk_has_parent(c: Chunk, alias: u32) -> bool {
    alias != NONE && (c.parent_a == alias || c.parent_b == alias)
}

pub open spec fn chunk_has_any_parent(c: Chunk) -> bool {
    c.parent_a != NONE || c.parent_b != NONE
}

/// The chunk with every parent slot that pointed at `alias` emptied.
pub open spec fn chunk_without_parent(c: Chunk, alias: u32) -> Chunk {
    Chunk {
        parent_a: if alias != NONE && c.parent_a == alias { NONE } else { c.parent_a },
        parent_b: if alias != NONE && c.parent_b == alias { NONE } else { c.parent_b },
        ..c
    }
}

impl Chunk {
    pub fn new(alias: u32, parent_a: u32, parent_b: u32) -> (c: Chunk)
        ensures
            c == (Chunk { alias, parent_a, parent_b, is_flattened: false }),
    {
        Chunk { alias, parent_a, parent_b, is_flattened: false }
    }

    pub fn dummy() -> (c: Chunk)
        ensures
            c == dummy_chunk(),
    {
        Chunk { alias: NONE, parent_a: NONE, parent_b: NONE, is_flattened: false }
    }

    pub fn is_dummy(&self) -> (b: bool)
        ensures
            b == chunk_is_dummy(*self),
    {
        self.alias == NONE && self.parent_a == NONE && self.parent_b == NONE
    }

    pub fn has_parent(&self, alias: u32) -> (b: bool)
        ensures
            b == chunk_has_parent(*self, alias),
    {
        alias != NONE && (self.parent_a == alias || self.parent_b == alias)
    }

    pub fn has_any_parent(&self) -> (b: bool)
        ensures
            b == chunk_has_any_parent(*self),
    {
        self.parent_a != NONE || self.parent_b != NONE
    }

    /// Empties every parent slot that points at `alias`; says whether any did.
    pub fn remove_parent(&mut self, alias: u32) -> (changed: bool)
        ensures
            *final(self) == chunk_without_parent(*old(self), alias),
            changed == chunk_has_parent(*old(self), alias),
    {
        let mut changed = false;
        if alias != NONE && self.parent_a == alias {
            self.parent_a = NONE;
            changed = true;
        }
        if alias != NONE && self.parent_b == alias {
            self.parent_b = NONE;
            changed = true;
        }
        changed
    }

    pub fn with_flattened(self, is_flattened: bool) -> (c: Chunk)
        ensures
            c == (Chunk { is_flattened, ..self }),
    {
        Chunk { is_flattened, ..self }
    }

    pub fn parent_aliases(&self) -> (ps: [u32; 2])
        ensures
            ps@ == seq![self.parent_a, self.parent_b],
    {
        [self.parent_a, self.parent_b]
    }
}

} // verus!
