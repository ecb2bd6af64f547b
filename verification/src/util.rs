//! Scoped cursor restoration: the primitive behind "jump to a pointer, read
//! the target, and come back".

use vstd::prelude::*;
use crate::cursor::Reader;

verus! {

/// Remembers a reader's position so that it can be restored after a nested
/// pointer chase, on every path out of the chase.
pub struct SeekGuard {
    pub start_pos: u64,
}

impl SeekGuard {
    /// Remember the reader's current position.
    pub fn new<R: Reader>(reader: &R) -> (g: SeekGuard)
        ensures
            g.start_pos as int == reader.pos(),
    {
        SeekGuard { start_pos: reader.position() }
    }

    /// Put the reader back where it was when the guard was created.
    pub fn restore<R: Reader>(self, reader: &mut R)
        ensures
            final(reader).data() == old(reader).data(),
            final(reader).pos() == self.start_pos as int,
    {
        reader.set_position(self.start_pos);
    }
}

} // verus!
