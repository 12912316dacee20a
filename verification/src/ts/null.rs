use vstd::prelude::*;

verus! {

/// Payload for null packets: whatever bytes it holds are ignored.
#[derive(Debug, Clone, Copy, PartialEq, Eq, Hash)]
pub struct Null;

impl Null {
    /// Reads a null payload: the rest of `reader` is skipped.
    pub fn read_from(reader: &mut &[u8]) -> (n: Self)
        ensures
            final(reader)@.len() == 0,
    {
        *reader = &reader[reader.len()..reader.len()];
        Null
    }
}

} // verus!
