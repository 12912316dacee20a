use crate::ts::types::Bytes;
use crate::util::WriteBytesExt;
use vstd::prelude::*;

verus! {

/// Payload for Section Stream packets.
#[derive(Debug, Clone, PartialEq, Eq, Hash)]
pub struct Section {
    pub pointer_field: u8,
    pub data: Bytes,
}

/// The value of a `Section`.
#[verifier::ext_equal]
pub struct SpecSection {
    pub pointer_field: u8,
    pub data: Seq<u8>,
}

impl View for Section {
    type V = SpecSection;

    open spec fn view(&self) -> SpecSection {
        SpecSection { pointer_field: self.pointer_field, data: self.data@ }
    }
}

/// The bytes of a section payload: the pointer field, then the data.
pub open spec fn section_bytes(s: SpecSection) -> Seq<u8> {
    seq![s.pointer_field] + s.data
}

impl Section {
    /// Writes the section payload.
    pub fn write_to(&self, out: &mut Vec<u8>)
        ensures
            final(out)@ == old(out)@ + section_bytes(self@),
    {
        out.write_u8(self.pointer_field);
        self.data.write_to(out);
        assert(out@ =~= old(out)@ + section_bytes(self@));
    }
}

} // verus!
