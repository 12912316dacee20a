use crate::error::{ErrorKind, Result};
use crate::pes::packet::{pes_header_bytes, pes_header_write_fails, spec_read_pes_header, PesHeader};
use crate::ts::types::Bytes;
use vstd::prelude::*;

verus! {

/// Payload for PES packets: the PES packet header, then the first bytes of the PES data.
#[derive(Debug, Clone, PartialEq, Eq, Hash)]
pub struct Pes {
    pub header: PesHeader,
    pub pes_packet_len: u16,
    pub data: Bytes,
}

/// The value of a `Pes`.
#[verifier::ext_equal]
pub struct SpecPes {
    pub header: PesHeader,
    pub pes_packet_len: u16,
    pub data: Seq<u8>,
}

impl View for Pes {
    type V = SpecPes;

    open spec fn view(&self) -> SpecPes {
        SpecPes { header: self.header, pes_packet_len: self.pes_packet_len, data: self.data@ }
    }
}

/// A PES payload read from a whole TS payload `s`: the header, then the rest as data.
pub open spec fn spec_read_pes(s: Seq<u8>) -> core::result::Result<SpecPes, ErrorKind> {
    match spec_read_pes_header(s) {
        Err(k) => Err(k),
        Ok(((header, pes_packet_len), n)) => if s.len() - n > 184 {
            Err(ErrorKind::InvalidInput)
        } else {
            Ok(SpecPes { header, pes_packet_len, data: s.skip(n) })
        },
    }
}

/// What writing a PES payload gives: the bytes written, and `true` if it fails (after
/// the first seven header bytes).
pub open spec fn pes_write(p: SpecPes) -> (Seq<u8>, bool) {
    if pes_header_write_fails(p.header) {
        (pes_header_bytes(p.header, p.pes_packet_len).take(7), true)
    } else {
        (pes_header_bytes(p.header, p.pes_packet_len) + p.data, false)
    }
}

impl Pes {
    /// Reads a PES payload from a whole TS payload.
    pub fn read_from(reader: &[u8]) -> (r: Result<Self>)
        ensures
            match r {
                Ok(p) => spec_read_pes(reader@) == Ok::<SpecPes, ErrorKind>(p@),
                Err(e) => spec_read_pes(reader@) == Err::<SpecPes, ErrorKind>(e.kind),
            },
    {
        let mut rd: &[u8] = reader;
        let (header, pes_packet_len) = PesHeader::read_from(&mut rd)?;
        let data = Bytes::read_from(&mut rd)?;
        Ok(Pes { header, pes_packet_len, data })
    }

    /// Writes the PES payload.
    ///
    /// # Errors
    ///
    /// If the header has a DTS but no PTS, it will return an `ErrorKind::InvalidInput` error.
    pub fn write_to(&self, out: &mut Vec<u8>) -> (r: Result<()>)
        ensures
            final(out)@ == old(out)@ + pes_write(self@).0,
            match r {
                Ok(_) => !pes_write(self@).1,
                Err(e) => pes_write(self@).1 && e.kind == ErrorKind::InvalidInput,
            },
    {
        self.header.write_to(out, self.pes_packet_len)?;
        let ghost mid = out@;
        self.data.write_to(out);
        assert(out@ =~= old(out)@ + pes_write(self@).0);
        Ok(())
    }
}

} // verus!
