use crate::error::{Error, ErrorKind, Result};
use crate::ts::adaptation_field::{
    adaptation_field_bytes, adaptation_field_control_code, adaptation_field_size,
    spec_adaptation_field_control, stuffing_adaptation_field_bytes, AdaptationField,
    AdaptationFieldControl, SpecAdaptationField,
};
use crate::ts::null::Null;
use crate::ts::pat::{pat_psi, Pat, SpecPat};
use crate::ts::pes::{pes_write, Pes, SpecPes};
use crate::ts::pmt::{pmt_write, Pmt, SpecPmt};
use crate::ts::psi::psi_write;
use crate::ts::section::{section_bytes, Section, SpecSection};
use crate::ts::types::{
    scrambling_control_code, spec_scrambling_control, Bytes, ContinuityCounter, Pid,
    TransportScramblingControl,
};
use crate::util::{be_u16, be_u16_at, flag_bit, read_as, skip, u16_bytes, write_all, Parsed, WriteBytesExt};
use vstd::prelude::*;

verus! {

broadcast use Pid::lemma_from_value, Pid::lemma_value_ext, ContinuityCounter::lemma_from_value,
    ContinuityCounter::lemma_value_ext;

/// Transport stream packet.
#[derive(Debug, Clone, PartialEq, Eq, Hash)]
pub struct TsPacket {
    pub header: TsHeader,
    pub adaptation_field: Option<AdaptationField>,
    pub payload: Option<TsPayload>,
}

/// TS packet header.
#[derive(Debug, Clone, Copy, PartialEq, Eq, Hash)]
pub struct TsHeader {
    pub transport_error_indicator: bool,
    pub transport_priority: bool,
    pub pid: Pid,
    pub transport_scrambling_control: TransportScramblingControl,
    pub continuity_counter: ContinuityCounter,
}

/// TS packet payload.
#[derive(Debug, Clone, PartialEq, Eq, Hash)]
pub enum TsPayload {
    Pat(Pat),
    Pmt(Pmt),
    /// The start of a PES packet.
    PesStart(Pes),
    /// A continuation of a PES packet.
    PesContinuation(Bytes),
    Section(Section),
    Null(Null),
    Raw(Bytes),
}

/// The value of a `TsPayload`.
#[verifier::ext_equal]
pub enum SpecTsPayload {
    Pat(SpecPat),
    Pmt(SpecPmt),
    PesStart(SpecPes),
    PesContinuation(Seq<u8>),
    Section(SpecSection),
    Null,
    Raw(Seq<u8>),
}

/// The value of a `TsPacket`.
#[verifier::ext_equal]
pub struct SpecTsPacket {
    pub header: TsHeader,
    pub adaptation_field: Option<SpecAdaptationField>,
    pub payload: Option<SpecTsPayload>,
}

impl View for TsPayload {
    type V = SpecTsPayload;

    open spec fn view(&self) -> SpecTsPayload {
        match self {
            TsPayload::Pat(x) => SpecTsPayload::Pat(x@),
            TsPayload::Pmt(x) => SpecTsPayload::Pmt(x@),
            TsPayload::PesStart(x) => SpecTsPayload::PesStart(x@),
            TsPayload::PesContinuation(x) => SpecTsPayload::PesContinuation(x@),
            TsPayload::Section(x) => SpecTsPayload::Section(x@),
            TsPayload::Null(_) => SpecTsPayload::Null,
            TsPayload::Raw(x) => SpecTsPayload::Raw(x@),
        }
    }
}

impl View for TsPacket {
    type V = SpecTsPacket;

    open spec fn view(&self) -> SpecTsPacket {
        SpecTsPacket {
            header: self.header,
            adaptation_field: match self.adaptation_field {
                Some(a) => Some(a@),
                None => None,
            },
            payload: match self.payload {
                Some(p) => Some(p@),
                None => None,
            },
        }
    }
}

// ---------------------------------------------------------------- header

/// A TS packet header read from the front of `s`: the header, the adaptation field control
/// and the payload unit start indicator.
pub open spec fn spec_read_ts_header(s: Seq<u8>) -> Parsed<(TsHeader, AdaptationFieldControl, bool)> {
    if s.len() < 1 {
        Err(ErrorKind::Other)
    } else if s[0] != 0x47 {
        Err(ErrorKind::InvalidInput)
    } else if s.len() < 4 {
        Err(ErrorKind::Other)
    } else {
        let n = be_u16(s, 1);
        let b = s[3];
        match spec_scrambling_control(b >> 6u8) {
            None => Err(ErrorKind::InvalidInput),
            Some(tsc) => match spec_adaptation_field_control((b >> 4u8) & 0b11) {
                None => Err(ErrorKind::InvalidInput),
                Some(afc) => Ok(
                    (
                        (
                            TsHeader {
                                transport_error_indicator: n & 0x8000 != 0,
                                transport_priority: n & 0x2000 != 0,
                                pid: Pid::from_value(n & 0x1FFF),
                                transport_scrambling_control: tsc,
                                continuity_counter: ContinuityCounter::from_value(b & 0x0F),
                            },
                            afc,
                            n & 0x4000 != 0,
                        ),
                        4,
                    ),
                ),
            },
        }
    }
}

/// The bytes that a failed read of a TS packet header takes from the front of `s`: the
/// sync byte where it is wrong, all that remain where fewer than four do, else the header.
pub open spec fn ts_header_taken_on_error(s: Seq<u8>) -> int {
    if s.len() >= 1 && s[0] != 0x47 {
        1
    } else if s.len() < 4 {
        s.len() as int
    } else {
        4
    }
}

/// The 16 bits after the sync byte.
pub open spec fn ts_header_word(h: TsHeader, pusi: bool) -> u16 {
    ((flag_bit(h.transport_error_indicator, 0x80) as u16) << 8u16) | ((flag_bit(pusi, 0x40) as u16)
        << 8u16) | ((flag_bit(h.transport_priority, 0x20) as u16) << 8u16) | h.pid.value()
}

/// The last byte of a TS packet header.
pub open spec fn ts_header_last_byte(h: TsHeader, afc: AdaptationFieldControl) -> u8 {
    (scrambling_control_code(h.transport_scrambling_control) << 6u8) | (
    adaptation_field_control_code(afc) << 4u8) | h.continuity_counter.value()
}

/// The bytes of a TS packet header.
pub open spec fn ts_header_bytes(h: TsHeader, afc: AdaptationFieldControl, pusi: bool) -> Seq<u8> {
    seq![0x47u8] + u16_bytes(ts_header_word(h, pusi)) + seq![ts_header_last_byte(h, afc)]
}

/// Where a TS packet header reads successfully, each field is taken from the bits that the
/// standard gives it: sync byte 0x47; in the next byte the transport error indicator (0x80),
/// the payload unit start indicator (0x40) and the transport priority (0x20), then the 13-bit
/// PID over that byte's low five bits and the third byte; in the fourth byte the scrambling
/// control (top two bits), the adaptation field control (next two) and the continuity counter
/// (low four).
pub proof fn lemma_ts_header_bits(s: Seq<u8>)
    ensures
        spec_read_ts_header(s) matches Ok(((h, afc, pusi), n)) ==> {
            &&& n == 4
            &&& s.len() >= 4
            &&& s[0] == 0x47
            &&& h.transport_error_indicator == (s[1] & 0x80 != 0)
            &&& pusi == (s[1] & 0x40 != 0)
            &&& h.transport_priority == (s[1] & 0x20 != 0)
            &&& h.pid.value() == (s[1] & 0x1F) as int * 256 + s[2] as int
            &&& scrambling_control_code(h.transport_scrambling_control) == s[3] >> 6u8
            &&& adaptation_field_control_code(afc) == (s[3] >> 4u8) & 0b11
            &&& h.continuity_counter.value() == s[3] & 0x0F
        },
{
    if spec_read_ts_header(s) is Ok {
        let b1 = s[1];
        let b2 = s[2];
        let w = be_u16(s, 1);
        assert((w & 0x8000 != 0) == (b1 & 0x80 != 0) && (w & 0x4000 != 0) == (b1 & 0x40 != 0) && (w
            & 0x2000 != 0) == (b1 & 0x20 != 0) && (w & 0x1FFF) as int == (b1 & 0x1F) as int * 256
            + b2 as int) by (bit_vector)
            requires
                w == ((b1 as u16) << 8u16) | (b2 as u16),
        ;
    }
}

/// A TS packet header is written with each field in the bits that the standard gives it
/// (`lemma_ts_header_bits`).
pub proof fn lemma_ts_header_bytes_bits(h: TsHeader, afc: AdaptationFieldControl, pusi: bool)
    requires
        h.pid.valid(),
        h.continuity_counter.valid(),
    ensures
        ({
            let b = ts_header_bytes(h, afc, pusi);
            &&& b.len() == 4
            &&& b[0] == 0x47
            &&& h.transport_error_indicator == (b[1] & 0x80 != 0)
            &&& pusi == (b[1] & 0x40 != 0)
            &&& h.transport_priority == (b[1] & 0x20 != 0)
            &&& h.pid.value() == (b[1] & 0x1F) as int * 256 + b[2] as int
            &&& scrambling_control_code(h.transport_scrambling_control) == b[3] >> 6u8
            &&& adaptation_field_control_code(afc) == (b[3] >> 4u8) & 0b11
            &&& h.continuity_counter.value() == b[3] & 0x0F
        }),
{
    let b = ts_header_bytes(h, afc, pusi);
    lemma_ts_header_roundtrip(h, afc, pusi, Seq::empty());
    assert(b + Seq::<u8>::empty() =~= b);
    lemma_ts_header_bits(b);
}

/// A TS packet header reads back as it was written, with its adaptation field control and
/// payload unit start indicator, whatever follows it.
pub proof fn lemma_ts_header_roundtrip(
    h: TsHeader,
    afc: AdaptationFieldControl,
    pusi: bool,
    rest: Seq<u8>,
)
    requires
        h.pid.valid(),
        h.continuity_counter.valid(),
    ensures
        spec_read_ts_header(ts_header_bytes(h, afc, pusi) + rest) == Ok::<
            ((TsHeader, AdaptationFieldControl, bool), int),
            ErrorKind,
        >(((h, afc, pusi), 4)),
{
    let s = ts_header_bytes(h, afc, pusi) + rest;
    let w = ts_header_word(h, pusi);
    let a = flag_bit(h.transport_error_indicator, 0x80);
    let b = flag_bit(pusi, 0x40);
    let c = flag_bit(h.transport_priority, 0x20);
    let pid = h.pid.value();
    assert((w & 0x8000 != 0) == (a == 0x80) && (w & 0x4000 != 0) == (b == 0x40) && (w & 0x2000
        != 0) == (c == 0x20) && w & 0x1FFF == pid) by (bit_vector)
        requires
            a == 0 || a == 0x80,
            b == 0 || b == 0x40,
            c == 0 || c == 0x20,
            pid <= 0x1FFF,
            w == ((a as u16) << 8u16) | ((b as u16) << 8u16) | ((c as u16) << 8u16) | pid,
    ;
    crate::util::lemma_u16_bytes_roundtrip(w);
    assert(be_u16(s, 1) == be_u16(u16_bytes(w), 0));
    let sc = scrambling_control_code(h.transport_scrambling_control);
    let fc = adaptation_field_control_code(afc);
    let cc = h.continuity_counter.value();
    let last = ts_header_last_byte(h, afc);
    assert(last >> 6u8 == sc && (last >> 4u8) & 0b11 == fc && last & 0x0F == cc) by (bit_vector)
        requires
            sc <= 3,
            fc <= 3,
            cc <= 0x0F,
            last == (sc << 6u8) | (fc << 4u8) | cc,
    ;
    assert(s[3] == last);
}

impl TsPacket {
    /// Size of a packet in bytes.
    pub const SIZE: usize = 188;
    /// Synchronization byte.
    ///
    /// Each packet starts with this byte.
    pub const SYNC_BYTE: u8 = 0x47;
}

impl TsHeader {
    /// Reads a TS packet header; returns it with the adaptation field control and the
    /// payload unit start indicator.
    ///
    /// # Errors
    ///
    /// A wrong sync byte, the reserved scrambling control 1 or the reserved adaptation field
    /// control 0 give an `ErrorKind::InvalidInput` error.
    pub fn read_from(reader: &mut &[u8]) -> (r: Result<(Self, AdaptationFieldControl, bool)>)
        ensures
            match r {
                Ok(v) => read_as(spec_read_ts_header(old(reader)@), old(reader)@, final(reader)@, v),
                Err(e) => {
                    &&& spec_read_ts_header(old(reader)@) == Err::<
                        ((TsHeader, AdaptationFieldControl, bool), int),
                        ErrorKind,
                    >(e.kind)
                    &&& final(reader)@ == old(reader)@.skip(ts_header_taken_on_error(old(reader)@))
                },
            },
    {
        let s: &[u8] = *reader;
        if s.len() < 1 {
            *reader = skip(s, s.len());
            return Err(Error::end_of_input());
        }
        if s[0] != TsPacket::SYNC_BYTE {
            *reader = skip(s, 1);
            return Err(Error::invalid_input("Unexpected sync byte"));
        }
        if s.len() < 4 {
            *reader = skip(s, s.len());
            return Err(Error::end_of_input());
        }
        let n = be_u16_at(s, 1);
        let transport_error_indicator = (n & 0b1000_0000_0000_0000) != 0;
        let payload_unit_start_indicator = (n & 0b0100_0000_0000_0000) != 0;
        let transport_priority = (n & 0b0010_0000_0000_0000) != 0;
        let pid = Pid::new(n & 0b0001_1111_1111_1111);
        proof {
            crate::util::lemma_u16_and_le(n, 0x1FFF);
        }
        let pid = match pid {
            Ok(p) => p,
            Err(e) => {
                return Err(e);
            },
        };
        let b = s[3];
        let transport_scrambling_control = match TransportScramblingControl::from_u8(b >> 6u8) {
            Ok(t) => t,
            Err(e) => {
                *reader = skip(s, 4);
                return Err(e);
            },
        };
        let adaptation_field_control = match AdaptationFieldControl::from_u8((b >> 4u8) & 0b11) {
            Ok(c) => c,
            Err(e) => {
                *reader = skip(s, 4);
                return Err(e);
            },
        };
        proof {
            crate::util::lemma_u8_and_le(b, 0x0F);
        }
        let continuity_counter = match ContinuityCounter::from_u8(b & 0b1111) {
            Ok(c) => c,
            Err(e) => {
                return Err(e);
            },
        };
        let header = TsHeader {
            transport_error_indicator,
            transport_priority,
            pid,
            transport_scrambling_control,
            continuity_counter,
        };
        *reader = skip(s, 4);
        Ok((header, adaptation_field_control, payload_unit_start_indicator))
    }

    /// Writes the TS packet header with the given adaptation field control and payload unit
    /// start indicator.
    pub fn write_to(
        &self,
        out: &mut Vec<u8>,
        adaptation_field_control: AdaptationFieldControl,
        payload_unit_start_indicator: bool,
    )
        ensures
            final(out)@ == old(out)@ + ts_header_bytes(
                *self,
                adaptation_field_control,
                payload_unit_start_indicator,
            ),
    {
        out.write_u8(TsPacket::SYNC_BYTE);
        let n = (((if self.transport_error_indicator {
            0x80u8
        } else {
            0
        }) as u16) << 8u16) | (((if payload_unit_start_indicator {
            0x40u8
        } else {
            0
        }) as u16) << 8u16) | (((if self.transport_priority {
            0x20u8
        } else {
            0
        }) as u16) << 8u16) | self.pid.as_u16();
        out.write_u16(n);
        let m = (self.transport_scrambling_control.as_u8() << 6u8) | (
        adaptation_field_control.as_u8() << 4u8) | self.continuity_counter.as_u8();
        out.write_u8(m);
        assert(out@ =~= old(out)@ + ts_header_bytes(
            *self,
            adaptation_field_control,
            payload_unit_start_indicator,
        ));
    }
}

} // verus!

verus! {

// ---------------------------------------------------------------- packet writing

/// What writing a payload gives: the bytes written, and `true` if it fails.
pub open spec fn payload_write(p: SpecTsPayload) -> (Seq<u8>, bool) {
    match p {
        SpecTsPayload::Pat(x) => psi_write(pat_psi(x)),
        SpecTsPayload::Pmt(x) => match pmt_write(x) {
            None => (Seq::empty(), true),
            Some(w) => w,
        },
        SpecTsPayload::PesStart(x) => pes_write(x),
        SpecTsPayload::PesContinuation(b) => (b, false),
        SpecTsPayload::Section(x) => (section_bytes(x), false),
        SpecTsPayload::Null => (Seq::empty(), false),
        SpecTsPayload::Raw(b) => (b, false),
    }
}

/// `true` if a packet with this payload has its payload unit start indicator set: all but
/// raw, null and PES continuation payloads start a unit.
pub open spec fn starts_payload_unit(p: Option<SpecTsPayload>) -> bool {
    match p {
        Some(SpecTsPayload::Raw(_)) => false,
        Some(SpecTsPayload::Null) => false,
        Some(SpecTsPayload::PesContinuation(_)) => false,
        None => false,
        _ => true,
    }
}

/// The adaptation field control of a packet.
pub open spec fn packet_adaptation_field_control(has_adaptation_field: bool, has_payload: bool) -> AdaptationFieldControl {
    if has_adaptation_field && has_payload {
        AdaptationFieldControl::AdaptationFieldAndPayload
    } else if has_adaptation_field {
        AdaptationFieldControl::AdaptationFieldOnly
    } else {
        AdaptationFieldControl::PayloadOnly
    }
}

/// The bytes between the header and a payload that leaves `free` bytes: the adaptation field
/// padded with stuffing, or stuffing alone where the packet has none.
pub open spec fn packet_adaptation_bytes(af: Option<SpecAdaptationField>, free: int) -> Seq<u8> {
    match af {
        Some(a) => adaptation_field_bytes(a, (free - 1) as u8),
        None => if free > 0 {
            stuffing_adaptation_field_bytes((free - 1) as u8)
        } else {
            Seq::empty()
        },
    }
}

/// The bytes of a TS packet, or the error that writing it gives. The payload comes last; the
/// room between header and payload is taken by the adaptation field, which is padded with
/// stuffing (or made of stuffing alone where the packet has none).
pub open spec fn ts_packet_write(p: SpecTsPacket) -> core::result::Result<Seq<u8>, ErrorKind> {
    let (payload, fails) = match p.payload {
        Some(x) => payload_write(x),
        None => (Seq::<u8>::empty(), false),
    };
    if fails {
        Err(ErrorKind::InvalidInput)
    } else if payload.len() > 184 {
        Err(ErrorKind::Other)
    } else {
        let free = 184 - payload.len();
        let required = match p.adaptation_field {
            Some(a) => adaptation_field_size(a),
            None => 0,
        };
        if required > free {
            Err(ErrorKind::InvalidInput)
        } else if !(p.adaptation_field.is_some() || free > 0) && p.payload.is_none() {
            Err(ErrorKind::InvalidInput)
        } else {
            let afc = packet_adaptation_field_control(
                p.adaptation_field.is_some() || free > 0,
                p.payload.is_some(),
            );
            Ok(
                ts_header_bytes(p.header, afc, starts_payload_unit(p.payload))
                    + packet_adaptation_bytes(p.adaptation_field, free) + payload,
            )
        }
    }
}

/// Every packet that can be written is exactly `TsPacket::SIZE` (188) bytes long.
pub proof fn lemma_ts_packet_size(p: SpecTsPacket)
    requires
        ts_packet_write(p) is Ok,
    ensures
        ts_packet_write(p)->Ok_0.len() == 188,
{
}

impl TsPayload {
    /// Writes the payload.
    ///
    /// # Errors
    ///
    /// PSI tables that are too long, descriptors that are too long, and PES headers with a
    /// DTS but no PTS give an `ErrorKind::InvalidInput` error.
    pub fn write_to(&self, out: &mut Vec<u8>) -> (r: Result<()>)
        ensures
            final(out)@ == old(out)@ + payload_write(self@).0,
            match r {
                Ok(_) => !payload_write(self@).1,
                Err(e) => payload_write(self@).1 && e.kind == ErrorKind::InvalidInput,
            },
    {
        match self {
            TsPayload::Pat(x) => x.write_to(out),
            TsPayload::Pmt(x) => {
                let r = x.write_to(out);
                proof {
                    if pmt_write(x@) is None {
                        assert(out@ =~= old(out)@ + Seq::<u8>::empty());
                    }
                }
                r
            },
            TsPayload::PesStart(x) => x.write_to(out),
            TsPayload::PesContinuation(x) => {
                x.write_to(out);
                Ok(())
            },
            TsPayload::Section(x) => {
                x.write_to(out);
                Ok(())
            },
            TsPayload::Null(_) => {
                assert(out@ =~= old(out)@ + Seq::<u8>::empty());
                Ok(())
            },
            TsPayload::Raw(x) => {
                x.write_to(out);
                Ok(())
            },
        }
    }
}

impl TsPacket {
    /// Writes the packet: 188 bytes.
    ///
    /// # Errors
    ///
    /// A payload that fails to write, or an adaptation field that does not fit in the room
    /// the payload leaves, gives an `ErrorKind::InvalidInput` error; a payload longer than 184
    /// bytes gives an `ErrorKind::Other` error. Nothing is written then.
    pub fn write_to(&self, out: &mut Vec<u8>) -> (r: Result<()>)
        ensures
            match r {
                Ok(_) => {
                    &&& ts_packet_write(self@) is Ok
                    &&& final(out)@ == old(out)@ + ts_packet_write(self@)->Ok_0
                },
                Err(e) => {
                    &&& ts_packet_write(self@) == Err::<Seq<u8>, ErrorKind>(e.kind)
                    &&& final(out)@ == old(out)@
                },
            },
    {
        let mut payload_buf: Vec<u8> = Vec::new();
        if let Some(payload) = &self.payload {
            payload.write_to(&mut payload_buf)?;
            if payload_buf.len() > 184 {
                return Err(Error::new(ErrorKind::Other, "failed to write whole buffer"));
            }
        }
        assert(payload_buf@ == match self@.payload {
            Some(x) => payload_write(x).0,
            None => Seq::<u8>::empty(),
        });
        let payload_len = payload_buf.len();
        let free_len = 184 - payload_len;
        let required_len = match &self.adaptation_field {
            Some(a) => {
                if a.transport_private_data.len() > 184 {
                    return Err(Error::invalid_input("No space for adaptation field"));
                }
                a.external_size()
            },
            None => 0,
        };
        if required_len > free_len {
            return Err(Error::invalid_input("No space for adaptation field"));
        }
        let has_adaptation_field = self.adaptation_field.is_some() || free_len > 0;
        let has_payload = self.payload.is_some();
        let adaptation_field_control = if has_adaptation_field && has_payload {
            AdaptationFieldControl::AdaptationFieldAndPayload
        } else if has_adaptation_field {
            AdaptationFieldControl::AdaptationFieldOnly
        } else if has_payload {
            AdaptationFieldControl::PayloadOnly
        } else {
            return Err(Error::invalid_input("Reserved for future use"));
        };
        let payload_unit_start_indicator = match &self.payload {
            Some(TsPayload::Raw(_)) => false,
            Some(TsPayload::Null(_)) => false,
            Some(TsPayload::PesContinuation(_)) => false,
            None => false,
            _ => true,
        };
        let ghost o0 = out@;
        self.header.write_to(out, adaptation_field_control, payload_unit_start_indicator);
        let ghost o1 = out@;
        if let Some(adaptation_field) = &self.adaptation_field {
            adaptation_field.write_to(out, (free_len - 1) as u8);
        } else if free_len > 0 {
            AdaptationField::write_stuffing_bytes(out, (free_len - 1) as u8);
        }
        let ghost o2 = out@;
        write_all(out, payload_buf.as_slice());
        proof {
            let bytes = ts_packet_write(self@)->Ok_0;
            assert(out@ =~= o0 + bytes);
        }
        Ok(())
    }
}

} // verus!
