use crate::error::{Error, ErrorKind, Result};
use crate::es::stream_type::StreamType;
use crate::pes::packet::{lemma_pes_header_roundtrip, pes_header_bytes, pes_header_roundtrips};
use crate::ts::adaptation_field::{
    adaptation_field_size, adaptation_field_valid, empty_adaptation_field,
    lemma_adaptation_field_roundtrip, lemma_stuffing_adaptation_field_roundtrip,
    spec_read_adaptation_field, AdaptationField, AdaptationFieldControl, SpecAdaptationField,
};
use crate::ts::null::Null;
use crate::ts::packet::{
    lemma_ts_header_roundtrip, lemma_ts_packet_size, packet_adaptation_bytes, packet_adaptation_field_control,
    payload_write, spec_read_ts_header, starts_payload_unit, ts_header_bytes, ts_packet_write,
    SpecTsPacket, SpecTsPayload, TsHeader, TsPacket, TsPayload,
};
use crate::ts::pat::{
    lemma_pat_roundtrip, pat_psi, pat_roundtrips, spec_read_pat, Pat, ProgramAssociation,
};
use crate::ts::pes::{spec_read_pes, Pes};
use crate::ts::pmt::{
    lemma_pmt_roundtrip, pmt_psi, pmt_roundtrips, spec_read_pmt, EsInfo, Pmt, SpecEsInfo,
};
use crate::ts::psi::{
    lemma_psi_header_word_bits, psi_header_word, psi_table_bytes, psi_table_roundtrips,
    psi_table_syntax_len, psi_tables_write, psi_write, SpecPsiTable,
};
use crate::ts::section::{Section, SpecSection};
use crate::ts::types::{Bytes, Pid, TransportScramblingControl};
use crate::util::{skip, take, write_all};
use std::collections::HashMap;
use vstd::prelude::*;

verus! {

broadcast use vstd::std_specs::hash::group_hash_axioms;

/// How the packets of a PID are read.
#[derive(Debug, Clone, Copy, PartialEq, Eq)]
pub enum PidKind {
    /// PMT sections.
    Pmt,
    /// PES packets.
    Pes,
    /// Other PSI sections.
    Section,
}

/// What a TS packet reader knows besides its stream: the kind of each registered PID, and
/// the bytes of the section that each PSI PID has begun.
pub struct ReaderState {
    pub pids: Map<u16, PidKind>,
    pub psi_buffers: Map<u16, Seq<u8>>,
}

/// The value of a `TsPacketReader`: the bytes not yet read, and its state.
pub struct SpecTsPacketReader {
    pub remaining: Seq<u8>,
    pub state: ReaderState,
}

// ---------------------------------------------------------------- section reassembly

/// The section buffer of `pid` (empty where there is none).
pub open spec fn psi_buffer_of(bufs: Map<u16, Seq<u8>>, pid: u16) -> Seq<u8> {
    if bufs.contains_key(pid) {
        bufs[pid]
    } else {
        Seq::empty()
    }
}

/// The section length field of a section that starts `buf`.
pub open spec fn section_length(buf: Seq<u8>) -> int {
    (buf[1] & 0x0F) as int * 256 + buf[2] as int
}

/// Feeds the payload of one packet of `pid` into its section buffer. A payload that starts
/// a unit starts a new section after its pointer field; one that does not extends a section
/// that has begun. Returns the new buffers and, once the buffer holds a whole section, that
/// section behind a zero pointer field (the buffer keeps what follows it).
pub open spec fn spec_read_psi_section(
    bufs: Map<u16, Seq<u8>>,
    pid: u16,
    pusi: bool,
    payload: Seq<u8>,
) -> (Map<u16, Seq<u8>>, Option<Seq<u8>>) {
    let buffer = psi_buffer_of(bufs, pid);
    let (buf, proceed) = if pusi {
        if payload.len() == 0 {
            (buffer, false)
        } else if 1 + payload[0] >= payload.len() {
            (Seq::<u8>::empty(), false)
        } else {
            (payload.skip(1 + payload[0]), true)
        }
    } else if buffer.len() > 0 {
        (buffer + payload, true)
    } else {
        (buffer, false)
    };
    if !proceed || buf.len() < 3 || buf.len() < 3 + section_length(buf) {
        (bufs.insert(pid, buf), None)
    } else {
        let end = 3 + section_length(buf);
        (bufs.insert(pid, buf.skip(end)), Some(seq![0u8] + buf.take(end)))
    }
}

// ---------------------------------------------------------------- PID registration

/// Registers the PMT PID of each program of a PAT (program number 0 is the network PID).
pub open spec fn register_pmt_pids(pids: Map<u16, PidKind>, table: Seq<ProgramAssociation>) -> Map<
    u16,
    PidKind,
>
    decreases table.len(),
{
    if table.len() == 0 {
        pids
    } else {
        let m = register_pmt_pids(pids, table.drop_last());
        if table.last().program_num != 0 {
            m.insert(table.last().program_map_pid.value(), PidKind::Pmt)
        } else {
            m
        }
    }
}

/// The kind of an elementary stream: DSM-CC tabled data is read as sections, the rest as PES.
pub open spec fn es_pid_kind(t: StreamType) -> PidKind {
    if t == StreamType::DsmCcTabledData {
        PidKind::Section
    } else {
        PidKind::Pes
    }
}

/// Registers the PID of each elementary stream of a PMT.
pub open spec fn register_es_pids(pids: Map<u16, PidKind>, es: Seq<SpecEsInfo>) -> Map<u16, PidKind>
    decreases es.len(),
{
    if es.len() == 0 {
        pids
    } else {
        register_es_pids(pids, es.drop_last()).insert(
            es.last().elementary_pid.value(),
            es_pid_kind(es.last().stream_type),
        )
    }
}

// ---------------------------------------------------------------- payload

/// A PAT payload `rest` read with reader state `st`: once it completes a section, the PAT
/// is parsed and the PMT PIDs of its programs are registered.
pub open spec fn spec_read_pat_payload(st: ReaderState, pusi: bool, rest: Seq<u8>) -> (
    ReaderState,
    core::result::Result<SpecTsPayload, ErrorKind>,
) {
    if rest.len() > 184 {
        (st, Err(ErrorKind::InvalidInput))
    } else {
        let (bufs, section) = spec_read_psi_section(st.psi_buffers, Pid::PAT, pusi, rest);
        match section {
            None => (ReaderState { pids: st.pids, psi_buffers: bufs }, Ok(SpecTsPayload::Raw(rest))),
            Some(s) => match spec_read_pat(s) {
                Err(k) => (ReaderState { pids: st.pids, psi_buffers: bufs }, Err(k)),
                Ok(pat) => (
                    ReaderState { pids: register_pmt_pids(st.pids, pat.table), psi_buffers: bufs },
                    Ok(SpecTsPayload::Pat(pat)),
                ),
            },
        }
    }
}

/// A payload `rest` of the PMT PID `pid` read with reader state `st`: once it completes a
/// section, the PMT is parsed and the PIDs of its elementary streams are registered.
pub open spec fn spec_read_pmt_payload(st: ReaderState, pid: u16, pusi: bool, rest: Seq<u8>) -> (
    ReaderState,
    core::result::Result<SpecTsPayload, ErrorKind>,
) {
    if rest.len() > 184 {
        (st, Err(ErrorKind::InvalidInput))
    } else {
        let (bufs, section) = spec_read_psi_section(st.psi_buffers, pid, pusi, rest);
        match section {
            None => (ReaderState { pids: st.pids, psi_buffers: bufs }, Ok(SpecTsPayload::Raw(rest))),
            Some(s) => match spec_read_pmt(s) {
                Err(k) => (ReaderState { pids: st.pids, psi_buffers: bufs }, Err(k)),
                Ok(pmt) => (
                    ReaderState { pids: register_es_pids(st.pids, pmt.es_info), psi_buffers: bufs },
                    Ok(SpecTsPayload::Pmt(pmt)),
                ),
            },
        }
    }
}

/// A payload `rest` of a PES PID: one that starts a unit is a PES header with data, the
/// others continue the data.
pub open spec fn spec_read_pes_payload(pusi: bool, rest: Seq<u8>) -> core::result::Result<
    SpecTsPayload,
    ErrorKind,
> {
    if pusi {
        match spec_read_pes(rest) {
            Err(k) => Err(k),
            Ok(pes) => Ok(SpecTsPayload::PesStart(pes)),
        }
    } else if rest.len() > 184 {
        Err(ErrorKind::InvalidInput)
    } else {
        Ok(SpecTsPayload::PesContinuation(rest))
    }
}

/// A payload `rest` of a PID registered for sections: one that starts a unit begins with
/// its pointer field.
pub open spec fn spec_read_section_payload(pusi: bool, rest: Seq<u8>) -> core::result::Result<
    SpecTsPayload,
    ErrorKind,
> {
    if rest.len() > 184 {
        Err(ErrorKind::InvalidInput)
    } else if pusi {
        Ok(
            SpecTsPayload::Section(
                SpecSection {
                    pointer_field: if rest.len() > 0 {
                        rest[0]
                    } else {
                        0
                    },
                    data: if rest.len() > 0 {
                        rest.skip(1)
                    } else {
                        Seq::empty()
                    },
                },
            ),
        )
    } else {
        Ok(SpecTsPayload::Section(SpecSection { pointer_field: 0, data: rest }))
    }
}

/// The payload `rest` of a packet of `pid` read with reader state `st`: returns the new state
/// and the payload or error.
pub open spec fn spec_read_payload(st: ReaderState, pid: u16, pusi: bool, rest: Seq<u8>) -> (
    ReaderState,
    core::result::Result<SpecTsPayload, ErrorKind>,
) {
    if pid == Pid::PAT {
        spec_read_pat_payload(st, pusi, rest)
    } else if pid == Pid::NULL {
        (st, Ok(SpecTsPayload::Null))
    } else if !st.pids.contains_key(pid) {
        if rest.len() > 184 {
            (st, Err(ErrorKind::InvalidInput))
        } else {
            (st, Ok(SpecTsPayload::Raw(rest)))
        }
    } else {
        match st.pids[pid] {
            PidKind::Pmt => spec_read_pmt_payload(st, pid, pusi, rest),
            PidKind::Pes => (st, spec_read_pes_payload(pusi, rest)),
            PidKind::Section => (st, spec_read_section_payload(pusi, rest)),
        }
    }
}

/// One 188-byte packet `pkt` read with reader state `st`: returns the new state and the
/// packet or error.
pub open spec fn spec_parse_ts_packet(st: ReaderState, pkt: Seq<u8>) -> (
    ReaderState,
    core::result::Result<SpecTsPacket, ErrorKind>,
) {
    match spec_read_ts_header(pkt) {
        Err(k) => (st, Err(k)),
        Ok(((header, afc, pusi), _)) => {
            let r1 = pkt.skip(4);
            let af: crate::util::Parsed<Option<SpecAdaptationField>> = if afc
                != AdaptationFieldControl::PayloadOnly {
                spec_read_adaptation_field(r1)
            } else {
                Ok((None, 0))
            };
            match af {
                Err(k) => (st, Err(k)),
                Ok((adaptation_field, n)) => {
                    let rest = r1.skip(n);
                    if afc != AdaptationFieldControl::AdaptationFieldOnly {
                        if header.transport_scrambling_control
                            != TransportScramblingControl::NotScrambled {
                            if rest.len() > 184 {
                                (st, Err(ErrorKind::InvalidInput))
                            } else {
                                (
                                    st,
                                    Ok(
                                        SpecTsPacket {
                                            header,
                                            adaptation_field,
                                            payload: Some(SpecTsPayload::Raw(rest)),
                                        },
                                    ),
                                )
                            }
                        } else {
                            let (st2, payload) = spec_read_payload(
                                st,
                                header.pid.value(),
                                pusi,
                                rest,
                            );
                            match payload {
                                Err(k) => (st2, Err(k)),
                                Ok(p) => (
                                    st2,
                                    Ok(SpecTsPacket { header, adaptation_field, payload: Some(p) }),
                                ),
                            }
                        }
                    } else if rest.len() != 0 {
                        (st, Err(ErrorKind::InvalidInput))
                    } else {
                        (st, Ok(SpecTsPacket { header, adaptation_field, payload: None }))
                    }
                },
            }
        },
    }
}

/// What reading the next packet does to a reader: fewer than 188 remaining bytes end the
/// stream (they are consumed); otherwise the next 188 bytes are parsed as a packet.
pub open spec fn spec_read_ts_packet(r: SpecTsPacketReader) -> (
    SpecTsPacketReader,
    core::result::Result<Option<SpecTsPacket>, ErrorKind>,
) {
    if r.remaining.len() < 188 {
        (SpecTsPacketReader { remaining: Seq::empty(), state: r.state }, Ok(None))
    } else {
        let (st, res) = spec_parse_ts_packet(r.state, r.remaining.take(188));
        (
            SpecTsPacketReader { remaining: r.remaining.skip(188), state: st },
            match res {
                Err(k) => Err(k),
                Ok(p) => Ok(Some(p)),
            },
        )
    }
}

} // verus!

verus! {

/// The section buffers, by their contents.
pub open spec fn psi_buffers_view(m: Map<u16, Vec<u8>>) -> Map<u16, Seq<u8>> {
    m.map_values(|v: Vec<u8>| v@)
}

/// Feeds the payload of one packet of `pid` into its section buffer, as
/// `spec_read_psi_section` says; never fails.
pub fn read_psi_section(
    psi_buffers: &mut HashMap<u16, Vec<u8>>,
    pid: u16,
    payload_unit_start_indicator: bool,
    payload: &[u8],
) -> (r: Result<Option<Vec<u8>>>)
    ensures
        ({
            let (bufs, section) = spec_read_psi_section(
                psi_buffers_view(old(psi_buffers)@),
                pid,
                payload_unit_start_indicator,
                payload@,
            );
            &&& psi_buffers_view(final(psi_buffers)@) == bufs
            &&& r matches Ok(s) && match s {
                Some(v) => section == Some(v@),
                None => section is None,
            }
        }),
{
    let ghost old_view = psi_buffers_view(psi_buffers@);
    let mut buffer = match psi_buffers.remove(&pid) {
        Some(b) => b,
        None => Vec::new(),
    };
    assert(buffer@ == psi_buffer_of(old_view, pid));
    let ghost removed = psi_buffers@;
    assert(removed == old(psi_buffers)@.remove(pid));
    let ghost pusi = payload_unit_start_indicator;
    let ghost spec = spec_read_psi_section(old_view, pid, pusi, payload@);
    let mut proceed = true;
    if payload_unit_start_indicator {
        if payload.len() == 0 {
            proceed = false;
        } else {
            let section_offset = 1 + payload[0] as usize;
            if section_offset >= payload.len() {
                buffer.clear();
                proceed = false;
            } else {
                buffer.clear();
                write_all(&mut buffer, skip(payload, section_offset));
                assert(buffer@ =~= payload@.skip(1 + payload@[0]));
            }
        }
    } else if buffer.len() > 0 {
        write_all(&mut buffer, payload);
    } else {
        proceed = false;
    }
    let mut section: Option<Vec<u8>> = None;
    if proceed && buffer.len() >= 3 {
        let section_length = ((buffer[1] & 0x0F) as usize) * 256 + buffer[2] as usize;
        let section_end = 3 + section_length;
        if buffer.len() >= section_end {
            let mut s = Vec::new();
            s.push(0);
            write_all(&mut s, take(buffer.as_slice(), section_end));
            let mut rest = Vec::new();
            write_all(&mut rest, skip(buffer.as_slice(), section_end));
            assert(s@ =~= seq![0u8] + buffer@.take(section_end as int));
            buffer = rest;
            section = Some(s);
        }
    }
    psi_buffers.insert(pid, buffer);
    proof {
        assert(psi_buffers@ == removed.insert(pid, buffer));
        assert(psi_buffers_view(psi_buffers@) =~= old_view.insert(pid, buffer@));
    }
    Ok(section)
}

} // verus!

verus! {

/// The reader state held in `pids` and `psi_buffers`.
pub open spec fn reader_state(pids: Map<u16, PidKind>, psi_buffers: Map<u16, Vec<u8>>) -> ReaderState {
    ReaderState { pids, psi_buffers: psi_buffers_view(psi_buffers) }
}

fn register_pmt_pids_exec(pids: &mut HashMap<u16, PidKind>, table: &Vec<ProgramAssociation>)
    ensures
        final(pids)@ == register_pmt_pids(old(pids)@, table@),
{
    let mut i: usize = 0;
    while i < table.len()
        invariant
            i <= table@.len(),
            pids@ == register_pmt_pids(old(pids)@, table@.take(i as int)),
        decreases table@.len() - i,
    {
        assert(table@.take(i + 1).drop_last() =~= table@.take(i as int));
        let pa = table[i];
        if pa.program_num != 0 {
            pids.insert(pa.program_map_pid.as_u16(), PidKind::Pmt);
        }
        i = i + 1;
    }
    assert(table@.take(i as int) =~= table@);
}

fn register_es_pids_exec(pids: &mut HashMap<u16, PidKind>, es_info: &Vec<EsInfo>)
    ensures
        final(pids)@ == register_es_pids(old(pids)@, es_info@.map_values(|e: EsInfo| e@)),
{
    let ghost es = es_info@.map_values(|e: EsInfo| e@);
    let mut i: usize = 0;
    while i < es_info.len()
        invariant
            es == es_info@.map_values(|e: EsInfo| e@),
            i <= es_info@.len(),
            pids@ == register_es_pids(old(pids)@, es.take(i as int)),
        decreases es_info@.len() - i,
    {
        assert(es.take(i + 1).drop_last() =~= es.take(i as int));
        assert(es.take(i + 1).last() == es_info@[i as int]@);
        let kind = match es_info[i].stream_type {
            StreamType::DsmCcTabledData => PidKind::Section,
            _ => PidKind::Pes,
        };
        pids.insert(es_info[i].elementary_pid.as_u16(), kind);
        i = i + 1;
    }
    assert(es.take(i as int) =~= es);
}

/// Reads a PAT payload, as `spec_read_pat_payload` says.
fn read_pat_payload(
    pids: &mut HashMap<u16, PidKind>,
    psi_buffers: &mut HashMap<u16, Vec<u8>>,
    pusi: bool,
    rest: &[u8],
) -> (r: Result<TsPayload>)
    ensures
        ({
            let (st, res) = spec_read_pat_payload(
                reader_state(old(pids)@, old(psi_buffers)@),
                pusi,
                rest@,
            );
            &&& reader_state(final(pids)@, final(psi_buffers)@) == st
            &&& match r {
                Ok(p) => res == Ok::<SpecTsPayload, ErrorKind>(p@),
                Err(e) => res == Err::<SpecTsPayload, ErrorKind>(e.kind),
            }
        }),
{
    let bytes = Bytes::new(rest)?;
    let section = read_psi_section(psi_buffers, Pid::PAT, pusi, bytes.as_slice())?;
    match section {
        Some(s) => {
            let pat = Pat::read_from(s.as_slice())?;
            register_pmt_pids_exec(pids, &pat.table);
            Ok(TsPayload::Pat(pat))
        },
        None => Ok(TsPayload::Raw(bytes)),
    }
}

/// Reads a payload of the PMT PID `pid`, as `spec_read_pmt_payload` says.
fn read_pmt_payload(
    pids: &mut HashMap<u16, PidKind>,
    psi_buffers: &mut HashMap<u16, Vec<u8>>,
    pid: u16,
    pusi: bool,
    rest: &[u8],
) -> (r: Result<TsPayload>)
    ensures
        ({
            let (st, res) = spec_read_pmt_payload(
                reader_state(old(pids)@, old(psi_buffers)@),
                pid,
                pusi,
                rest@,
            );
            &&& reader_state(final(pids)@, final(psi_buffers)@) == st
            &&& match r {
                Ok(p) => res == Ok::<SpecTsPayload, ErrorKind>(p@),
                Err(e) => res == Err::<SpecTsPayload, ErrorKind>(e.kind),
            }
        }),
{
    let bytes = Bytes::new(rest)?;
    let section = read_psi_section(psi_buffers, pid, pusi, bytes.as_slice())?;
    match section {
        Some(s) => {
            let pmt = Pmt::read_from(s.as_slice())?;
            register_es_pids_exec(pids, &pmt.es_info);
            Ok(TsPayload::Pmt(pmt))
        },
        None => Ok(TsPayload::Raw(bytes)),
    }
}

/// Reads a payload of a PES PID, as `spec_read_pes_payload` says.
fn read_pes_payload(pusi: bool, rest: &[u8]) -> (r: Result<TsPayload>)
    ensures
        match r {
            Ok(p) => spec_read_pes_payload(pusi, rest@) == Ok::<SpecTsPayload, ErrorKind>(p@),
            Err(e) => spec_read_pes_payload(pusi, rest@) == Err::<SpecTsPayload, ErrorKind>(e.kind),
        },
{
    if pusi {
        let pes = Pes::read_from(rest)?;
        Ok(TsPayload::PesStart(pes))
    } else {
        let bytes = Bytes::new(rest)?;
        Ok(TsPayload::PesContinuation(bytes))
    }
}

/// Reads a payload of a PID registered for sections, as `spec_read_section_payload` says.
fn read_section_payload(pusi: bool, rest: &[u8]) -> (r: Result<TsPayload>)
    ensures
        match r {
            Ok(p) => spec_read_section_payload(pusi, rest@) == Ok::<SpecTsPayload, ErrorKind>(p@),
            Err(e) => spec_read_section_payload(pusi, rest@) == Err::<SpecTsPayload, ErrorKind>(
                e.kind,
            ),
        },
{
    let bytes = Bytes::new(rest)?;
    if pusi {
        let pointer_field = if rest.len() > 0 {
            rest[0]
        } else {
            0
        };
        let data = if rest.len() > 0 {
            Bytes::new(skip(rest, 1))?
        } else {
            Bytes::new(take(rest, 0))?
        };
        proof {
            if rest@.len() == 0 {
                assert(rest@.take(0) =~= Seq::<u8>::empty());
            }
        }
        Ok(TsPayload::Section(Section { pointer_field, data }))
    } else {
        Ok(TsPayload::Section(Section { pointer_field: 0, data: bytes }))
    }
}

/// Reads the payload `rest` of a packet of `pid`, as `spec_read_payload` says.
fn read_payload(
    pids: &mut HashMap<u16, PidKind>,
    psi_buffers: &mut HashMap<u16, Vec<u8>>,
    pid: u16,
    pusi: bool,
    rest: &[u8],
) -> (r: Result<TsPayload>)
    ensures
        ({
            let (st, res) = spec_read_payload(
                reader_state(old(pids)@, old(psi_buffers)@),
                pid,
                pusi,
                rest@,
            );
            &&& reader_state(final(pids)@, final(psi_buffers)@) == st
            &&& match r {
                Ok(p) => res == Ok::<SpecTsPayload, ErrorKind>(p@),
                Err(e) => res == Err::<SpecTsPayload, ErrorKind>(e.kind),
            }
        }),
{
    if pid == Pid::PAT {
        read_pat_payload(pids, psi_buffers, pusi, rest)
    } else if pid == Pid::NULL {
        let mut rd: &[u8] = rest;
        let null = Null::read_from(&mut rd);
        Ok(TsPayload::Null(null))
    } else {
        let kind = match pids.get(&pid) {
            Some(k) => *k,
            None => {
                let bytes = Bytes::new(rest)?;
                return Ok(TsPayload::Raw(bytes));
            },
        };
        match kind {
            PidKind::Pmt => read_pmt_payload(pids, psi_buffers, pid, pusi, rest),
            PidKind::Pes => read_pes_payload(pusi, rest),
            PidKind::Section => read_section_payload(pusi, rest),
        }
    }
}

} // verus!

verus! {

/// Parses one 188-byte packet with the reader state held in `pids` and `psi_buffers`, as
/// `spec_parse_ts_packet` says.
fn parse_ts_packet(
    pids: &mut HashMap<u16, PidKind>,
    psi_buffers: &mut HashMap<u16, Vec<u8>>,
    packet: &[u8],
) -> (r: Result<TsPacket>)
    ensures
        ({
            let (st, res) = spec_parse_ts_packet(reader_state(old(pids)@, old(psi_buffers)@), packet@);
            &&& reader_state(final(pids)@, final(psi_buffers)@) == st
            &&& match r {
                Ok(p) => res == Ok::<SpecTsPacket, ErrorKind>(p@),
                Err(e) => res == Err::<SpecTsPacket, ErrorKind>(e.kind),
            }
        }),
{
    let mut reader: &[u8] = packet;
    let (header, adaptation_field_control, payload_unit_start_indicator) = TsHeader::read_from(
        &mut reader,
    )?;
    assert(reader@ =~= packet@.skip(4));
    let ghost r1 = reader@;
    let adaptation_field = if adaptation_field_control.has_adaptation_field() {
        AdaptationField::read_from(&mut reader)?
    } else {
        None
    };
    let ghost n = r1.len() - reader@.len();
    assert(reader@ =~= r1.skip(n));
    let payload = if adaptation_field_control.has_payload() {
        if !matches!(header.transport_scrambling_control, TransportScramblingControl::NotScrambled) {
            let bytes = Bytes::new(reader)?;
            return Ok(TsPacket { header, adaptation_field, payload: Some(TsPayload::Raw(bytes)) });
        }
        let p = read_payload(
            pids,
            psi_buffers,
            header.pid.as_u16(),
            payload_unit_start_indicator,
            reader,
        )?;
        reader = &reader[reader.len()..reader.len()];
        Some(p)
    } else {
        None
    };
    if reader.len() != 0 {
        return Err(Error::invalid_input("Unexpected remaining data in TS packet"));
    }
    Ok(TsPacket { header, adaptation_field, payload })
}

/// The `ReadTsPacket` trait allows for reading TS packets from a source.
pub trait ReadTsPacket {
    /// How much the source has left to give: each packet read leaves less.
    spec fn remaining_len(&self) -> nat;

    /// `true` if a read from `self` may leave the source as `next` with the outcome `r`.
    spec fn reads(&self, next: &Self, r: TsReadOutcome) -> bool;

    /// Reads a TS packet.
    ///
    /// If the end of the stream is reached, it will return `Ok(None)`.
    fn read_ts_packet(&mut self) -> (r: Result<Option<TsPacket>>)
        ensures
            r matches Ok(Some(_)) ==> final(self).remaining_len() < old(self).remaining_len(),
            old(self).reads(final(self), ts_read_outcome(r)),
    ;
}

/// The outcome of a TS packet read.
pub type TsReadOutcome = core::result::Result<Option<SpecTsPacket>, ErrorKind>;

/// The outcome that the result of a TS packet read stands for.
pub open spec fn ts_read_outcome(r: Result<Option<TsPacket>>) -> TsReadOutcome {
    match r {
        Ok(Some(p)) => Ok(Some(p@)),
        Ok(None) => Ok(None),
        Err(e) => Err(e.kind),
    }
}

/// TS packet reader over a byte stream.
#[derive(Debug)]
pub struct TsPacketReader {
    stream: Vec<u8>,
    position: usize,
    pids: HashMap<u16, PidKind>,
    psi_buffers: HashMap<u16, Vec<u8>>,
}

impl View for TsPacketReader {
    type V = SpecTsPacketReader;

    closed spec fn view(&self) -> SpecTsPacketReader {
        SpecTsPacketReader {
            remaining: if self.position <= self.stream@.len() {
                self.stream@.skip(self.position as int)
            } else {
                Seq::empty()
            },
            state: reader_state(self.pids@, self.psi_buffers@),
        }
    }
}

impl TsPacketReader {
    /// Makes a new `TsPacketReader` instance over the bytes of `stream`, with no PID
    /// registered and no section begun.
    pub fn new(stream: &[u8]) -> (r: Self)
        ensures
            r@.remaining == stream@,
            r@.state.pids == Map::<u16, PidKind>::empty(),
            r@.state.psi_buffers == Map::<u16, Seq<u8>>::empty(),
    {
        let mut buf = Vec::new();
        write_all(&mut buf, stream);
        let r = TsPacketReader {
            stream: buf,
            position: 0,
            pids: HashMap::new(),
            psi_buffers: HashMap::new(),
        };
        assert(r.stream@.skip(0) =~= stream@);
        assert(psi_buffers_view(r.psi_buffers@) =~= Map::<u16, Seq<u8>>::empty());
        r
    }

    /// Returns the bytes of the stream that have not been read yet.
    pub fn stream(&self) -> (s: &[u8])
        ensures
            s@ == self@.remaining,
    {
        let position = if self.position <= self.stream.len() {
            self.position
        } else {
            self.stream.len()
        };
        skip(self.stream.as_slice(), position)
    }

    /// Converts `TsPacketReader` into the bytes of the stream that have not been read yet.
    pub fn into_stream(self) -> (s: Vec<u8>)
        ensures
            s@ == self@.remaining,
    {
        let position = if self.position <= self.stream.len() {
            self.position
        } else {
            self.stream.len()
        };
        let mut s = Vec::new();
        write_all(&mut s, skip(self.stream.as_slice(), position));
        s
    }

    /// Appends `bytes` to the stream, after the bytes not yet read, so that a stream can be
    /// read as it arrives; the bytes already read are let go.
    pub fn extend(&mut self, bytes: &[u8])
        ensures
            final(self)@.remaining == old(self)@.remaining + bytes@,
            final(self)@.state == old(self)@.state,
    {
        let position = if self.position <= self.stream.len() {
            self.position
        } else {
            self.stream.len()
        };
        let mut stream = Vec::new();
        write_all(&mut stream, skip(self.stream.as_slice(), position));
        write_all(&mut stream, bytes);
        self.stream = stream;
        self.position = 0;
        assert(self.stream@.skip(0) =~= self.stream@);
    }

    /// Registers a PID that should be read as PSI sections.
    pub fn add_section_pid(&mut self, pid: Pid)
        ensures
            final(self)@.remaining == old(self)@.remaining,
            final(self)@.state.pids == old(self)@.state.pids.insert(pid.value(), PidKind::Section),
            final(self)@.state.psi_buffers == old(self)@.state.psi_buffers,
    {
        self.pids.insert(pid.as_u16(), PidKind::Section);
    }
}

impl ReadTsPacket for TsPacketReader {
    /// The number of bytes not yet read.
    open spec fn remaining_len(&self) -> nat {
        self@.remaining.len()
    }

    /// A read gives what `spec_read_ts_packet` says.
    open spec fn reads(&self, next: &Self, r: TsReadOutcome) -> bool {
        (next@, r) == spec_read_ts_packet(self@)
    }

    /// Reads the next TS packet, as `spec_read_ts_packet` says.
    fn read_ts_packet(&mut self) -> (r: Result<Option<TsPacket>>)
        ensures
            ({
                let (next, res) = spec_read_ts_packet(old(self)@);
                &&& final(self)@ == next
                &&& match r {
                    Ok(Some(p)) => res == Ok::<Option<SpecTsPacket>, ErrorKind>(Some(p@)),
                    Ok(None) => res == Ok::<Option<SpecTsPacket>, ErrorKind>(None),
                    Err(e) => res == Err::<Option<SpecTsPacket>, ErrorKind>(e.kind),
                }
            }),
    {
        if self.position > self.stream.len() {
            self.position = self.stream.len();
        }
        let remaining = self.stream.len() - self.position;
        if remaining < TsPacket::SIZE {
            self.position = self.stream.len();
            assert(self.stream@.skip(self.position as int) =~= Seq::<u8>::empty());
            return Ok(None);
        }
        let start = self.position;
        self.position = self.position + TsPacket::SIZE;
        let packet = take(skip(self.stream.as_slice(), start), TsPacket::SIZE);
        assert(self.stream@.skip(self.position as int) =~= old(self)@.remaining.skip(188));
        match parse_ts_packet(&mut self.pids, &mut self.psi_buffers, packet) {
            Ok(p) => Ok(Some(p)),
            Err(e) => Err(e),
        }
    }
}

} // verus!

verus! {

// ---------------------------------------------------------------- reading back what was written

/// A PSI of one table, written whole into a payload that starts a unit, is taken as one
/// section at once, and leaves the section buffer of its PID empty.
pub proof fn lemma_psi_section_whole(bufs: Map<u16, Seq<u8>>, pid: u16, t: SpecPsiTable)
    requires
        psi_table_roundtrips(t),
    ensures
        spec_read_psi_section(bufs, pid, true, psi_write(seq![t]).0) == (
            bufs.insert(pid, Seq::<u8>::empty()),
            Some(psi_write(seq![t]).0),
        ),
{
    let ts = seq![t];
    let e = Seq::<SpecPsiTable>::empty();
    assert(ts.drop_last() =~= e);
    assert(psi_tables_write(e) == (Seq::<u8>::empty(), false));
    let tb = psi_table_bytes(t);
    assert(psi_tables_write(ts) == (Seq::<u8>::empty() + tb, false));
    let w = psi_write(ts).0;
    assert(w =~= seq![0u8] + tb);
    let len = psi_table_syntax_len(t) as u16;
    let word = psi_header_word(t.header, len);
    lemma_psi_header_word_bits(t.header, len);
    let b1 = tb[1];
    let b2 = tb[2];
    assert(b1 == (word >> 8u16) as u8 && b2 == word as u8);
    assert((b1 & 0x0F) as int * 256 + b2 as int == len as int) by (bit_vector)
        requires
            b1 == (word >> 8u16) as u8,
            b2 == word as u8,
            word & 0x0C00 == 0,
            word & 0x03FF == len,
    ;
    assert(tb.len() == 3 + len);
    let buf = w.skip(1);
    assert(buf =~= tb);
    assert(section_length(buf) == len);
    assert(buf.skip(3 + len) =~= Seq::<u8>::empty());
    assert(seq![0u8] + buf.take(3 + len) =~= w);
}

/// `true` if a payload `p` of a packet with header `h`, once written, is read back as `p` by
/// a reader in state `st`: scrambled packets carry raw bytes; otherwise a PAT goes on the PAT
/// PID, null payloads on the null PID, raw bytes on a PID that is neither nor registered,
/// and PMT, PES and section payloads on a PID registered for them; tables and PES headers
/// must be ones that read back as written.
pub open spec fn reads_back(st: ReaderState, h: TsHeader, p: SpecTsPayload) -> bool {
    let pid = h.pid.value();
    let other = pid != Pid::PAT && pid != Pid::NULL;
    if h.transport_scrambling_control != TransportScramblingControl::NotScrambled {
        p is Raw
    } else {
        match p {
            SpecTsPayload::Pat(x) => pid == Pid::PAT && pat_roundtrips(x),
            SpecTsPayload::Null => pid == Pid::NULL,
            SpecTsPayload::Raw(_) => other && !st.pids.contains_key(pid),
            SpecTsPayload::Pmt(x) => other && st.pids.contains_key(pid) && st.pids[pid]
                == PidKind::Pmt && pmt_roundtrips(x),
            SpecTsPayload::PesStart(x) => other && st.pids.contains_key(pid) && st.pids[pid]
                == PidKind::Pes && pes_header_roundtrips(x.header),
            SpecTsPayload::PesContinuation(_) => other && st.pids.contains_key(pid) && st.pids[pid]
                == PidKind::Pes,
            SpecTsPayload::Section(_) => other && st.pids.contains_key(pid) && st.pids[pid]
                == PidKind::Section,
        }
    }
}

#[verifier::spinoff_prover]
proof fn lemma_payload_roundtrip(st: ReaderState, h: TsHeader, p: SpecTsPayload)
    requires
        h.transport_scrambling_control == TransportScramblingControl::NotScrambled,
        reads_back(st, h, p),
        !payload_write(p).1,
        payload_write(p).0.len() <= 184,
    ensures
        spec_read_payload(st, h.pid.value(), starts_payload_unit(Some(p)), payload_write(p).0).1
            == Ok::<SpecTsPayload, ErrorKind>(p),
{
    let pid = h.pid.value();
    let w = payload_write(p).0;
    match p {
        SpecTsPayload::Pat(x) => {
            let t = pat_psi(x)[0];
            assert(pat_psi(x) =~= seq![t]);
            lemma_psi_section_whole(st.psi_buffers, pid, t);
            lemma_pat_roundtrip(x);
        },
        SpecTsPayload::Pmt(x) => {
            let t = pmt_psi(x)[0];
            assert(pmt_psi(x) =~= seq![t]);
            assert(psi_table_roundtrips(t));
            lemma_psi_section_whole(st.psi_buffers, pid, t);
            lemma_pmt_roundtrip(x);
        },
        SpecTsPayload::PesStart(x) => {
            lemma_pes_header_roundtrip(x.header, x.pes_packet_len, x.data);
            let n = pes_header_bytes(x.header, x.pes_packet_len).len() as int;
            assert(w.skip(n) =~= x.data);
        },
        SpecTsPayload::Section(x) => {
            assert(w.skip(1) =~= x.data);
        },
        _ => {},
    }
}

/// `true` if the header and adaptation field of a packet hold values that their bytes can
/// carry, as those of every `TsPacket` value do.
pub open spec fn ts_packet_valid(p: SpecTsPacket) -> bool {
    &&& p.header.pid.valid()
    &&& p.header.continuity_counter.valid()
    &&& (p.adaptation_field matches Some(a) ==> adaptation_field_valid(a))
}

/// The adaptation field that is read back from a written packet: its own, or, where it has
/// none and the payload leaves room, one of stuffing alone.
pub open spec fn written_adaptation_field(af: Option<SpecAdaptationField>, free: int) -> Option<
    SpecAdaptationField,
> {
    match af {
        Some(a) => Some(a),
        None => if free > 1 {
            Some(empty_adaptation_field())
        } else {
            None
        },
    }
}

/// The header and adaptation field of a packet, written in front of payload bytes `pw`, read
/// back, and what follows them is `pw`.
#[verifier::spinoff_prover]
proof fn lemma_packet_front_roundtrip(
    h: TsHeader,
    af: Option<SpecAdaptationField>,
    has_payload: bool,
    pusi: bool,
    pw: Seq<u8>,
)
    requires
        h.pid.valid(),
        h.continuity_counter.valid(),
        af matches Some(a) ==> adaptation_field_valid(a) && adaptation_field_size(a) <= 184
            - pw.len(),
        pw.len() <= 184,
    ensures
        ({
            let free = 184 - pw.len();
            let afc = packet_adaptation_field_control(af.is_some() || free > 0, has_payload);
            let bytes = ts_header_bytes(h, afc, pusi) + packet_adaptation_bytes(af, free) + pw;
            &&& spec_read_ts_header(bytes) == Ok::<
                ((TsHeader, AdaptationFieldControl, bool), int),
                ErrorKind,
            >(((h, afc, pusi), 4))
            &&& (afc != AdaptationFieldControl::PayloadOnly ==> spec_read_adaptation_field(
                bytes.skip(4),
            ) == Ok::<(Option<SpecAdaptationField>, int), ErrorKind>(
                (written_adaptation_field(af, free), free),
            ))
            &&& (afc == AdaptationFieldControl::PayloadOnly ==> free == 0 && af is None)
            &&& bytes.skip(4).skip(free) == pw
        }),
{
    let free = 184 - pw.len();
    let afc = packet_adaptation_field_control(af.is_some() || free > 0, has_payload);
    let hb = ts_header_bytes(h, afc, pusi);
    let ab = packet_adaptation_bytes(af, free);
    let bytes = hb + ab + pw;
    assert(bytes =~= hb + (ab + pw));
    lemma_ts_header_roundtrip(h, afc, pusi, ab + pw);
    let r1 = bytes.skip(4);
    assert(r1 =~= ab + pw);
    match af {
        Some(a) => lemma_adaptation_field_roundtrip(a, (free - 1) as u8, pw),
        None => if free > 0 {
            lemma_stuffing_adaptation_field_roundtrip((free - 1) as u8, pw);
        },
    }
    assert(ab.len() == free);
    assert(r1.skip(free) =~= pw);
}

/// A packet that the writer writes is read back by a reader in state `st` with its header,
/// its adaptation field (where it has one) and its payload, where the payload reads back in
/// that state (`reads_back`).
#[verifier::spinoff_prover]
pub proof fn lemma_ts_packet_roundtrip(st: ReaderState, p: SpecTsPacket)
    requires
        ts_packet_valid(p),
        ts_packet_write(p) is Ok,
        p.payload matches Some(x) ==> reads_back(st, p.header, x),
    ensures
        spec_parse_ts_packet(st, ts_packet_write(p)->Ok_0).1 matches Ok(q) && q.header == p.header
            && q.payload == p.payload && (p.adaptation_field is Some ==> q.adaptation_field
            == p.adaptation_field),
{
    let (pw, fails) = match p.payload {
        Some(x) => payload_write(x),
        None => (Seq::<u8>::empty(), false),
    };
    lemma_packet_front_roundtrip(
        p.header,
        p.adaptation_field,
        p.payload.is_some(),
        starts_payload_unit(p.payload),
        pw,
    );
    match p.payload {
        Some(x) => {
            if p.header.transport_scrambling_control
                == TransportScramblingControl::NotScrambled {
                lemma_payload_roundtrip(st, p.header, x);
            }
        },
        None => {},
    }
}

/// A payload that starts a unit holds, after its pointer field `k`, `k` bytes that end a
/// section begun before, and then a new section: that new section (here whole in the payload,
/// its length field counting the bytes after its first three) is returned at once behind a
/// zero pointer field, whatever the `k` bytes are, and what follows it stays in the buffer.
pub proof fn lemma_psi_section_after_pointer(
    bufs: Map<u16, Seq<u8>>,
    pid: u16,
    payload: Seq<u8>,
    section: Seq<u8>,
    rest: Seq<u8>,
)
    requires
        payload.len() >= 1,
        1 + payload[0] < payload.len(),
        payload.skip(1 + payload[0]) == section + rest,
        section.len() >= 3,
        section.len() == 3 + (section[1] & 0x0F) as int * 256 + section[2] as int,
    ensures
        spec_read_psi_section(bufs, pid, true, payload) == (
            bufs.insert(pid, rest),
            Some(seq![0u8] + section),
        ),
{
    let buf = payload.skip(1 + payload[0]);
    assert(buf[1] == section[1] && buf[2] == section[2]);
    assert(buf.take(section.len() as int) =~= section);
    assert(buf.skip(section.len() as int) =~= rest);
}

/// A section whose first `k` bytes come in a payload that starts a unit (behind a zero
/// pointer field) and whose other bytes come, with whatever follows them, in the next payload
/// of the PID, is returned whole by that next payload; what followed it stays in the buffer.
pub proof fn lemma_psi_section_split(
    bufs: Map<u16, Seq<u8>>,
    pid: u16,
    section: Seq<u8>,
    k: int,
    tail: Seq<u8>,
)
    requires
        section.len() >= 3,
        section.len() == 3 + section_length(section),
        0 < k < section.len(),
    ensures
        spec_read_psi_section(bufs, pid, true, seq![0u8] + section.take(k)) == (
            bufs.insert(pid, section.take(k)),
            None::<Seq<u8>>,
        ),
        spec_read_psi_section(
            bufs.insert(pid, section.take(k)),
            pid,
            false,
            section.skip(k) + tail,
        ) == (bufs.insert(pid, section.take(k)).insert(pid, tail), Some(seq![0u8] + section)),
{
    let first = seq![0u8] + section.take(k);
    assert(first.skip(1) =~= section.take(k));
    if k >= 3 {
        assert(section_length(section.take(k)) == section_length(section));
    }
    let buf = section.take(k) + (section.skip(k) + tail);
    assert(buf =~= section + tail);
    assert(section_length(buf) == section_length(section));
    assert(buf.take(section.len() as int) =~= section);
    assert(buf.skip(section.len() as int) =~= tail);
}

/// A reader whose stream goes on with a packet that the writer wrote reads that packet back
/// (`lemma_ts_packet_roundtrip`) and stands on what follows it.
pub proof fn lemma_read_written_packet(st: ReaderState, p: SpecTsPacket, rest: Seq<u8>)
    requires
        ts_packet_valid(p),
        ts_packet_write(p) is Ok,
        p.payload matches Some(x) ==> reads_back(st, p.header, x),
    ensures
        ({
            let (next, res) = spec_read_ts_packet(
                SpecTsPacketReader { remaining: ts_packet_write(p)->Ok_0 + rest, state: st },
            );
            &&& next.remaining == rest
            &&& res matches Ok(Some(q)) && q.header == p.header && q.payload == p.payload
        }),
{
    let bytes = ts_packet_write(p)->Ok_0;
    lemma_ts_packet_size(p);
    lemma_ts_packet_roundtrip(st, p);
    assert((bytes + rest).take(188) =~= bytes);
    assert((bytes + rest).skip(188) =~= rest);
}

/// `true` if an entry of a PAT table with a program number other than 0 (the network PID)
/// gives `pid` as the PMT PID.
pub open spec fn pat_lists_pmt_pid(table: Seq<ProgramAssociation>, pid: u16) -> bool {
    exists|i: int|
        0 <= i < table.len() && (#[trigger] table[i]).program_num != 0
            && table[i].program_map_pid.value() == pid
}

/// `true` if an elementary stream of a PMT is on `pid`.
pub open spec fn pmt_lists_es_pid(es: Seq<SpecEsInfo>, pid: u16) -> bool {
    exists|i: int| 0 <= i < es.len() && (#[trigger] es[i]).elementary_pid.value() == pid
}

/// Reading a PAT registers as PMT PIDs exactly the PIDs that it lists with a program number
/// other than 0, and leaves every other registration as it was: in particular, the network
/// PID (program number 0) is not taken for a PMT PID.
pub proof fn lemma_register_pmt_pids(pids: Map<u16, PidKind>, table: Seq<ProgramAssociation>, q: u16)
    ensures
        register_pmt_pids(pids, table).contains_key(q) <==> pids.contains_key(q)
            || pat_lists_pmt_pid(table, q),
        pat_lists_pmt_pid(table, q) ==> register_pmt_pids(pids, table)[q] == PidKind::Pmt,
        !pat_lists_pmt_pid(table, q) && pids.contains_key(q) ==> register_pmt_pids(pids, table)[q]
            == pids[q],
    decreases table.len(),
{
    if table.len() > 0 {
        let init = table.drop_last();
        let last = table.last();
        lemma_register_pmt_pids(pids, init, q);
        let here = last.program_num != 0 && last.program_map_pid.value() == q;
        if pat_lists_pmt_pid(init, q) {
            let i = choose|i: int|
                0 <= i < init.len() && (#[trigger] init[i]).program_num != 0
                    && init[i].program_map_pid.value() == q;
            assert(table[i] == init[i]);
            assert(pat_lists_pmt_pid(table, q));
        }
        if here {
            assert(table[table.len() - 1] == last);
            assert(pat_lists_pmt_pid(table, q));
        }
        if pat_lists_pmt_pid(table, q) && !here {
            let i = choose|i: int|
                0 <= i < table.len() && (#[trigger] table[i]).program_num != 0
                    && table[i].program_map_pid.value() == q;
            assert(i < table.len() - 1);
            assert(init[i] == table[i]);
            assert(pat_lists_pmt_pid(init, q));
        }
    }
}

/// Reading a PMT registers the PID of each of its elementary streams, and leaves every
/// other registration as it was.
pub proof fn lemma_register_es_pids(pids: Map<u16, PidKind>, es: Seq<SpecEsInfo>, q: u16)
    ensures
        register_es_pids(pids, es).contains_key(q) <==> pids.contains_key(q) || pmt_lists_es_pid(
            es,
            q,
        ),
        !pmt_lists_es_pid(es, q) && pids.contains_key(q) ==> register_es_pids(pids, es)[q]
            == pids[q],
    decreases es.len(),
{
    if es.len() > 0 {
        let init = es.drop_last();
        let last = es.last();
        lemma_register_es_pids(pids, init, q);
        let here = last.elementary_pid.value() == q;
        if pmt_lists_es_pid(init, q) {
            let i = choose|i: int| 0 <= i < init.len() && (#[trigger] init[i]).elementary_pid.value() == q;
            assert(es[i] == init[i]);
            assert(pmt_lists_es_pid(es, q));
        }
        if here {
            assert(es[es.len() - 1] == last);
            assert(pmt_lists_es_pid(es, q));
        }
        if pmt_lists_es_pid(es, q) && !here {
            let i = choose|i: int| 0 <= i < es.len() && (#[trigger] es[i]).elementary_pid.value() == q;
            assert(i < es.len() - 1);
            assert(init[i] == es[i]);
            assert(pmt_lists_es_pid(init, q));
        }
    }
}

/// `true` if `p` is a PAT that lists `q` as a PMT PID, or a PMT that lists it as an
/// elementary stream PID.
pub open spec fn packet_lists_pid(p: SpecTsPacket, q: u16) -> bool {
    match p.payload {
        Some(SpecTsPayload::Pat(x)) => pat_lists_pmt_pid(x.table, q),
        Some(SpecTsPayload::Pmt(x)) => pmt_lists_es_pid(x.es_info, q),
        _ => false,
    }
}

/// A packet read leaves the registration of a PID as it was, unless the packet is a PAT
/// that lists the PID as a PMT PID or a PMT that lists it as an elementary stream PID; an
/// unregistered PID stays unregistered on the same terms.
pub proof fn lemma_pid_kind_kept(r: SpecTsPacketReader, q: u16)
    ensures
        ({
            let (next, res) = spec_read_ts_packet(r);
            let listed = match res {
                Ok(Some(p)) => packet_lists_pid(p, q),
                _ => false,
            };
            !listed ==> {
                &&& next.state.pids.contains_key(q) == r.state.pids.contains_key(q)
                &&& r.state.pids.contains_key(q) ==> next.state.pids[q] == r.state.pids[q]
            }
        }),
{
    let st = r.state;
    lemma_register_pmt_pids(st.pids, Seq::empty(), q);
    if r.remaining.len() >= 188 {
        let pkt = r.remaining.take(188);
        match spec_read_ts_header(pkt) {
            Err(_) => {},
            Ok(((header, afc, pusi), _)) => {
                let pid = header.pid.value();
                let r1 = pkt.skip(4);
                let af: crate::util::Parsed<Option<SpecAdaptationField>> = if afc
                    != AdaptationFieldControl::PayloadOnly {
                    spec_read_adaptation_field(r1)
                } else {
                    Ok((None, 0))
                };
                match af {
                    Err(_) => {},
                    Ok((_, n)) => {
                        let rest = r1.skip(n);
                        if pid == Pid::PAT {
                            let (bufs, section) = spec_read_psi_section(
                                st.psi_buffers,
                                pid,
                                pusi,
                                rest,
                            );
                            match section {
                                Some(sec) => match spec_read_pat(sec) {
                                    Ok(pat) => lemma_register_pmt_pids(st.pids, pat.table, q),
                                    Err(_) => {},
                                },
                                None => {},
                            }
                        } else if st.pids.contains_key(pid) && st.pids[pid] == PidKind::Pmt {
                            let (bufs, section) = spec_read_psi_section(
                                st.psi_buffers,
                                pid,
                                pusi,
                                rest,
                            );
                            match section {
                                Some(sec) => match spec_read_pmt(sec) {
                                    Ok(pmt) => lemma_register_es_pids(st.pids, pmt.es_info, q),
                                    Err(_) => {},
                                },
                                None => {},
                            }
                        }
                    },
                }
            },
        }
    }
}

/// The reader after `n` packet reads.
pub open spec fn after_reads(r: SpecTsPacketReader, n: nat) -> SpecTsPacketReader
    decreases n,
{
    if n == 0 {
        r
    } else {
        spec_read_ts_packet(after_reads(r, (n - 1) as nat)).0
    }
}

/// `true` if the next packet that `r` reads lists `q` (`packet_lists_pid`).
pub open spec fn next_read_lists_pid(r: SpecTsPacketReader, q: u16) -> bool {
    match spec_read_ts_packet(r).1 {
        Ok(Some(p)) => packet_lists_pid(p, q),
        _ => false,
    }
}

/// A registration (such as one that `add_section_pid` makes) lasts through any number of
/// packet reads, as long as none of the packets read is a PAT or PMT that lists the PID.
pub proof fn lemma_pid_kind_kept_over_reads(r: SpecTsPacketReader, n: nat, q: u16)
    requires
        r.state.pids.contains_key(q),
        forall|k: nat| k < n ==> !next_read_lists_pid(#[trigger] after_reads(r, k), q),
    ensures
        after_reads(r, n).state.pids.contains_key(q),
        after_reads(r, n).state.pids[q] == r.state.pids[q],
    decreases n,
{
    if n > 0 {
        let m = (n - 1) as nat;
        lemma_pid_kind_kept_over_reads(r, m, q);
        assert(!next_read_lists_pid(after_reads(r, m), q));
        lemma_pid_kind_kept(after_reads(r, m), q);
    }
}

/// A payload on a PID registered for sections is read as a section: behind its pointer
/// field where it starts a unit, with pointer field 0 otherwise; the reader state stays.
pub proof fn lemma_section_pid_payload(st: ReaderState, pid: u16, pusi: bool, b: Seq<u8>)
    requires
        pid != Pid::PAT,
        pid != Pid::NULL,
        st.pids.contains_key(pid),
        st.pids[pid] == PidKind::Section,
        b.len() <= 184,
    ensures
        spec_read_payload(st, pid, pusi, b) == (
            st,
            Ok::<SpecTsPayload, ErrorKind>(
                SpecTsPayload::Section(
                    if pusi && b.len() > 0 {
                        SpecSection { pointer_field: b[0], data: b.skip(1) }
                    } else if pusi {
                        SpecSection { pointer_field: 0, data: Seq::empty() }
                    } else {
                        SpecSection { pointer_field: 0, data: b }
                    },
                ),
            ),
        ),
{
}

/// A payload on a PID that is neither the PAT nor the null PID and is not registered (such
/// as the network PID of a PAT) is read as raw bytes; the reader state stays.
pub proof fn lemma_unregistered_pid_payload(st: ReaderState, pid: u16, pusi: bool, b: Seq<u8>)
    requires
        pid != Pid::PAT,
        pid != Pid::NULL,
        !st.pids.contains_key(pid),
        b.len() <= 184,
    ensures
        spec_read_payload(st, pid, pusi, b) == (st, Ok::<SpecTsPayload, ErrorKind>(
            SpecTsPayload::Raw(b),
        )),
{
}

} // verus!
