use crate::error::{Error, ErrorKind, Result};
use crate::pes::packet::{optional_header_size, PesHeader, PesPacket};
use crate::ts::packet::{SpecTsPacket, SpecTsPayload, TsPayload};
use crate::ts::pes::{Pes, SpecPes};
use crate::ts::reader::ReadTsPacket;
use crate::ts::types::{Bytes, Pid};
use crate::util::write_all;
use std::collections::HashMap;
use vstd::prelude::*;
use vstd::std_specs::iter::IteratorSpec;

verus! {

broadcast use vstd::std_specs::hash::group_hash_axioms;

/// The value of a PES packet with its data in a `Vec`.
pub struct SpecPesPacket {
    pub header: PesHeader,
    pub data: Seq<u8>,
}

impl View for PesPacket<Vec<u8>> {
    type V = SpecPesPacket;

    open spec fn view(&self) -> SpecPesPacket {
        SpecPesPacket { header: self.header, data: self.data@ }
    }
}

/// A PES packet whose data is still being gathered: the data so far, and the data length
/// that its header declares (`None` where the header leaves it open).
pub struct SpecPartialPesPacket {
    pub packet: SpecPesPacket,
    pub data_len: Option<usize>,
}

/// The outcome of a step of a PES packet reader.
pub type PesOutcome = core::result::Result<Option<SpecPesPacket>, ErrorKind>;

/// The outcome that an executable result stands for.
pub open spec fn pes_outcome(r: Result<Option<PesPacket<Vec<u8>>>>) -> PesOutcome {
    match r {
        Ok(Some(p)) => Ok(Some(p@)),
        Ok(None) => Ok(None),
        Err(e) => Err(e.kind),
    }
}

/// `true` if the packet declares a data length that its data does not have.
pub open spec fn is_incomplete(p: SpecPartialPesPacket) -> bool {
    p.data_len matches Some(n) && n != p.packet.data.len()
}

/// The data length that a PES start payload declares: the PES packet length less the
/// optional header (`None` for a PES packet length of 0, which leaves it open).
pub open spec fn declared_data_len(pes: SpecPes) -> Option<usize> {
    if pes.pes_packet_len == 0 {
        None
    } else {
        Some((pes.pes_packet_len - optional_header_size(pes.header)) as usize)
    }
}

/// Handles the start of a PES packet of `pid`: the new packet takes the place of any packet of
/// `pid` being gathered, which is returned (an error if it lacks declared data). A PES packet
/// length shorter than the optional header is an error, and changes nothing.
pub open spec fn spec_pes_start(m: Map<u16, SpecPartialPesPacket>, pid: u16, pes: SpecPes) -> (
    Map<u16, SpecPartialPesPacket>,
    PesOutcome,
) {
    if pes.pes_packet_len != 0 && pes.pes_packet_len < optional_header_size(pes.header) {
        (m, Err(ErrorKind::InvalidInput))
    } else {
        let partial = SpecPartialPesPacket {
            packet: SpecPesPacket { header: pes.header, data: pes.data },
            data_len: declared_data_len(pes),
        };
        let m2 = m.insert(pid, partial);
        if !m.contains_key(pid) {
            (m2, Ok(None))
        } else if is_incomplete(m[pid]) {
            (m2, Err(ErrorKind::InvalidInput))
        } else {
            (m2, Ok(Some(m[pid].packet)))
        }
    }
}

/// Handles a continuation payload `data` of `pid`: it is appended to the packet being
/// gathered, which is returned once it has its declared length. A PID with no packet being
/// gathered, and data beyond the declared length, are errors; the packet is dropped then.
pub open spec fn spec_pes_continuation(
    m: Map<u16, SpecPartialPesPacket>,
    pid: u16,
    data: Seq<u8>,
) -> (Map<u16, SpecPartialPesPacket>, PesOutcome) {
    if !m.contains_key(pid) {
        (m, Err(ErrorKind::InvalidInput))
    } else {
        let p = m[pid];
        let packet = SpecPesPacket { header: p.packet.header, data: p.packet.data + data };
        match p.data_len {
            Some(n) if n == packet.data.len() => (m.remove(pid), Ok(Some(packet))),
            Some(n) if packet.data.len() > n => (m.remove(pid), Err(ErrorKind::InvalidInput)),
            _ => (m.insert(pid, SpecPartialPesPacket { packet, data_len: p.data_len }), Ok(None)),
        }
    }
}

/// Handles one TS packet: PES start and continuation payloads are gathered, others are passed
/// over.
pub open spec fn spec_handle_ts_packet(m: Map<u16, SpecPartialPesPacket>, p: SpecTsPacket) -> (
    Map<u16, SpecPartialPesPacket>,
    PesOutcome,
) {
    match p.payload {
        Some(SpecTsPayload::PesStart(pes)) => spec_pes_start(m, p.header.pid.value(), pes),
        Some(SpecTsPayload::PesContinuation(data)) => spec_pes_continuation(
            m,
            p.header.pid.value(),
            data,
        ),
        _ => (m, Ok(None)),
    }
}

/// The packets being gathered after handling each of `pkts` in turn.
pub open spec fn handle_ts_packets(m: Map<u16, SpecPartialPesPacket>, pkts: Seq<SpecTsPacket>) -> Map<
    u16,
    SpecPartialPesPacket,
>
    decreases pkts.len(),
{
    if pkts.len() == 0 {
        m
    } else {
        spec_handle_ts_packet(handle_ts_packets(m, pkts.drop_last()), pkts.last()).0
    }
}

/// Feeds the continuation payloads `conts` of `pid` in turn, up to the first that returns a
/// packet or fails.
pub open spec fn spec_pes_continuations(
    m: Map<u16, SpecPartialPesPacket>,
    pid: u16,
    conts: Seq<Seq<u8>>,
) -> (Map<u16, SpecPartialPesPacket>, PesOutcome)
    decreases conts.len(),
{
    if conts.len() == 0 {
        (m, Ok(None))
    } else {
        let (m1, r1) = spec_pes_continuations(m, pid, conts.drop_last());
        if r1 == Ok::<Option<SpecPesPacket>, ErrorKind>(None) {
            spec_pes_continuation(m1, pid, conts.last())
        } else {
            (m1, r1)
        }
    }
}

/// The packet of `pid` being gathered after its start payload `pes` and the first `j`
/// continuation payloads of `conts`.
pub open spec fn gathered(pes: SpecPes, conts: Seq<Seq<u8>>, j: int) -> SpecPartialPesPacket {
    SpecPartialPesPacket {
        packet: SpecPesPacket { header: pes.header, data: pes.data + conts.take(j).flatten_alt() },
        data_len: declared_data_len(pes),
    }
}

proof fn lemma_pes_gathering(
    m: Map<u16, SpecPartialPesPacket>,
    pid: u16,
    pes: SpecPes,
    conts: Seq<Seq<u8>>,
    j: int,
)
    requires
        pes.pes_packet_len != 0,
        optional_header_size(pes.header) <= pes.pes_packet_len,
        0 <= j < conts.len(),
        forall|i: int|
            0 <= i < conts.len() ==> pes.data.len() + (#[trigger] conts.take(i)).flatten_alt().len()
                < pes.pes_packet_len - optional_header_size(pes.header),
    ensures
        spec_pes_continuations(m.insert(pid, gathered(pes, conts, 0)), pid, conts.take(j)) == (
            m.insert(pid, gathered(pes, conts, j)),
            Ok::<Option<SpecPesPacket>, ErrorKind>(None),
        ),
    decreases j,
{
    let m0 = m.insert(pid, gathered(pes, conts, 0));
    if j == 0 {
        assert(conts.take(0) =~= Seq::<Seq<u8>>::empty());
    } else {
        lemma_pes_gathering(m, pid, pes, conts, j - 1);
        assert(conts.take(j).drop_last() =~= conts.take(j - 1));
        assert(conts.take(j).last() == conts[j - 1]);
        let prev = gathered(pes, conts, j - 1);
        assert(m.insert(pid, gathered(pes, conts, j - 1))[pid] == prev);
        assert(prev.packet.data + conts[j - 1] =~= gathered(pes, conts, j).packet.data);
        let _ = conts.take(j);
        assert(m.insert(pid, prev).insert(pid, gathered(pes, conts, j)) =~= m.insert(
            pid,
            gathered(pes, conts, j),
        ));
    }
}

/// A PES packet whose start payload declares a data length, and whose continuation payloads
/// bring its data to exactly that length, is returned whole by the last of them, with the
/// data of all its payloads in order; no payload before returns anything, and afterwards
/// nothing of it is left.
pub proof fn lemma_pes_reassembly(
    m: Map<u16, SpecPartialPesPacket>,
    pid: u16,
    pes: SpecPes,
    conts: Seq<Seq<u8>>,
)
    requires
        !m.contains_key(pid),
        pes.pes_packet_len != 0,
        optional_header_size(pes.header) <= pes.pes_packet_len,
        conts.len() > 0,
        forall|i: int|
            0 <= i < conts.len() ==> pes.data.len() + (#[trigger] conts.take(i)).flatten_alt().len()
                < pes.pes_packet_len - optional_header_size(pes.header),
        pes.data.len() + conts.flatten_alt().len() == pes.pes_packet_len - optional_header_size(
            pes.header,
        ),
    ensures
        spec_pes_start(m, pid, pes).1 == Ok::<Option<SpecPesPacket>, ErrorKind>(None),
        spec_pes_continuations(spec_pes_start(m, pid, pes).0, pid, conts) == (
            m,
            Ok::<Option<SpecPesPacket>, ErrorKind>(
                Some(SpecPesPacket { header: pes.header, data: pes.data + conts.flatten_alt() }),
            ),
        ),
{
    let n = conts.len() - 1;
    assert(conts.take(0) =~= Seq::<Seq<u8>>::empty());
    assert(pes.data + conts.take(0).flatten_alt() =~= pes.data);
    assert(spec_pes_start(m, pid, pes).0 == m.insert(pid, gathered(pes, conts, 0)));
    lemma_pes_gathering(m, pid, pes, conts, n);
    assert(conts.drop_last() =~= conts.take(n));
    let prev = gathered(pes, conts, n);
    assert(prev.packet.data + conts.last() =~= pes.data + conts.flatten_alt());
    assert(m.insert(pid, prev).remove(pid) =~= m);
}

/// A PES packet that leaves its data length open (PES packet length 0) is returned, with all
/// the data gathered for it, by the next start payload of its PID, which takes its place.
pub proof fn lemma_pes_unbounded_ends_at_next_start(
    m: Map<u16, SpecPartialPesPacket>,
    pid: u16,
    next: SpecPes,
)
    requires
        m.contains_key(pid),
        m[pid].data_len is None,
        next.pes_packet_len == 0 || optional_header_size(next.header) <= next.pes_packet_len,
    ensures
        spec_pes_start(m, pid, next).1 == Ok::<Option<SpecPesPacket>, ErrorKind>(
            Some(m[pid].packet),
        ),
        spec_pes_start(m, pid, next).0[pid].packet == (SpecPesPacket {
            header: next.header,
            data: next.data,
        }),
{
}

/// Handling a TS packet touches only the PES packet being gathered for the PID of that
/// packet: those of other PIDs stay as they are.
pub proof fn lemma_pes_pids_independent(
    m: Map<u16, SpecPartialPesPacket>,
    p: SpecTsPacket,
    other: u16,
)
    requires
        other != p.header.pid.value(),
    ensures
        spec_handle_ts_packet(m, p).0.contains_key(other) == m.contains_key(other),
        m.contains_key(other) ==> spec_handle_ts_packet(m, p).0[other] == m[other],
{
}

/// A PES packet being gathered is handed out whole, at the next start payload of its PID or
/// at the end of the stream, exactly when its data has the length that its header declares or
/// its header declares none; otherwise both give an `ErrorKind::InvalidInput` error.
pub proof fn lemma_pes_handed_out_when_complete(
    m: Map<u16, SpecPartialPesPacket>,
    pid: u16,
    next: SpecPes,
)
    requires
        m.contains_key(pid),
        next.pes_packet_len == 0 || optional_header_size(next.header) <= next.pes_packet_len,
    ensures
        ({
            let p = m[pid];
            let complete = match p.data_len {
                Some(n) => n as int == p.packet.data.len(),
                None => true,
            };
            let expected = if complete {
                Ok::<Option<SpecPesPacket>, ErrorKind>(Some(p.packet))
            } else {
                Err::<Option<SpecPesPacket>, ErrorKind>(ErrorKind::InvalidInput)
            };
            &&& spec_pes_start(m, pid, next).1 == expected
            &&& spec_eos_step(m, pid).1 == expected
        }),
{
}

/// `true` if handling each of `pkts` in turn returns nothing and fails nowhere.
pub open spec fn all_pending(m: Map<u16, SpecPartialPesPacket>, pkts: Seq<SpecTsPacket>) -> bool {
    forall|i: int|
        0 <= i < pkts.len() ==> (#[trigger] spec_handle_ts_packet(
            handle_ts_packets(m, pkts.take(i)),
            pkts[i],
        )).1 == Ok::<Option<SpecPesPacket>, ErrorKind>(None)
}

/// At the end of the stream, the packet of `pid` is handed out (an error if it lacks declared
/// data) and dropped.
pub open spec fn spec_eos_step(m: Map<u16, SpecPartialPesPacket>, pid: u16) -> (
    Map<u16, SpecPartialPesPacket>,
    PesOutcome,
) {
    (
        m.remove(pid),
        if is_incomplete(m[pid]) {
            Err(ErrorKind::InvalidInput)
        } else {
            Ok(Some(m[pid].packet))
        },
    )
}

/// What the end of the stream does to the packets `m` being gathered: with none, nothing is
/// returned; otherwise one of them, of whichever PID the map yields first, is handed out.
pub open spec fn eos_outcome(
    m: Map<u16, SpecPartialPesPacket>,
    m2: Map<u16, SpecPartialPesPacket>,
    r: PesOutcome,
) -> bool {
    ||| (m == Map::<u16, SpecPartialPesPacket>::empty() && m2 == m && r == Ok::<
        Option<SpecPesPacket>,
        ErrorKind,
    >(None))
    ||| exists|pid: u16| m.contains_key(pid) && (m2, r) == spec_eos_step(m, pid)
}

/// The `ReadPesPacket` trait allows for reading PES packets from a source.
pub trait ReadPesPacket {
    /// Reads a PES packet.
    ///
    /// If the end of the stream is reached, it will return `Ok(None)`.
    fn read_pes_packet(&mut self) -> Result<Option<PesPacket<Vec<u8>>>>;
}

#[derive(Debug)]
struct PartialPesPacket {
    packet: PesPacket<Vec<u8>>,
    data_len: Option<usize>,
}

impl View for PartialPesPacket {
    type V = SpecPartialPesPacket;

    closed spec fn view(&self) -> SpecPartialPesPacket {
        SpecPartialPesPacket { packet: self.packet@, data_len: self.data_len }
    }
}

/// The packets being gathered, by their values.
spec fn partials_view(m: Map<u16, PartialPesPacket>) -> Map<u16, SpecPartialPesPacket> {
    m.map_values(|p: PartialPesPacket| p@)
}

/// The first item of a sequence of references is in the set of the values they refer to.
broadcast proof fn lemma_unref_head_in_set<T>(s: Seq<&T>)
    requires
        s.len() > 0,
    ensures
        #[trigger] s.unref().to_set().contains(*s[0]),
{
    assert(s.unref()[0] == *s[0]);
    assert(s.unref().contains(*s[0]));
}

/// The first item of `it`, if it has one.
fn first_item<I: Iterator>(it: I) -> (r: Option<I::Item>)
    ensures
        it.obeys_prophetic_iter_laws() ==> if it.remaining().len() > 0 {
            r == Some(it.remaining()[0])
        } else {
            r is None
        },
{
    let mut it = it;
    it.next()
}

/// PES packet reader.
pub struct PesPacketReader<R> {
    ts_packet_reader: R,
    pes_packets: HashMap<u16, PartialPesPacket>,
    eos: bool,
    received: Ghost<Seq<SpecTsPacket>>,
}

impl<R: ReadTsPacket> PesPacketReader<R> {
    /// The TS packet reader underneath.
    pub closed spec fn inner(&self) -> R {
        self.ts_packet_reader
    }

    /// The PES packets being gathered, by PID.
    pub closed spec fn partials(&self) -> Map<u16, SpecPartialPesPacket> {
        partials_view(self.pes_packets@)
    }

    /// `true` once the TS packet reader has reached its end.
    pub closed spec fn at_eos(&self) -> bool {
        self.eos
    }

    /// The TS packets that the TS packet reader underneath has returned to this reader so
    /// far, in order.
    pub closed spec fn received(&self) -> Seq<SpecTsPacket> {
        self.received@
    }

    /// Makes a new `PesPacketReader` instance.
    pub fn new(ts_packet_reader: R) -> (r: Self)
        ensures
            r.inner() == ts_packet_reader,
            r.partials() == Map::<u16, SpecPartialPesPacket>::empty(),
            !r.at_eos(),
            r.received() == Seq::<SpecTsPacket>::empty(),
    {
        let r = PesPacketReader {
            ts_packet_reader,
            pes_packets: HashMap::new(),
            eos: false,
            received: Ghost(Seq::empty()),
        };
        assert(r.partials() =~= Map::<u16, SpecPartialPesPacket>::empty());
        r
    }

    /// Returns a reference to the underlaying TS packet reader.
    pub fn ts_packet_reader(&self) -> (r: &R)
        ensures
            *r == self.inner(),
    {
        &self.ts_packet_reader
    }

    /// Converts `PesPacketReader` into the underlaying TS packet reader.
    pub fn into_ts_packet_reader(self) -> (r: R)
        ensures
            r == self.inner(),
    {
        self.ts_packet_reader
    }

    /// Hands out one of the packets being gathered, as `eos_outcome` says.
    fn handle_eos(&mut self) -> (r: Result<Option<PesPacket<Vec<u8>>>>)
        ensures
            eos_outcome(old(self).partials(), final(self).partials(), pes_outcome(r)),
            final(self).inner() == old(self).inner(),
            final(self).at_eos() == old(self).at_eos(),
            final(self).received() == old(self).received(),
    {
        let first = first_item(self.pes_packets.keys());
        assert(first matches Some(k) ==> self.pes_packets@.contains_key(*k)) by {
            broadcast use lemma_unref_head_in_set;
        }
        assert(first is None ==> self.pes_packets@.dom() =~= Set::<u16>::empty());
        let key = match first {
            Some(k) => *k,
            None => {
                proof {
                    assert(self.pes_packets@.dom() =~= Set::<u16>::empty());
                    assert(self.partials() =~= Map::<u16, SpecPartialPesPacket>::empty());
                }
                return Ok(None);
            },
        };
        assert(self.pes_packets@.contains_key(key));
        let ghost m = self.partials();
        let partial = match self.pes_packets.remove(&key) {
            Some(p) => p,
            None => {
                return Ok(None);
            },
        };
        assert(self.partials() =~= m.remove(key));
        assert(m[key] == partial@);
        let incomplete = match partial.data_len {
            Some(n) => n != partial.packet.data.len(),
            None => false,
        };
        if incomplete {
            let r = Err(Error::invalid_input("Unexpected EOS"));
            assert((self.partials(), pes_outcome(r)) == spec_eos_step(m, key));
            return r;
        }
        let r = Ok(Some(partial.packet));
        assert((self.partials(), pes_outcome(r)) == spec_eos_step(m, key));
        r
    }

    /// Handles the start of a PES packet of `pid`, as `spec_pes_start` says.
    fn handle_pes_start_payload(&mut self, pid: Pid, pes: Pes) -> (r: Result<
        Option<PesPacket<Vec<u8>>>,
    >)
        ensures
            (final(self).partials(), pes_outcome(r)) == spec_pes_start(
                old(self).partials(),
                pid.value(),
                pes@,
            ),
            final(self).inner() == old(self).inner(),
            final(self).at_eos() == old(self).at_eos(),
            final(self).received() == old(self).received(),
    {
        let data_len = if pes.pes_packet_len == 0 {
            None
        } else {
            let optional_header_len = pes.header.optional_header_len();
            if pes.pes_packet_len < optional_header_len {
                return Err(Error::invalid_input("PES packet length shorter than its header"));
            }
            Some((pes.pes_packet_len - optional_header_len) as usize)
        };
        let mut data = Vec::new();
        write_all(&mut data, pes.data.as_slice());
        let packet = PesPacket { header: pes.header, data };
        let partial = PartialPesPacket { packet, data_len };
        let ghost m = self.partials();
        let ghost new_partial = partial@;
        let pred = self.pes_packets.insert(pid.as_u16(), partial);
        assert(self.partials() =~= m.insert(pid.value(), new_partial));
        match pred {
            Some(pred) => {
                let incomplete = match pred.data_len {
                    Some(n) => n != pred.packet.data.len(),
                    None => false,
                };
                if incomplete {
                    return Err(Error::invalid_input("Mismatched PES packet data length"));
                }
                Ok(Some(pred.packet))
            },
            None => Ok(None),
        }
    }

    /// Handles a continuation payload of `pid`, as `spec_pes_continuation` says.
    fn handle_pes_continuation_payload(&mut self, pid: Pid, data: &Bytes) -> (r: Result<
        Option<PesPacket<Vec<u8>>>,
    >)
        ensures
            (final(self).partials(), pes_outcome(r)) == spec_pes_continuation(
                old(self).partials(),
                pid.value(),
                data@,
            ),
            final(self).inner() == old(self).inner(),
            final(self).at_eos() == old(self).at_eos(),
            final(self).received() == old(self).received(),
    {
        let ghost m = self.partials();
        let key = pid.as_u16();
        let mut partial = match self.pes_packets.remove(&key) {
            Some(p) => p,
            None => {
                return Err(Error::invalid_input("PES packet not found for PID"));
            },
        };
        assert(self.partials() =~= m.remove(key));
        write_all(&mut partial.packet.data, data.as_slice());
        let len = partial.packet.data.len();
        match partial.data_len {
            Some(n) => {
                if n == len {
                    return Ok(Some(partial.packet));
                }
                if len > n {
                    return Err(Error::invalid_input("Too large PES packet data"));
                }
            },
            None => {},
        }
        let ghost p = partial@;
        self.pes_packets.insert(key, partial);
        assert(self.partials() =~= m.insert(key, p));
        Ok(None)
    }

    /// Handles one TS packet as `read_pes_packet` does with each packet that it reads, as
    /// `spec_handle_ts_packet` says: a PES start or continuation payload is gathered, and a
    /// PES packet that it completes (or that a new start ends) is returned.
    pub fn handle_ts_packet(&mut self, packet: crate::ts::packet::TsPacket) -> (r: Result<
        Option<PesPacket<Vec<u8>>>,
    >)
        ensures
            (final(self).partials(), pes_outcome(r)) == spec_handle_ts_packet(
                old(self).partials(),
                packet@,
            ),
            final(self).inner() == old(self).inner(),
            final(self).at_eos() == old(self).at_eos(),
            final(self).received() == old(self).received(),
    {
        let pid = packet.header.pid;
        match packet.payload {
            Some(TsPayload::PesStart(payload)) => self.handle_pes_start_payload(pid, payload),
            Some(TsPayload::PesContinuation(payload)) => self.handle_pes_continuation_payload(
                pid,
                &payload,
            ),
            _ => Ok(None),
        }
    }
}

/// `true` if reads from the TS packet reader `from` that return the packets `pkts`, one by
/// one, may lead to `to` (`ReadTsPacket::reads`).
pub open spec fn reads_packets<R: ReadTsPacket>(from: R, to: R, pkts: Seq<SpecTsPacket>) -> bool {
    exists|states: Seq<R>|
        #![trigger states[0]]
        states.len() == pkts.len() + 1 && states[0] == from && states[pkts.len() as int] == to
            && forall|i: int|
            #![trigger pkts[i]]
            0 <= i < pkts.len() ==> states[i].reads(
                &states[i + 1],
                Ok::<Option<SpecTsPacket>, ErrorKind>(Some(pkts[i])),
            )
}

/// What reading a PES packet does to a reader that has not reached the end of its TS
/// packets, where the TS packet reader goes from `from` to `to` and `pkts` are the TS packets
/// that it returned in this call: either all of them are gathered with nothing to return and
/// then the TS packet reader fails with the error returned; or all but the last are gathered
/// with nothing to return and the last gives the packet or error returned; or all of them
/// are gathered with nothing to return, the TS packet reader ends, and the end of the stream
/// is handled.
pub open spec fn read_outcome<R: ReadTsPacket>(
    from: R,
    to: R,
    m: Map<u16, SpecPartialPesPacket>,
    m2: Map<u16, SpecPartialPesPacket>,
    eos2: bool,
    pkts: Seq<SpecTsPacket>,
    r: PesOutcome,
) -> bool {
    ||| (!eos2 && all_pending(m, pkts) && m2 == handle_ts_packets(m, pkts) && r is Err
        && exists|mid: R|
        #![trigger reads_packets(from, mid, pkts)]
        reads_packets(from, mid, pkts) && mid.reads(
            &to,
            Err::<Option<SpecTsPacket>, ErrorKind>(r->Err_0),
        ))
    ||| (!eos2 && pkts.len() > 0 && r != Ok::<Option<SpecPesPacket>, ErrorKind>(None)
        && all_pending(m, pkts.drop_last()) && (m2, r) == spec_handle_ts_packet(
        handle_ts_packets(m, pkts.drop_last()),
        pkts.last(),
    ) && reads_packets(from, to, pkts))
    ||| (eos2 && all_pending(m, pkts) && eos_outcome(handle_ts_packets(m, pkts), m2, r)
        && exists|mid: R|
        #![trigger reads_packets(from, mid, pkts)]
        reads_packets(from, mid, pkts) && mid.reads(
            &to,
            Ok::<Option<SpecTsPacket>, ErrorKind>(None),
        ))
}

proof fn lemma_handle_ts_packets_push(
    m: Map<u16, SpecPartialPesPacket>,
    pkts: Seq<SpecTsPacket>,
    p: SpecTsPacket,
)
    requires
        all_pending(m, pkts),
        spec_handle_ts_packet(handle_ts_packets(m, pkts), p).1 == Ok::<
            Option<SpecPesPacket>,
            ErrorKind,
        >(None),
    ensures
        handle_ts_packets(m, pkts.push(p)) == spec_handle_ts_packet(handle_ts_packets(m, pkts), p).0,
        all_pending(m, pkts.push(p)),
{
    assert(pkts.push(p).drop_last() =~= pkts);
    assert forall|i: int| 0 <= i < pkts.push(p).len() implies (#[trigger] spec_handle_ts_packet(
        handle_ts_packets(m, pkts.push(p).take(i)),
        pkts.push(p)[i],
    )).1 == Ok::<Option<SpecPesPacket>, ErrorKind>(None) by {
        if i < pkts.len() {
            assert(pkts.push(p).take(i) =~= pkts.take(i));
        } else {
            assert(pkts.push(p).take(i) =~= pkts);
        }
    }
}

impl<R: ReadTsPacket> ReadPesPacket for PesPacketReader<R> {
    /// Reads the next PES packet. Each TS packet that the TS packet reader returns is added
    /// to `received` and handled as `handle_ts_packet` does, until one gives a packet or an
    /// error, or the TS packet reader fails or ends (`read_outcome`). Once it has ended, the
    /// packets still being gathered are handed out one by one (`eos_outcome`), and the TS
    /// packet reader is not called again.
    fn read_pes_packet(&mut self) -> (r: Result<Option<PesPacket<Vec<u8>>>>)
        ensures
            old(self).received().len() <= final(self).received().len(),
            final(self).received().take(old(self).received().len() as int) == old(
                self,
            ).received(),
            old(self).at_eos() ==> {
                &&& final(self).at_eos()
                &&& final(self).inner() == old(self).inner()
                &&& final(self).received() == old(self).received()
                &&& eos_outcome(old(self).partials(), final(self).partials(), pes_outcome(r))
            },
            !old(self).at_eos() ==> read_outcome(
                old(self).inner(),
                final(self).inner(),
                old(self).partials(),
                final(self).partials(),
                final(self).at_eos(),
                final(self).received().skip(old(self).received().len() as int),
                pes_outcome(r),
            ),
    {
        if self.eos {
            return self.handle_eos();
        }
        let ghost m0 = self.partials();
        let ghost r0 = self.received();
        let ghost s0 = self.inner();
        let ghost mut pkts: Seq<SpecTsPacket> = Seq::empty();
        let ghost mut states: Seq<R> = seq![s0];
        assert(pkts.take(0) =~= pkts);
        assert(r0 + pkts =~= r0);
        loop
            invariant
                !self.eos,
                m0 == old(self).partials(),
                r0 == old(self).received(),
                s0 == old(self).inner(),
                !old(self).at_eos(),
                all_pending(m0, pkts),
                self.partials() == handle_ts_packets(m0, pkts),
                self.received() == r0 + pkts,
                states.len() == pkts.len() + 1,
                states[0] == s0,
                states[pkts.len() as int] == self.inner(),
                forall|i: int|
                    #![trigger pkts[i]]
                    0 <= i < pkts.len() ==> states[i].reads(
                        &states[i + 1],
                        Ok::<Option<SpecTsPacket>, ErrorKind>(Some(pkts[i])),
                    ),
            decreases self.ts_packet_reader.remaining_len(),
        {
            let ghost before_read = self.inner();
            let next = self.ts_packet_reader.read_ts_packet();
            match next {
                Err(e) => {
                    assert((r0 + pkts).skip(r0.len() as int) =~= pkts);
                    assert((r0 + pkts).take(r0.len() as int) =~= r0);
                    assert(states[0] == s0);
                    assert(reads_packets(s0, before_read, pkts));
                    return Err(e);
                },
                Ok(None) => {
                    assert(states[0] == s0);
                    assert(reads_packets(s0, before_read, pkts));
                    self.eos = true;
                    let ghost mid = self.partials();
                    let r = self.handle_eos();
                    assert(eos_outcome(mid, self.partials(), pes_outcome(r)));
                    assert((r0 + pkts).skip(r0.len() as int) =~= pkts);
                    assert((r0 + pkts).take(r0.len() as int) =~= r0);
                    return r;
                },
                Ok(Some(ts_packet)) => {
                    let ghost p = ts_packet@;
                    proof {
                        let old_pkts = pkts;
                        let old_states = states;
                        states = states.push(self.inner());
                        assert(states[0] == old_states[0]);
                        assert forall|i: int|
                            #![trigger old_pkts.push(p)[i]]
                            0 <= i < old_pkts.push(p).len() implies states[i].reads(
                            &states[i + 1],
                            Ok::<Option<SpecTsPacket>, ErrorKind>(Some(old_pkts.push(p)[i])),
                        ) by {
                            if i < old_pkts.len() {
                                assert(old_pkts[i] == old_pkts.push(p)[i]);
                                assert(states[i] == old_states[i]);
                                assert(states[i + 1] == old_states[i + 1]);
                            }
                        }
                    }
                    self.received = Ghost(self.received@.push(p));
                    let ghost before = self.partials();
                    let result = self.handle_ts_packet(ts_packet);
                    let done = match &result {
                        Ok(None) => false,
                        _ => true,
                    };
                    if done {
                        proof {
                            let all = pkts.push(p);
                            assert(states.len() == all.len() + 1);
                            assert(states[0] == s0);
                            assert(states[all.len() as int] == self.inner());
                            assert(reads_packets(s0, self.inner(), all));
                            assert(self.received() =~= r0 + all);
                            assert((r0 + all).skip(r0.len() as int) =~= all);
                            assert((r0 + all).take(r0.len() as int) =~= r0);
                            assert(all.drop_last() =~= pkts);
                            assert(all.last() == p);
                        }
                        return result;
                    }
                    proof {
                        lemma_handle_ts_packets_push(m0, pkts, p);
                        pkts = pkts.push(p);
                        assert(self.received() =~= r0 + pkts);
                    }
                },
            }
        }
    }
}

} // verus!
