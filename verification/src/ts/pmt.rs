use crate::error::{Error, ErrorKind, Result};
use crate::es::stream_type::{spec_stream_type, stream_type_code, StreamType};
use crate::ts::psi::{psi_write, single_table, spec_read_psi, spec_single_table_syntax, Psi, SpecPsiTable};
use crate::ts::types::{pid_bytes, spec_read_pid, Pid, VersionNumber};
use crate::util::{be_u16, be_u16_at, read_as, skip, take, u16_bytes, write_all, Parsed, WriteBytesExt};
use vstd::prelude::*;

verus! {

broadcast use Pid::lemma_from_value, Pid::lemma_value_ext;

/// Payload for PMT (Program Map Table) packets.
#[derive(Debug, Clone, PartialEq, Eq, Hash)]
pub struct Pmt {
    pub program_num: u16,
    /// Packet identifier that contains the program clock reference (PCR) of this program.
    pub pcr_pid: Option<Pid>,
    pub version_number: VersionNumber,
    pub program_info: Vec<Descriptor>,
    pub es_info: Vec<EsInfo>,
}

/// Program or elementary stream descriptor.
#[derive(Debug, Clone, PartialEq, Eq, Hash)]
pub struct Descriptor {
    pub tag: u8,
    pub data: Vec<u8>,
}

/// Elementary stream information.
#[derive(Debug, Clone, PartialEq, Eq, Hash)]
pub struct EsInfo {
    pub stream_type: StreamType,
    /// Packet identifier that contains the stream type data.
    pub elementary_pid: Pid,
    pub descriptors: Vec<Descriptor>,
}

/// The value of a `Descriptor`.
#[verifier::ext_equal]
pub struct SpecDescriptor {
    pub tag: u8,
    pub data: Seq<u8>,
}

/// The value of an `EsInfo`.
#[verifier::ext_equal]
pub struct SpecEsInfo {
    pub stream_type: StreamType,
    pub elementary_pid: Pid,
    pub descriptors: Seq<SpecDescriptor>,
}

/// The value of a `Pmt`.
#[verifier::ext_equal]
pub struct SpecPmt {
    pub program_num: u16,
    pub pcr_pid: Option<Pid>,
    pub version_number: VersionNumber,
    pub program_info: Seq<SpecDescriptor>,
    pub es_info: Seq<SpecEsInfo>,
}

impl View for Descriptor {
    type V = SpecDescriptor;

    open spec fn view(&self) -> SpecDescriptor {
        SpecDescriptor { tag: self.tag, data: self.data@ }
    }
}

/// The values of descriptors.
pub open spec fn descriptors_view(ds: Seq<Descriptor>) -> Seq<SpecDescriptor> {
    ds.map_values(|d: Descriptor| d@)
}

impl View for EsInfo {
    type V = SpecEsInfo;

    open spec fn view(&self) -> SpecEsInfo {
        SpecEsInfo {
            stream_type: self.stream_type,
            elementary_pid: self.elementary_pid,
            descriptors: descriptors_view(self.descriptors@),
        }
    }
}

impl View for Pmt {
    type V = SpecPmt;

    open spec fn view(&self) -> SpecPmt {
        SpecPmt {
            program_num: self.program_num,
            pcr_pid: self.pcr_pid,
            version_number: self.version_number,
            program_info: descriptors_view(self.program_info@),
            es_info: self.es_info@.map_values(|e: EsInfo| e@),
        }
    }
}

/// The table id of a PMT.
pub open spec fn pmt_table_id() -> u8 {
    2
}

// ---------------------------------------------------------------- reading

/// A descriptor read from the front of `s`.
pub open spec fn spec_read_descriptor(s: Seq<u8>) -> Parsed<SpecDescriptor> {
    if s.len() < 2 || s.len() < 2 + s[1] {
        Err(ErrorKind::Other)
    } else {
        Ok((SpecDescriptor { tag: s[0], data: s.subrange(2, 2 + s[1]) }, 2 + s[1]))
    }
}

/// The descriptors that make up all of `r`.
pub open spec fn spec_read_descriptors(r: Seq<u8>) -> core::result::Result<
    Seq<SpecDescriptor>,
    ErrorKind,
>
    decreases r.len(),
{
    if r.len() == 0 {
        Ok(Seq::empty())
    } else if r.len() < 2 || r.len() < 2 + r[1] {
        Err(ErrorKind::Other)
    } else {
        match spec_read_descriptors(r.skip(2 + r[1])) {
            Err(k) => Err(k),
            Ok(ds) => Ok(seq![spec_read_descriptor(r)->Ok_0.0] + ds),
        }
    }
}

/// A descriptor loop of `len` bytes read from the front of `s`.
pub open spec fn spec_read_descriptor_loop(s: Seq<u8>, len: u16) -> Parsed<Seq<SpecDescriptor>> {
    if s.len() < len {
        Err(ErrorKind::Other)
    } else {
        match spec_read_descriptors(s.take(len as int)) {
            Err(k) => Err(k),
            Ok(ds) => Ok((ds, len as int)),
        }
    }
}

/// A length field read from the front of `s`: four reserved one bits, two unused zero bits,
/// then a 10-bit length.
pub open spec fn spec_read_length_field(s: Seq<u8>) -> Parsed<u16> {
    if s.len() < 2 {
        Err(ErrorKind::Other)
    } else if be_u16(s, 0) & 0xF000 != 0xF000 {
        Err(ErrorKind::InvalidInput)
    } else if be_u16(s, 0) & 0x0C00 != 0 {
        Err(ErrorKind::InvalidInput)
    } else {
        Ok((be_u16(s, 0) & 0x03FF, 2))
    }
}

/// Elementary stream information read from the front of `s`.
pub open spec fn spec_read_es_info(s: Seq<u8>) -> Parsed<SpecEsInfo> {
    if s.len() < 1 {
        Err(ErrorKind::Other)
    } else if spec_stream_type(s[0]).is_none() {
        Err(ErrorKind::InvalidInput)
    } else {
        match spec_read_pid(s.skip(1)) {
            Err(k) => Err(k),
            Ok((pid, _)) => match spec_read_length_field(s.skip(3)) {
                Err(k) => Err(k),
                Ok((len, _)) => match spec_read_descriptor_loop(s.skip(5), len) {
                    Err(k) => Err(k),
                    Ok((ds, _)) => Ok(
                        (
                            SpecEsInfo {
                                stream_type: spec_stream_type(s[0]).unwrap(),
                                elementary_pid: pid,
                                descriptors: ds,
                            },
                            5 + len,
                        ),
                    ),
                },
            },
        }
    }
}

/// The elementary stream informations that make up all of `r`.
pub open spec fn spec_read_es_infos(r: Seq<u8>) -> core::result::Result<Seq<SpecEsInfo>, ErrorKind>
    decreases r.len(),
{
    if r.len() == 0 {
        Ok(Seq::empty())
    } else {
        match spec_read_es_info(r) {
            Err(k) => Err(k),
            Ok((e, n)) => if 0 < n <= r.len() {
                match spec_read_es_infos(r.skip(n)) {
                    Err(k) => Err(k),
                    Ok(es) => Ok(seq![e] + es),
                }
            } else {
                // an entry takes at least its five fixed bytes and at most what is there
                Err(ErrorKind::Other)
            },
        }
    }
}

/// The PCR PID field: the null PID stands for no PCR.
pub open spec fn pcr_pid_of(pid: Pid) -> Option<Pid> {
    if pid.value() == 0x1FFF {
        None
    } else {
        Some(pid)
    }
}

/// A PMT read from a whole section buffer.
pub open spec fn spec_read_pmt(s: Seq<u8>) -> core::result::Result<SpecPmt, ErrorKind> {
    match spec_read_psi(s) {
        Err(k) => Err(k),
        Ok(ts) => match spec_single_table_syntax(ts, pmt_table_id()) {
            Err(k) => Err(k),
            Ok(syntax) => {
                let d = syntax.table_data;
                match spec_read_pid(d) {
                    Err(k) => Err(k),
                    Ok((pcr, _)) => match spec_read_length_field(d.skip(2)) {
                        Err(k) => Err(k),
                        Ok((len, _)) => match spec_read_descriptor_loop(d.skip(4), len) {
                            Err(k) => Err(k),
                            Ok((info, _)) => match spec_read_es_infos(d.skip(4 + len)) {
                                Err(k) => Err(k),
                                Ok(es) => Ok(
                                    SpecPmt {
                                        program_num: syntax.table_id_extension,
                                        pcr_pid: pcr_pid_of(pcr),
                                        version_number: syntax.version_number,
                                        program_info: info,
                                        es_info: es,
                                    },
                                ),
                            },
                        },
                    },
                }
            },
        },
    }
}

// ---------------------------------------------------------------- writing

/// The bytes of a descriptor.
pub open spec fn descriptor_bytes(d: SpecDescriptor) -> Seq<u8> {
    seq![d.tag, d.data.len() as u8] + d.data
}

/// The bytes of descriptors, one after the other.
pub open spec fn descriptors_bytes(ds: Seq<SpecDescriptor>) -> Seq<u8>
    decreases ds.len(),
{
    if ds.len() == 0 {
        Seq::empty()
    } else {
        descriptors_bytes(ds.drop_last()) + descriptor_bytes(ds.last())
    }
}

/// `true` if a descriptor's data is too long for its length byte.
pub open spec fn descriptors_write_fail(ds: Seq<SpecDescriptor>) -> bool {
    exists|i: int| 0 <= i < ds.len() && (#[trigger] ds[i]).data.len() > 255
}

/// The bytes of a length field holding `len`.
pub open spec fn length_field_bytes(len: int) -> Seq<u8> {
    u16_bytes((0xF000 | len as u16) as u16)
}

/// `true` if writing the elementary stream information fails: its descriptor loop is longer
/// than a length field holds, or a descriptor fails.
pub open spec fn es_info_write_fails(e: SpecEsInfo) -> bool {
    descriptors_bytes(e.descriptors).len() > 0x3FF || descriptors_write_fail(e.descriptors)
}

/// The bytes of elementary stream information.
pub open spec fn es_info_bytes(e: SpecEsInfo) -> Seq<u8> {
    seq![stream_type_code(e.stream_type)] + pid_bytes(e.elementary_pid) + length_field_bytes(
        descriptors_bytes(e.descriptors).len() as int,
    ) + descriptors_bytes(e.descriptors)
}

/// The bytes of elementary stream informations, one after the other.
pub open spec fn es_infos_bytes(es: Seq<SpecEsInfo>) -> Seq<u8>
    decreases es.len(),
{
    if es.len() == 0 {
        Seq::empty()
    } else {
        es_infos_bytes(es.drop_last()) + es_info_bytes(es.last())
    }
}

/// The PID written in the PCR PID field: the null PID stands for no PCR.
pub open spec fn pcr_pid_field(pcr: Option<Pid>) -> Pid {
    match pcr {
        Some(p) => p,
        None => Pid::from_value(0x1FFF),
    }
}

/// `true` if building the table data of the PMT fails.
pub open spec fn pmt_data_write_fails(p: SpecPmt) -> bool {
    ||| descriptors_bytes(p.program_info).len() > 0x3FF
    ||| descriptors_write_fail(p.program_info)
    ||| exists|i: int| 0 <= i < p.es_info.len() && es_info_write_fails(#[trigger] p.es_info[i])
}

/// The table data of a PMT.
pub open spec fn pmt_table_data(p: SpecPmt) -> Seq<u8> {
    pid_bytes(pcr_pid_field(p.pcr_pid)) + length_field_bytes(
        descriptors_bytes(p.program_info).len() as int,
    ) + descriptors_bytes(p.program_info) + es_infos_bytes(p.es_info)
}

/// The PSI that a PMT is written as.
pub open spec fn pmt_psi(p: SpecPmt) -> Seq<SpecPsiTable> {
    seq![single_table(pmt_table_id(), p.program_num, p.version_number, pmt_table_data(p))]
}

/// What writing a PMT gives: the bytes written and whether it fails (`None` when the table
/// data cannot be built, and nothing is written).
pub open spec fn pmt_write(p: SpecPmt) -> Option<(Seq<u8>, bool)> {
    if pmt_data_write_fails(p) {
        None
    } else {
        Some(psi_write(pmt_psi(p)))
    }
}

proof fn lemma_descriptors_bytes_prefix(ds: Seq<SpecDescriptor>, i: int)
    requires
        0 <= i <= ds.len(),
    ensures
        descriptors_bytes(ds.take(i)).len() <= descriptors_bytes(ds).len(),
    decreases ds.len() - i,
{
    if i < ds.len() {
        lemma_descriptors_bytes_prefix(ds, i + 1);
        assert(ds.take(i + 1).drop_last() =~= ds.take(i));
    } else {
        assert(ds.take(i) =~= ds);
    }
}

// ---------------------------------------------------------------- exec

/// Reads a descriptor loop of `len` bytes.
fn read_descriptor_loop(reader: &mut &[u8], len: u16) -> (r: Result<Vec<Descriptor>>)
    ensures
        match r {
            Ok(ds) => read_as(
                spec_read_descriptor_loop(old(reader)@, len),
                old(reader)@,
                final(reader)@,
                descriptors_view(ds@),
            ),
            Err(e) => spec_read_descriptor_loop(old(reader)@, len) == Err::<
                (Seq<SpecDescriptor>, int),
                ErrorKind,
            >(e.kind),
        },
{
    let s: &[u8] = *reader;
    if s.len() < len as usize {
        return Err(Error::end_of_input());
    }
    let region = take(s, len as usize);
    let mut rd: &[u8] = region;
    let mut ds: Vec<Descriptor> = Vec::new();
    while rd.len() > 0
        invariant
            s@ == old(reader)@,
            s@.len() >= len,
            region@ == s@.take(len as int),
            spec_read_descriptors(region@) == match spec_read_descriptors(rd@) {
                Ok(xs) => Ok(descriptors_view(ds@) + xs),
                Err(k) => Err(k),
            },
        decreases rd@.len(),
    {
        let d = Descriptor::read_from(&mut rd)?;
        proof {
            match spec_read_descriptors(rd@) {
                Ok(xs) => {
                    assert(descriptors_view(ds@) + (seq![d@] + xs) =~= descriptors_view(
                        ds@.push(d),
                    ) + xs);
                },
                Err(_) => {},
            }
        }
        ds.push(d);
    }
    assert(descriptors_view(ds@) + Seq::<SpecDescriptor>::empty() =~= descriptors_view(ds@));
    *reader = skip(s, len as usize);
    Ok(ds)
}

/// Reads a length field.
fn read_length_field(reader: &mut &[u8]) -> (r: Result<u16>)
    ensures
        match r {
            Ok(n) => read_as(spec_read_length_field(old(reader)@), old(reader)@, final(reader)@, n),
            Err(e) => spec_read_length_field(old(reader)@) == Err::<(u16, int), ErrorKind>(e.kind),
        },
{
    let s: &[u8] = *reader;
    if s.len() < 2 {
        return Err(Error::end_of_input());
    }
    let n = be_u16_at(s, 0);
    if (n & 0b1111_0000_0000_0000) != 0b1111_0000_0000_0000 {
        return Err(Error::invalid_input("Unexpected reserved bits"));
    }
    if (n & 0b0000_1100_0000_0000) != 0 {
        return Err(Error::invalid_input("Unexpected length unused bits"));
    }
    *reader = skip(s, 2);
    Ok(n & 0b0000_0011_1111_1111)
}

/// Writes a length field holding `len`.
fn write_length_field(out: &mut Vec<u8>, len: usize)
    requires
        len <= 0x3FF,
    ensures
        final(out)@ == old(out)@ + length_field_bytes(len as int),
{
    out.write_u16(0b1111_0000_0000_0000 | len as u16);
}

/// Writes descriptors, checking first that each fits its length byte and that all fit in a
/// length field.
fn write_descriptors(out: &mut Vec<u8>, ds: &Vec<Descriptor>) -> (r: Result<()>)
    ensures
        match r {
            Ok(_) => !descriptors_write_fail(descriptors_view(ds@)) && descriptors_bytes(
                descriptors_view(ds@),
            ).len() <= 0x3FF && final(out)@ == old(out)@ + length_field_bytes(
                descriptors_bytes(descriptors_view(ds@)).len() as int,
            ) + descriptors_bytes(descriptors_view(ds@)),
            Err(e) => (descriptors_write_fail(descriptors_view(ds@)) || descriptors_bytes(
                descriptors_view(ds@),
            ).len() > 0x3FF) && e.kind == ErrorKind::InvalidInput && final(out)@ == old(out)@,
        },
{
    let ghost v = descriptors_view(ds@);
    let mut size: usize = 0;
    let mut i: usize = 0;
    while i < ds.len()
        invariant
            v == descriptors_view(ds@),
            i <= ds@.len(),
            size == descriptors_bytes(v.take(i as int)).len(),
            size <= 0x3FF,
            forall|j: int| 0 <= j < i ==> (#[trigger] v[j]).data.len() <= 255,
        decreases ds@.len() - i,
    {
        assert(v.take(i + 1).drop_last() =~= v.take(i as int));
        assert(v.take(i + 1).last() == v[i as int]);
        if ds[i].data.len() > 255 {
            return Err(Error::invalid_input("Too large descriptor data"));
        }
        size = size + 2 + ds[i].data.len();
        if size > 0x3FF {
            proof {
                lemma_descriptors_bytes_prefix(v, i + 1);
            }
            return Err(Error::invalid_input("Too large descriptor loop"));
        }
        i = i + 1;
    }
    assert(v.take(i as int) =~= v);
    write_length_field(out, size);
    let ghost head = out@;
    let mut i: usize = 0;
    while i < ds.len()
        invariant
            v == descriptors_view(ds@),
            i <= ds@.len(),
            forall|j: int| 0 <= j < ds@.len() ==> (#[trigger] v[j]).data.len() <= 255,
            out@ == head + descriptors_bytes(v.take(i as int)),
        decreases ds@.len() - i,
    {
        assert(v.take(i + 1).drop_last() =~= v.take(i as int));
        assert(v.take(i + 1).last() == v[i as int]);
        ds[i].write_to(out);
        i = i + 1;
        assert(out@ =~= head + descriptors_bytes(v.take(i as int)));
    }
    assert(v.take(i as int) =~= v);
    Ok(())
}

impl Descriptor {
    /// Reads a descriptor.
    pub fn read_from(reader: &mut &[u8]) -> (r: Result<Self>)
        ensures
            match r {
                Ok(d) => read_as(spec_read_descriptor(old(reader)@), old(reader)@, final(reader)@, d@),
                Err(e) => spec_read_descriptor(old(reader)@) == Err::<(SpecDescriptor, int), ErrorKind>(
                    e.kind,
                ) && final(reader)@.len() == 0,
            },
    {
        let s: &[u8] = *reader;
        if s.len() < 2 || s.len() < 2 + s[1] as usize {
            *reader = skip(s, s.len());
            return Err(Error::end_of_input());
        }
        let tag = s[0];
        let len = s[1] as usize;
        let mut data = Vec::new();
        write_all(&mut data, take(skip(s, 2), len));
        assert(data@ =~= s@.subrange(2, 2 + len));
        *reader = skip(s, 2 + len);
        Ok(Descriptor { tag, data })
    }

    /// Writes the descriptor; its data must fit its length byte.
    pub fn write_to(&self, out: &mut Vec<u8>)
        requires
            self.data@.len() <= 255,
        ensures
            final(out)@ == old(out)@ + descriptor_bytes(self@),
    {
        out.write_u8(self.tag);
        out.write_u8(self.data.len() as u8);
        write_all(out, self.data.as_slice());
        assert(out@ =~= old(out)@ + descriptor_bytes(self@));
    }
}

impl EsInfo {
    /// Reads elementary stream information.
    pub fn read_from(reader: &mut &[u8]) -> (r: Result<Self>)
        ensures
            match r {
                Ok(e) => read_as(spec_read_es_info(old(reader)@), old(reader)@, final(reader)@, e@),
                Err(e) => spec_read_es_info(old(reader)@) == Err::<(SpecEsInfo, int), ErrorKind>(
                    e.kind,
                ),
            },
    {
        let s: &[u8] = *reader;
        if s.len() < 1 {
            return Err(Error::end_of_input());
        }
        let stream_type = StreamType::from_u8(s[0])?;
        let mut rd: &[u8] = skip(s, 1);
        let elementary_pid = Pid::read_from(&mut rd)?;
        assert(rd@ =~= s@.skip(3));
        let len = read_length_field(&mut rd)?;
        assert(rd@ =~= s@.skip(5));
        let descriptors = read_descriptor_loop(&mut rd, len)?;
        assert(rd@ =~= s@.skip(5 + len));
        *reader = rd;
        Ok(EsInfo { stream_type, elementary_pid, descriptors })
    }

    /// Writes the elementary stream information.
    ///
    /// # Errors
    ///
    /// If a descriptor is too long, or the descriptors are too long for the length field,
    /// it will return an `ErrorKind::InvalidInput` error and write nothing.
    pub fn write_to(&self, out: &mut Vec<u8>) -> (r: Result<()>)
        ensures
            match r {
                Ok(_) => !es_info_write_fails(self@) && final(out)@ == old(out)@ + es_info_bytes(
                    self@,
                ),
                Err(e) => {
                    &&& es_info_write_fails(self@)
                    &&& e.kind == ErrorKind::InvalidInput
                    &&& final(out)@ == old(out)@
                },
            },
    {
        let mut tail: Vec<u8> = Vec::new();
        write_descriptors(&mut tail, &self.descriptors)?;
        out.write_u8(self.stream_type.as_u8());
        self.elementary_pid.write_to(out);
        write_all(out, tail.as_slice());
        assert(out@ =~= old(out)@ + es_info_bytes(self@));
        Ok(())
    }
}

impl Pmt {
    /// The table id of a PMT.
    pub const TABLE_ID: u8 = 2;

    /// Reads a PMT from a whole section buffer.
    ///
    /// # Errors
    ///
    /// See `spec_read_pmt`: malformed PSI, a table that is not a single current PMT section,
    /// or malformed program information or elementary stream information give an error.
    pub fn read_from(reader: &[u8]) -> (r: Result<Self>)
        ensures
            match r {
                Ok(p) => spec_read_pmt(reader@) == Ok::<SpecPmt, ErrorKind>(p@),
                Err(e) => spec_read_pmt(reader@) == Err::<SpecPmt, ErrorKind>(e.kind),
            },
    {
        let psi = Psi::read_from(reader)?;
        let ghost ts = psi@;
        let syntax = psi.into_single_table_syntax(Self::TABLE_ID)?;
        let d: &[u8] = syntax.table_data.as_slice();
        let mut rd: &[u8] = d;
        let pcr = Pid::read_from(&mut rd)?;
        let pcr_pid = if pcr.as_u16() == Pid::NULL {
            None
        } else {
            Some(pcr)
        };
        assert(rd@ =~= d@.skip(2));
        let len = read_length_field(&mut rd)?;
        assert(rd@ =~= d@.skip(4));
        let program_info = read_descriptor_loop(&mut rd, len)?;
        assert(rd@ =~= d@.skip(4 + len));
        let ghost es0 = rd@;
        let mut es_info: Vec<EsInfo> = Vec::new();
        while rd.len() > 0
            invariant
                spec_read_psi(reader@) == Ok::<Seq<SpecPsiTable>, ErrorKind>(ts),
                spec_single_table_syntax(ts, pmt_table_id()) == Ok::<
                    crate::ts::psi::SpecPsiTableSyntax,
                    ErrorKind,
                >(syntax@),
                d@ == syntax.table_data@,
                spec_read_pid(d@) == Ok::<(Pid, int), ErrorKind>((pcr, 2)),
                spec_read_length_field(d@.skip(2)) == Ok::<(u16, int), ErrorKind>((len, 2)),
                spec_read_descriptor_loop(d@.skip(4), len) == Ok::<
                    (Seq<SpecDescriptor>, int),
                    ErrorKind,
                >((descriptors_view(program_info@), len as int)),
                es0 == d@.skip(4 + len),
                spec_read_es_infos(es0) == match spec_read_es_infos(rd@) {
                    Ok(xs) => Ok(es_info@.map_values(|e: EsInfo| e@) + xs),
                    Err(k) => Err(k),
                },
            decreases rd@.len(),
        {
            let ghost before = rd@;
            let e = EsInfo::read_from(&mut rd)?;
            proof {
                match spec_read_es_infos(rd@) {
                    Ok(xs) => {
                        assert(es_info@.map_values(|e: EsInfo| e@) + (seq![e@] + xs)
                            =~= es_info@.push(e).map_values(|e: EsInfo| e@) + xs);
                    },
                    Err(_) => {},
                }
            }
            es_info.push(e);
        }
        assert(es_info@.map_values(|e: EsInfo| e@) + Seq::<SpecEsInfo>::empty() =~= es_info@.map_values(
            |e: EsInfo| e@,
        ));
        Ok(
            Pmt {
                program_num: syntax.table_id_extension,
                pcr_pid,
                version_number: syntax.version_number,
                program_info,
                es_info,
            },
        )
    }

    /// Writes the PMT as a PSI.
    ///
    /// # Errors
    ///
    /// If a descriptor or a descriptor loop is too long, it will return an
    /// `ErrorKind::InvalidInput` error and write nothing; if the table is too long for one PSI
    /// section, it will return an `ErrorKind::InvalidInput` error.
    pub fn write_to(&self, out: &mut Vec<u8>) -> (r: Result<()>)
        ensures
            match pmt_write(self@) {
                None => final(out)@ == old(out)@ && (r matches Err(e) && e.kind
                    == ErrorKind::InvalidInput),
                Some((bytes, fails)) => final(out)@ == old(out)@ + bytes && match r {
                    Ok(_) => !fails,
                    Err(e) => fails && e.kind == ErrorKind::InvalidInput,
                },
            },
    {
        self.to_psi()?.write_to(out)
    }

    /// The PSI that the PMT is written as.
    ///
    /// # Errors
    ///
    /// If a descriptor or a descriptor loop is too long, it will return an
    /// `ErrorKind::InvalidInput` error.
    pub fn to_psi(&self) -> (r: Result<Psi>)
        ensures
            match r {
                Ok(psi) => !pmt_data_write_fails(self@) && psi@ == pmt_psi(self@),
                Err(e) => pmt_data_write_fails(self@) && e.kind == ErrorKind::InvalidInput,
            },
    {
        let ghost p = self@;
        let mut table_data: Vec<u8> = Vec::new();
        match self.pcr_pid {
            Some(pid) => pid.write_to(&mut table_data),
            None => table_data.write_u16(0b1110_0000_0000_0000 | 0x1FFF),
        }
        assert(table_data@ == pid_bytes(pcr_pid_field(p.pcr_pid)));
        write_descriptors(&mut table_data, &self.program_info)?;
        let ghost head = table_data@;
        let ghost es = p.es_info;
        let mut i: usize = 0;
        while i < self.es_info.len()
            invariant
                p == self@,
                es == p.es_info,
                i <= self.es_info@.len(),
                forall|j: int| 0 <= j < i ==> !es_info_write_fails(#[trigger] es[j]),
                table_data@ == head + es_infos_bytes(es.take(i as int)),
            decreases self.es_info@.len() - i,
        {
            assert(es.take(i + 1).drop_last() =~= es.take(i as int));
            assert(es.take(i + 1).last() == es[i as int]);
            assert(es[i as int] == self.es_info@[i as int]@);
            let ghost before = table_data@;
            match self.es_info[i].write_to(&mut table_data) {
                Ok(()) => {},
                Err(e) => {
                    return Err(e);
                },
            }
            i = i + 1;
            assert(table_data@ =~= head + es_infos_bytes(es.take(i as int)));
        }
        assert(es.take(i as int) =~= es);
        assert(forall|j: int| 0 <= j < es.len() ==> !es_info_write_fails(#[trigger] es[j]));
        assert(table_data@ =~= pmt_table_data(p));
        Ok(Psi::single_table(Self::TABLE_ID, self.program_num, self.version_number, table_data))
    }
}

} // verus!

verus! {

proof fn lemma_descriptors_bytes_front(x: SpecDescriptor, xs: Seq<SpecDescriptor>)
    ensures
        descriptors_bytes(seq![x] + xs) == descriptor_bytes(x) + descriptors_bytes(xs),
    decreases xs.len(),
{
    if xs.len() == 0 {
        assert(seq![x] + xs =~= seq![x]);
        assert(seq![x].drop_last() =~= Seq::<SpecDescriptor>::empty());
        assert(descriptors_bytes(Seq::<SpecDescriptor>::empty()) =~= Seq::<u8>::empty());
        assert(descriptor_bytes(x) + Seq::<u8>::empty() =~= descriptor_bytes(x));
    } else {
        assert((seq![x] + xs).drop_last() =~= seq![x] + xs.drop_last());
        lemma_descriptors_bytes_front(x, xs.drop_last());
        assert(descriptor_bytes(x) + descriptors_bytes(xs.drop_last()) + descriptor_bytes(xs.last())
            =~= descriptor_bytes(x) + (descriptors_bytes(xs.drop_last()) + descriptor_bytes(
            xs.last(),
        )));
    }
}

proof fn lemma_es_infos_bytes_front(x: SpecEsInfo, xs: Seq<SpecEsInfo>)
    ensures
        es_infos_bytes(seq![x] + xs) == es_info_bytes(x) + es_infos_bytes(xs),
    decreases xs.len(),
{
    if xs.len() == 0 {
        assert(seq![x] + xs =~= seq![x]);
        assert(seq![x].drop_last() =~= Seq::<SpecEsInfo>::empty());
        assert(es_infos_bytes(Seq::<SpecEsInfo>::empty()) =~= Seq::<u8>::empty());
        assert(es_info_bytes(x) + Seq::<u8>::empty() =~= es_info_bytes(x));
    } else {
        assert((seq![x] + xs).drop_last() =~= seq![x] + xs.drop_last());
        lemma_es_infos_bytes_front(x, xs.drop_last());
        assert(es_info_bytes(x) + es_infos_bytes(xs.drop_last()) + es_info_bytes(xs.last())
            =~= es_info_bytes(x) + (es_infos_bytes(xs.drop_last()) + es_info_bytes(xs.last())));
    }
}

proof fn lemma_descriptors_roundtrip(ds: Seq<SpecDescriptor>)
    requires
        !descriptors_write_fail(ds),
    ensures
        spec_read_descriptors(descriptors_bytes(ds)) == Ok::<Seq<SpecDescriptor>, ErrorKind>(ds),
    decreases ds.len(),
{
    if ds.len() > 0 {
        let x = ds[0];
        let xs = ds.drop_first();
        assert(ds =~= seq![x] + xs);
        lemma_descriptors_bytes_front(x, xs);
        assert(forall|i: int| 0 <= i < xs.len() ==> xs[i] == ds[i + 1]);
        assert(!descriptors_write_fail(xs)) by {
            if descriptors_write_fail(xs) {
                let i = choose|i: int| 0 <= i < xs.len() && (#[trigger] xs[i]).data.len() > 255;
                assert(ds[i + 1].data.len() > 255);
            }
        }
        assert(x.data.len() <= 255) by {
            assert(ds[0] == x);
        }
        lemma_descriptors_roundtrip(xs);
        let rest = descriptors_bytes(xs);
        let b = descriptor_bytes(x) + rest;
        let n = 2 + x.data.len();
        assert(b[1] == x.data.len());
        assert(b.subrange(2, n as int) =~= x.data);
        assert(b.skip(n as int) =~= rest);
        assert(descriptors_bytes(ds) == b);
        assert(spec_read_descriptor(b) == Ok::<(SpecDescriptor, int), ErrorKind>((x, n as int)));
        assert(spec_read_descriptors(b) == Ok::<Seq<SpecDescriptor>, ErrorKind>(seq![x] + xs));
    } else {
        assert(descriptors_bytes(ds) =~= Seq::<u8>::empty());
        assert(ds =~= Seq::<SpecDescriptor>::empty());
    }
}

proof fn lemma_length_field_roundtrip(n: int, rest: Seq<u8>)
    requires
        0 <= n <= 0x3FF,
    ensures
        spec_read_length_field(length_field_bytes(n) + rest) == Ok::<(u16, int), ErrorKind>(
            (n as u16, 2),
        ),
{
    let v = n as u16;
    let w = (0xF000 | v) as u16;
    crate::util::lemma_u16_bytes_roundtrip(w);
    assert(be_u16(length_field_bytes(n) + rest, 0) == be_u16(u16_bytes(w), 0));
    assert(w & 0xF000 == 0xF000 && w & 0x0C00 == 0 && w & 0x03FF == v) by (bit_vector)
        requires
            v <= 0x3FF,
            w == 0xF000 | v,
    ;
}

proof fn lemma_descriptor_loop_roundtrip(ds: Seq<SpecDescriptor>, rest: Seq<u8>)
    requires
        !descriptors_write_fail(ds),
        descriptors_bytes(ds).len() <= 0x3FF,
    ensures
        spec_read_descriptor_loop(
            descriptors_bytes(ds) + rest,
            descriptors_bytes(ds).len() as u16,
        ) == Ok::<(Seq<SpecDescriptor>, int), ErrorKind>((ds, descriptors_bytes(ds).len() as int)),
{
    let b = descriptors_bytes(ds);
    assert((b + rest).take(b.len() as int) =~= b);
    lemma_descriptors_roundtrip(ds);
}

/// `true` if the elementary stream information reads back as written.
pub open spec fn es_info_roundtrips(e: SpecEsInfo) -> bool {
    e.elementary_pid.valid() && !es_info_write_fails(e)
}

proof fn lemma_es_info_roundtrip(e: SpecEsInfo, rest: Seq<u8>)
    requires
        es_info_roundtrips(e),
    ensures
        spec_read_es_info(es_info_bytes(e) + rest) == Ok::<(SpecEsInfo, int), ErrorKind>(
            (e, es_info_bytes(e).len() as int),
        ),
{
    let db = descriptors_bytes(e.descriptors);
    let len = db.len() as int;
    let s = es_info_bytes(e) + rest;
    crate::es::stream_type::lemma_stream_type_code_roundtrip(e.stream_type);
    assert(s.skip(1) =~= pid_bytes(e.elementary_pid) + (length_field_bytes(len) + db + rest));
    crate::ts::types::lemma_pid_roundtrip(e.elementary_pid, length_field_bytes(len) + db + rest);
    assert(s.skip(3) =~= length_field_bytes(len) + (db + rest));
    lemma_length_field_roundtrip(len, db + rest);
    assert(s.skip(5) =~= db + rest);
    lemma_descriptor_loop_roundtrip(e.descriptors, rest);
}

proof fn lemma_es_infos_roundtrip(es: Seq<SpecEsInfo>)
    requires
        forall|i: int| 0 <= i < es.len() ==> es_info_roundtrips(#[trigger] es[i]),
    ensures
        spec_read_es_infos(es_infos_bytes(es)) == Ok::<Seq<SpecEsInfo>, ErrorKind>(es),
    decreases es.len(),
{
    if es.len() > 0 {
        let x = es[0];
        let xs = es.drop_first();
        assert(es =~= seq![x] + xs);
        lemma_es_infos_bytes_front(x, xs);
        assert(forall|i: int| 0 <= i < xs.len() ==> xs[i] == es[i + 1]);
        assert(es_info_roundtrips(es[0]));
        lemma_es_infos_roundtrip(xs);
        let rest = es_infos_bytes(xs);
        let b = es_info_bytes(x) + rest;
        lemma_es_info_roundtrip(x, rest);
        let n = es_info_bytes(x).len() as int;
        assert(b.skip(n) =~= rest);
        assert(es_infos_bytes(es) == b);
        assert(spec_read_es_infos(b) == Ok::<Seq<SpecEsInfo>, ErrorKind>(seq![x] + xs));
    } else {
        assert(es_infos_bytes(es) =~= Seq::<u8>::empty());
        assert(es =~= Seq::<SpecEsInfo>::empty());
    }
}

/// `true` if the PMT reads back as written: its version number and PIDs are valid, its PCR
/// PID is not the null PID (which stands for no PCR), and writing it succeeds.
pub open spec fn pmt_roundtrips(p: SpecPmt) -> bool {
    &&& p.version_number.valid()
    &&& (p.pcr_pid matches Some(pid) ==> pid.valid() && pid.value() != 0x1FFF)
    &&& forall|i: int| 0 <= i < p.es_info.len() ==> (#[trigger] p.es_info[i]).elementary_pid.valid()
    &&& pmt_write(p) matches Some((_, fails)) && !fails
}

proof fn lemma_pmt_table_data_roundtrip(p: SpecPmt)
    requires
        pmt_roundtrips(p),
    ensures
        ({
            let d = pmt_table_data(p);
            let len = descriptors_bytes(p.program_info).len() as int;
            &&& spec_read_pid(d) == Ok::<(Pid, int), ErrorKind>((pcr_pid_field(p.pcr_pid), 2))
            &&& pcr_pid_of(pcr_pid_field(p.pcr_pid)) == p.pcr_pid
            &&& spec_read_length_field(d.skip(2)) == Ok::<(u16, int), ErrorKind>((len as u16, 2))
            &&& spec_read_descriptor_loop(d.skip(4), len as u16) == Ok::<
                (Seq<SpecDescriptor>, int),
                ErrorKind,
            >((p.program_info, len))
            &&& spec_read_es_infos(d.skip(4 + len)) == Ok::<Seq<SpecEsInfo>, ErrorKind>(p.es_info)
        }),
{
    let d = pmt_table_data(p);
    let info = descriptors_bytes(p.program_info);
    let len = info.len() as int;
    let es = es_infos_bytes(p.es_info);
    let pcr = pcr_pid_field(p.pcr_pid);
    assert(!pmt_data_write_fails(p));
    assert(pcr.valid());
    assert(d =~= pid_bytes(pcr) + (length_field_bytes(len) + info + es));
    crate::ts::types::lemma_pid_roundtrip(pcr, length_field_bytes(len) + info + es);
    assert(d.skip(2) =~= length_field_bytes(len) + (info + es));
    lemma_length_field_roundtrip(len, info + es);
    assert(d.skip(4) =~= info + es);
    lemma_descriptor_loop_roundtrip(p.program_info, es);
    assert(d.skip(4 + len) =~= es);
    assert forall|i: int| 0 <= i < p.es_info.len() implies es_info_roundtrips(
        #[trigger] p.es_info[i],
    ) by {
        if es_info_write_fails(p.es_info[i]) {
            assert(pmt_data_write_fails(p));
        }
    }
    lemma_es_infos_roundtrip(p.es_info);
}

/// A PMT reads back as the PMT that was written.
pub proof fn lemma_pmt_roundtrip(p: SpecPmt)
    requires
        pmt_roundtrips(p),
    ensures
        spec_read_pmt(psi_write(pmt_psi(p)).0) == Ok::<SpecPmt, ErrorKind>(p),
{
    let t = pmt_psi(p)[0];
    assert(pmt_psi(p) =~= seq![t]);
    assert(!pmt_data_write_fails(p));
    assert(crate::ts::psi::psi_table_roundtrips(t));
    crate::ts::psi::lemma_psi_single_table_roundtrip(t);
    lemma_pmt_table_data_roundtrip(p);
}

} // verus!
