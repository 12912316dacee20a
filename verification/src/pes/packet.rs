use crate::error::{Error, ErrorKind, Result};
use crate::es::stream_id::StreamId;
use crate::time::{
    escr_bytes, lemma_escr_roundtrip, lemma_timestamp_roundtrip, spec_read_escr,
    spec_read_timestamp, timestamp_bytes, ClockReference, Timestamp,
};
use crate::util::{
    all_stuffing, first_non_stuffing, flag_bit, be_u16, be_u16_at, consume_stuffing_bytes, lemma_u16_bytes_roundtrip, read_as,
    skip, taken_by_failed_read, take, u16_bytes, Parsed, WriteBytesExt,
};
use vstd::prelude::*;

verus! {

broadcast use StreamId::lemma_from_value, StreamId::lemma_value_ext;

/// PES packet.
#[derive(Debug, Clone)]
pub struct PesPacket<B> {
    pub header: PesHeader,
    pub data: B,
}

/// PES packet header.
///
/// Note that `PesHeader` contains the fields that belong to the optional PES header.
#[derive(Debug, Clone, Copy, PartialEq, Eq, Hash)]
pub struct PesHeader {
    pub stream_id: StreamId,
    pub priority: bool,
    /// `true` indicates that the PES packet header is immediately followed by
    /// the video start code or audio syncword.
    pub data_alignment_indicator: bool,
    /// `true` implies copyrighted.
    pub copyright: bool,
    /// `true` implies original.
    pub original_or_copy: bool,
    pub pts: Option<Timestamp>,
    pub dts: Option<Timestamp>,
    /// Elementary stream clock reference.
    pub escr: Option<ClockReference>,
}

/// `true` if PES packets of the stream `id` carry no optional PES header.
pub open spec fn has_no_optional_header(id: u8) -> bool {
    id == StreamId::PROGRAM_STREAM_MAP || id == StreamId::PADDING_STREAM || id
        == StreamId::PRIVATE_STREAM_2 || id == StreamId::ECM_STREAM || id == StreamId::EMM_STREAM
        || id == StreamId::PROGRAM_STREAM_DIRECTORY || id == StreamId::DSM_CC || id
        == StreamId::H222_1_TYPE_E
}

/// The header that a PES packet without optional PES header has.
pub open spec fn plain_pes_header(id: u8) -> PesHeader {
    PesHeader {
        stream_id: StreamId::from_value(id),
        priority: false,
        data_alignment_indicator: false,
        copyright: false,
        original_or_copy: false,
        pts: None,
        dts: None,
        escr: None,
    }
}

/// The size of the optional PES header: three bytes of flags and length, then the fields.
pub open spec fn optional_header_size(h: PesHeader) -> int {
    3 + (if h.pts.is_some() {
        5int
    } else {
        0
    }) + (if h.dts.is_some() {
        5int
    } else {
        0
    }) + (if h.escr.is_some() {
        6int
    } else {
        0
    })
}

/// The first flags byte of the optional PES header (marker bits '10', no scrambling).
pub open spec fn pes_flags1(h: PesHeader) -> u8 {
    0x80 | flag_bit(h.priority, 0x08) | flag_bit(h.data_alignment_indicator, 0x04) | flag_bit(
        h.copyright,
        0x02,
    ) | flag_bit(h.original_or_copy, 0x01)
}

/// The second flags byte of the optional PES header.
pub open spec fn pes_flags2(h: PesHeader) -> u8 {
    flag_bit(h.pts.is_some(), 0x80) | flag_bit(h.dts.is_some(), 0x40) | flag_bit(
        h.escr.is_some(),
        0x20,
    )
}

/// The check bits in front of the PTS: '0011' when a DTS follows, else '0010'.
pub open spec fn pts_check_bits(dts_flag: bool) -> u8 {
    if dts_flag {
        3
    } else {
        2
    }
}

/// An optional timestamp field, present when `flag` is set.
pub open spec fn spec_read_opt_timestamp(r: Seq<u8>, flag: bool, check_bits: u8) -> Parsed<
    Option<Timestamp>,
> {
    if !flag {
        Ok((None, 0))
    } else {
        match spec_read_timestamp(r, check_bits) {
            Ok((t, n)) => Ok((Some(t), n)),
            Err(k) => Err(k),
        }
    }
}

/// An optional ESCR field, present when `flag` is set.
pub open spec fn spec_read_opt_escr(r: Seq<u8>, flag: bool) -> Parsed<Option<ClockReference>> {
    if !flag {
        Ok((None, 0))
    } else {
        match spec_read_escr(r) {
            Ok((c, n)) => Ok((Some(c), n)),
            Err(k) => Err(k),
        }
    }
}

/// The fields of an optional PES header, read from the header-data region `r` that the
/// PES header length bounds; whatever follows the fields must be stuffing.
pub open spec fn spec_read_pes_fields(r: Seq<u8>, f: u8) -> core::result::Result<
    (Option<Timestamp>, Option<Timestamp>, Option<ClockReference>),
    ErrorKind,
> {
    let pts_flag = f & 0x80 != 0;
    let dts_flag = f & 0x40 != 0;
    let escr_flag = f & 0x20 != 0;
    match spec_read_opt_timestamp(r, pts_flag, pts_check_bits(dts_flag)) {
        Err(k) => Err(k),
        Ok((pts, n1)) => match spec_read_opt_timestamp(r.skip(n1), dts_flag, 1) {
            Err(k) => Err(k),
            Ok((dts, n2)) => match spec_read_opt_escr(r.skip(n1).skip(n2), escr_flag) {
                Err(k) => Err(k),
                Ok((escr, n3)) => if all_stuffing(r.skip(n1).skip(n2).skip(n3)) {
                    Ok((pts, dts, escr))
                } else {
                    Err(ErrorKind::InvalidInput)
                },
            },
        },
    }
}

/// The error that the second flags byte `f` of an optional PES header gives, if any:
/// a DTS without PTS is invalid; ES rate, DSM trick mode, additional copy info, CRC and
/// extension are not supported.
pub open spec fn pes_flags2_error(f: u8) -> Option<ErrorKind> {
    if f & 0x80 == 0 && f & 0x40 != 0 {
        Some(ErrorKind::InvalidInput)
    } else if f & 0x1F != 0 {
        Some(ErrorKind::Unsupported)
    } else {
        None
    }
}

/// A PES packet header read from the front of `s`: the header and the PES packet length.
pub open spec fn spec_read_pes_header(s: Seq<u8>) -> Parsed<(PesHeader, u16)> {
    if s.len() < 3 {
        Err(ErrorKind::Other)
    } else if !(s[0] == 0 && s[1] == 0 && s[2] == 1) {
        Err(ErrorKind::InvalidInput)
    } else if s.len() < 6 {
        Err(ErrorKind::Other)
    } else if has_no_optional_header(s[3]) {
        Ok(((plain_pes_header(s[3]), be_u16(s, 4)), 6))
    } else if s.len() < 7 {
        Err(ErrorKind::Other)
    } else if s[6] & 0xC0 != 0x80 {
        Err(ErrorKind::InvalidInput)
    } else if s[6] & 0x30 != 0 {
        Err(ErrorKind::Unsupported)
    } else if s.len() < 8 {
        Err(ErrorKind::Other)
    } else if pes_flags2_error(s[7]).is_some() {
        Err(pes_flags2_error(s[7]).unwrap())
    } else if s.len() < 9 {
        Err(ErrorKind::Other)
    } else {
        let rl = if s[8] as int <= s.len() - 9 {
            s[8] as int
        } else {
            s.len() - 9
        };
        match spec_read_pes_fields(s.subrange(9, 9 + rl), s[7]) {
            Err(k) => Err(k),
            Ok((pts, dts, escr)) => Ok(
                (
                    (
                        PesHeader {
                            stream_id: StreamId::from_value(s[3]),
                            priority: s[6] & 0x08 != 0,
                            data_alignment_indicator: s[6] & 0x04 != 0,
                            copyright: s[6] & 0x02 != 0,
                            original_or_copy: s[6] & 0x01 != 0,
                            pts,
                            dts,
                            escr,
                        },
                        be_u16(s, 4),
                    ),
                    9 + rl,
                ),
            ),
        }
    }
}

/// The bytes that reading the fields of an optional PES header from the region `r` takes
/// when it fails: a field that fails takes its bytes (or all that remain), and stuffing is
/// read up to and including the first byte that is not stuffing.
#[verifier::opaque]
pub open spec fn pes_fields_taken_on_error(r: Seq<u8>, f: u8) -> int {
    let pts_flag = f & 0x80 != 0;
    let dts_flag = f & 0x40 != 0;
    let escr_flag = f & 0x20 != 0;
    match spec_read_opt_timestamp(r, pts_flag, pts_check_bits(dts_flag)) {
        Err(_) => taken_by_failed_read(r, 5),
        Ok((_, n1)) => match spec_read_opt_timestamp(r.skip(n1), dts_flag, 1) {
            Err(_) => n1 + taken_by_failed_read(r.skip(n1), 5),
            Ok((_, n2)) => match spec_read_opt_escr(r.skip(n1).skip(n2), escr_flag) {
                Err(_) => n1 + n2 + taken_by_failed_read(r.skip(n1).skip(n2), 6),
                Ok((_, n3)) => n1 + n2 + n3 + first_non_stuffing(r.skip(n1).skip(n2).skip(n3))
                    + 1,
            },
        },
    }
}

/// The bytes that a failed read of a PES packet header takes from the front of `s`: the
/// fields read up to the one that is wrong (all that remain where the header is cut short).
#[verifier::opaque]
pub open spec fn pes_header_taken_on_error(s: Seq<u8>) -> int {
    if s.len() < 3 {
        s.len() as int
    } else if !(s[0] == 0 && s[1] == 0 && s[2] == 1) {
        3
    } else if s.len() < 7 {
        s.len() as int
    } else if s[6] & 0xC0 != 0x80 || s[6] & 0x30 != 0 {
        7
    } else if s.len() < 8 {
        s.len() as int
    } else if pes_flags2_error(s[7]).is_some() {
        8
    } else if s.len() < 9 {
        s.len() as int
    } else {
        9 + pes_fields_taken_on_error(bounded_pes_region(s), s[7])
    }
}

/// The header-data region of a PES header: the bytes that its PES header length bounds, as
/// far as `s` goes.
pub open spec fn bounded_pes_region(s: Seq<u8>) -> Seq<u8> {
    let rl = if s[8] as int <= s.len() - 9 {
        s[8] as int
    } else {
        s.len() - 9
    };
    s.subrange(9, 9 + rl)
}

/// The bytes of an optional timestamp field.
pub open spec fn opt_timestamp_bytes(t: Option<Timestamp>, check_bits: u8) -> Seq<u8> {
    match t {
        Some(t) => timestamp_bytes(t, check_bits),
        None => Seq::empty(),
    }
}

/// The bytes of an optional ESCR field.
pub open spec fn opt_escr_bytes(c: Option<ClockReference>) -> Seq<u8> {
    match c {
        Some(c) => escr_bytes(c),
        None => Seq::empty(),
    }
}

/// The bytes of the fields of an optional PES header.
pub open spec fn pes_fields_bytes(h: PesHeader) -> Seq<u8> {
    opt_timestamp_bytes(h.pts, pts_check_bits(h.dts.is_some())) + opt_timestamp_bytes(h.dts, 1)
        + opt_escr_bytes(h.escr)
}

/// The bytes of a PES packet header with the PES packet length `len`.
pub open spec fn pes_header_bytes(h: PesHeader, len: u16) -> Seq<u8> {
    seq![0u8, 0u8, 1u8, h.stream_id.value()] + u16_bytes(len) + if has_no_optional_header(
        h.stream_id.value(),
    ) {
        Seq::<u8>::empty()
    } else {
        seq![pes_flags1(h), pes_flags2(h), (optional_header_size(h) - 3) as u8] + pes_fields_bytes(
            h,
        )
    }
}

/// `true` if writing the header fails: it has an optional PES header with a DTS but no PTS.
pub open spec fn pes_header_write_fails(h: PesHeader) -> bool {
    !has_no_optional_header(h.stream_id.value()) && h.dts.is_some() && h.pts.is_none()
}

/// `true` if the header reads back as written: its timestamps and clock reference are
/// valid, it does not fail to write, and where its stream has no optional PES header,
/// the header holds nothing beyond the stream identifier.
pub open spec fn pes_header_roundtrips(h: PesHeader) -> bool {
    &&& (h.pts matches Some(t) ==> t.valid())
    &&& (h.dts matches Some(t) ==> t.valid())
    &&& (h.escr matches Some(c) ==> c.valid())
    &&& !pes_header_write_fails(h)
    &&& has_no_optional_header(h.stream_id.value()) ==> h == plain_pes_header(h.stream_id.value())
}

fn read_opt_timestamp(region: &mut &[u8], flag: bool, check_bits: u8) -> (r: Result<
    Option<Timestamp>,
>)
    ensures
        match r {
            Ok(t) => read_as(
                spec_read_opt_timestamp(old(region)@, flag, check_bits),
                old(region)@,
                final(region)@,
                t,
            ),
            Err(e) => spec_read_opt_timestamp(old(region)@, flag, check_bits) == Err::<
                (Option<Timestamp>, int),
                ErrorKind,
            >(e.kind) && final(region)@ == old(region)@.skip(taken_by_failed_read(old(region)@, 5)),
        },
{
    if flag {
        let t = Timestamp::read_from(region, check_bits)?;
        Ok(Some(t))
    } else {
        assert(region@.skip(0) =~= region@);
        Ok(None)
    }
}

fn read_opt_escr(region: &mut &[u8], flag: bool) -> (r: Result<Option<ClockReference>>)
    ensures
        match r {
            Ok(c) => read_as(
                spec_read_opt_escr(old(region)@, flag),
                old(region)@,
                final(region)@,
                c,
            ),
            Err(e) => spec_read_opt_escr(old(region)@, flag) == Err::<
                (Option<ClockReference>, int),
                ErrorKind,
            >(e.kind) && final(region)@ == old(region)@.skip(taken_by_failed_read(old(region)@, 6)),
        },
{
    if flag {
        let c = ClockReference::read_escr_from(region)?;
        Ok(Some(c))
    } else {
        assert(region@.skip(0) =~= region@);
        Ok(None)
    }
}

proof fn lemma_pes_fields_taken_1(r: Seq<u8>, f: u8)
    requires
        spec_read_opt_timestamp(r, f & 0x80 != 0, pts_check_bits(f & 0x40 != 0)) is Err,
    ensures
        pes_fields_taken_on_error(r, f) == taken_by_failed_read(r, 5),
{
    reveal(pes_fields_taken_on_error);
}

proof fn lemma_pes_fields_taken_2(r: Seq<u8>, f: u8, n1: int)
    requires
        spec_read_opt_timestamp(r, f & 0x80 != 0, pts_check_bits(f & 0x40 != 0)) matches Ok(
            (_, k),
        ) && k == n1,
        spec_read_opt_timestamp(r.skip(n1), f & 0x40 != 0, 1) is Err,
    ensures
        pes_fields_taken_on_error(r, f) == n1 + taken_by_failed_read(r.skip(n1), 5),
{
    reveal(pes_fields_taken_on_error);
}

proof fn lemma_pes_fields_taken_3(r: Seq<u8>, f: u8, n1: int, n2: int)
    requires
        spec_read_opt_timestamp(r, f & 0x80 != 0, pts_check_bits(f & 0x40 != 0)) matches Ok(
            (_, k),
        ) && k == n1,
        spec_read_opt_timestamp(r.skip(n1), f & 0x40 != 0, 1) matches Ok((_, k)) && k == n2,
        spec_read_opt_escr(r.skip(n1).skip(n2), f & 0x20 != 0) is Err,
    ensures
        pes_fields_taken_on_error(r, f) == n1 + n2 + taken_by_failed_read(r.skip(n1).skip(n2), 6),
{
    reveal(pes_fields_taken_on_error);
}

proof fn lemma_pes_fields_taken_4(r: Seq<u8>, f: u8, n1: int, n2: int, n3: int)
    requires
        spec_read_opt_timestamp(r, f & 0x80 != 0, pts_check_bits(f & 0x40 != 0)) matches Ok(
            (_, k),
        ) && k == n1,
        spec_read_opt_timestamp(r.skip(n1), f & 0x40 != 0, 1) matches Ok((_, k)) && k == n2,
        spec_read_opt_escr(r.skip(n1).skip(n2), f & 0x20 != 0) matches Ok((_, k)) && k == n3,
    ensures
        pes_fields_taken_on_error(r, f) == n1 + n2 + n3 + first_non_stuffing(
            r.skip(n1).skip(n2).skip(n3),
        ) + 1,
{
    reveal(pes_fields_taken_on_error);
}

/// Reads the fields of an optional PES header with second flags byte `f` from its
/// header-data region, which must end in stuffing, as `spec_read_pes_fields` says.
fn read_pes_fields(region: &mut &[u8], f: u8) -> (r: Result<
    (Option<Timestamp>, Option<Timestamp>, Option<ClockReference>),
>)
    ensures
        match r {
            Ok(v) => spec_read_pes_fields(old(region)@, f) == Ok::<
                (Option<Timestamp>, Option<Timestamp>, Option<ClockReference>),
                ErrorKind,
            >(v),
            Err(e) => {
                &&& spec_read_pes_fields(old(region)@, f) == Err::<
                    (Option<Timestamp>, Option<Timestamp>, Option<ClockReference>),
                    ErrorKind,
                >(e.kind)
                &&& 0 <= pes_fields_taken_on_error(old(region)@, f) <= old(region)@.len()
                &&& final(region)@ == old(region)@.skip(pes_fields_taken_on_error(old(region)@, f))
            },
        },
{
    let pts_flag = (f & 0b1000_0000) != 0;
    let dts_flag = (f & 0b0100_0000) != 0;
    let escr_flag = (f & 0b0010_0000) != 0;
    let ghost r0 = region@;
    let pts = match read_opt_timestamp(region, pts_flag, if dts_flag {
        3
    } else {
        2
    }) {
        Ok(t) => t,
        Err(e) => {
            proof {
                lemma_pes_fields_taken_1(r0, f);
            }
            return Err(e);
        },
    };
    let ghost r1 = region@;
    assert(r1 == r0.skip(r0.len() - r1.len()));
    let dts = match read_opt_timestamp(region, dts_flag, 1) {
        Ok(t) => t,
        Err(e) => {
            assert(region@ =~= r0.skip(r0.len() - region@.len()));
            proof {
                lemma_pes_fields_taken_2(r0, f, r0.len() - r1.len());
            }
            return Err(e);
        },
    };
    let ghost r2 = region@;
    assert(r2 =~= r0.skip(r0.len() - r1.len()).skip(r1.len() - r2.len()));
    let escr = match read_opt_escr(region, escr_flag) {
        Ok(c) => c,
        Err(e) => {
            assert(region@ =~= r0.skip(r0.len() - region@.len()));
            proof {
                lemma_pes_fields_taken_3(r0, f, r0.len() - r1.len(), r1.len() - r2.len());
            }
            return Err(e);
        },
    };
    let ghost r3 = region@;
    assert(r3 =~= r0.skip(r0.len() - r1.len()).skip(r1.len() - r2.len()).skip(
        r2.len() - r3.len(),
    ));
    match consume_stuffing_bytes(region) {
        Ok(()) => {},
        Err(e) => {
            assert(region@ =~= r0.skip(r0.len() - region@.len()));
            proof {
                lemma_pes_fields_taken_4(r0, f, r0.len() - r1.len(), r1.len() - r2.len(), r2.len() - r3.len());
            }
            return Err(e);
        },
    }
    Ok((pts, dts, escr))
}

impl PesHeader {
    /// The size of the optional PES header of this header.
    pub fn optional_header_len(&self) -> (n: u16)
        ensures
            n == optional_header_size(*self),
    {
        3 + (if self.pts.is_some() {
            5
        } else {
            0
        }) + (if self.dts.is_some() {
            5
        } else {
            0
        }) + (if self.escr.is_some() {
            6
        } else {
            0
        })
    }

    /// Reads a PES packet header; returns it with the PES packet length.
    ///
    /// # Errors
    ///
    /// A wrong start code prefix, wrong marker bits, or a DTS without PTS give an
    /// `ErrorKind::InvalidInput` error; scrambling, ES rate, DSM trick mode, additional copy
    /// info, CRC and PES extension give an `ErrorKind::Unsupported` error; see
    /// `spec_read_pes_header` for the exact conditions.
    pub fn read_from(reader: &mut &[u8]) -> (r: Result<(Self, u16)>)
        ensures
            match r {
                Ok(v) => read_as(spec_read_pes_header(old(reader)@), old(reader)@, final(reader)@, v),
                Err(e) => {
                    &&& spec_read_pes_header(old(reader)@) == Err::<
                        ((PesHeader, u16), int),
                        ErrorKind,
                    >(e.kind)
                    &&& final(reader)@ == old(reader)@.skip(pes_header_taken_on_error(old(reader)@))
                },
            },
    {
        let s: &[u8] = *reader;
        if s.len() < 3 {
            *reader = skip(s, s.len());
            proof {
                reveal(pes_header_taken_on_error);
            }
            return Err(Error::end_of_input());
        }
        if !(s[0] == 0 && s[1] == 0 && s[2] == 1) {
            *reader = skip(s, 3);
            proof {
                reveal(pes_header_taken_on_error);
            }
            return Err(Error::invalid_input("Unexpected packet start code prefix"));
        }
        if s.len() < 6 {
            *reader = skip(s, s.len());
            proof {
                reveal(pes_header_taken_on_error);
            }
            return Err(Error::end_of_input());
        }
        let stream_id = StreamId::new(s[3]);
        let packet_len = be_u16_at(s, 4);
        let id = stream_id.as_u8();
        if id == StreamId::PROGRAM_STREAM_MAP || id == StreamId::PADDING_STREAM || id
            == StreamId::PRIVATE_STREAM_2 || id == StreamId::ECM_STREAM || id
            == StreamId::EMM_STREAM || id == StreamId::PROGRAM_STREAM_DIRECTORY || id
            == StreamId::DSM_CC || id == StreamId::H222_1_TYPE_E {
            let header = PesHeader {
                stream_id,
                priority: false,
                data_alignment_indicator: false,
                copyright: false,
                original_or_copy: false,
                pts: None,
                dts: None,
                escr: None,
            };
            *reader = skip(s, 6);
            return Ok((header, packet_len));
        }
        if s.len() < 7 {
            *reader = skip(s, s.len());
            proof {
                reveal(pes_header_taken_on_error);
            }
            return Err(Error::end_of_input());
        }
        let b = s[6];
        if (b & 0b1100_0000) != 0b1000_0000 {
            *reader = skip(s, 7);
            proof {
                reveal(pes_header_taken_on_error);
            }
            return Err(Error::invalid_input("Unexpected marker bits"));
        }
        let priority = (b & 0b0000_1000) != 0;
        let data_alignment_indicator = (b & 0b0000_0100) != 0;
        let copyright = (b & 0b0000_0010) != 0;
        let original_or_copy = (b & 0b0000_0001) != 0;
        if (b & 0b0011_0000) != 0 {
            *reader = skip(s, 7);
            proof {
                reveal(pes_header_taken_on_error);
            }
            return Err(Error::unsupported("Scrambling control is not supported"));
        }
        if s.len() < 8 {
            *reader = skip(s, s.len());
            proof {
                reveal(pes_header_taken_on_error);
            }
            return Err(Error::end_of_input());
        }
        let f = s[7];
        let pts_flag = (f & 0b1000_0000) != 0;
        let dts_flag = (f & 0b0100_0000) != 0;
        if !pts_flag && dts_flag {
            *reader = skip(s, 8);
            proof {
                reveal(pes_header_taken_on_error);
            }
            return Err(Error::invalid_input("DTS cannot be present without PTS"));
        }
        let escr_flag = (f & 0b0010_0000) != 0;
        proof {
            assert(f & 0x1F != 0 <==> (f & 0x10 != 0 || f & 0x08 != 0 || f & 0x04 != 0 || f & 0x02
                != 0 || f & 0x01 != 0)) by (bit_vector);
        }
        if (f & 0b0001_0000) != 0 {
            *reader = skip(s, 8);
            proof {
                reveal(pes_header_taken_on_error);
            }
            return Err(Error::unsupported("ES rate flag is not supported"));
        }
        if (f & 0b0000_1000) != 0 {
            *reader = skip(s, 8);
            proof {
                reveal(pes_header_taken_on_error);
            }
            return Err(Error::unsupported("DSM trick mode flag is not supported"));
        }
        if (f & 0b0000_0100) != 0 {
            *reader = skip(s, 8);
            proof {
                reveal(pes_header_taken_on_error);
            }
            return Err(Error::unsupported("Additional copy info flag is not supported"));
        }
        if (f & 0b0000_0010) != 0 {
            *reader = skip(s, 8);
            proof {
                reveal(pes_header_taken_on_error);
            }
            return Err(Error::unsupported("CRC flag is not supported"));
        }
        if (f & 0b0000_0001) != 0 {
            *reader = skip(s, 8);
            proof {
                reveal(pes_header_taken_on_error);
            }
            return Err(Error::unsupported("Extension flag is not supported"));
        }
        if s.len() < 9 {
            *reader = skip(s, s.len());
            proof {
                reveal(pes_header_taken_on_error);
            }
            return Err(Error::end_of_input());
        }
        let pes_header_len = s[8] as usize;
        let rl = if pes_header_len <= s.len() - 9 {
            pes_header_len
        } else {
            s.len() - 9
        };
        let rest = skip(s, 9);
        let mut region: &[u8] = take(rest, rl);
        assert(region@ =~= s@.subrange(9, 9 + rl));
        let ghost r0 = region@;
        assert(r0 == bounded_pes_region(s@));
        let (pts, dts, escr) = match read_pes_fields(&mut region, f) {
            Ok(v) => v,
            Err(e) => {
                *reader = skip(s, 9 + (rl - region.len()));
                assert(reader@ =~= s@.skip(9 + (r0.len() - region@.len())));
                assert(pes_header_taken_on_error(s@) == 9 + pes_fields_taken_on_error(r0, f)) by {
                    reveal(pes_header_taken_on_error);
                }
                return Err(e);
            },
        };
        let header = PesHeader {
            stream_id,
            priority,
            data_alignment_indicator,
            copyright,
            original_or_copy,
            pts,
            dts,
            escr,
        };
        *reader = skip(s, 9 + rl);
        Ok((header, packet_len))
    }

    /// Writes the PES packet header with the PES packet length `pes_packet_len`.
    ///
    /// # Errors
    ///
    /// If the header has an optional PES header with a DTS but no PTS, it will return an
    /// `ErrorKind::InvalidInput` error, after the first seven bytes have been written.
    pub fn write_to(&self, out: &mut Vec<u8>, pes_packet_len: u16) -> (r: Result<()>)
        ensures
            match r {
                Ok(_) => !pes_header_write_fails(*self) && final(out)@ == old(out)@
                    + pes_header_bytes(*self, pes_packet_len),
                Err(e) => pes_header_write_fails(*self) && e.kind == ErrorKind::InvalidInput
                    && final(out)@ == old(out)@ + pes_header_bytes(*self, pes_packet_len).take(7),
            },
    {
        let ghost bytes = pes_header_bytes(*self, pes_packet_len);
        out.write_u8(0);
        out.write_u8(0);
        out.write_u8(1);
        let id = self.stream_id.as_u8();
        out.write_u8(id);
        out.write_u16(pes_packet_len);
        let ghost prefix = seq![0u8, 0u8, 1u8, id] + u16_bytes(pes_packet_len);
        assert(out@ =~= old(out)@ + prefix);
        if id == StreamId::PROGRAM_STREAM_MAP || id == StreamId::PADDING_STREAM || id
            == StreamId::PRIVATE_STREAM_2 || id == StreamId::ECM_STREAM || id
            == StreamId::EMM_STREAM || id == StreamId::PROGRAM_STREAM_DIRECTORY || id
            == StreamId::DSM_CC || id == StreamId::H222_1_TYPE_E {
            assert(bytes =~= prefix);
            return Ok(());
        }
        let n = 0b1000_0000 | (if self.priority {
            0b1000u8
        } else {
            0
        }) | (if self.data_alignment_indicator {
            0b0100u8
        } else {
            0
        }) | (if self.copyright {
            0b0010u8
        } else {
            0
        }) | (if self.original_or_copy {
            0b0001u8
        } else {
            0
        });
        out.write_u8(n);
        assert(n == pes_flags1(*self));
        assert(out@ =~= old(out)@ + prefix.push(pes_flags1(*self)));
        if self.dts.is_some() && self.pts.is_none() {
            assert(bytes.take(7) =~= prefix.push(pes_flags1(*self)));
            return Err(Error::invalid_input("DTS cannot be present without PTS"));
        }
        let n = (if self.pts.is_some() {
            0b1000_0000u8
        } else {
            0
        }) | (if self.dts.is_some() {
            0b0100_0000u8
        } else {
            0
        }) | (if self.escr.is_some() {
            0b0010_0000u8
        } else {
            0
        });
        out.write_u8(n);
        let pes_header_len = (self.optional_header_len() - 3) as u8;
        out.write_u8(pes_header_len);
        let ghost before_fields = out@;
        self.write_fields(out);
        assert(out@ =~= old(out)@ + bytes);
        Ok(())
    }

    fn write_fields(&self, out: &mut Vec<u8>)
        ensures
            final(out)@ == old(out)@ + pes_fields_bytes(*self),
    {
        let ghost o0 = out@;
        if let Some(x) = self.pts {
            x.write_to(out, if self.dts.is_some() {
                3
            } else {
                2
            });
        }
        let ghost o1 = out@;
        assert(o1 == o0 + opt_timestamp_bytes(self.pts, pts_check_bits(self.dts.is_some())));
        if let Some(x) = self.dts {
            x.write_to(out, 1);
        }
        let ghost o2 = out@;
        assert(o2 == o1 + opt_timestamp_bytes(self.dts, 1));
        if let Some(x) = self.escr {
            x.write_escr_to(out);
        }
        assert(out@ == o2 + opt_escr_bytes(self.escr));
        assert(out@ =~= o0 + pes_fields_bytes(*self));
    }
}

} // verus!

verus! {

proof fn lemma_pes_flags1_bits(h: PesHeader)
    ensures
        pes_flags1(h) & 0xC0 == 0x80,
        pes_flags1(h) & 0x30 == 0,
        (pes_flags1(h) & 0x08 != 0) == h.priority,
        (pes_flags1(h) & 0x04 != 0) == h.data_alignment_indicator,
        (pes_flags1(h) & 0x02 != 0) == h.copyright,
        (pes_flags1(h) & 0x01 != 0) == h.original_or_copy,
{
    let p = h.priority;
    let d = h.data_alignment_indicator;
    let c = h.copyright;
    let o = h.original_or_copy;
    let f = pes_flags1(h);
    assert(f & 0xC0 == 0x80 && f & 0x30 == 0 && (f & 0x08 != 0) == p && (f & 0x04 != 0) == d && (f
        & 0x02 != 0) == c && (f & 0x01 != 0) == o) by (bit_vector)
        requires
            f == 0x80 | flag_bit(p, 0x08) | flag_bit(d, 0x04) | flag_bit(c, 0x02) | flag_bit(
                o,
                0x01,
            ),
    ;
}

proof fn lemma_pes_flags2_bits(h: PesHeader)
    ensures
        (pes_flags2(h) & 0x80 != 0) == h.pts.is_some(),
        (pes_flags2(h) & 0x40 != 0) == h.dts.is_some(),
        (pes_flags2(h) & 0x20 != 0) == h.escr.is_some(),
        pes_flags2(h) & 0x1F == 0,
{
    let p = h.pts.is_some();
    let d = h.dts.is_some();
    let e = h.escr.is_some();
    let f = pes_flags2(h);
    assert((f & 0x80 != 0) == p && (f & 0x40 != 0) == d && (f & 0x20 != 0) == e && f & 0x1F == 0)
        by (bit_vector)
        requires
            f == flag_bit(p, 0x80) | flag_bit(d, 0x40) | flag_bit(e, 0x20),
    ;
}

proof fn lemma_pes_fields_roundtrip(h: PesHeader)
    requires
        pes_header_roundtrips(h),
    ensures
        spec_read_pes_fields(pes_fields_bytes(h), pes_flags2(h)) == Ok::<
            (Option<Timestamp>, Option<Timestamp>, Option<ClockReference>),
            ErrorKind,
        >((h.pts, h.dts, h.escr)),
{
    lemma_pes_flags2_bits(h);
    let cb = pts_check_bits(h.dts.is_some());
    let a = opt_timestamp_bytes(h.pts, cb);
    let b = opt_timestamp_bytes(h.dts, 1);
    let c = opt_escr_bytes(h.escr);
    let r = pes_fields_bytes(h);
    assert(r == a + b + c);
    match h.pts {
        Some(t) => {
            lemma_timestamp_roundtrip(t, cb, b + c);
            assert(a + b + c =~= a + (b + c));
        },
        None => {},
    }
    assert(r.skip(a.len() as int) =~= b + c);
    match h.dts {
        Some(t) => {
            lemma_timestamp_roundtrip(t, 1, c);
        },
        None => {},
    }
    assert(r.skip(a.len() as int).skip(b.len() as int) =~= c);
    match h.escr {
        Some(e) => {
            lemma_escr_roundtrip(e, Seq::empty());
            assert(c + Seq::<u8>::empty() =~= c);
        },
        None => {},
    }
    assert(r.skip(a.len() as int).skip(b.len() as int).skip(c.len() as int).len() == 0);
}

/// A PES header that reads successfully is laid out as the standard gives it: start code
/// 00 00 01, the stream id, the 16-bit PES packet length; then, for streams that carry an
/// optional header, the marker bits '10' and the priority, data alignment, copyright and
/// original flags (0x08, 0x04, 0x02, 0x01) in the seventh byte, the PTS, DTS and ESCR flags
/// (0x80, 0x40, 0x20) in the eighth, and the header data length in the ninth, which bounds
/// what the read takes (all of it, or up to the end of the bytes); streams without an optional
/// header take six bytes and set no flag.
pub proof fn lemma_pes_header_field_layout(s: Seq<u8>)
    ensures
        spec_read_pes_header(s) matches Ok(((h, len), n)) ==> {
            &&& s.len() >= 6
            &&& s[0] == 0 && s[1] == 0 && s[2] == 1
            &&& h.stream_id.value() == s[3]
            &&& len as int == s[4] as int * 256 + s[5] as int
            &&& if has_no_optional_header(s[3]) {
                &&& n == 6
                &&& !h.priority && !h.data_alignment_indicator && !h.copyright
                    && !h.original_or_copy
                &&& h.pts is None && h.dts is None && h.escr is None
            } else {
                &&& s.len() >= 9
                &&& n <= 9 + s[8] as int && n <= s.len()
                &&& (n == 9 + s[8] as int || n == s.len())
                &&& s[6] & 0xC0 == 0x80
                &&& h.priority == (s[6] & 0x08 != 0)
                &&& h.data_alignment_indicator == (s[6] & 0x04 != 0)
                &&& h.copyright == (s[6] & 0x02 != 0)
                &&& h.original_or_copy == (s[6] & 0x01 != 0)
                &&& h.pts.is_some() == (s[7] & 0x80 != 0)
                &&& h.dts.is_some() == (s[7] & 0x40 != 0)
                &&& h.escr.is_some() == (s[7] & 0x20 != 0)
            }
        },
{
    broadcast use StreamId::lemma_from_value;

    if spec_read_pes_header(s) is Ok {
        let b4 = s[4];
        let b5 = s[5];
        let w = be_u16(s, 4);
        assert(w as int == b4 as int * 256 + b5 as int) by (bit_vector)
            requires
                w == ((b4 as u16) << 8u16) | (b5 as u16),
        ;
    }
}

/// The timestamp fields of a PES header that reads successfully carry the prefixes that the
/// standard fixes: a PTS flag in the second flags byte goes with a PTS field starting with the
/// nibble '0010' when there is no DTS, and with '0011' when a DTS follows, whose own field
/// starts with '0001'; a DTS never comes without a PTS.
pub proof fn lemma_pes_header_timestamp_prefixes(s: Seq<u8>)
    ensures
        spec_read_pes_header(s) matches Ok(((h, _), _)) ==> {
            &&& h.dts.is_some() ==> h.pts.is_some()
            &&& h.pts.is_some() ==> {
                &&& s.len() >= 14
                &&& s[7] & 0x80 != 0
                &&& (h.dts.is_none() ==> s[7] & 0x40 == 0 && s[9] >> 4u8 == 2)
                &&& (h.dts.is_some() ==> s.len() >= 19 && s[7] & 0x40 != 0 && s[9] >> 4u8 == 3
                    && s[14] >> 4u8 == 1)
            }
        },
{
    if spec_read_pes_header(s) is Ok && !has_no_optional_header(s[3]) && s.len() >= 9 {
        let r = bounded_pes_region(s);
        let f = s[7];
        let pts_flag = f & 0x80 != 0;
        let dts_flag = f & 0x40 != 0;
        let cb = pts_check_bits(dts_flag);
        if pts_flag {
            if let Ok((t, n1)) = spec_read_timestamp(r, cb) {
                crate::util::lemma_be_uint_5_top(r);
                assert(r[0] == s[9]);
                if dts_flag {
                    let r1 = r.skip(n1);
                    if let Ok((d, n2)) = spec_read_timestamp(r1, 1) {
                        crate::util::lemma_be_uint_5_top(r1);
                        assert(r1[0] == s[14]);
                    }
                }
            }
        }
    }
}

/// A PES header with a PTS is written with the PTS prefix that the standard fixes: '0010'
/// without a DTS, '0011' with one (whose field then starts with '0001').
pub proof fn lemma_pes_header_bytes_timestamp_prefixes(h: PesHeader, len: u16)
    requires
        pes_header_roundtrips(h),
        !has_no_optional_header(h.stream_id.value()),
        h.pts.is_some(),
    ensures
        pes_header_bytes(h, len)[9] >> 4u8 == (if h.dts.is_some() {
            3u8
        } else {
            2u8
        }),
        h.dts.is_some() ==> pes_header_bytes(h, len)[14] >> 4u8 == 1,
{
    let b = pes_header_bytes(h, len);
    lemma_pes_header_roundtrip(h, len, Seq::empty());
    assert(b + Seq::<u8>::empty() =~= b);
    lemma_pes_header_timestamp_prefixes(b);
}

/// A PES packet header reads back as the header and PES packet length that were written,
/// whatever follows it.
pub proof fn lemma_pes_header_roundtrip(h: PesHeader, len: u16, rest: Seq<u8>)
    requires
        pes_header_roundtrips(h),
    ensures
        spec_read_pes_header(pes_header_bytes(h, len) + rest) == Ok::<
            ((PesHeader, u16), int),
            ErrorKind,
        >(((h, len), pes_header_bytes(h, len).len() as int)),
{
    let id = h.stream_id.value();
    let b = pes_header_bytes(h, len);
    let s = b + rest;
    lemma_u16_bytes_roundtrip(len);
    assert(be_u16(s, 4) == be_u16(u16_bytes(len), 0));
    if has_no_optional_header(id) {
        assert(b.len() == 6);
    } else {
        lemma_pes_flags1_bits(h);
        lemma_pes_flags2_bits(h);
        lemma_pes_fields_roundtrip(h);
        let f = pes_fields_bytes(h);
        assert(f.len() == optional_header_size(h) - 3);
        assert(s[6] == pes_flags1(h));
        assert(s[7] == pes_flags2(h));
        assert(s[8] == f.len());
        assert(s.subrange(9, 9 + f.len() as int) =~= f);
    }
}

} // verus!
