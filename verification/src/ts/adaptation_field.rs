use crate::error::{Error, ErrorKind, Result};
use crate::time::{
    pcr_bytes, spec_read_pcr, spec_read_timestamp, timestamp_bytes, ClockReference, Timestamp,
};
use crate::util::{
    all_stuffing, be_u16, flag_bit, be_uint, consume_stuffing_bytes, read_as, skip, stuffing,
    take, u16_bytes, uint_bytes, write_all, write_stuffing_bytes, Parsed, ReadBytesExt,
    WriteBytesExt,
};
use vstd::prelude::*;

verus! {

/// Adaptation field control: whether a TS packet has an adaptation field, a payload, or both.
#[derive(Debug, Clone, Copy, PartialEq, Eq, Hash)]
pub enum AdaptationFieldControl {
    PayloadOnly,
    AdaptationFieldOnly,
    AdaptationFieldAndPayload,
}

/// The adaptation field control with the 2-bit code `n`, if `n` is not reserved.
pub open spec fn spec_adaptation_field_control(n: u8) -> Option<AdaptationFieldControl> {
    if n == 1 {
        Some(AdaptationFieldControl::PayloadOnly)
    } else if n == 2 {
        Some(AdaptationFieldControl::AdaptationFieldOnly)
    } else if n == 3 {
        Some(AdaptationFieldControl::AdaptationFieldAndPayload)
    } else {
        None
    }
}

/// The 2-bit code of an adaptation field control.
pub open spec fn adaptation_field_control_code(c: AdaptationFieldControl) -> u8 {
    match c {
        AdaptationFieldControl::PayloadOnly => 1,
        AdaptationFieldControl::AdaptationFieldOnly => 2,
        AdaptationFieldControl::AdaptationFieldAndPayload => 3,
    }
}

impl AdaptationFieldControl {
    /// Converts a 2-bit code into an `AdaptationFieldControl`.
    ///
    /// # Errors
    ///
    /// The code 0 is reserved; it gives an `ErrorKind::InvalidInput` error, as does a code above 3.
    pub fn from_u8(n: u8) -> (r: Result<Self>)
        ensures
            match r {
                Ok(c) => spec_adaptation_field_control(n) == Some(c),
                Err(e) => spec_adaptation_field_control(n).is_none() && e.kind
                    == ErrorKind::InvalidInput,
            },
    {
        match n {
            1 => Ok(AdaptationFieldControl::PayloadOnly),
            2 => Ok(AdaptationFieldControl::AdaptationFieldOnly),
            3 => Ok(AdaptationFieldControl::AdaptationFieldAndPayload),
            _ => Err(Error::invalid_input("Reserved for future use")),
        }
    }

    /// Returns the 2-bit code.
    pub fn as_u8(&self) -> (n: u8)
        ensures
            n == adaptation_field_control_code(*self),
    {
        match self {
            AdaptationFieldControl::PayloadOnly => 1,
            AdaptationFieldControl::AdaptationFieldOnly => 2,
            AdaptationFieldControl::AdaptationFieldAndPayload => 3,
        }
    }

    /// Returns `true` if the packet has an adaptation field.
    pub fn has_adaptation_field(&self) -> (b: bool)
        ensures
            b == (*self != AdaptationFieldControl::PayloadOnly),
    {
        !matches!(self, AdaptationFieldControl::PayloadOnly)
    }

    /// Returns `true` if the packet has a payload.
    pub fn has_payload(&self) -> (b: bool)
        ensures
            b == (*self != AdaptationFieldControl::AdaptationFieldOnly),
    {
        !matches!(self, AdaptationFieldControl::AdaptationFieldOnly)
    }
}

/// Legal time window of an adaptation field extension.
#[derive(Debug, Clone, Copy, PartialEq, Eq, Hash)]
pub struct LegalTimeWindow {
    is_valid: bool,
    offset: u16,
}

impl LegalTimeWindow {
    #[verifier::type_invariant]
    spec fn inv(self) -> bool {
        self.offset <= 0x7FFF
    }

    /// The valid flag.
    pub closed spec fn spec_is_valid(self) -> bool {
        self.is_valid
    }

    /// The 15-bit offset.
    pub closed spec fn spec_offset(self) -> u16 {
        self.offset
    }

    /// The window with the given flag and offset.
    pub closed spec fn from_parts(is_valid: bool, offset: u16) -> LegalTimeWindow {
        LegalTimeWindow { is_valid, offset }
    }

    /// The parts that a value is made from are the parts it has.
    pub broadcast proof fn lemma_from_parts(is_valid: bool, offset: u16)
        ensures
            #[trigger] LegalTimeWindow::from_parts(is_valid, offset).spec_is_valid() == is_valid,
            LegalTimeWindow::from_parts(is_valid, offset).spec_offset() == offset,
    {
    }

    /// A value is the one made from its own parts.
    pub broadcast proof fn lemma_parts_ext(w: LegalTimeWindow)
        ensures
            #[trigger] LegalTimeWindow::from_parts(w.spec_is_valid(), w.spec_offset()) == w,
    {
    }

    /// Makes a new `LegalTimeWindow` instance.
    ///
    /// # Errors
    ///
    /// If `offset` does not fit in 15 bits, it will return an `ErrorKind::InvalidInput` error.
    pub fn new(is_valid: bool, offset: u16) -> (r: Result<Self>)
        ensures
            match r {
                Ok(w) => offset <= 0x7FFF && w == LegalTimeWindow::from_parts(is_valid, offset),
                Err(e) => offset > 0x7FFF && e.kind == ErrorKind::InvalidInput,
            },
    {
        if offset > 0x7FFF {
            return Err(Error::invalid_input("Too large legal time window offset"));
        }
        Ok(LegalTimeWindow { is_valid, offset })
    }

    /// Returns the valid flag.
    pub fn is_valid(&self) -> (b: bool)
        ensures
            b == self.spec_is_valid(),
    {
        self.is_valid
    }

    /// Returns the offset.
    pub fn offset(&self) -> (n: u16)
        ensures
            n == self.spec_offset(),
            n <= 0x7FFF,
    {
        proof {
            use_type_invariant(self);
        }
        self.offset
    }
}

/// Piecewise rate of an adaptation field extension (22 bits).
#[derive(Debug, Clone, Copy, PartialEq, Eq, Hash)]
pub struct PiecewiseRate(u32);

impl PiecewiseRate {
    #[verifier::type_invariant]
    spec fn inv(self) -> bool {
        self.0 <= 0x3F_FFFF
    }

    /// The rate value.
    pub closed spec fn value(self) -> u32 {
        self.0
    }

    /// The rate with the value `n`.
    pub closed spec fn from_value(n: u32) -> PiecewiseRate {
        PiecewiseRate(n)
    }

    /// The value that a value is made from is the value it has.
    pub broadcast proof fn lemma_from_value(n: u32)
        ensures
            #[trigger] PiecewiseRate::from_value(n).value() == n,
    {
    }

    /// A value is the one made from its own value.
    pub broadcast proof fn lemma_value_ext(r: PiecewiseRate)
        ensures
            #[trigger] PiecewiseRate::from_value(r.value()) == r,
    {
    }

    /// Makes a new `PiecewiseRate` instance.
    ///
    /// # Errors
    ///
    /// If `rate` does not fit in 22 bits, it will return an `ErrorKind::InvalidInput` error.
    pub fn new(rate: u32) -> (r: Result<Self>)
        ensures
            match r {
                Ok(p) => rate <= 0x3F_FFFF && p.value() == rate,
                Err(e) => rate > 0x3F_FFFF && e.kind == ErrorKind::InvalidInput,
            },
    {
        if rate > 0x3F_FFFF {
            return Err(Error::invalid_input("Too large piecewise rate"));
        }
        Ok(PiecewiseRate(rate))
    }

    /// Returns the rate value.
    pub fn as_u32(&self) -> (n: u32)
        ensures
            n == self.value(),
            n <= 0x3F_FFFF,
    {
        proof {
            use_type_invariant(self);
        }
        self.0
    }
}

/// Seamless splice of an adaptation field extension.
#[derive(Debug, Clone, Copy, PartialEq, Eq, Hash)]
pub struct SeamlessSplice {
    splice_type: u8,
    dts_next_access_unit: Timestamp,
}

impl SeamlessSplice {
    #[verifier::type_invariant]
    spec fn inv(self) -> bool {
        self.splice_type <= 0x0F
    }

    /// The 4-bit splice type.
    pub closed spec fn spec_splice_type(self) -> u8 {
        self.splice_type
    }

    /// The DTS of the next access unit.
    pub closed spec fn spec_dts_next_access_unit(self) -> Timestamp {
        self.dts_next_access_unit
    }

    /// The splice with the given type and timestamp.
    pub closed spec fn from_parts(splice_type: u8, dts: Timestamp) -> SeamlessSplice {
        SeamlessSplice { splice_type, dts_next_access_unit: dts }
    }

    /// The parts that a value is made from are the parts it has.
    pub broadcast proof fn lemma_from_parts(splice_type: u8, dts: Timestamp)
        ensures
            #[trigger] SeamlessSplice::from_parts(splice_type, dts).spec_splice_type()
                == splice_type,
            SeamlessSplice::from_parts(splice_type, dts).spec_dts_next_access_unit() == dts,
    {
    }

    /// A value is the one made from its own parts.
    pub broadcast proof fn lemma_parts_ext(s: SeamlessSplice)
        ensures
            #[trigger] SeamlessSplice::from_parts(s.spec_splice_type(), s.spec_dts_next_access_unit())
                == s,
    {
    }

    /// Makes a new `SeamlessSplice` instance.
    ///
    /// # Errors
    ///
    /// If `splice_type` does not fit in 4 bits, it will return an `ErrorKind::InvalidInput` error.
    pub fn new(splice_type: u8, dts_next_access_unit: Timestamp) -> (r: Result<Self>)
        ensures
            match r {
                Ok(s) => splice_type <= 0x0F && s == SeamlessSplice::from_parts(
                    splice_type,
                    dts_next_access_unit,
                ),
                Err(e) => splice_type > 0x0F && e.kind == ErrorKind::InvalidInput,
            },
    {
        if splice_type > 0x0F {
            return Err(Error::invalid_input("Too large splice type"));
        }
        Ok(SeamlessSplice { splice_type, dts_next_access_unit })
    }

    /// Returns the splice type.
    pub fn splice_type(&self) -> (n: u8)
        ensures
            n == self.spec_splice_type(),
            n <= 0x0F,
    {
        proof {
            use_type_invariant(self);
        }
        self.splice_type
    }

    /// Returns the DTS of the next access unit.
    pub fn dts_next_access_unit(&self) -> (t: Timestamp)
        ensures
            t == self.spec_dts_next_access_unit(),
    {
        self.dts_next_access_unit
    }
}

/// Adaptation field extension.
#[derive(Debug, Clone, Copy, PartialEq, Eq, Hash)]
pub struct AdaptationExtensionField {
    pub legal_time_window: Option<LegalTimeWindow>,
    pub piecewise_rate: Option<PiecewiseRate>,
    pub seamless_splice: Option<SeamlessSplice>,
}

/// Adaptation field.
#[derive(Debug, Clone, PartialEq, Eq, Hash)]
pub struct AdaptationField {
    pub discontinuity_indicator: bool,
    pub random_access_indicator: bool,
    pub es_priority_indicator: bool,
    pub pcr: Option<ClockReference>,
    pub opcr: Option<ClockReference>,
    pub splice_countdown: Option<i8>,
    pub transport_private_data: Vec<u8>,
    pub extension: Option<AdaptationExtensionField>,
}

/// The value of an `AdaptationField`.
#[verifier::ext_equal]
pub struct SpecAdaptationField {
    pub discontinuity_indicator: bool,
    pub random_access_indicator: bool,
    pub es_priority_indicator: bool,
    pub pcr: Option<ClockReference>,
    pub opcr: Option<ClockReference>,
    pub splice_countdown: Option<i8>,
    pub transport_private_data: Seq<u8>,
    pub extension: Option<AdaptationExtensionField>,
}

impl View for AdaptationField {
    type V = SpecAdaptationField;

    open spec fn view(&self) -> SpecAdaptationField {
        SpecAdaptationField {
            discontinuity_indicator: self.discontinuity_indicator,
            random_access_indicator: self.random_access_indicator,
            es_priority_indicator: self.es_priority_indicator,
            pcr: self.pcr,
            opcr: self.opcr,
            splice_countdown: self.splice_countdown,
            transport_private_data: self.transport_private_data@,
            extension: self.extension,
        }
    }
}

// ---------------------------------------------------------------- reading

/// A legal time window read from the front of `s`.
pub open spec fn spec_read_legal_time_window(s: Seq<u8>) -> Parsed<LegalTimeWindow> {
    if s.len() < 2 {
        Err(ErrorKind::Other)
    } else {
        Ok(
            (
                LegalTimeWindow::from_parts(be_u16(s, 0) & 0x8000 != 0, be_u16(s, 0) & 0x7FFF),
                2,
            ),
        )
    }
}

/// A piecewise rate read from the front of `s`: two reserved bits, then 22 bits.
pub open spec fn spec_read_piecewise_rate(s: Seq<u8>) -> Parsed<PiecewiseRate> {
    if s.len() < 3 {
        Err(ErrorKind::Other)
    } else {
        Ok((PiecewiseRate::from_value((be_uint(s, 3) & 0x3F_FFFF) as u32), 3))
    }
}

/// A seamless splice read from the front of `s`: the splice type stands in the place of
/// the check bits of the timestamp that follows.
pub open spec fn spec_read_seamless_splice(s: Seq<u8>) -> Parsed<SeamlessSplice> {
    if s.len() < 5 {
        Err(ErrorKind::Other)
    } else {
        let splice_type = ((be_uint(s, 5) >> 36u64) & 0xF) as u8;
        match spec_read_timestamp(s, splice_type) {
            Err(k) => Err(k),
            Ok((t, n)) => Ok((SeamlessSplice::from_parts(splice_type, t), n)),
        }
    }
}

/// The bytes of a legal time window.
pub open spec fn legal_time_window_bytes(w: LegalTimeWindow) -> Seq<u8> {
    u16_bytes(
        (if w.spec_is_valid() {
            0x8000u16
        } else {
            0
        }) | w.spec_offset(),
    )
}

/// The bytes of a piecewise rate (reserved bits set to one).
pub open spec fn piecewise_rate_bytes(p: PiecewiseRate) -> Seq<u8> {
    uint_bytes(0xC0_0000u64 | p.value() as u64, 3)
}

/// The bytes of a seamless splice.
pub open spec fn seamless_splice_bytes(s: SeamlessSplice) -> Seq<u8> {
    timestamp_bytes(s.spec_dts_next_access_unit(), s.spec_splice_type())
}

/// An optional field read with `read` when `flag` is set.
pub open spec fn spec_read_opt<T>(s: Seq<u8>, flag: bool, read: spec_fn(Seq<u8>) -> Parsed<T>) -> Parsed<
    Option<T>,
> {
    if !flag {
        Ok((None, 0))
    } else {
        match read(s) {
            Err(k) => Err(k),
            Ok((v, n)) => Ok((Some(v), n)),
        }
    }
}

/// The bytes that a length field `len` at the front of `s` bounds, as far as `s` goes.
pub open spec fn bounded_region(s: Seq<u8>, len: int) -> Seq<u8> {
    if len <= s.len() - 1 {
        s.subrange(1, 1 + len)
    } else {
        s.skip(1)
    }
}

/// The fields of an adaptation field extension, read from its region `r`.
pub open spec fn spec_read_extension_fields(r: Seq<u8>) -> Parsed<AdaptationExtensionField> {
    if r.len() < 1 {
        Err(ErrorKind::Other)
    } else {
        let f = r[0];
        let r0 = r.skip(1);
        match spec_read_opt(r0, f & 0x80 != 0, |x| spec_read_legal_time_window(x)) {
            Err(k) => Err(k),
            Ok((ltw, n1)) => match spec_read_opt(
                r0.skip(n1),
                f & 0x40 != 0,
                |x| spec_read_piecewise_rate(x),
            ) {
                Err(k) => Err(k),
                Ok((pr, n2)) => match spec_read_opt(
                    r0.skip(n1).skip(n2),
                    f & 0x20 != 0,
                    |x| spec_read_seamless_splice(x),
                ) {
                    Err(k) => Err(k),
                    Ok((ss, n3)) => Ok(
                        (
                            AdaptationExtensionField {
                                legal_time_window: ltw,
                                piecewise_rate: pr,
                                seamless_splice: ss,
                            },
                            1 + n1 + n2 + n3,
                        ),
                    ),
                },
            },
        }
    }
}

/// An adaptation field extension read from the front of `s`: its length byte (0 for none),
/// then fields that must take exactly that length.
pub open spec fn spec_read_extension(s: Seq<u8>) -> Parsed<Option<AdaptationExtensionField>> {
    if s.len() < 1 {
        Err(ErrorKind::Other)
    } else if s[0] == 0 {
        Ok((None, 1))
    } else {
        match spec_read_extension_fields(bounded_region(s, s[0] as int)) {
            Err(k) => Err(k),
            Ok((e, n)) => if n != s[0] {
                Err(ErrorKind::InvalidInput)
            } else {
                Ok((Some(e), 1 + n))
            },
        }
    }
}

/// Transport private data read from the front of `s`: a length byte, then the data.
pub open spec fn spec_read_private_data(s: Seq<u8>) -> Parsed<Seq<u8>> {
    if s.len() < 1 || s.len() < 1 + s[0] {
        Err(ErrorKind::Other)
    } else {
        Ok((s.subrange(1, 1 + s[0]), 1 + s[0]))
    }
}

/// A splice countdown read from the front of `s`.
pub open spec fn spec_read_splice_countdown(s: Seq<u8>) -> Parsed<i8> {
    if s.len() < 1 {
        Err(ErrorKind::Other)
    } else {
        Ok((s[0] as i8, 1))
    }
}

/// The clock references and splice countdown of an adaptation field with flags `f`, read
/// from the front of `r`.
pub open spec fn spec_read_adaptation_clocks(r: Seq<u8>, f: u8) -> Parsed<
    (Option<ClockReference>, Option<ClockReference>, Option<i8>),
> {
    match spec_read_opt(r, f & 0x10 != 0, |x| spec_read_pcr(x)) {
        Err(k) => Err(k),
        Ok((pcr, n1)) => match spec_read_opt(r.skip(n1), f & 0x08 != 0, |x| spec_read_pcr(x)) {
            Err(k) => Err(k),
            Ok((opcr, n2)) => match spec_read_opt(
                r.skip(n1).skip(n2),
                f & 0x04 != 0,
                |x| spec_read_splice_countdown(x),
            ) {
                Err(k) => Err(k),
                Ok((splice_countdown, n3)) => Ok(((pcr, opcr, splice_countdown), n1 + n2 + n3)),
            },
        },
    }
}

/// The transport private data and extension of an adaptation field with flags `f`, read
/// from the front of `r`.
pub open spec fn spec_read_adaptation_tail(r: Seq<u8>, f: u8) -> Parsed<
    (Seq<u8>, Option<AdaptationExtensionField>),
> {
    match spec_read_opt(r, f & 0x02 != 0, |x| spec_read_private_data(x)) {
        Err(k) => Err(k),
        Ok((private, n1)) => match spec_read_opt(r.skip(n1), f & 0x01 != 0, |x| spec_read_extension(x)) {
            Err(k) => Err(k),
            Ok((ext, n2)) => Ok(
                (
                    (
                        match private {
                            Some(d) => d,
                            None => Seq::empty(),
                        },
                        match ext {
                            Some(e) => e,
                            None => None,
                        },
                    ),
                    n1 + n2,
                ),
            ),
        },
    }
}

/// The fields of an adaptation field, read from its region `r`; what follows them must be
/// stuffing.
pub open spec fn spec_read_adaptation_fields(r: Seq<u8>) -> core::result::Result<
    SpecAdaptationField,
    ErrorKind,
> {
    if r.len() < 1 {
        Err(ErrorKind::Other)
    } else {
        let f = r[0];
        match spec_read_adaptation_clocks(r.skip(1), f) {
            Err(k) => Err(k),
            Ok(((pcr, opcr, splice_countdown), n)) => match spec_read_adaptation_tail(
                r.skip(1).skip(n),
                f,
            ) {
                Err(k) => Err(k),
                Ok(((transport_private_data, extension), m)) => if all_stuffing(
                    r.skip(1).skip(n).skip(m),
                ) {
                    Ok(
                        SpecAdaptationField {
                            discontinuity_indicator: f & 0x80 != 0,
                            random_access_indicator: f & 0x40 != 0,
                            es_priority_indicator: f & 0x20 != 0,
                            pcr,
                            opcr,
                            splice_countdown,
                            transport_private_data,
                            extension,
                        },
                    )
                } else {
                    Err(ErrorKind::InvalidInput)
                },
            },
        }
    }
}

/// An adaptation field read from the front of `s`: its length byte (0 for none), then its
/// fields and stuffing in the region that the length bounds.
pub open spec fn spec_read_adaptation_field(s: Seq<u8>) -> Parsed<Option<SpecAdaptationField>> {
    if s.len() < 1 {
        Err(ErrorKind::Other)
    } else if s[0] == 0 {
        Ok((None, 1))
    } else {
        let r = bounded_region(s, s[0] as int);
        match spec_read_adaptation_fields(r) {
            Err(k) => Err(k),
            Ok(af) => Ok((Some(af), 1 + r.len() as int)),
        }
    }
}

} // verus!

verus! {

/// Returns the region that the length byte at the front of `s` bounds, as far as `s` goes.
fn region_after_length(s: &[u8], len: usize) -> (r: &[u8])
    requires
        s@.len() >= 1,
    ensures
        r@ == bounded_region(s@, len as int),
{
    let rl = if len <= s.len() - 1 {
        len
    } else {
        s.len() - 1
    };
    let r = take(skip(s, 1), rl);
    assert(r@ =~= bounded_region(s@, len as int));
    r
}

impl LegalTimeWindow {
    fn read_from(reader: &mut &[u8]) -> (r: Result<Self>)
        ensures
            match r {
                Ok(w) => read_as(spec_read_legal_time_window(old(reader)@), old(reader)@, final(reader)@, w),
                Err(e) => spec_read_legal_time_window(old(reader)@) == Err::<(LegalTimeWindow, int), ErrorKind>(e.kind),
            },
    {
        let n = reader.read_u16()?;
        proof {
            crate::util::lemma_u16_and_le(n, 0x7FFF);
        }
        Ok(LegalTimeWindow { is_valid: (n & 0x8000) != 0, offset: n & 0x7FFF })
    }

    fn write_to(&self, out: &mut Vec<u8>)
        ensures
            final(out)@ == old(out)@ + legal_time_window_bytes(*self),
    {
        let n = (if self.is_valid {
            0x8000u16
        } else {
            0
        }) | self.offset();
        out.write_u16(n);
    }
}

impl PiecewiseRate {
    fn read_from(reader: &mut &[u8]) -> (r: Result<Self>)
        ensures
            match r {
                Ok(p) => read_as(spec_read_piecewise_rate(old(reader)@), old(reader)@, final(reader)@, p),
                Err(e) => spec_read_piecewise_rate(old(reader)@) == Err::<(PiecewiseRate, int), ErrorKind>(e.kind),
            },
    {
        let n = reader.read_uint::<3>()?;
        let v = n & 0x3F_FFFF;
        proof {
            crate::util::lemma_u64_and_le(n, 0x3F_FFFF);
        }
        Ok(PiecewiseRate(v as u32))
    }

    fn write_to(&self, out: &mut Vec<u8>)
        ensures
            final(out)@ == old(out)@ + piecewise_rate_bytes(*self),
    {
        out.write_uint::<3>(0xC0_0000u64 | self.as_u32() as u64);
    }
}

impl SeamlessSplice {
    fn read_from(reader: &mut &[u8]) -> (r: Result<Self>)
        ensures
            match r {
                Ok(s) => read_as(spec_read_seamless_splice(old(reader)@), old(reader)@, final(reader)@, s),
                Err(e) => spec_read_seamless_splice(old(reader)@) == Err::<(SeamlessSplice, int), ErrorKind>(e.kind),
            },
    {
        let s: &[u8] = *reader;
        if s.len() < 5 {
            return Err(Error::end_of_input());
        }
        let mut peek: &[u8] = s;
        let n = peek.read_uint::<5>()?;
        proof {
            crate::util::lemma_u64_and_le(n >> 36u64, 0xF);
        }
        let splice_type = ((n >> 36u64) & 0xF) as u8;
        let dts_next_access_unit = Timestamp::read_from(reader, splice_type)?;
        Ok(SeamlessSplice { splice_type, dts_next_access_unit })
    }

    fn write_to(&self, out: &mut Vec<u8>)
        ensures
            final(out)@ == old(out)@ + seamless_splice_bytes(*self),
    {
        self.dts_next_access_unit.write_to(out, self.splice_type());
    }
}

} // verus!

verus! {

// ---------------------------------------------------------------- writing

/// The flags byte of an adaptation field extension (reserved bits set to one).
pub open spec fn extension_flags(e: AdaptationExtensionField) -> u8 {
    flag_bit(e.legal_time_window.is_some(), 0x80) | flag_bit(e.piecewise_rate.is_some(), 0x40)
        | flag_bit(e.seamless_splice.is_some(), 0x20) | 0x1F
}

/// The bytes of the fields of an adaptation field extension, flags included.
pub open spec fn extension_fields_bytes(e: AdaptationExtensionField) -> Seq<u8> {
    seq![extension_flags(e)] + match e.legal_time_window {
        Some(w) => legal_time_window_bytes(w),
        None => Seq::empty(),
    } + match e.piecewise_rate {
        Some(p) => piecewise_rate_bytes(p),
        None => Seq::empty(),
    } + match e.seamless_splice {
        Some(s) => seamless_splice_bytes(s),
        None => Seq::empty(),
    }
}

/// The bytes of an adaptation field extension: its length byte, then its fields.
pub open spec fn extension_bytes(e: AdaptationExtensionField) -> Seq<u8> {
    seq![extension_fields_bytes(e).len() as u8] + extension_fields_bytes(e)
}

/// The flags byte of an adaptation field.
pub open spec fn adaptation_field_flags(a: SpecAdaptationField) -> u8 {
    flag_bit(a.discontinuity_indicator, 0x80) | flag_bit(a.random_access_indicator, 0x40)
        | flag_bit(a.es_priority_indicator, 0x20) | flag_bit(a.pcr.is_some(), 0x10) | flag_bit(
        a.opcr.is_some(),
        0x08,
    ) | flag_bit(a.splice_countdown.is_some(), 0x04) | flag_bit(
        a.transport_private_data.len() > 0,
        0x02,
    ) | flag_bit(a.extension.is_some(), 0x01)
}

/// The bytes of an optional clock reference field.
pub open spec fn opt_pcr_bytes(c: Option<ClockReference>) -> Seq<u8> {
    match c {
        Some(c) => pcr_bytes(c),
        None => Seq::empty(),
    }
}

/// The bytes of an optional splice countdown.
pub open spec fn opt_splice_countdown_bytes(c: Option<i8>) -> Seq<u8> {
    match c {
        Some(c) => seq![c as u8],
        None => Seq::empty(),
    }
}

/// The bytes of transport private data: none where it is empty.
pub open spec fn private_data_bytes(d: Seq<u8>) -> Seq<u8> {
    if d.len() > 0 {
        seq![d.len() as u8] + d
    } else {
        Seq::empty()
    }
}

/// The bytes of an optional extension.
pub open spec fn opt_extension_bytes(e: Option<AdaptationExtensionField>) -> Seq<u8> {
    match e {
        Some(e) => extension_bytes(e),
        None => Seq::empty(),
    }
}

/// The bytes of the fields of an adaptation field, flags included.
pub open spec fn adaptation_fields_bytes(a: SpecAdaptationField) -> Seq<u8> {
    seq![adaptation_field_flags(a)] + opt_pcr_bytes(a.pcr) + opt_pcr_bytes(a.opcr)
        + opt_splice_countdown_bytes(a.splice_countdown) + private_data_bytes(
        a.transport_private_data,
    ) + opt_extension_bytes(a.extension)
}

/// The size of an adaptation field without stuffing, its length byte included.
pub open spec fn adaptation_field_size(a: SpecAdaptationField) -> int {
    1 + adaptation_fields_bytes(a).len() as int
}

/// The bytes of an adaptation field whose length byte is `len`: the fields, then stuffing.
pub open spec fn adaptation_field_bytes(a: SpecAdaptationField, len: u8) -> Seq<u8> {
    seq![len] + adaptation_fields_bytes(a) + stuffing((len + 1 - adaptation_field_size(a)) as nat)
}

/// The bytes of an adaptation field of length `len` that holds only stuffing.
pub open spec fn stuffing_adaptation_field_bytes(len: u8) -> Seq<u8> {
    if len == 0 {
        seq![0u8]
    } else {
        seq![len, 0u8] + stuffing((len - 1) as nat)
    }
}

// ---------------------------------------------------------------- exec

impl AdaptationExtensionField {
    /// Reads an adaptation field extension (`None` where its length byte is 0).
    ///
    /// # Errors
    ///
    /// If the fields do not take exactly the length, it will return an
    /// `ErrorKind::InvalidInput` error.
    pub fn read_from(reader: &mut &[u8]) -> (r: Result<Option<Self>>)
        ensures
            match r {
                Ok(e) => read_as(spec_read_extension(old(reader)@), old(reader)@, final(reader)@, e),
                Err(e) => spec_read_extension(old(reader)@) == Err::<
                    (Option<AdaptationExtensionField>, int),
                    ErrorKind,
                >(e.kind),
            },
    {
        let s: &[u8] = *reader;
        if s.len() < 1 {
            return Err(Error::end_of_input());
        }
        let len = s[0] as usize;
        if len == 0 {
            *reader = skip(s, 1);
            return Ok(None);
        }
        let region = region_after_length(s, len);
        let mut rd: &[u8] = region;
        let b = rd.read_u8()?;
        let ghost r0 = rd@;
        let legal_time_window = if (b & 0b1000_0000) != 0 {
            Some(LegalTimeWindow::read_from(&mut rd)?)
        } else {
            None
        };
        let ghost r1 = rd@;
        assert(r1 =~= r0.skip(r0.len() - r1.len()));
        let piecewise_rate = if (b & 0b0100_0000) != 0 {
            Some(PiecewiseRate::read_from(&mut rd)?)
        } else {
            None
        };
        let ghost r2 = rd@;
        assert(r2 =~= r0.skip(r0.len() - r1.len()).skip(r1.len() - r2.len()));
        let seamless_splice = if (b & 0b0010_0000) != 0 {
            Some(SeamlessSplice::read_from(&mut rd)?)
        } else {
            None
        };
        let ghost r3 = rd@;
        assert(r3 =~= r0.skip(r0.len() - r1.len()).skip(r1.len() - r2.len()).skip(
            r2.len() - r3.len(),
        ));
        if region.len() - rd.len() != len {
            return Err(Error::invalid_input("Unexpected adaptation extension field length"));
        }
        *reader = skip(s, 1 + len);
        Ok(Some(AdaptationExtensionField { legal_time_window, piecewise_rate, seamless_splice }))
    }

    /// The size of the extension, its length byte included.
    pub fn external_size(&self) -> (n: usize)
        ensures
            n == extension_bytes(*self).len(),
    {
        2 + (if self.legal_time_window.is_some() {
            2
        } else {
            0
        }) + (if self.piecewise_rate.is_some() {
            3
        } else {
            0
        }) + (if self.seamless_splice.is_some() {
            5
        } else {
            0
        })
    }

    /// Writes the extension.
    pub fn write_to(&self, out: &mut Vec<u8>)
        ensures
            final(out)@ == old(out)@ + extension_bytes(*self),
    {
        let len = (self.external_size() - 1) as u8;
        out.write_u8(len);
        let n = (if self.legal_time_window.is_some() {
            0x80u8
        } else {
            0
        }) | (if self.piecewise_rate.is_some() {
            0x40u8
        } else {
            0
        }) | (if self.seamless_splice.is_some() {
            0x20u8
        } else {
            0
        }) | 0x1F;
        out.write_u8(n);
        let ghost o1 = out@;
        if let Some(x) = self.legal_time_window {
            x.write_to(out);
        }
        let ghost o2 = out@;
        if let Some(x) = self.piecewise_rate {
            x.write_to(out);
        }
        let ghost o3 = out@;
        if let Some(x) = self.seamless_splice {
            x.write_to(out);
        }
        assert(out@ =~= old(out)@ + extension_bytes(*self));
    }
}

fn read_adaptation_clocks(rd: &mut &[u8], f: u8) -> (r: Result<
    (Option<ClockReference>, Option<ClockReference>, Option<i8>),
>)
    ensures
        match r {
            Ok(v) => read_as(spec_read_adaptation_clocks(old(rd)@, f), old(rd)@, final(rd)@, v),
            Err(e) => spec_read_adaptation_clocks(old(rd)@, f) == Err::<
                ((Option<ClockReference>, Option<ClockReference>, Option<i8>), int),
                ErrorKind,
            >(e.kind),
        },
{
    let ghost r0 = rd@;
    let pcr = if (f & 0b0001_0000) != 0 {
        Some(ClockReference::read_pcr_from(rd)?)
    } else {
        None
    };
    let ghost r1 = rd@;
    assert(r1 =~= r0.skip(r0.len() - r1.len()));
    assert(spec_read_opt(r0, f & 0x10 != 0, |x| spec_read_pcr(x)) == Ok::<(Option<ClockReference>, int), ErrorKind>((pcr, r0.len() - r1.len())));
    let opcr = if (f & 0b0000_1000) != 0 {
        Some(ClockReference::read_pcr_from(rd)?)
    } else {
        None
    };
    let ghost r2 = rd@;
    assert(r2 =~= r0.skip(r0.len() - r1.len()).skip(r1.len() - r2.len()));
    let splice_countdown = if (f & 0b0000_0100) != 0 {
        Some(rd.read_i8()?)
    } else {
        None
    };
    let ghost r3 = rd@;
    assert(r3 =~= r0.skip(r0.len() - r1.len()).skip(r1.len() - r2.len()).skip(r2.len() - r3.len()));
    let ghost n1 = r0.len() - r1.len();
    let ghost n2 = r1.len() - r2.len();
    let ghost n3 = r2.len() - r3.len();
    assert(spec_read_opt(r0.skip(n1), f & 0x08 != 0, |x| spec_read_pcr(x)) == Ok::<(Option<ClockReference>, int), ErrorKind>((opcr, n2)));
    assert(spec_read_opt(r0.skip(n1).skip(n2), f & 0x04 != 0, |x| spec_read_splice_countdown(x)) == Ok::<(Option<i8>, int), ErrorKind>((splice_countdown, n3)));
    assert(r3 =~= r0.skip(r0.len() - r3.len()));
    Ok((pcr, opcr, splice_countdown))
}

fn read_adaptation_tail(rd: &mut &[u8], f: u8) -> (r: Result<(Vec<u8>, Option<AdaptationExtensionField>)>)
    ensures
        match r {
            Ok(v) => read_as(
                spec_read_adaptation_tail(old(rd)@, f),
                old(rd)@,
                final(rd)@,
                (v.0@, v.1),
            ),
            Err(e) => spec_read_adaptation_tail(old(rd)@, f) == Err::<
                ((Seq<u8>, Option<AdaptationExtensionField>), int),
                ErrorKind,
            >(e.kind),
        },
{
    let ghost r0 = rd@;
    let transport_private_data = if (f & 0b0000_0010) != 0 {
        let t: &[u8] = *rd;
        if t.len() < 1 || t.len() < 1 + t[0] as usize {
            return Err(Error::end_of_input());
        }
        let n = t[0] as usize;
        let mut buf = Vec::new();
        write_all(&mut buf, take(skip(t, 1), n));
        assert(buf@ =~= t@.subrange(1, 1 + n));
        *rd = skip(t, 1 + n);
        buf
    } else {
        Vec::new()
    };
    let ghost r1 = rd@;
    assert(r1 =~= r0.skip(r0.len() - r1.len()));
    let extension = if (f & 0b0000_0001) != 0 {
        AdaptationExtensionField::read_from(rd)?
    } else {
        None
    };
    let ghost r2 = rd@;
    assert(r2 =~= r0.skip(r0.len() - r1.len()).skip(r1.len() - r2.len()));
    assert(transport_private_data@ =~= match spec_read_opt(r0, f & 0x02 != 0, |x| spec_read_private_data(x)) {
        Ok((Some(d), _)) => d,
        _ => Seq::<u8>::empty(),
    });
    assert(r2 =~= r0.skip(r0.len() - r2.len()));
    Ok((transport_private_data, extension))
}

impl AdaptationField {
    /// Reads an adaptation field (`None` where its length byte is 0).
    ///
    /// # Errors
    ///
    /// See `spec_read_adaptation_field`: an invalid clock reference or extension, or
    /// non-stuffing bytes after the fields, give an `ErrorKind::InvalidInput` error; a region
    /// that ends inside a field gives an `ErrorKind::Other` error.
    pub fn read_from(reader: &mut &[u8]) -> (r: Result<Option<Self>>)
        ensures
            match r {
                Ok(a) => read_as(
                    spec_read_adaptation_field(old(reader)@),
                    old(reader)@,
                    final(reader)@,
                    match a {
                        Some(a) => Some(a@),
                        None => None,
                    },
                ),
                Err(e) => spec_read_adaptation_field(old(reader)@) == Err::<
                    (Option<SpecAdaptationField>, int),
                    ErrorKind,
                >(e.kind),
            },
    {
        let s: &[u8] = *reader;
        if s.len() < 1 {
            return Err(Error::end_of_input());
        }
        let len = s[0] as usize;
        if len == 0 {
            *reader = skip(s, 1);
            return Ok(None);
        }
        let region = region_after_length(s, len);
        let a = Self::read_fields(region)?;
        *reader = skip(s, 1 + region.len());
        Ok(Some(a))
    }

    fn read_fields(region: &[u8]) -> (r: Result<Self>)
        ensures
            match r {
                Ok(a) => spec_read_adaptation_fields(region@) == Ok::<SpecAdaptationField, ErrorKind>(a@),
                Err(e) => spec_read_adaptation_fields(region@) == Err::<SpecAdaptationField, ErrorKind>(e.kind),
            },
    {
        let mut rd: &[u8] = region;
        let b = rd.read_u8()?;
        let ghost r0 = rd@;
        let (pcr, opcr, splice_countdown) = read_adaptation_clocks(&mut rd, b)?;
        let ghost r1 = rd@;
        let (transport_private_data, extension) = read_adaptation_tail(&mut rd, b)?;
        let ghost r2 = rd@;
        assert(r2 =~= r0.skip(r0.len() - r1.len()).skip(r1.len() - r2.len()));
        consume_stuffing_bytes(&mut rd)?;
        Ok(AdaptationField {
            discontinuity_indicator: (b & 0b1000_0000) != 0,
            random_access_indicator: (b & 0b0100_0000) != 0,
            es_priority_indicator: (b & 0b0010_0000) != 0,
            pcr,
            opcr,
            splice_countdown,
            transport_private_data,
            extension,
        })
    }

    /// The size of the adaptation field without stuffing, its length byte included.
    pub fn external_size(&self) -> (n: usize)
        requires
            self.transport_private_data@.len() <= usize::MAX - 32,
        ensures
            n == adaptation_field_size(self@),
    {
        let mut n: usize = 1 + 1;
        if self.pcr.is_some() {
            n = n + 6;
        }
        if self.opcr.is_some() {
            n = n + 6;
        }
        if self.splice_countdown.is_some() {
            n = n + 1;
        }
        if self.transport_private_data.len() > 0 {
            n = n + 1 + self.transport_private_data.len();
        }
        if let Some(x) = &self.extension {
            n = n + x.external_size();
        }
        n
    }

    /// Writes the adaptation field with the length byte `adaptation_field_len`, filling the
    /// room after the fields with stuffing.
    pub fn write_to(&self, out: &mut Vec<u8>, adaptation_field_len: u8)
        requires
            self.transport_private_data@.len() <= 255,
            adaptation_field_size(self@) <= adaptation_field_len + 1,
            adaptation_field_len + 1 - adaptation_field_size(self@) <= 188,
        ensures
            final(out)@ == old(out)@ + adaptation_field_bytes(self@, adaptation_field_len),
    {
        out.write_u8(adaptation_field_len);
        self.write_fields(out);
        let stuffing_len = adaptation_field_len as usize + 1 - self.external_size();
        write_stuffing_bytes(out, stuffing_len);
        assert(out@ =~= old(out)@ + adaptation_field_bytes(self@, adaptation_field_len));
    }

    fn flags_byte(&self) -> (n: u8)
        ensures
            n == adaptation_field_flags(self@),
    {
        (if self.discontinuity_indicator {
            0x80u8
        } else {
            0
        }) | (if self.random_access_indicator {
            0x40u8
        } else {
            0
        }) | (if self.es_priority_indicator {
            0x20u8
        } else {
            0
        }) | (if self.pcr.is_some() {
            0x10u8
        } else {
            0
        }) | (if self.opcr.is_some() {
            0x08u8
        } else {
            0
        }) | (if self.splice_countdown.is_some() {
            0x04u8
        } else {
            0
        }) | (if self.transport_private_data.len() > 0 {
            0x02u8
        } else {
            0
        }) | (if self.extension.is_some() {
            0x01u8
        } else {
            0
        })
    }

    fn write_fields(&self, out: &mut Vec<u8>)
        requires
            self.transport_private_data@.len() <= 255,
        ensures
            final(out)@ == old(out)@ + adaptation_fields_bytes(self@),
    {
        let n = self.flags_byte();
        out.write_u8(n);
        let ghost o1 = out@;
        self.write_clocks(out);
        let ghost o2 = out@;
        self.write_tail(out);
        proof {
            let a = self@;
            assert(adaptation_fields_bytes(a) =~= seq![n] + (opt_pcr_bytes(a.pcr) + opt_pcr_bytes(a.opcr)
                + opt_splice_countdown_bytes(a.splice_countdown)) + (private_data_bytes(
                a.transport_private_data,
            ) + opt_extension_bytes(a.extension)));
            assert(out@ =~= old(out)@ + adaptation_fields_bytes(a));
        }
    }

    fn write_clocks(&self, out: &mut Vec<u8>)
        ensures
            final(out)@ == old(out)@ + (opt_pcr_bytes(self.pcr) + opt_pcr_bytes(self.opcr)
                + opt_splice_countdown_bytes(self.splice_countdown)),
    {
        if let Some(x) = self.pcr {
            x.write_pcr_to(out);
        }
        let ghost o2 = out@;
        if let Some(x) = self.opcr {
            x.write_pcr_to(out);
        }
        let ghost o3 = out@;
        if let Some(x) = self.splice_countdown {
            out.write_i8(x);
        }
        assert(out@ =~= o3 + opt_splice_countdown_bytes(self.splice_countdown));
        assert(out@ =~= old(out)@ + (opt_pcr_bytes(self.pcr) + opt_pcr_bytes(self.opcr)
            + opt_splice_countdown_bytes(self.splice_countdown)));
    }

    fn write_tail(&self, out: &mut Vec<u8>)
        requires
            self.transport_private_data@.len() <= 255,
        ensures
            final(out)@ == old(out)@ + (private_data_bytes(self.transport_private_data@)
                + opt_extension_bytes(self.extension)),
    {
        if self.transport_private_data.len() > 0 {
            out.write_u8(self.transport_private_data.len() as u8);
            write_all(out, self.transport_private_data.as_slice());
        }
        let ghost o5 = out@;
        assert(o5 =~= old(out)@ + private_data_bytes(self.transport_private_data@));
        if let Some(x) = &self.extension {
            x.write_to(out);
        }
        assert(out@ =~= old(out)@ + (private_data_bytes(self.transport_private_data@)
            + opt_extension_bytes(self.extension)));
    }

    /// Writes an adaptation field of length `adaptation_field_len` that holds only stuffing.
    pub fn write_stuffing_bytes(out: &mut Vec<u8>, adaptation_field_len: u8)
        requires
            adaptation_field_len <= 189,
        ensures
            final(out)@ == old(out)@ + stuffing_adaptation_field_bytes(adaptation_field_len),
    {
        out.write_u8(adaptation_field_len);
        if adaptation_field_len > 0 {
            out.write_u8(0);
            write_stuffing_bytes(out, adaptation_field_len as usize - 1);
        }
        assert(out@ =~= old(out)@ + stuffing_adaptation_field_bytes(adaptation_field_len));
    }
}

} // verus!

verus! {

// ---------------------------------------------------------------- reading back what was written

/// `true` if each field of an extension holds a value that its bytes can carry, as every
/// `AdaptationExtensionField` value does.
pub open spec fn extension_valid(e: AdaptationExtensionField) -> bool {
    &&& (e.legal_time_window matches Some(w) ==> w.spec_offset() <= 0x7FFF)
    &&& (e.piecewise_rate matches Some(p) ==> p.value() <= 0x3F_FFFF)
    &&& (e.seamless_splice matches Some(s) ==> s.spec_splice_type() <= 0x0F
        && s.spec_dts_next_access_unit().valid())
}

/// `true` if each field of an adaptation field holds a value that its bytes can carry, as
/// every `AdaptationField` value does.
pub open spec fn adaptation_field_valid(a: SpecAdaptationField) -> bool {
    &&& (a.pcr matches Some(c) ==> c.valid())
    &&& (a.opcr matches Some(c) ==> c.valid())
    &&& (a.extension matches Some(e) ==> extension_valid(e))
}

proof fn lemma_adaptation_field_flags_bits(a: SpecAdaptationField)
    ensures
        (adaptation_field_flags(a) & 0x80 != 0) == a.discontinuity_indicator,
        (adaptation_field_flags(a) & 0x40 != 0) == a.random_access_indicator,
        (adaptation_field_flags(a) & 0x20 != 0) == a.es_priority_indicator,
        (adaptation_field_flags(a) & 0x10 != 0) == a.pcr.is_some(),
        (adaptation_field_flags(a) & 0x08 != 0) == a.opcr.is_some(),
        (adaptation_field_flags(a) & 0x04 != 0) == a.splice_countdown.is_some(),
        (adaptation_field_flags(a) & 0x02 != 0) == (a.transport_private_data.len() > 0),
        (adaptation_field_flags(a) & 0x01 != 0) == a.extension.is_some(),
{
    let b7 = flag_bit(a.discontinuity_indicator, 0x80);
    let b6 = flag_bit(a.random_access_indicator, 0x40);
    let b5 = flag_bit(a.es_priority_indicator, 0x20);
    let b4 = flag_bit(a.pcr.is_some(), 0x10);
    let b3 = flag_bit(a.opcr.is_some(), 0x08);
    let b2 = flag_bit(a.splice_countdown.is_some(), 0x04);
    let b1 = flag_bit(a.transport_private_data.len() > 0, 0x02);
    let b0 = flag_bit(a.extension.is_some(), 0x01);
    let f = adaptation_field_flags(a);
    assert((f & 0x80 != 0) == (b7 != 0) && (f & 0x40 != 0) == (b6 != 0) && (f & 0x20 != 0) == (b5
        != 0) && (f & 0x10 != 0) == (b4 != 0) && (f & 0x08 != 0) == (b3 != 0) && (f & 0x04 != 0)
        == (b2 != 0) && (f & 0x02 != 0) == (b1 != 0) && (f & 0x01 != 0) == (b0 != 0))
        by (bit_vector)
        requires
            b7 == 0 || b7 == 0x80,
            b6 == 0 || b6 == 0x40,
            b5 == 0 || b5 == 0x20,
            b4 == 0 || b4 == 0x10,
            b3 == 0 || b3 == 0x08,
            b2 == 0 || b2 == 0x04,
            b1 == 0 || b1 == 0x02,
            b0 == 0 || b0 == 0x01,
            f == b7 | b6 | b5 | b4 | b3 | b2 | b1 | b0,
    ;
}

proof fn lemma_extension_flags_bits(e: AdaptationExtensionField)
    ensures
        (extension_flags(e) & 0x80 != 0) == e.legal_time_window.is_some(),
        (extension_flags(e) & 0x40 != 0) == e.piecewise_rate.is_some(),
        (extension_flags(e) & 0x20 != 0) == e.seamless_splice.is_some(),
{
    let b7 = flag_bit(e.legal_time_window.is_some(), 0x80);
    let b6 = flag_bit(e.piecewise_rate.is_some(), 0x40);
    let b5 = flag_bit(e.seamless_splice.is_some(), 0x20);
    let f = extension_flags(e);
    assert((f & 0x80 != 0) == (b7 != 0) && (f & 0x40 != 0) == (b6 != 0) && (f & 0x20 != 0) == (b5
        != 0)) by (bit_vector)
        requires
            b7 == 0 || b7 == 0x80,
            b6 == 0 || b6 == 0x40,
            b5 == 0 || b5 == 0x20,
            f == b7 | b6 | b5 | 0x1F,
    ;
}

proof fn lemma_legal_time_window_roundtrip(w: LegalTimeWindow, rest: Seq<u8>)
    requires
        w.spec_offset() <= 0x7FFF,
    ensures
        spec_read_legal_time_window(legal_time_window_bytes(w) + rest) == Ok::<
            (LegalTimeWindow, int),
            ErrorKind,
        >((w, 2)),
{
    broadcast use LegalTimeWindow::lemma_parts_ext;

    let off = w.spec_offset();
    let word = (if w.spec_is_valid() {
        0x8000u16
    } else {
        0
    }) | off;
    let v: u16 = if w.spec_is_valid() {
        0x8000u16
    } else {
        0
    };
    crate::util::lemma_u16_bytes_roundtrip(word);
    let s = legal_time_window_bytes(w) + rest;
    assert(be_u16(s, 0) == be_u16(u16_bytes(word), 0));
    assert((word & 0x8000 != 0) == (v != 0) && word & 0x7FFF == off) by (bit_vector)
        requires
            v == 0 || v == 0x8000,
            off <= 0x7FFF,
            word == v | off,
    ;
}

proof fn lemma_piecewise_rate_roundtrip(p: PiecewiseRate, rest: Seq<u8>)
    requires
        p.value() <= 0x3F_FFFF,
    ensures
        spec_read_piecewise_rate(piecewise_rate_bytes(p) + rest) == Ok::<
            (PiecewiseRate, int),
            ErrorKind,
        >((p, 3)),
{
    broadcast use PiecewiseRate::lemma_value_ext;

    let v = p.value() as u64;
    let w = 0xC0_0000u64 | v;
    crate::util::lemma_uint_bytes_3(w);
    crate::util::lemma_be_uint_prefix(piecewise_rate_bytes(p), rest, 3);
    assert((w & 0xFF_FFFF) & 0x3F_FFFF == v) by (bit_vector)
        requires
            v <= 0x3F_FFFF,
            w == 0xC0_0000u64 | v,
    ;
}

proof fn lemma_seamless_splice_roundtrip(ss: SeamlessSplice, rest: Seq<u8>)
    requires
        ss.spec_splice_type() <= 0x0F,
        ss.spec_dts_next_access_unit().valid(),
    ensures
        spec_read_seamless_splice(seamless_splice_bytes(ss) + rest) == Ok::<
            (SeamlessSplice, int),
            ErrorKind,
        >((ss, 5)),
{
    broadcast use SeamlessSplice::lemma_parts_ext;

    let st = ss.spec_splice_type();
    let t = ss.spec_dts_next_access_unit();
    let v = t.value();
    let w = crate::time::timestamp_word(v, st);
    crate::util::lemma_uint_bytes_5(w);
    crate::util::lemma_be_uint_prefix(seamless_splice_bytes(ss), rest, 5);
    assert(((w & 0xFF_FFFF_FFFF) >> 36u64) & 0xF == st as u64) by (bit_vector)
        requires
            st <= 0xF,
            w == ((st as u64) << 36u64) | (((v >> 30u64) & 0x7) << 33u64) | (1u64 << 32u64) | (((v
                >> 15u64) & 0x7FFF) << 17u64) | (1u64 << 16u64) | ((v & 0x7FFF) << 1u64) | 1u64,
    ;
    crate::time::lemma_timestamp_roundtrip(t, st, rest);
}

#[verifier::spinoff_prover]
#[verifier::rlimit(30)]
proof fn lemma_extension_fields_roundtrip(e: AdaptationExtensionField, rest: Seq<u8>)
    requires
        extension_valid(e),
    ensures
        spec_read_extension_fields(extension_fields_bytes(e) + rest) == Ok::<
            (AdaptationExtensionField, int),
            ErrorKind,
        >((e, extension_fields_bytes(e).len() as int)),
{
    lemma_extension_flags_bits(e);
    let lb = match e.legal_time_window {
        Some(w) => legal_time_window_bytes(w),
        None => Seq::empty(),
    };
    let pb = match e.piecewise_rate {
        Some(p) => piecewise_rate_bytes(p),
        None => Seq::empty(),
    };
    let sb = match e.seamless_splice {
        Some(s) => seamless_splice_bytes(s),
        None => Seq::empty(),
    };
    let r = extension_fields_bytes(e) + rest;
    let r0 = r.skip(1);
    assert(r0 =~= lb + (pb + (sb + rest)));
    assert(r[0] == extension_flags(e));
    match e.legal_time_window {
        Some(w) => lemma_legal_time_window_roundtrip(w, pb + (sb + rest)),
        None => {},
    }
    let r1 = r0.skip(lb.len() as int);
    assert(r1 =~= pb + (sb + rest));
    match e.piecewise_rate {
        Some(p) => lemma_piecewise_rate_roundtrip(p, sb + rest),
        None => {},
    }
    let r2 = r1.skip(pb.len() as int);
    assert(r2 =~= sb + rest);
    match e.seamless_splice {
        Some(s) => lemma_seamless_splice_roundtrip(s, rest),
        None => {},
    }
}

proof fn lemma_extension_roundtrip(e: AdaptationExtensionField, rest: Seq<u8>)
    requires
        extension_valid(e),
    ensures
        spec_read_extension(extension_bytes(e) + rest) == Ok::<
            (Option<AdaptationExtensionField>, int),
            ErrorKind,
        >((Some(e), extension_bytes(e).len() as int)),
{
    let f = extension_fields_bytes(e);
    let s = extension_bytes(e) + rest;
    assert(f.len() <= 11);
    assert(s[0] == f.len());
    assert(bounded_region(s, s[0] as int) =~= f + Seq::<u8>::empty());
    lemma_extension_fields_roundtrip(e, Seq::empty());
}

#[verifier::spinoff_prover]
proof fn lemma_adaptation_clocks_roundtrip(a: SpecAdaptationField, rest: Seq<u8>)
    requires
        adaptation_field_valid(a),
    ensures
        spec_read_adaptation_clocks(
            opt_pcr_bytes(a.pcr) + opt_pcr_bytes(a.opcr) + opt_splice_countdown_bytes(
                a.splice_countdown,
            ) + rest,
            adaptation_field_flags(a),
        ) == Ok::<((Option<ClockReference>, Option<ClockReference>, Option<i8>), int), ErrorKind>(
            (
                (a.pcr, a.opcr, a.splice_countdown),
                (opt_pcr_bytes(a.pcr) + opt_pcr_bytes(a.opcr) + opt_splice_countdown_bytes(
                    a.splice_countdown,
                )).len() as int,
            ),
        ),
{
    lemma_adaptation_field_flags_bits(a);
    let pb = opt_pcr_bytes(a.pcr);
    let ob = opt_pcr_bytes(a.opcr);
    let cb = opt_splice_countdown_bytes(a.splice_countdown);
    let r = pb + ob + cb + rest;
    assert(r =~= pb + (ob + (cb + rest)));
    match a.pcr {
        Some(c) => crate::time::lemma_pcr_roundtrip(c, ob + (cb + rest)),
        None => {},
    }
    assert(r.skip(pb.len() as int) =~= ob + (cb + rest));
    match a.opcr {
        Some(c) => crate::time::lemma_pcr_roundtrip(c, cb + rest),
        None => {},
    }
    assert(r.skip(pb.len() as int).skip(ob.len() as int) =~= cb + rest);
    match a.splice_countdown {
        Some(c) => {
            assert((c as u8) as i8 == c) by (bit_vector);
        },
        None => {},
    }
}

proof fn lemma_private_data_roundtrip(d: Seq<u8>, rest: Seq<u8>)
    requires
        0 < d.len() <= 0xFF,
    ensures
        spec_read_private_data(private_data_bytes(d) + rest) == Ok::<(Seq<u8>, int), ErrorKind>(
            (d, 1 + d.len() as int),
        ),
{
    let r = private_data_bytes(d) + rest;
    assert(r[0] == d.len());
    assert(r.subrange(1, 1 + d.len() as int) =~= d);
}

#[verifier::spinoff_prover]
proof fn lemma_adaptation_tail_roundtrip(a: SpecAdaptationField, rest: Seq<u8>)
    requires
        adaptation_field_valid(a),
        a.transport_private_data.len() <= 0xFF,
    ensures
        spec_read_adaptation_tail(
            private_data_bytes(a.transport_private_data) + opt_extension_bytes(a.extension) + rest,
            adaptation_field_flags(a),
        ) == Ok::<((Seq<u8>, Option<AdaptationExtensionField>), int), ErrorKind>(
            (
                (a.transport_private_data, a.extension),
                (private_data_bytes(a.transport_private_data) + opt_extension_bytes(
                    a.extension,
                )).len() as int,
            ),
        ),
{
    lemma_adaptation_field_flags_bits(a);
    let d = a.transport_private_data;
    let db = private_data_bytes(d);
    let eb = opt_extension_bytes(a.extension);
    let r = db + eb + rest;
    if d.len() > 0 {
        lemma_private_data_roundtrip(d, eb + rest);
        assert(r =~= db + (eb + rest));
    } else {
        assert(d =~= Seq::<u8>::empty());
    }
    assert(r.skip(db.len() as int) =~= eb + rest);
    match a.extension {
        Some(e) => lemma_extension_roundtrip(e, rest),
        None => {},
    }
}

#[verifier::spinoff_prover]
proof fn lemma_adaptation_fields_roundtrip(a: SpecAdaptationField, st: Seq<u8>)
    requires
        adaptation_field_valid(a),
        adaptation_field_size(a) <= 0x100,
        all_stuffing(st),
    ensures
        spec_read_adaptation_fields(adaptation_fields_bytes(a) + st) == Ok::<
            SpecAdaptationField,
            ErrorKind,
        >(a),
{
    let r = adaptation_fields_bytes(a) + st;
    let f = adaptation_field_flags(a);
    let cl = opt_pcr_bytes(a.pcr) + opt_pcr_bytes(a.opcr) + opt_splice_countdown_bytes(
        a.splice_countdown,
    );
    let tl = private_data_bytes(a.transport_private_data) + opt_extension_bytes(a.extension);
    assert(r[0] == f);
    assert(r.skip(1) =~= cl + (tl + st));
    lemma_adaptation_clocks_roundtrip(a, tl + st);
    assert(a.transport_private_data.len() <= 0xFF);
    assert(r.skip(1).skip(cl.len() as int) =~= tl + st);
    lemma_adaptation_tail_roundtrip(a, st);
    assert(r.skip(1).skip(cl.len() as int).skip(tl.len() as int) =~= st);
    lemma_adaptation_field_flags_bits(a);
}

/// An adaptation field reads back as the one that was written, with its length byte `len`
/// and the stuffing that it makes room for, whatever follows it.
pub proof fn lemma_adaptation_field_roundtrip(a: SpecAdaptationField, len: u8, rest: Seq<u8>)
    requires
        adaptation_field_valid(a),
        adaptation_field_size(a) <= len + 1,
    ensures
        spec_read_adaptation_field(adaptation_field_bytes(a, len) + rest) == Ok::<
            (Option<SpecAdaptationField>, int),
            ErrorKind,
        >((Some(a), 1 + len)),
{
    let fb = adaptation_fields_bytes(a);
    let k = (len + 1 - adaptation_field_size(a)) as nat;
    let st = stuffing(k);
    let s = adaptation_field_bytes(a, len) + rest;
    assert(s[0] == len);
    let r = bounded_region(s, len as int);
    assert(r =~= fb + st);
    assert(all_stuffing(st));
    lemma_adaptation_fields_roundtrip(a, st);
}

/// An adaptation field with no flag set and no field.
pub open spec fn empty_adaptation_field() -> SpecAdaptationField {
    SpecAdaptationField {
        discontinuity_indicator: false,
        random_access_indicator: false,
        es_priority_indicator: false,
        pcr: None,
        opcr: None,
        splice_countdown: None,
        transport_private_data: Seq::empty(),
        extension: None,
    }
}

/// An adaptation field of stuffing alone reads back as no adaptation field where its length
/// is 0, and otherwise as one with no flag set and no field.
pub proof fn lemma_stuffing_adaptation_field_roundtrip(len: u8, rest: Seq<u8>)
    ensures
        spec_read_adaptation_field(stuffing_adaptation_field_bytes(len) + rest) == if len == 0 {
            Ok::<(Option<SpecAdaptationField>, int), ErrorKind>((None, 1))
        } else {
            Ok::<(Option<SpecAdaptationField>, int), ErrorKind>(
                (Some(empty_adaptation_field()), 1 + len),
            )
        },
{
    if len > 0 {
        let a = empty_adaptation_field();
        assert(0u8 | 0u8 | 0u8 | 0u8 | 0u8 | 0u8 | 0u8 | 0u8 == 0u8) by (bit_vector);
        assert(adaptation_field_flags(a) == 0);
        assert(adaptation_fields_bytes(a) =~= seq![0u8]);
        assert(stuffing_adaptation_field_bytes(len) =~= adaptation_field_bytes(a, len));
        lemma_adaptation_field_roundtrip(a, len, rest);
    }
}

} // verus!
