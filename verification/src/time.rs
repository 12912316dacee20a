use crate::error::{Error, ErrorKind, Result};
use crate::util::{
    be_uint, lemma_be_uint_6_bound, lemma_be_uint_prefix, lemma_uint_bytes_5, lemma_uint_bytes_6,
    read_as, taken_by_failed_read, uint_bytes, Parsed, ReadBytesExt, WriteBytesExt,
};
use vstd::prelude::*;

verus! {

/// The 40-bit field that carries a 33-bit timestamp `v` after the 4 bits `check_bits`,
/// with marker bits after each of its three parts.
pub open spec fn timestamp_word(v: u64, check_bits: u8) -> u64 {
    ((check_bits as u64) << 36u64) | (((v >> 30u64) & 0x7) << 33u64) | (1u64 << 32u64) | (((v
        >> 15u64) & 0x7FFF) << 17u64) | (1u64 << 16u64) | ((v & 0x7FFF) << 1u64) | 1u64
}

/// `true` if the 40-bit field `n` starts with `check_bits` and has its marker bits set.
pub open spec fn timestamp_word_ok(n: u64, check_bits: u8) -> bool {
    &&& n >> 36u64 == check_bits as u64
    &&& (n >> 32u64) & 1 == 1
    &&& (n >> 16u64) & 1 == 1
    &&& n & 1 == 1
}

/// The timestamp that the 40-bit field `n` carries.
pub open spec fn timestamp_of_word(n: u64) -> u64 {
    (((n >> 33u64) & 0x7) << 30u64) | (((n >> 17u64) & 0x7FFF) << 15u64) | ((n >> 1u64) & 0x7FFF)
}

/// Timestamp: a 33-bit count of a 90 kHz clock.
#[derive(Debug, Clone, Copy, PartialEq, Eq, Hash, PartialOrd, Ord)]
pub struct Timestamp(u64);

impl Timestamp {
    /// 90 kHz.
    pub const RESOLUTION: u64 = 90_000;
    /// Maximum timestamp value.
    pub const MAX: u64 = 0x1_FFFF_FFFF;

    #[verifier::type_invariant]
    spec fn inv(self) -> bool {
        self.0 < 0x2_0000_0000
    }

    /// The numeric value of the timestamp.
    pub closed spec fn value(self) -> u64 {
        self.0
    }

    /// The timestamp with the value `n`.
    pub closed spec fn from_value(n: u64) -> Timestamp {
        Timestamp(n)
    }

    /// `true` if the value fits in 33 bits, as the value of every timestamp does.
    pub open spec fn valid(self) -> bool {
        self.value() < 0x2_0000_0000
    }

    /// The value that a value is made from is the value it has.
    pub broadcast proof fn lemma_from_value(n: u64)
        ensures
            #[trigger] Timestamp::from_value(n).value() == n,
    {
    }

    /// A value is the one made from its own value.
    pub broadcast proof fn lemma_value_ext(t: Timestamp)
        ensures
            #[trigger] Timestamp::from_value(t.value()) == t,
    {
    }

    /// Makes a new `Timestamp` instance.
    ///
    /// # Errors
    ///
    /// If `n` exceeds `Timestamp::MAX`, it will return an `ErrorKind::InvalidInput` error.
    pub fn new(n: u64) -> (r: Result<Self>)
        ensures
            match r {
                Ok(t) => n < 0x2_0000_0000 && t.value() == n,
                Err(e) => n >= 0x2_0000_0000 && e.kind == ErrorKind::InvalidInput,
            },
    {
        if n > 0x1_FFFF_FFFF {
            return Err(Error::invalid_input("Too large timestamp"));
        }
        Ok(Timestamp(n))
    }

    /// Returns the timestamp value.
    pub fn as_u64(&self) -> (n: u64)
        ensures
            n == self.value(),
            n < 0x2_0000_0000,
    {
        proof {
            use_type_invariant(self);
        }
        self.0
    }

    /// Reads a 5-byte timestamp field whose first 4 bits must be `check_bits`.
    ///
    /// # Errors
    ///
    /// If the leading bits or a marker bit is wrong, it will return an `ErrorKind::InvalidInput` error.
    pub fn read_from(reader: &mut &[u8], check_bits: u8) -> (r: Result<Self>)
        ensures
            match r {
                Ok(t) => read_as(
                    spec_read_timestamp(old(reader)@, check_bits),
                    old(reader)@,
                    final(reader)@,
                    t,
                ),
                Err(e) => spec_read_timestamp(old(reader)@, check_bits) == Err::<
                    (Timestamp, int),
                    ErrorKind,
                >(e.kind) && final(reader)@ == old(reader)@.skip(
                    taken_by_failed_read(old(reader)@, 5),
                ),
            },
    {
        let n = reader.read_uint::<5>()?;
        if !(n >> 36u64 == check_bits as u64 && (n >> 32u64) & 1 == 1 && (n >> 16u64) & 1 == 1
            && n & 1 == 1) {
            return Err(Error::invalid_input("Unexpected timestamp check bits or marker bits"));
        }
        let v = (((n >> 33u64) & 0x7) << 30u64) | (((n >> 17u64) & 0x7FFF) << 15u64) | ((n
            >> 1u64) & 0x7FFF);
        proof {
            assert(v < 0x2_0000_0000) by (bit_vector)
                requires
                    v == (((n >> 33u64) & 0x7) << 30u64) | (((n >> 17u64) & 0x7FFF) << 15u64) | ((
                    n >> 1u64) & 0x7FFF),
            ;
        }
        Ok(Timestamp(v))
    }

    /// Writes the 5-byte timestamp field with `check_bits` in front.
    pub fn write_to(&self, out: &mut Vec<u8>, check_bits: u8)
        requires
            check_bits <= 0xF,
        ensures
            final(out)@ == old(out)@ + timestamp_bytes(*self, check_bits),
    {
        let v = self.as_u64();
        let n = ((check_bits as u64) << 36u64) | (((v >> 30u64) & 0x7) << 33u64) | (1u64 << 32u64)
            | (((v >> 15u64) & 0x7FFF) << 17u64) | (1u64 << 16u64) | ((v & 0x7FFF) << 1u64) | 1u64;
        out.write_uint::<5>(n);
    }
}

/// A timestamp field read from the front of `s`.
pub open spec fn spec_read_timestamp(s: Seq<u8>, check_bits: u8) -> Parsed<Timestamp> {
    if s.len() < 5 {
        Err(ErrorKind::Other)
    } else if !timestamp_word_ok(be_uint(s, 5), check_bits) {
        Err(ErrorKind::InvalidInput)
    } else {
        Ok((Timestamp::from_value(timestamp_of_word(be_uint(s, 5))), 5))
    }
}

/// The bytes of a timestamp field.
pub open spec fn timestamp_bytes(t: Timestamp, check_bits: u8) -> Seq<u8> {
    uint_bytes(timestamp_word(t.value(), check_bits), 5)
}

/// A timestamp field reads back as the timestamp that was written.
pub proof fn lemma_timestamp_roundtrip(t: Timestamp, check_bits: u8, rest: Seq<u8>)
    requires
        t.valid(),
        check_bits <= 0xF,
    ensures
        spec_read_timestamp(timestamp_bytes(t, check_bits) + rest, check_bits) == Ok::<
            (Timestamp, int),
            ErrorKind,
        >((t, 5)),
{
    broadcast use Timestamp::lemma_value_ext, Timestamp::lemma_from_value;

    let v = t.value();
    let w = timestamp_word(v, check_bits);
    lemma_uint_bytes_5(w);
    lemma_be_uint_prefix(timestamp_bytes(t, check_bits), rest, 5);
    assert(w & 0xFF_FFFF_FFFF == w && timestamp_word_ok(w, check_bits) && timestamp_of_word(w)
        == v) by (bit_vector)
        requires
            v < 0x2_0000_0000,
            check_bits <= 0xF,
            w == ((check_bits as u64) << 36u64) | (((v >> 30u64) & 0x7) << 33u64) | (1u64
                << 32u64) | (((v >> 15u64) & 0x7FFF) << 17u64) | (1u64 << 16u64) | ((v & 0x7FFF)
                << 1u64) | 1u64,
    ;
}

/// A timestamp field that reads successfully is laid out as the standard gives it: the check
/// bits in the high nibble of the first byte, marker bits at the low end of the first, third
/// and fifth bytes, and the 33-bit value in the three runs of 3, 15 and 15 bits between them.
pub proof fn lemma_timestamp_field_layout(s: Seq<u8>, check_bits: u8)
    ensures
        spec_read_timestamp(s, check_bits) matches Ok((t, n)) ==> {
            &&& n == 5
            &&& s.len() >= 5
            &&& s[0] >> 4u8 == check_bits
            &&& s[0] & 1 == 1 && s[2] & 1 == 1 && s[4] & 1 == 1
            &&& t.value() == ((s[0] >> 1u8) & 7) as int * 0x4000_0000 + (s[1] as int * 128 + (s[2]
                >> 1u8) as int) * 0x8000 + s[3] as int * 128 + (s[4] >> 1u8) as int
        },
{
    broadcast use Timestamp::lemma_from_value;

    if spec_read_timestamp(s, check_bits) is Ok {
        let b0 = s[0];
        let b1 = s[1];
        let b2 = s[2];
        let b3 = s[3];
        let b4 = s[4];
        reveal_with_fuel(be_uint, 6);
        let w = be_uint(s, 5);
        assert(w == ((((((((((0u64 << 8u64) | b0 as u64) << 8u64) | b1 as u64) << 8u64)
            | b2 as u64) << 8u64) | b3 as u64) << 8u64) | b4 as u64));
        assert((w >> 36u64 == (b0 >> 4u8) as u64) && ((w >> 32u64) & 1 == 1 <==> b0 & 1 == 1) && ((w
            >> 16u64) & 1 == 1 <==> b2 & 1 == 1) && (w & 1 == 1 <==> b4 & 1 == 1)
            && timestamp_of_word(w) as int == ((b0 >> 1u8) & 7) as int * 0x4000_0000 + (b1 as int
            * 128 + (b2 >> 1u8) as int) * 0x8000 + b3 as int * 128 + (b4 >> 1u8) as int)
            by (bit_vector)
            requires
                w == ((((((((((0u64 << 8u64) | b0 as u64) << 8u64) | b1 as u64) << 8u64)
                    | b2 as u64) << 8u64) | b3 as u64) << 8u64) | b4 as u64),
        ;
    }
}

/// Clock reference: a 27 MHz count, carried as a 33-bit base (in units of 300)
/// and a 9-bit extension below 300.
#[derive(Debug, Clone, Copy, PartialEq, Eq, Hash, PartialOrd, Ord)]
pub struct ClockReference(u64);

/// The largest clock reference value.
pub open spec fn clock_reference_max() -> u64 {
    2_576_980_377_599u64
}

/// The 48-bit PCR field of a clock reference value `v`: base, six reserved one bits, extension.
pub open spec fn pcr_word(v: u64) -> u64 {
    ((v / 300) << 15u64) | (0x3Fu64 << 9u64) | (v % 300)
}

/// The 48-bit ESCR field of a clock reference value `v`.
pub open spec fn escr_word(v: u64) -> u64 {
    let base = v / 300;
    (0x3u64 << 46u64) | (((base >> 30u64) & 0x7) << 43u64) | (1u64 << 42u64) | (((base
        >> 15u64) & 0x7FFF) << 27u64) | (1u64 << 26u64) | ((base & 0x7FFF) << 11u64) | (1u64
        << 10u64) | ((v % 300) << 1u64) | 1u64
}

/// `true` if the marker bits of the ESCR field `n` are set.
pub open spec fn escr_markers_ok(n: u64) -> bool {
    &&& (n >> 42u64) & 1 == 1
    &&& (n >> 26u64) & 1 == 1
    &&& (n >> 10u64) & 1 == 1
    &&& n & 1 == 1
}

/// The base of the ESCR field `n`.
pub open spec fn escr_base(n: u64) -> u64 {
    (((n >> 43u64) & 0x7) << 30u64) | (((n >> 27u64) & 0x7FFF) << 15u64) | ((n >> 11u64) & 0x7FFF)
}

/// The extension of the ESCR field `n`.
pub open spec fn escr_extension(n: u64) -> u64 {
    (n >> 1u64) & 0x1FF
}

impl ClockReference {
    /// 27 MHz.
    pub const RESOLUTION: u64 = 27_000_000;
    /// Maximum clock reference value.
    pub const MAX: u64 = 0x1_FFFF_FFFF * 300 + 299;

    #[verifier::type_invariant]
    spec fn inv(self) -> bool {
        self.0 <= clock_reference_max()
    }

    /// The numeric value of the clock reference.
    pub closed spec fn value(self) -> u64 {
        self.0
    }

    /// The clock reference with the value `n`.
    pub closed spec fn from_value(n: u64) -> ClockReference {
        ClockReference(n)
    }

    /// `true` if the value is at most `ClockReference::MAX`, as the value of every clock reference is.
    pub open spec fn valid(self) -> bool {
        self.value() <= clock_reference_max()
    }

    /// The value that a value is made from is the value it has.
    pub broadcast proof fn lemma_from_value(n: u64)
        ensures
            #[trigger] ClockReference::from_value(n).value() == n,
    {
    }

    /// A value is the one made from its own value.
    pub broadcast proof fn lemma_value_ext(c: ClockReference)
        ensures
            #[trigger] ClockReference::from_value(c.value()) == c,
    {
    }

    /// Makes a new `ClockReference` instance.
    ///
    /// # Errors
    ///
    /// If `n` exceeds `ClockReference::MAX`, it will return an `ErrorKind::InvalidInput` error.
    pub fn new(n: u64) -> (r: Result<Self>)
        ensures
            match r {
                Ok(c) => n <= clock_reference_max() && c.value() == n,
                Err(e) => n > clock_reference_max() && e.kind == ErrorKind::InvalidInput,
            },
    {
        if n > Self::MAX {
            return Err(Error::invalid_input("Too large clock reference"));
        }
        Ok(ClockReference(n))
    }

    /// Returns the clock reference value.
    pub fn as_u64(&self) -> (n: u64)
        ensures
            n == self.value(),
            n <= clock_reference_max(),
    {
        proof {
            use_type_invariant(self);
        }
        self.0
    }

    /// Reads a 6-byte program clock reference field.
    ///
    /// # Errors
    ///
    /// If the extension is 300 or more, it will return an `ErrorKind::InvalidInput` error.
    pub fn read_pcr_from(reader: &mut &[u8]) -> (r: Result<Self>)
        ensures
            match r {
                Ok(c) => read_as(spec_read_pcr(old(reader)@), old(reader)@, final(reader)@, c),
                Err(e) => spec_read_pcr(old(reader)@) == Err::<(ClockReference, int), ErrorKind>(
                    e.kind,
                ) && final(reader)@ == old(reader)@.skip(taken_by_failed_read(old(reader)@, 6)),
            },
    {
        let n = reader.read_uint::<6>()?;
        let base = n >> 15u64;
        let extension = n & 0x1FF;
        if extension >= 300 {
            return Err(Error::invalid_input("Too large clock reference extension"));
        }
        proof {
            lemma_be_uint_6_bound(old(reader)@);
            assert(base < 0x2_0000_0000) by (bit_vector)
                requires
                    base == n >> 15u64,
                    n <= 0xFFFF_FFFF_FFFF,
            ;
        }
        Ok(ClockReference(base * 300 + extension))
    }

    /// Writes the 6-byte program clock reference field.
    pub fn write_pcr_to(&self, out: &mut Vec<u8>)
        ensures
            final(out)@ == old(out)@ + pcr_bytes(*self),
    {
        let v = self.as_u64();
        let n = ((v / 300) << 15u64) | (0x3Fu64 << 9u64) | (v % 300);
        out.write_uint::<6>(n);
    }

    /// Reads a 6-byte elementary stream clock reference field.
    ///
    /// # Errors
    ///
    /// If a marker bit is not set, or the extension is 300 or more, it will return an
    /// `ErrorKind::InvalidInput` error.
    pub fn read_escr_from(reader: &mut &[u8]) -> (r: Result<Self>)
        ensures
            match r {
                Ok(c) => read_as(spec_read_escr(old(reader)@), old(reader)@, final(reader)@, c),
                Err(e) => spec_read_escr(old(reader)@) == Err::<(ClockReference, int), ErrorKind>(
                    e.kind,
                ) && final(reader)@ == old(reader)@.skip(taken_by_failed_read(old(reader)@, 6)),
            },
    {
        let n = reader.read_uint::<6>()?;
        if !((n >> 42u64) & 1 == 1 && (n >> 26u64) & 1 == 1 && (n >> 10u64) & 1 == 1 && n & 1
            == 1) {
            return Err(Error::invalid_input("Unexpected marker bits"));
        }
        let base = (((n >> 43u64) & 0x7) << 30u64) | (((n >> 27u64) & 0x7FFF) << 15u64) | ((n
            >> 11u64) & 0x7FFF);
        let extension = (n >> 1u64) & 0x1FF;
        if extension >= 300 {
            return Err(Error::invalid_input("Too large clock reference extension"));
        }
        proof {
            assert(base < 0x2_0000_0000) by (bit_vector)
                requires
                    base == (((n >> 43u64) & 0x7) << 30u64) | (((n >> 27u64) & 0x7FFF) << 15u64)
                        | ((n >> 11u64) & 0x7FFF),
            ;
        }
        Ok(ClockReference(base * 300 + extension))
    }

    /// Writes the 6-byte elementary stream clock reference field.
    pub fn write_escr_to(&self, out: &mut Vec<u8>)
        ensures
            final(out)@ == old(out)@ + escr_bytes(*self),
    {
        let v = self.as_u64();
        let base = v / 300;
        let n = (0x3u64 << 46u64) | (((base >> 30u64) & 0x7) << 43u64) | (1u64 << 42u64) | (((base
            >> 15u64) & 0x7FFF) << 27u64) | (1u64 << 26u64) | ((base & 0x7FFF) << 11u64) | (1u64
            << 10u64) | ((v % 300) << 1u64) | 1u64;
        out.write_uint::<6>(n);
    }
}

/// A PCR field read from the front of `s`.
pub open spec fn spec_read_pcr(s: Seq<u8>) -> Parsed<ClockReference> {
    if s.len() < 6 {
        Err(ErrorKind::Other)
    } else {
        let n = be_uint(s, 6);
        if n & 0x1FF >= 300 {
            Err(ErrorKind::InvalidInput)
        } else {
            Ok((ClockReference::from_value(((n >> 15u64) * 300 + (n & 0x1FF)) as u64), 6))
        }
    }
}

/// An ESCR field read from the front of `s`.
pub open spec fn spec_read_escr(s: Seq<u8>) -> Parsed<ClockReference> {
    if s.len() < 6 {
        Err(ErrorKind::Other)
    } else {
        let n = be_uint(s, 6);
        if !escr_markers_ok(n) || escr_extension(n) >= 300 {
            Err(ErrorKind::InvalidInput)
        } else {
            Ok((ClockReference::from_value((escr_base(n) * 300 + escr_extension(n)) as u64), 6))
        }
    }
}

/// The bytes of a PCR field.
pub open spec fn pcr_bytes(c: ClockReference) -> Seq<u8> {
    uint_bytes(pcr_word(c.value()), 6)
}

/// The bytes of an ESCR field.
pub open spec fn escr_bytes(c: ClockReference) -> Seq<u8> {
    uint_bytes(escr_word(c.value()), 6)
}

/// A PCR field reads back as the clock reference that was written.
pub proof fn lemma_pcr_roundtrip(c: ClockReference, rest: Seq<u8>)
    requires
        c.valid(),
    ensures
        spec_read_pcr(pcr_bytes(c) + rest) == Ok::<(ClockReference, int), ErrorKind>((c, 6)),
{
    broadcast use ClockReference::lemma_value_ext, ClockReference::lemma_from_value;

    let v = c.value();
    let base = v / 300;
    let ext = v % 300;
    let w = pcr_word(v);
    lemma_uint_bytes_6(w);
    lemma_be_uint_prefix(pcr_bytes(c), rest, 6);
    assert(base < 0x2_0000_0000);
    assert(w & 0xFFFF_FFFF_FFFF == w && w >> 15u64 == base && w & 0x1FF == ext) by (bit_vector)
        requires
            base < 0x2_0000_0000,
            ext < 300,
            w == (base << 15u64) | (0x3Fu64 << 9u64) | ext,
    ;
    assert(base * 300 + ext == v);
}

/// An ESCR field reads back as the clock reference that was written.
pub proof fn lemma_escr_roundtrip(c: ClockReference, rest: Seq<u8>)
    requires
        c.valid(),
    ensures
        spec_read_escr(escr_bytes(c) + rest) == Ok::<(ClockReference, int), ErrorKind>((c, 6)),
{
    broadcast use ClockReference::lemma_value_ext, ClockReference::lemma_from_value;

    let v = c.value();
    let base = v / 300;
    let ext = v % 300;
    let w = escr_word(v);
    lemma_uint_bytes_6(w);
    lemma_be_uint_prefix(escr_bytes(c), rest, 6);
    assert(base < 0x2_0000_0000);
    assert(w & 0xFFFF_FFFF_FFFF == w && escr_markers_ok(w) && escr_base(w) == base
        && escr_extension(w) == ext) by (bit_vector)
        requires
            base < 0x2_0000_0000,
            ext < 300,
            w == (0x3u64 << 46u64) | (((base >> 30u64) & 0x7) << 43u64) | (1u64 << 42u64) | (((
            base >> 15u64) & 0x7FFF) << 27u64) | (1u64 << 26u64) | ((base & 0x7FFF) << 11u64) | (
            1u64 << 10u64) | (ext << 1u64) | 1u64,
    ;
    assert(base * 300 + ext == v);
}

} // verus!
