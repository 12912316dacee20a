use crate::error::{Error, ErrorKind, Result};
use crate::util::{
    be_u16, lemma_u16_and_le, lemma_u16_bytes_roundtrip, read_as, taken_by_failed_read, u16_bytes,
    write_all, Parsed, ReadBytesExt, WriteBytesExt,
};
use vstd::prelude::*;

verus! {

/// Packet identifier.
#[derive(Debug, Clone, Copy, PartialEq, Eq, Hash, PartialOrd, Ord)]
pub struct Pid(u16);

impl Pid {
    /// PID of the program association table.
    pub const PAT: u16 = 0;
    /// PID of null packets.
    pub const NULL: u16 = 0x1FFF;
    /// Maximum PID value.
    pub const MAX: u16 = 0x1FFF;

    #[verifier::type_invariant]
    spec fn inv(self) -> bool {
        self.0 <= 0x1FFF
    }

    /// The numeric value of the PID.
    pub closed spec fn value(self) -> u16 {
        self.0
    }

    /// The PID with the numeric value `n`.
    pub closed spec fn from_value(n: u16) -> Pid {
        Pid(n)
    }

    /// `true` if the value fits in 13 bits, as the value of every `Pid` does.
    pub open spec fn valid(self) -> bool {
        self.value() <= 0x1FFF
    }

    /// The value that a value is made from is the value it has.
    pub broadcast proof fn lemma_from_value(n: u16)
        ensures
            #[trigger] Pid::from_value(n).value() == n,
    {
    }

    /// A value is the one made from its own value.
    pub broadcast proof fn lemma_value_ext(p: Pid)
        ensures
            #[trigger] Pid::from_value(p.value()) == p,
    {
    }

    /// Makes a new `Pid` instance.
    ///
    /// # Errors
    ///
    /// If `pid` is greater than `Pid::MAX`, it will return an `ErrorKind::InvalidInput` error.
    pub fn new(pid: u16) -> (r: Result<Pid>)
        ensures
            match r {
                Ok(p) => pid <= 0x1FFF && p.value() == pid,
                Err(e) => pid > 0x1FFF && e.kind == ErrorKind::InvalidInput,
            },
    {
        if pid > Self::MAX {
            return Err(Error::invalid_input("Too large PID"));
        }
        Ok(Pid(pid))
    }

    /// Returns the PID value.
    pub fn as_u16(&self) -> (n: u16)
        ensures
            n == self.value(),
            n <= 0x1FFF,
    {
        proof {
            use_type_invariant(self);
        }
        self.0
    }

    /// Reads a PID field: three reserved bits set to one, then the 13-bit value.
    pub fn read_from(reader: &mut &[u8]) -> (r: Result<Pid>)
        ensures
            match r {
                Ok(p) => read_as(spec_read_pid(old(reader)@), old(reader)@, final(reader)@, p),
                Err(e) => spec_read_pid(old(reader)@) == Err::<(Pid, int), ErrorKind>(e.kind)
                    && final(reader)@ == old(reader)@.skip(taken_by_failed_read(old(reader)@, 2)),
            },
    {
        let n = reader.read_u16()?;
        if (n & 0b1110_0000_0000_0000) != 0b1110_0000_0000_0000 {
            return Err(Error::invalid_input("Unexpected reserved bits"));
        }
        proof {
            lemma_u16_and_le(n, 0x1FFF);
        }
        Ok(Pid(n & 0b0001_1111_1111_1111))
    }

    /// Writes a PID field with its reserved bits set to one.
    pub fn write_to(&self, out: &mut Vec<u8>)
        ensures
            final(out)@ == old(out)@ + pid_bytes(*self),
    {
        out.write_u16(0b1110_0000_0000_0000 | self.as_u16());
    }
}

impl From<u8> for Pid {
    fn from(f: u8) -> (p: Pid)
        ensures
            p.value() == f as u16,
    {
        Pid(f as u16)
    }
}

impl vstd::std_specs::convert::FromSpecImpl<u8> for Pid {
    open spec fn obeys_from_spec() -> bool {
        true
    }

    open spec fn from_spec(v: u8) -> Pid {
        Pid::from_value(v as u16)
    }
}

/// A PID field read from the front of `s`.
pub open spec fn spec_read_pid(s: Seq<u8>) -> Parsed<Pid> {
    if s.len() < 2 {
        Err(ErrorKind::Other)
    } else if be_u16(s, 0) & 0xE000 != 0xE000 {
        Err(ErrorKind::InvalidInput)
    } else {
        Ok((Pid::from_value(be_u16(s, 0) & 0x1FFF), 2))
    }
}

/// The bytes of a PID field.
pub open spec fn pid_bytes(p: Pid) -> Seq<u8> {
    u16_bytes(0xE000 | p.value())
}

/// A PID field reads back as the PID that was written.
pub proof fn lemma_pid_roundtrip(p: Pid, rest: Seq<u8>)
    requires
        p.valid(),
    ensures
        spec_read_pid(pid_bytes(p) + rest) == Ok::<(Pid, int), ErrorKind>((p, 2)),
{
    broadcast use Pid::lemma_value_ext;

    let n = (0xE000u16 | p.value()) as u16;
    lemma_u16_bytes_roundtrip(n);
    let s = pid_bytes(p) + rest;
    assert(be_u16(s, 0) == be_u16(pid_bytes(p), 0));
    let v = p.value();
    assert((0xE000u16 | v) & 0xE000 == 0xE000 && (0xE000u16 | v) & 0x1FFF == v) by (bit_vector)
        requires
            v <= 0x1FFF,
    ;
}

/// Transport scrambling control.
#[derive(Debug, Clone, Copy, PartialEq, Eq, Hash)]
pub enum TransportScramblingControl {
    NotScrambled,
    ScrambledWithEvenKey,
    ScrambledWithOddKey,
}

/// The scrambling control with the 2-bit code `n`, if `n` is not reserved.
pub open spec fn spec_scrambling_control(n: u8) -> Option<TransportScramblingControl> {
    if n == 0 {
        Some(TransportScramblingControl::NotScrambled)
    } else if n == 2 {
        Some(TransportScramblingControl::ScrambledWithEvenKey)
    } else if n == 3 {
        Some(TransportScramblingControl::ScrambledWithOddKey)
    } else {
        None
    }
}

/// The 2-bit code of a scrambling control.
pub open spec fn scrambling_control_code(t: TransportScramblingControl) -> u8 {
    match t {
        TransportScramblingControl::NotScrambled => 0,
        TransportScramblingControl::ScrambledWithEvenKey => 2,
        TransportScramblingControl::ScrambledWithOddKey => 3,
    }
}

impl TransportScramblingControl {
    /// Converts a 2-bit code into a `TransportScramblingControl`.
    ///
    /// # Errors
    ///
    /// The code 1 is reserved; it gives an `ErrorKind::InvalidInput` error, as does a code above 3.
    pub fn from_u8(n: u8) -> (r: Result<Self>)
        ensures
            match r {
                Ok(t) => spec_scrambling_control(n) == Some(t),
                Err(e) => spec_scrambling_control(n).is_none() && e.kind == ErrorKind::InvalidInput,
            },
    {
        match n {
            0 => Ok(TransportScramblingControl::NotScrambled),
            2 => Ok(TransportScramblingControl::ScrambledWithEvenKey),
            3 => Ok(TransportScramblingControl::ScrambledWithOddKey),
            _ => Err(Error::invalid_input("Reserved for future use")),
        }
    }

    /// Returns the 2-bit code.
    pub fn as_u8(&self) -> (n: u8)
        ensures
            n == scrambling_control_code(*self),
    {
        match self {
            TransportScramblingControl::NotScrambled => 0,
            TransportScramblingControl::ScrambledWithEvenKey => 2,
            TransportScramblingControl::ScrambledWithOddKey => 3,
        }
    }
}

/// Continuity counter (4 bits).
#[derive(Debug, Default, Clone, Copy, PartialEq, Eq, Hash)]
pub struct ContinuityCounter(u8);

impl ContinuityCounter {
    #[verifier::type_invariant]
    spec fn inv(self) -> bool {
        self.0 <= 0x0F
    }

    /// The numeric value of the counter.
    pub closed spec fn value(self) -> u8 {
        self.0
    }

    /// The counter with the value `n`.
    pub closed spec fn from_value(n: u8) -> ContinuityCounter {
        ContinuityCounter(n)
    }

    /// `true` if the value fits in 4 bits, as the value of every counter does.
    pub open spec fn valid(self) -> bool {
        self.value() <= 0x0F
    }

    /// The value that a value is made from is the value it has.
    pub broadcast proof fn lemma_from_value(n: u8)
        ensures
            #[trigger] ContinuityCounter::from_value(n).value() == n,
    {
    }

    /// A value is the one made from its own value.
    pub broadcast proof fn lemma_value_ext(c: ContinuityCounter)
        ensures
            #[trigger] ContinuityCounter::from_value(c.value()) == c,
    {
    }

    /// Makes a counter with the value 0.
    pub fn new() -> (c: Self)
        ensures
            c.value() == 0,
    {
        ContinuityCounter(0)
    }

    /// Makes a counter with the value `n`.
    ///
    /// # Errors
    ///
    /// If `n` is greater than 0x0F, it will return an `ErrorKind::InvalidInput` error.
    pub fn from_u8(n: u8) -> (r: Result<Self>)
        ensures
            match r {
                Ok(c) => n <= 0x0F && c.value() == n,
                Err(e) => n > 0x0F && e.kind == ErrorKind::InvalidInput,
            },
    {
        if n > 0x0F {
            return Err(Error::invalid_input("Too large continuity counter"));
        }
        Ok(ContinuityCounter(n))
    }

    /// Returns the counter value.
    pub fn as_u8(&self) -> (n: u8)
        ensures
            n == self.value(),
            n <= 0x0F,
    {
        proof {
            use_type_invariant(self);
        }
        self.0
    }

    /// Increments the counter, wrapping from 0x0F to 0.
    pub fn increment(&mut self)
        ensures
            final(self).value() == (old(self).value() + 1) % 16,
    {
        proof {
            use_type_invariant(&*self);
        }
        let v = self.0;
        let n = (v + 1) & 0x0F;
        proof {
            assert(n == (v + 1) % 16 && n <= 0x0F) by (bit_vector)
                requires
                    v <= 0x0F,
                    n == (v + 1) as u8 & 0x0F,
            ;
        }
        self.0 = n;
    }
}

/// Version number of a table (5 bits).
#[derive(Debug, Default, Clone, Copy, PartialEq, Eq, Hash)]
pub struct VersionNumber(u8);

impl VersionNumber {
    #[verifier::type_invariant]
    spec fn inv(self) -> bool {
        self.0 <= 0x1F
    }

    /// The numeric value of the version number.
    pub closed spec fn value(self) -> u8 {
        self.0
    }

    /// The version number with the value `n`.
    pub closed spec fn from_value(n: u8) -> VersionNumber {
        VersionNumber(n)
    }

    /// `true` if the value fits in 5 bits, as the value of every version number does.
    pub open spec fn valid(self) -> bool {
        self.value() <= 0x1F
    }

    /// The value that a value is made from is the value it has.
    pub broadcast proof fn lemma_from_value(n: u8)
        ensures
            #[trigger] VersionNumber::from_value(n).value() == n,
    {
    }

    /// A value is the one made from its own value.
    pub broadcast proof fn lemma_value_ext(v: VersionNumber)
        ensures
            #[trigger] VersionNumber::from_value(v.value()) == v,
    {
    }

    /// Makes a version number with the value 0.
    pub fn new() -> (v: Self)
        ensures
            v.value() == 0,
    {
        VersionNumber(0)
    }

    /// Makes a version number with the value `n`.
    ///
    /// # Errors
    ///
    /// If `n` is greater than 0x1F, it will return an `ErrorKind::InvalidInput` error.
    pub fn from_u8(n: u8) -> (r: Result<Self>)
        ensures
            match r {
                Ok(v) => n <= 0x1F && v.value() == n,
                Err(e) => n > 0x1F && e.kind == ErrorKind::InvalidInput,
            },
    {
        if n > 0x1F {
            return Err(Error::invalid_input("Too large version number"));
        }
        Ok(VersionNumber(n))
    }

    /// Returns the version number value.
    pub fn as_u8(&self) -> (n: u8)
        ensures
            n == self.value(),
            n <= 0x1F,
    {
        proof {
            use_type_invariant(self);
        }
        self.0
    }

    /// Increments the version number, wrapping from 0x1F to 0.
    pub fn increment(&mut self)
        ensures
            final(self).value() == (old(self).value() + 1) % 32,
    {
        proof {
            use_type_invariant(&*self);
        }
        let v = self.0;
        let n = (v + 1) & 0x1F;
        proof {
            assert(n == (v + 1) % 32 && n <= 0x1F) by (bit_vector)
                requires
                    v <= 0x1F,
                    n == (v + 1) as u8 & 0x1F,
            ;
        }
        self.0 = n;
    }
}

/// The payload bytes of a TS packet: at most 184 bytes.
#[derive(Debug, PartialEq, Eq, Hash)]
pub struct Bytes {
    buf: Vec<u8>,
}

impl View for Bytes {
    type V = Seq<u8>;

    closed spec fn view(&self) -> Seq<u8> {
        self.buf@
    }
}

impl Clone for Bytes {
    fn clone(&self) -> (b: Self)
        ensures
            b@ == self@,
    {
        proof {
            use_type_invariant(self);
        }
        let mut buf = Vec::new();
        write_all(&mut buf, self.buf.as_slice());
        Bytes { buf }
    }
}

impl Bytes {
    /// Maximum size of a byte sequence.
    pub const MAX_SIZE: usize = 184;

    #[verifier::type_invariant]
    spec fn inv(self) -> bool {
        self.buf@.len() <= 184
    }

    /// Makes a new `Bytes` instance holding a copy of `bytes`.
    ///
    /// # Errors
    ///
    /// If `bytes` is longer than `Bytes::MAX_SIZE`, it will return an `ErrorKind::InvalidInput` error.
    pub fn new(bytes: &[u8]) -> (r: Result<Self>)
        ensures
            match r {
                Ok(b) => bytes@.len() <= 184 && b@ == bytes@,
                Err(e) => bytes@.len() > 184 && e.kind == ErrorKind::InvalidInput,
            },
    {
        if bytes.len() > Self::MAX_SIZE {
            return Err(Error::invalid_input("Too large bytes"));
        }
        let mut buf = Vec::new();
        write_all(&mut buf, bytes);
        Ok(Bytes { buf })
    }

    /// Reads the rest of `reader`, which is used up whether or not the read succeeds.
    ///
    /// # Errors
    ///
    /// If more than `Bytes::MAX_SIZE` bytes remain, it will return an `ErrorKind::InvalidInput` error.
    pub fn read_from(reader: &mut &[u8]) -> (r: Result<Self>)
        ensures
            match r {
                Ok(b) => old(reader)@.len() <= 184 && b@ == old(reader)@ && final(reader)@.len()
                    == 0,
                Err(e) => old(reader)@.len() > 184 && e.kind == ErrorKind::InvalidInput
                    && final(reader)@.len() == 0,
            },
    {
        let s: &[u8] = *reader;
        *reader = &s[s.len()..s.len()];
        Self::new(s)
    }

    /// Appends the bytes to `out`.
    pub fn write_to(&self, out: &mut Vec<u8>)
        ensures
            final(out)@ == old(out)@ + self@,
    {
        write_all(out, self.buf.as_slice());
    }

    /// Returns the bytes.
    pub fn as_slice(&self) -> (s: &[u8])
        ensures
            s@ == self@,
    {
        self.buf.as_slice()
    }

    /// Returns the number of bytes.
    pub fn len(&self) -> (n: usize)
        ensures
            n == self@.len(),
            n <= 184,
    {
        proof {
            use_type_invariant(self);
        }
        self.buf.len()
    }

    /// Returns `true` if there are no bytes.
    pub fn is_empty(&self) -> (b: bool)
        ensures
            b == (self@.len() == 0),
    {
        self.buf.len() == 0
    }
}

} // verus!
