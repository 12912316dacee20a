use crate::crc::{crc_update, Crc32};
use crate::error::{Error, ErrorKind, Result};
use vstd::prelude::*;

verus! {

/// Big-endian value of the two bytes of `s` at `i`.
pub open spec fn be_u16(s: Seq<u8>, i: int) -> u16 {
    ((s[i] as u16) << 8u16) | (s[i + 1] as u16)
}

/// Big-endian value of the four bytes of `s` at `i`.
pub open spec fn be_u32(s: Seq<u8>, i: int) -> u32 {
    ((s[i] as u32) << 24u32) | ((s[i + 1] as u32) << 16u32) | ((s[i + 2] as u32) << 8u32) | (
    s[i + 3] as u32)
}

/// Big-endian value of the first `k` bytes of `s`.
pub open spec fn be_uint(s: Seq<u8>, k: nat) -> u64
    decreases k,
{
    if k == 0 {
        0
    } else {
        (be_uint(s, (k - 1) as nat) << 8u64) | (s[k - 1] as u64)
    }
}

/// The two bytes of `n`, most significant first.
pub open spec fn u16_bytes(n: u16) -> Seq<u8> {
    seq![(n >> 8u16) as u8, n as u8]
}

/// The four bytes of `n`, most significant first.
pub open spec fn u32_bytes(n: u32) -> Seq<u8> {
    seq![(n >> 24u32) as u8, (n >> 16u32) as u8, (n >> 8u32) as u8, n as u8]
}

/// The low `k` bytes of `n`, most significant first.
pub open spec fn uint_bytes(n: u64, k: nat) -> Seq<u8> {
    Seq::new(k, |i: int| (n >> ((8 * (k - 1 - i)) as u64)) as u8)
}

/// `m` if `b`, else 0.
pub open spec fn flag_bit(b: bool, m: u8) -> u8 {
    if b {
        m
    } else {
        0
    }
}

/// `true` if every byte of `s` is a stuffing byte (0xFF).
pub open spec fn all_stuffing(s: Seq<u8>) -> bool {
    forall|i: int| 0 <= i < s.len() ==> s[i] == 0xFF
}

/// The index of the first byte of `s` that is not a stuffing byte (0xFF), if there is one.
#[verifier::opaque]
pub open spec fn first_non_stuffing(s: Seq<u8>) -> int {
    choose|i: int| 0 <= i < s.len() && s[i] != 0xFF && forall|j: int| 0 <= j < i ==> s[j] == 0xFF
}

/// A byte that is not stuffing, with only stuffing before it, is the first such byte.
pub proof fn lemma_first_non_stuffing(s: Seq<u8>, i: int)
    requires
        0 <= i < s.len(),
        s[i] != 0xFF,
        forall|j: int| 0 <= j < i ==> s[j] == 0xFF,
    ensures
        first_non_stuffing(s) == i,
{
    reveal(first_non_stuffing);
    let k = first_non_stuffing(s);
    assert(0 <= k < s.len() && s[k] != 0xFF && forall|j: int| 0 <= j < k ==> s[j] == 0xFF);
    if k < i {
        assert(s[k] == 0xFF);
    } else if k > i {
        assert(s[i] == 0xFF);
    }
}

/// `n` stuffing bytes.
pub open spec fn stuffing(n: nat) -> Seq<u8> {
    Seq::new(n, |i: int| 0xFFu8)
}

/// The bytes that a failed read of a `size`-byte field takes from `s`: all of them where
/// fewer remain, else the field.
pub open spec fn taken_by_failed_read(s: Seq<u8>, size: int) -> int {
    if s.len() < size {
        s.len() as int
    } else {
        size
    }
}

/// What a parser reports: a value and the number of bytes that it takes, or an error kind.
pub type Parsed<V> = core::result::Result<(V, int), ErrorKind>;

/// A reader that started on `before` and now stands on `after` has read `v`, as `spec`
/// (a value and the number of bytes it takes) says.
pub open spec fn read_as<V>(spec: Parsed<V>, before: Seq<u8>, after: Seq<u8>, v: V) -> bool {
    &&& after.len() <= before.len()
    &&& spec == Ok::<(V, int), ErrorKind>((v, before.len() - after.len()))
    &&& after == before.skip(before.len() - after.len())
}

/// The two bytes of `n` read back as `n`.
pub proof fn lemma_u16_bytes_roundtrip(n: u16)
    ensures
        be_u16(u16_bytes(n), 0) == n,
{
    let b0 = (n >> 8u16) as u8;
    let b1 = n as u8;
    assert((((b0 as u16) << 8u16) | (b1 as u16)) == n) by (bit_vector)
        requires
            b0 == (n >> 8u16) as u8,
            b1 == n as u8,
    ;
}

/// The four bytes of `n` read back as `n`.
pub proof fn lemma_u32_bytes_roundtrip(n: u32)
    ensures
        be_u32(u32_bytes(n), 0) == n,
{
    let b0 = (n >> 24u32) as u8;
    let b1 = (n >> 16u32) as u8;
    let b2 = (n >> 8u32) as u8;
    let b3 = n as u8;
    assert((((b0 as u32) << 24u32) | ((b1 as u32) << 16u32) | ((b2 as u32) << 8u32) | (b3 as u32))
        == n) by (bit_vector)
        requires
            b0 == (n >> 24u32) as u8,
            b1 == (n >> 16u32) as u8,
            b2 == (n >> 8u32) as u8,
            b3 == n as u8,
    ;
}

/// Reading big-endian integers from the front of a byte slice, which advances past what is
/// read. Where too few bytes remain, the read consumes them all and fails with
/// `ErrorKind::Other`, as reading past the end of a stream does.
pub trait ReadBytesExt {
    fn read_u8(&mut self) -> Result<u8>;

    fn read_u16(&mut self) -> Result<u16>;

    fn read_u32(&mut self) -> Result<u32>;

    fn read_uint<const SIZE: usize>(&mut self) -> Result<u64>
        requires
            SIZE <= 8,
    ;

    fn read_i8(&mut self) -> Result<i8>;
}

impl<'a> ReadBytesExt for &'a [u8] {
    fn read_u8(&mut self) -> (r: Result<u8>)
        ensures
            match r {
                Ok(n) => old(self)@.len() >= 1 && n == old(self)@[0] && final(self)@ == old(
                    self,
                )@.skip(1),
                Err(e) => old(self)@.len() < 1 && e.kind == ErrorKind::Other && final(self)@.len()
                    == 0,
            },
    {
        if self.len() < 1 {
            *self = &self[self.len()..self.len()];
            return Err(Error::end_of_input());
        }
        let n = self[0];
        *self = &self[1..self.len()];
        Ok(n)
    }

    fn read_u16(&mut self) -> (r: Result<u16>)
        ensures
            match r {
                Ok(n) => old(self)@.len() >= 2 && n == be_u16(old(self)@, 0) && final(self)@ == old(
                    self,
                )@.skip(2),
                Err(e) => old(self)@.len() < 2 && e.kind == ErrorKind::Other && final(self)@.len()
                    == 0,
            },
    {
        if self.len() < 2 {
            *self = &self[self.len()..self.len()];
            return Err(Error::end_of_input());
        }
        let n = ((self[0] as u16) << 8u16) | (self[1] as u16);
        *self = &self[2..self.len()];
        Ok(n)
    }

    fn read_u32(&mut self) -> (r: Result<u32>)
        ensures
            match r {
                Ok(n) => old(self)@.len() >= 4 && n == be_u32(old(self)@, 0) && final(self)@ == old(
                    self,
                )@.skip(4),
                Err(e) => old(self)@.len() < 4 && e.kind == ErrorKind::Other && final(self)@.len()
                    == 0,
            },
    {
        if self.len() < 4 {
            *self = &self[self.len()..self.len()];
            return Err(Error::end_of_input());
        }
        let n = ((self[0] as u32) << 24u32) | ((self[1] as u32) << 16u32) | ((self[2] as u32)
            << 8u32) | (self[3] as u32);
        *self = &self[4..self.len()];
        Ok(n)
    }

    fn read_uint<const SIZE: usize>(&mut self) -> (r: Result<u64>)
        ensures
            match r {
                Ok(n) => old(self)@.len() >= SIZE && n == be_uint(old(self)@, SIZE as nat)
                    && final(self)@ == old(self)@.skip(SIZE as int),
                Err(e) => old(self)@.len() < SIZE && e.kind == ErrorKind::Other && final(self)@.len()
                    == 0,
            },
    {
        if self.len() < SIZE {
            *self = &self[self.len()..self.len()];
            return Err(Error::end_of_input());
        }
        let mut n: u64 = 0;
        let mut i: usize = 0;
        while i < SIZE
            invariant
                i <= SIZE,
                SIZE <= self@.len(),
                n == be_uint(self@, i as nat),
            decreases SIZE - i,
        {
            n = (n << 8u64) | (self[i] as u64);
            i = i + 1;
        }
        *self = &self[SIZE..self.len()];
        Ok(n)
    }

    fn read_i8(&mut self) -> (r: Result<i8>)
        ensures
            match r {
                Ok(n) => old(self)@.len() >= 1 && n == old(self)@[0] as i8 && final(self)@ == old(
                    self,
                )@.skip(1),
                Err(e) => old(self)@.len() < 1 && e.kind == ErrorKind::Other && final(self)@.len()
                    == 0,
            },
    {
        if self.len() < 1 {
            *self = &self[self.len()..self.len()];
            return Err(Error::end_of_input());
        }
        let n = self[0] as i8;
        *self = &self[1..self.len()];
        Ok(n)
    }
}

/// Appends `bytes` to `out`.
pub fn write_all(out: &mut Vec<u8>, bytes: &[u8])
    ensures
        final(out)@ == old(out)@ + bytes@,
{
    let mut i: usize = 0;
    while i < bytes.len()
        invariant
            i <= bytes@.len(),
            out@ == old(out)@ + bytes@.take(i as int),
        decreases bytes@.len() - i,
    {
        out.push(bytes[i]);
        i = i + 1;
        assert(out@ =~= old(out)@ + bytes@.take(i as int));
    }
    assert(bytes@.take(bytes@.len() as int) =~= bytes@);
}

/// Writing big-endian integers at the end of a byte buffer.
pub trait WriteBytesExt {
    fn write_u8(&mut self, n: u8);

    fn write_u16(&mut self, n: u16);

    fn write_u32(&mut self, n: u32);

    fn write_uint<const SIZE: usize>(&mut self, n: u64)
        requires
            SIZE <= 8,
    ;

    fn write_i8(&mut self, n: i8);
}

fn push_uint(out: &mut Vec<u8>, n: u64, size: usize)
    requires
        size <= 8,
    ensures
        final(out)@ == old(out)@ + uint_bytes(n, size as nat),
{
    let mut i: usize = 0;
    while i < size
        invariant
            i <= size <= 8,
            out@ == old(out)@ + uint_bytes(n, size as nat).take(i as int),
        decreases size - i,
    {
        let shift: u64 = (8 * (size - 1 - i)) as u64;
        out.push((n >> shift) as u8);
        i = i + 1;
        assert(out@ =~= old(out)@ + uint_bytes(n, size as nat).take(i as int));
    }
    assert(uint_bytes(n, size as nat).take(size as int) =~= uint_bytes(n, size as nat));
}

impl WriteBytesExt for Vec<u8> {
    fn write_u8(&mut self, n: u8)
        ensures
            final(self)@ == old(self)@.push(n),
    {
        self.push(n);
    }

    fn write_u16(&mut self, n: u16)
        ensures
            final(self)@ == old(self)@ + u16_bytes(n),
    {
        self.push((n >> 8u16) as u8);
        self.push(n as u8);
        assert(self@ =~= old(self)@ + u16_bytes(n));
    }

    fn write_u32(&mut self, n: u32)
        ensures
            final(self)@ == old(self)@ + u32_bytes(n),
    {
        self.push((n >> 24u32) as u8);
        self.push((n >> 16u32) as u8);
        self.push((n >> 8u32) as u8);
        self.push(n as u8);
        assert(self@ =~= old(self)@ + u32_bytes(n));
    }

    fn write_uint<const SIZE: usize>(&mut self, n: u64)
        ensures
            final(self)@ == old(self)@ + uint_bytes(n, SIZE as nat),
    {
        push_uint(self, n, SIZE);
    }

    fn write_i8(&mut self, n: i8)
        ensures
            final(self)@ == old(self)@.push(n as u8),
    {
        self.push(n as u8);
    }
}

/// Reads the rest of `reader`, which must consist of stuffing bytes (0xFF).
///
/// # Errors
///
/// If a byte other than 0xFF is found, it will return an `ErrorKind::InvalidInput` error.
pub fn consume_stuffing_bytes(reader: &mut &[u8]) -> (r: Result<()>)
    ensures
        match r {
            Ok(_) => all_stuffing(old(reader)@) && final(reader)@.len() == 0,
            Err(e) => {
                &&& !all_stuffing(old(reader)@)
                &&& e.kind == ErrorKind::InvalidInput
                &&& 0 <= first_non_stuffing(old(reader)@) < old(reader)@.len()
                &&& final(reader)@ == old(reader)@.skip(first_non_stuffing(old(reader)@) + 1)
            },
        },
{
    let mut i: usize = 0;
    while i < reader.len()
        invariant
            i <= reader@.len(),
            reader@ == old(reader)@,
            forall|j: int| 0 <= j < i ==> reader@[j] == 0xFF,
        decreases reader@.len() - i,
    {
        if reader[i] != 0xFF {
            proof {
                lemma_first_non_stuffing(reader@, i as int);
            }
            *reader = &reader[i + 1..reader.len()];
            return Err(Error::invalid_input("Expected stuffing byte 0xFF"));
        }
        i = i + 1;
    }
    *reader = &reader[reader.len()..reader.len()];
    Ok(())
}

/// Appends `size` stuffing bytes (0xFF) to `out`.
pub fn write_stuffing_bytes(out: &mut Vec<u8>, size: usize)
    requires
        size <= 188,
    ensures
        final(out)@ == old(out)@ + stuffing(size as nat),
{
    let mut i: usize = 0;
    while i < size
        invariant
            i <= size,
            out@ == old(out)@ + stuffing(i as nat),
        decreases size - i,
    {
        out.push(0xFF);
        i = i + 1;
        assert(out@ =~= old(out)@ + stuffing(i as nat));
    }
}

/// A byte buffer that keeps the CRC-32/MPEG-2 register of everything written into it.
#[derive(Debug)]
pub struct WithCrc32<T> {
    stream: T,
    crc32: Crc32,
}

impl<T> WithCrc32<T> {
    /// The underlying stream.
    pub closed spec fn inner(&self) -> T {
        self.stream
    }

    /// The CRC register.
    pub closed spec fn crc_register(&self) -> u32 {
        self.crc32@
    }

    /// Makes a new `WithCrc32` whose register has seen no bytes.
    pub fn new(stream: T) -> (w: Self)
        ensures
            w.inner() == stream,
            w.crc_register() == crate::crc::CRC32_INIT,
    {
        WithCrc32 { stream, crc32: Crc32::new() }
    }

    /// Returns the CRC of the bytes written so far.
    pub fn crc32(&self) -> (c: u32)
        ensures
            c == self.crc_register(),
    {
        self.crc32.value()
    }

    /// Returns the underlying stream.
    pub fn into_stream(self) -> (s: T)
        ensures
            s == self.inner(),
    {
        self.stream
    }
}

impl<'a> WithCrc32<&'a [u8]> {
    /// Reads up to `size` bytes from the front of the stream (fewer where the stream ends
    /// first) and feeds them into the register.
    pub fn read(&mut self, size: usize) -> (r: Vec<u8>)
        ensures
            r@.len() == if size <= old(self).inner()@.len() {
                size as int
            } else {
                old(self).inner()@.len() as int
            },
            r@ == old(self).inner()@.take(r@.len() as int),
            final(self).inner()@ == old(self).inner()@.skip(r@.len() as int),
            final(self).crc_register() == crc_update(old(self).crc_register(), r@),
    {
        let s: &[u8] = self.stream;
        let n = if size <= s.len() {
            size
        } else {
            s.len()
        };
        let mut r = Vec::new();
        write_all(&mut r, take(s, n));
        self.stream = skip(s, n);
        self.crc32.update(r.as_slice());
        r
    }
}

impl WithCrc32<Vec<u8>> {
    /// Writes `bytes` into the stream and the register.
    pub fn write_all(&mut self, bytes: &[u8])
        ensures
            final(self).inner()@ == old(self).inner()@ + bytes@,
            final(self).crc_register() == crc_update(old(self).crc_register(), bytes@),
    {
        write_all(&mut self.stream, bytes);
        self.crc32.update(bytes);
    }
}

} // verus!

verus! {

/// Masking a byte gives no more than the mask and no more than the byte.
pub proof fn lemma_u8_and_le(x: u8, m: u8)
    ensures
        x & m <= m,
        x & m <= x,
{
    assert(x & m <= m && x & m <= x) by (bit_vector);
}

/// Masking a 16-bit value gives no more than the mask and no more than the value.
pub proof fn lemma_u16_and_le(x: u16, m: u16)
    ensures
        x & m <= m,
        x & m <= x,
{
    assert(x & m <= m && x & m <= x) by (bit_vector);
}

/// Masking a 64-bit value gives no more than the mask and no more than the value.
pub proof fn lemma_u64_and_le(x: u64, m: u64)
    ensures
        x & m <= m,
        x & m <= x,
{
    assert(x & m <= m && x & m <= x) by (bit_vector);
}

/// The value of the first `k` bytes does not depend on what follows them.
pub proof fn lemma_be_uint_prefix(a: Seq<u8>, b: Seq<u8>, k: nat)
    requires
        k <= a.len(),
    ensures
        be_uint(a + b, k) == be_uint(a, k),
    decreases k,
{
    if k > 0 {
        lemma_be_uint_prefix(a, b, (k - 1) as nat);
        assert((a + b)[k - 1] == a[k - 1]);
    }
}

} // verus!

verus! {

/// The first three bytes of `uint_bytes(w, 3)` read back as the low 24 bits of `w`.
pub proof fn lemma_uint_bytes_3(w: u64)
    ensures
        be_uint(uint_bytes(w, 3), 3) == w & 0xFF_FFFF,
{
    let b = uint_bytes(w, 3);
    let b0 = b[0];
    let b1 = b[1];
    let b2 = b[2];
    assert(b0 == (w >> 16u64) as u8);
    assert(b1 == (w >> 8u64) as u8);
    assert(b2 == (w >> 0u64) as u8);
    reveal_with_fuel(be_uint, 4);
    assert(be_uint(b, 3) == ((((((0u64 << 8u64) | b0 as u64) << 8u64) | b1 as u64) << 8u64)
        | b2 as u64));
    assert(((((((0u64 << 8u64) | b0 as u64) << 8u64) | b1 as u64) << 8u64) | b2 as u64) == w
        & 0xFF_FFFF) by (bit_vector)
        requires
            b0 == (w >> 16u64) as u8,
            b1 == (w >> 8u64) as u8,
            b2 == (w >> 0u64) as u8,
    ;
}

/// The first five bytes of `uint_bytes(w, 5)` read back as the low 40 bits of `w`.
pub proof fn lemma_uint_bytes_5(w: u64)
    ensures
        be_uint(uint_bytes(w, 5), 5) == w & 0xFF_FFFF_FFFF,
{
    let b = uint_bytes(w, 5);
    let b0 = b[0];
    let b1 = b[1];
    let b2 = b[2];
    let b3 = b[3];
    let b4 = b[4];
    assert(b0 == (w >> 32u64) as u8);
    assert(b1 == (w >> 24u64) as u8);
    assert(b2 == (w >> 16u64) as u8);
    assert(b3 == (w >> 8u64) as u8);
    assert(b4 == (w >> 0u64) as u8);
    reveal_with_fuel(be_uint, 6);
    let e = ((((((((((0u64 << 8u64) | b0 as u64) << 8u64) | b1 as u64) << 8u64) | b2 as u64)
        << 8u64) | b3 as u64) << 8u64) | b4 as u64);
    assert(be_uint(b, 5) == e);
    assert(((((((((((0u64 << 8u64) | b0 as u64) << 8u64) | b1 as u64) << 8u64) | b2 as u64)
        << 8u64) | b3 as u64) << 8u64) | b4 as u64) == w & 0xFF_FFFF_FFFF) by (bit_vector)
        requires
            b0 == (w >> 32u64) as u8,
            b1 == (w >> 24u64) as u8,
            b2 == (w >> 16u64) as u8,
            b3 == (w >> 8u64) as u8,
            b4 == (w >> 0u64) as u8,
    ;
}

/// The first six bytes of `uint_bytes(w, 6)` read back as the low 48 bits of `w`.
pub proof fn lemma_uint_bytes_6(w: u64)
    ensures
        be_uint(uint_bytes(w, 6), 6) == w & 0xFFFF_FFFF_FFFF,
{
    let b = uint_bytes(w, 6);
    let b0 = b[0];
    let b1 = b[1];
    let b2 = b[2];
    let b3 = b[3];
    let b4 = b[4];
    let b5 = b[5];
    assert(b0 == (w >> 40u64) as u8);
    assert(b1 == (w >> 32u64) as u8);
    assert(b2 == (w >> 24u64) as u8);
    assert(b3 == (w >> 16u64) as u8);
    assert(b4 == (w >> 8u64) as u8);
    assert(b5 == (w >> 0u64) as u8);
    reveal_with_fuel(be_uint, 7);
    let e = ((((((((((((0u64 << 8u64) | b0 as u64) << 8u64) | b1 as u64) << 8u64) | b2 as u64)
        << 8u64) | b3 as u64) << 8u64) | b4 as u64) << 8u64) | b5 as u64);
    assert(be_uint(b, 6) == e);
    assert(((((((((((((0u64 << 8u64) | b0 as u64) << 8u64) | b1 as u64) << 8u64) | b2 as u64)
        << 8u64) | b3 as u64) << 8u64) | b4 as u64) << 8u64) | b5 as u64) == w & 0xFFFF_FFFF_FFFF)
        by (bit_vector)
        requires
            b0 == (w >> 40u64) as u8,
            b1 == (w >> 32u64) as u8,
            b2 == (w >> 24u64) as u8,
            b3 == (w >> 16u64) as u8,
            b4 == (w >> 8u64) as u8,
            b5 == (w >> 0u64) as u8,
    ;
}

} // verus!

verus! {

/// The top four of the forty bits of five bytes are the high nibble of the first byte.
pub proof fn lemma_be_uint_5_top(s: Seq<u8>)
    requires
        s.len() >= 5,
    ensures
        be_uint(s, 5) >> 36u64 == (s[0] >> 4u8) as u64,
{
    let b0 = s[0];
    let b1 = s[1];
    let b2 = s[2];
    let b3 = s[3];
    let b4 = s[4];
    reveal_with_fuel(be_uint, 6);
    assert(be_uint(s, 5) == ((((((((((0u64 << 8u64) | b0 as u64) << 8u64) | b1 as u64) << 8u64)
        | b2 as u64) << 8u64) | b3 as u64) << 8u64) | b4 as u64));
    assert(((((((((((0u64 << 8u64) | b0 as u64) << 8u64) | b1 as u64) << 8u64) | b2 as u64)
        << 8u64) | b3 as u64) << 8u64) | b4 as u64) >> 36u64 == (b0 >> 4u8) as u64)
        by (bit_vector);
}

/// Six bytes hold at most 48 bits.
pub proof fn lemma_be_uint_6_bound(s: Seq<u8>)
    requires
        s.len() >= 6,
    ensures
        be_uint(s, 6) <= 0xFFFF_FFFF_FFFF,
{
    let b0 = s[0];
    let b1 = s[1];
    let b2 = s[2];
    let b3 = s[3];
    let b4 = s[4];
    let b5 = s[5];
    reveal_with_fuel(be_uint, 7);
    assert(be_uint(s, 6) == ((((((((((((0u64 << 8u64) | b0 as u64) << 8u64) | b1 as u64) << 8u64)
        | b2 as u64) << 8u64) | b3 as u64) << 8u64) | b4 as u64) << 8u64) | b5 as u64));
    assert(((((((((((((0u64 << 8u64) | b0 as u64) << 8u64) | b1 as u64) << 8u64) | b2 as u64)
        << 8u64) | b3 as u64) << 8u64) | b4 as u64) << 8u64) | b5 as u64) <= 0xFFFF_FFFF_FFFF)
        by (bit_vector);
}

} // verus!

verus! {

/// Returns the big-endian value of the two bytes of `s` at `i`.
pub fn be_u16_at(s: &[u8], i: usize) -> (n: u16)
    requires
        i + 2 <= s@.len(),
    ensures
        n == be_u16(s@, i as int),
{
    ((s[i] as u16) << 8u16) | (s[i + 1] as u16)
}

/// Returns the suffix of `s` after its first `n` bytes.
pub fn skip(s: &[u8], n: usize) -> (r: &[u8])
    requires
        n <= s@.len(),
    ensures
        r@ == s@.skip(n as int),
{
    let r = &s[n..s.len()];
    assert(r@ =~= s@.skip(n as int));
    r
}

/// Returns the first `n` bytes of `s`.
pub fn take(s: &[u8], n: usize) -> (r: &[u8])
    requires
        n <= s@.len(),
    ensures
        r@ == s@.take(n as int),
{
    let r = &s[0..n];
    assert(r@ =~= s@.take(n as int));
    r
}

} // verus!
