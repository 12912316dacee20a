use vstd::prelude::*;

verus! {

/// The generator polynomial of CRC-32/MPEG-2.
pub const CRC32_POLYNOMIAL: u32 = 0x04C1_1DB7;

/// The initial register value of CRC-32/MPEG-2.
pub const CRC32_INIT: u32 = 0xFFFF_FFFF;

/// One bit of the (most-significant-bit first) CRC register shift.
pub open spec fn crc_bit(c: u32) -> u32 {
    if c & 0x8000_0000 != 0 {
        (c << 1u32) ^ CRC32_POLYNOMIAL
    } else {
        c << 1u32
    }
}

/// Applies `crc_bit` `k` times.
pub open spec fn crc_bits(c: u32, k: nat) -> u32
    decreases k,
{
    if k == 0 {
        c
    } else {
        crc_bit(crc_bits(c, (k - 1) as nat))
    }
}

/// Feeds one byte into the CRC register.
pub open spec fn crc_byte(c: u32, b: u8) -> u32 {
    crc_bits(c ^ ((b as u32) << 24u32), 8)
}

/// Feeds the bytes of `s`, first to last, into the CRC register holding `c`.
pub open spec fn crc_update(c: u32, s: Seq<u8>) -> u32
    decreases s.len(),
{
    if s.len() == 0 {
        c
    } else {
        crc_byte(crc_update(c, s.drop_last()), s.last())
    }
}

/// The CRC-32/MPEG-2 checksum of `s` (no reflection, no final xor).
pub open spec fn crc32_of(s: Seq<u8>) -> u32 {
    crc_update(CRC32_INIT, s)
}

/// Feeding two pieces one after the other is feeding their concatenation.
pub proof fn lemma_crc_update_append(c: u32, a: Seq<u8>, b: Seq<u8>)
    ensures
        crc_update(c, a + b) == crc_update(crc_update(c, a), b),
    decreases b.len(),
{
    if b.len() == 0 {
        assert(a + b =~= a);
    } else {
        assert((a + b).drop_last() =~= a + b.drop_last());
        assert((a + b).last() == b.last());
        lemma_crc_update_append(c, a, b.drop_last());
    }
}

proof fn lemma_crc_byte_of_top(d: u32)
    ensures
        crc_byte(d, (d >> 24u32) as u8) == d << 8u32,
{
    let x = d ^ ((((d >> 24u32) as u8) as u32) << 24u32);
    let y1 = x << 1u32;
    let y2 = y1 << 1u32;
    let y3 = y2 << 1u32;
    let y4 = y3 << 1u32;
    let y5 = y4 << 1u32;
    let y6 = y5 << 1u32;
    let y7 = y6 << 1u32;
    let y8 = y7 << 1u32;
    assert(x & 0x8000_0000 == 0 && y1 & 0x8000_0000 == 0 && y2 & 0x8000_0000 == 0 && y3
        & 0x8000_0000 == 0 && y4 & 0x8000_0000 == 0 && y5 & 0x8000_0000 == 0 && y6 & 0x8000_0000
        == 0 && y7 & 0x8000_0000 == 0 && y8 == d << 8u32) by (bit_vector)
        requires
            x == d ^ ((((d >> 24u32) as u8) as u32) << 24u32),
            y1 == x << 1u32,
            y2 == y1 << 1u32,
            y3 == y2 << 1u32,
            y4 == y3 << 1u32,
            y5 == y4 << 1u32,
            y6 == y5 << 1u32,
            y7 == y6 << 1u32,
            y8 == y7 << 1u32,
    ;
    reveal_with_fuel(crc_bits, 9);
    assert(crc_bits(x, 0) == x);
    assert(crc_bits(x, 1) == y1);
    assert(crc_bits(x, 2) == y2);
    assert(crc_bits(x, 3) == y3);
    assert(crc_bits(x, 4) == y4);
    assert(crc_bits(x, 5) == y5);
    assert(crc_bits(x, 6) == y6);
    assert(crc_bits(x, 7) == y7);
    assert(crc_bits(x, 8) == y8);
}

/// A register fed its own four bytes, most significant first, comes to 0.
pub proof fn lemma_crc_update_own_bytes(c: u32)
    ensures
        crc_update(c, seq![(c >> 24u32) as u8, (c >> 16u32) as u8, (c >> 8u32) as u8, c as u8])
            == 0,
{
    let b = seq![(c >> 24u32) as u8, (c >> 16u32) as u8, (c >> 8u32) as u8, c as u8];
    let c1 = c << 8u32;
    let c2 = c1 << 8u32;
    let c3 = c2 << 8u32;
    assert((c1 >> 24u32) as u8 == (c >> 16u32) as u8 && (c2 >> 24u32) as u8 == (c >> 8u32) as u8
        && (c3 >> 24u32) as u8 == c as u8 && c3 << 8u32 == 0) by (bit_vector)
        requires
            c1 == c << 8u32,
            c2 == c1 << 8u32,
            c3 == c2 << 8u32,
    ;
    lemma_crc_byte_of_top(c);
    lemma_crc_byte_of_top(c1);
    lemma_crc_byte_of_top(c2);
    lemma_crc_byte_of_top(c3);
    let b0 = (c >> 24u32) as u8;
    let b1 = (c >> 16u32) as u8;
    let b2 = (c >> 8u32) as u8;
    let b3 = c as u8;
    let s0 = Seq::<u8>::empty();
    let s1 = s0.push(b0);
    let s2 = s1.push(b1);
    let s3 = s2.push(b2);
    let s4 = s3.push(b3);
    assert(s1.drop_last() =~= s0);
    assert(s2.drop_last() =~= s1);
    assert(s3.drop_last() =~= s2);
    assert(s4.drop_last() =~= s3);
    assert(crc_update(c, s0) == c);
    assert(crc_update(c, s1) == crc_byte(c, b0));
    assert(crc_update(c, s1) == c1);
    assert(crc_update(c, s2) == crc_byte(c1, b1));
    assert(crc_update(c, s2) == c2);
    assert(crc_update(c, s3) == crc_byte(c2, b2));
    assert(crc_update(c, s3) == c3);
    assert(crc_update(c, s4) == crc_byte(c3, b3));
    assert(s4 =~= b);
}

/// The CRC of data followed by its own CRC, most significant byte first, is 0: a receiver
/// checks a section by running the CRC over it, CRC field included.
pub proof fn lemma_crc_residue(s: Seq<u8>)
    ensures
        crc32_of(
            s + seq![
                (crc32_of(s) >> 24u32) as u8,
                (crc32_of(s) >> 16u32) as u8,
                (crc32_of(s) >> 8u32) as u8,
                crc32_of(s) as u8,
            ],
        ) == 0,
{
    let c = crc32_of(s);
    let b = seq![(c >> 24u32) as u8, (c >> 16u32) as u8, (c >> 8u32) as u8, c as u8];
    lemma_crc_update_append(CRC32_INIT, s, b);
    lemma_crc_update_own_bytes(c);
}

/// Feeds the pieces of `pieces`, first to last, into the CRC register holding `c`, as
/// successive `update` or `write_all` calls do.
pub open spec fn crc_update_pieces(c: u32, pieces: Seq<Seq<u8>>) -> u32
    decreases pieces.len(),
{
    if pieces.len() == 0 {
        c
    } else {
        crc_update(crc_update_pieces(c, pieces.drop_last()), pieces.last())
    }
}

/// However the bytes are split into pieces, feeding the pieces one after the other gives the
/// register that feeding all the bytes at once gives.
pub proof fn lemma_crc_update_pieces(c: u32, pieces: Seq<Seq<u8>>)
    ensures
        crc_update_pieces(c, pieces) == crc_update(c, pieces.flatten_alt()),
    decreases pieces.len(),
{
    if pieces.len() > 0 {
        lemma_crc_update_pieces(c, pieces.drop_last());
        lemma_crc_update_append(c, pieces.drop_last().flatten_alt(), pieces.last());
    }
}

/// CRC-32/MPEG-2 accumulator.
#[derive(Debug, Clone, Copy)]
pub struct Crc32 {
    value: u32,
}

impl View for Crc32 {
    type V = u32;

    closed spec fn view(&self) -> u32 {
        self.value
    }
}

fn crc_bit_exec(c: u32) -> (r: u32)
    ensures
        r == crc_bit(c),
{
    if c & 0x8000_0000 != 0 {
        (c << 1u32) ^ CRC32_POLYNOMIAL
    } else {
        c << 1u32
    }
}

fn crc_byte_exec(c: u32, b: u8) -> (r: u32)
    ensures
        r == crc_byte(c, b),
{
    let mut x = c ^ ((b as u32) << 24u32);
    let ghost x0 = x;
    let mut i: usize = 0;
    while i < 8
        invariant
            i <= 8,
            x == crc_bits(x0, i as nat),
        decreases 8 - i,
    {
        x = crc_bit_exec(x);
        i = i + 1;
    }
    x
}

impl Crc32 {
    /// Makes an accumulator that has seen no bytes yet.
    pub fn new() -> (c: Self)
        ensures
            c@ == CRC32_INIT,
    {
        Crc32 { value: CRC32_INIT }
    }

    /// Feeds `bytes` into the accumulator.
    pub fn update(&mut self, bytes: &[u8])
        ensures
            final(self)@ == crc_update(old(self)@, bytes@),
    {
        let ghost c0 = self.value;
        let mut i: usize = 0;
        while i < bytes.len()
            invariant
                i <= bytes@.len(),
                self.value == crc_update(c0, bytes@.take(i as int)),
            decreases bytes@.len() - i,
        {
            assert(bytes@.take(i + 1).drop_last() =~= bytes@.take(i as int));
            self.value = crc_byte_exec(self.value, bytes[i]);
            i = i + 1;
        }
        assert(bytes@.take(bytes@.len() as int) =~= bytes@);
    }

    /// Returns the current checksum.
    pub fn value(&self) -> (v: u32)
        ensures
            v == self@,
    {
        self.value
    }
}

} // verus!
