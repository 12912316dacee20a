use crate::crc::{crc32_of, lemma_crc_update_append, CRC32_INIT};
use crate::error::{Error, ErrorKind, Result};
use crate::ts::types::VersionNumber;
use crate::util::{
    all_stuffing, be_u16, be_u16_at, be_u32, consume_stuffing_bytes, lemma_u16_bytes_roundtrip,
    lemma_u32_bytes_roundtrip, read_as, skip, take, taken_by_failed_read, u16_bytes, u32_bytes, write_all, Parsed,
    ReadBytesExt, WithCrc32, WriteBytesExt,
};
use vstd::prelude::*;

verus! {

broadcast use VersionNumber::lemma_from_value, VersionNumber::lemma_value_ext;

/// Maximum length of the syntax section of a PSI table.
pub const MAX_SYNTAX_SECTION_LEN: usize = 1021;

/// Program-specific information: the tables of one section buffer.
#[derive(Debug)]
pub struct Psi {
    pub tables: Vec<PsiTable>,
}

/// A PSI table: its header and, where the syntax section length is not 0, its syntax section.
#[derive(Debug)]
pub struct PsiTable {
    pub header: PsiTableHeader,
    pub syntax: Option<PsiTableSyntax>,
}

/// The header of a PSI table.
#[derive(Debug, Clone, Copy, PartialEq, Eq)]
pub struct PsiTableHeader {
    pub table_id: u8,
    pub private_bit: bool,
}

/// The syntax section of a PSI table.
#[derive(Debug)]
pub struct PsiTableSyntax {
    pub table_id_extension: u16,
    pub version_number: VersionNumber,
    pub current_next_indicator: bool,
    pub section_number: u8,
    pub last_section_number: u8,
    pub table_data: Vec<u8>,
}

/// The value of a `PsiTableSyntax`.
#[verifier::ext_equal]
pub struct SpecPsiTableSyntax {
    pub table_id_extension: u16,
    pub version_number: VersionNumber,
    pub current_next_indicator: bool,
    pub section_number: u8,
    pub last_section_number: u8,
    pub table_data: Seq<u8>,
}

/// The value of a `PsiTable`.
#[verifier::ext_equal]
pub struct SpecPsiTable {
    pub header: PsiTableHeader,
    pub syntax: Option<SpecPsiTableSyntax>,
}

impl View for PsiTableSyntax {
    type V = SpecPsiTableSyntax;

    open spec fn view(&self) -> SpecPsiTableSyntax {
        SpecPsiTableSyntax {
            table_id_extension: self.table_id_extension,
            version_number: self.version_number,
            current_next_indicator: self.current_next_indicator,
            section_number: self.section_number,
            last_section_number: self.last_section_number,
            table_data: self.table_data@,
        }
    }
}

impl View for PsiTable {
    type V = SpecPsiTable;

    open spec fn view(&self) -> SpecPsiTable {
        SpecPsiTable {
            header: self.header,
            syntax: match self.syntax {
                Some(s) => Some(s@),
                None => None,
            },
        }
    }
}

impl View for Psi {
    type V = Seq<SpecPsiTable>;

    open spec fn view(&self) -> Seq<SpecPsiTable> {
        self.tables@.map_values(|t: PsiTable| t@)
    }
}

// ---------------------------------------------------------------- reading

/// A PSI table header read from the front of `s`: the header and the syntax section length.
pub open spec fn spec_read_psi_table_header(s: Seq<u8>) -> Parsed<(PsiTableHeader, u16)> {
    if s.len() < 3 {
        Err(ErrorKind::Other)
    } else {
        let n = be_u16(s, 1);
        let len = n & 0x03FF;
        if n & 0x3000 != 0x3000 {
            Err(ErrorKind::InvalidInput)
        } else if n & 0x0C00 != 0 {
            Err(ErrorKind::InvalidInput)
        } else if len > 1021 {
            Err(ErrorKind::InvalidInput)
        } else if n & 0x8000 != 0 && len == 0 {
            Err(ErrorKind::InvalidInput)
        } else {
            Ok(((PsiTableHeader { table_id: s[0], private_bit: n & 0x4000 != 0 }, len), 3))
        }
    }
}

/// The bytes that a failed read of a syntax section takes from its region `r`: all of them
/// where the fixed fields are cut short, else the three bytes up to the wrong reserved bits.
pub open spec fn psi_syntax_taken_on_error(r: Seq<u8>) -> int {
    if r.len() < 3 {
        r.len() as int
    } else if r[2] & 0xC0 != 0xC0 {
        3
    } else {
        r.len() as int
    }
}

/// The bytes that a failed read of a PSI table takes from the front of `s`: the header's
/// three bytes (or all where fewer remain), what the syntax section read took, and the CRC
/// field (or all that remain).
pub open spec fn psi_table_taken_on_error(s: Seq<u8>) -> int {
    match spec_read_psi_table_header(s) {
        Err(_) => taken_by_failed_read(s, 3),
        Ok(((_, len), _)) => if len < 4 {
            3
        } else {
            let rl = if len - 4 <= s.len() - 3 {
                len - 4
            } else {
                s.len() - 3
            };
            match spec_read_psi_syntax(s.subrange(3, 3 + rl)) {
                Err(_) => 3 + psi_syntax_taken_on_error(s.subrange(3, 3 + rl)),
                Ok(_) => 3 + rl + taken_by_failed_read(s.skip(3 + rl), 4),
            }
        },
    }
}

/// A syntax section read from the region `r` that the syntax section length bounds
/// (without the CRC): the table data is what follows the fixed fields.
pub open spec fn spec_read_psi_syntax(r: Seq<u8>) -> core::result::Result<
    SpecPsiTableSyntax,
    ErrorKind,
> {
    if r.len() < 3 {
        Err(ErrorKind::Other)
    } else if r[2] & 0xC0 != 0xC0 {
        Err(ErrorKind::InvalidInput)
    } else if r.len() < 5 {
        Err(ErrorKind::Other)
    } else {
        Ok(
            SpecPsiTableSyntax {
                table_id_extension: be_u16(r, 0),
                version_number: VersionNumber::from_value((r[2] & 0x3E) >> 1u8),
                current_next_indicator: r[2] & 0x01 != 0,
                section_number: r[3],
                last_section_number: r[4],
                table_data: r.skip(5),
            },
        )
    }
}

/// A PSI table read from the front of `s`, with its CRC checked.
pub open spec fn spec_read_psi_table(s: Seq<u8>) -> Parsed<SpecPsiTable> {
    match spec_read_psi_table_header(s) {
        Err(k) => Err(k),
        Ok(((header, len), _)) => if len == 0 {
            Ok((SpecPsiTable { header, syntax: None }, 3))
        } else if len < 4 {
            Err(ErrorKind::InvalidInput)
        } else {
            let rl = if len - 4 <= s.len() - 3 {
                len - 4
            } else {
                s.len() - 3
            };
            match spec_read_psi_syntax(s.subrange(3, 3 + rl)) {
                Err(k) => Err(k),
                Ok(syntax) => if s.len() < 3 + rl + 4 {
                    Err(ErrorKind::Other)
                } else if crc32_of(s.take(3 + rl)) != be_u32(s, 3 + rl) {
                    Err(ErrorKind::InvalidInput)
                } else {
                    Ok((SpecPsiTable { header, syntax: Some(syntax) }, 3 + rl + 4))
                },
            }
        },
    }
}

/// The tables read from `r`, what follows the pointer field of a section buffer. When at
/// least one table has been read (`after_table`), a 0xFF byte starts stuffing that must
/// run to the end.
pub open spec fn spec_read_psi_tables(r: Seq<u8>, after_table: bool) -> core::result::Result<
    Seq<SpecPsiTable>,
    ErrorKind,
>
    decreases r.len(),
{
    if r.len() == 0 {
        Ok(Seq::empty())
    } else if after_table && r[0] == 0xFF {
        if all_stuffing(r.skip(1)) {
            Ok(Seq::empty())
        } else {
            Err(ErrorKind::InvalidInput)
        }
    } else {
        match spec_read_psi_table(r) {
            Err(k) => Err(k),
            Ok((t, n)) => if 0 < n <= r.len() {
                match spec_read_psi_tables(r.skip(n), true) {
                    Err(k) => Err(k),
                    Ok(ts) => Ok(seq![t] + ts),
                }
            } else {
                // a table takes at least its three header bytes and at most what is there
                Err(ErrorKind::Other)
            },
        }
    }
}

/// The PSI read from a whole section buffer `s`: a zero pointer field, then the tables.
pub open spec fn spec_read_psi(s: Seq<u8>) -> core::result::Result<Seq<SpecPsiTable>, ErrorKind> {
    if s.len() < 1 {
        Err(ErrorKind::Other)
    } else if s[0] != 0 {
        Err(ErrorKind::Unsupported)
    } else {
        spec_read_psi_tables(s.skip(1), false)
    }
}

// ---------------------------------------------------------------- writing

/// The size of a syntax section, CRC included.
pub open spec fn psi_syntax_size(s: SpecPsiTableSyntax) -> int {
    5 + s.table_data.len() as int + 4
}

/// The syntax section length of a table: 0 without syntax section.
pub open spec fn psi_table_syntax_len(t: SpecPsiTable) -> int {
    match t.syntax {
        Some(s) => psi_syntax_size(s),
        None => 0,
    }
}

/// The two bytes after the table id: indicator, private bit, reserved bits, length.
pub open spec fn psi_header_word(h: PsiTableHeader, len: u16) -> u16 {
    (if len != 0 {
        0x8000u16
    } else {
        0
    }) | (if h.private_bit {
        0x4000u16
    } else {
        0
    }) | 0x3000u16 | len
}

/// The bytes of a PSI table header with the syntax section length `len`.
pub open spec fn psi_header_bytes(h: PsiTableHeader, len: u16) -> Seq<u8> {
    seq![h.table_id] + u16_bytes(psi_header_word(h, len))
}

/// The byte that holds the version number and the current-next indicator.
pub open spec fn psi_version_byte(s: SpecPsiTableSyntax) -> u8 {
    0xC0u8 | (s.version_number.value() << 1u8) | (if s.current_next_indicator {
        1u8
    } else {
        0
    })
}

/// The bytes of a syntax section, CRC excluded.
pub open spec fn psi_syntax_bytes(s: SpecPsiTableSyntax) -> Seq<u8> {
    u16_bytes(s.table_id_extension) + seq![
        psi_version_byte(s),
        s.section_number,
        s.last_section_number,
    ] + s.table_data
}

/// `true` if writing the table fails: its syntax section is too long.
pub open spec fn psi_table_write_fails(t: SpecPsiTable) -> bool {
    psi_table_syntax_len(t) > 1021
}

/// The bytes of a PSI table, CRC included where there is a syntax section.
pub open spec fn psi_table_bytes(t: SpecPsiTable) -> Seq<u8> {
    let head = psi_header_bytes(t.header, psi_table_syntax_len(t) as u16);
    match t.syntax {
        None => head,
        Some(s) => head + psi_syntax_bytes(s) + u32_bytes(crc32_of(head + psi_syntax_bytes(s))),
    }
}

/// What writing the tables `ts` one after the other gives: the bytes written, and `true`
/// if a table failed (the bytes then end before it).
pub open spec fn psi_tables_write(ts: Seq<SpecPsiTable>) -> (Seq<u8>, bool)
    decreases ts.len(),
{
    if ts.len() == 0 {
        (Seq::empty(), false)
    } else {
        let (b, failed) = psi_tables_write(ts.drop_last());
        if failed {
            (b, true)
        } else if psi_table_write_fails(ts.last()) {
            (b, true)
        } else {
            (b + psi_table_bytes(ts.last()), false)
        }
    }
}

/// The bytes of a PSI (pointer field, tables), and whether writing it fails.
pub open spec fn psi_write(ts: Seq<SpecPsiTable>) -> (Seq<u8>, bool) {
    (seq![0u8] + psi_tables_write(ts).0, psi_tables_write(ts).1)
}

// ---------------------------------------------------------------- exec

impl Psi {
    /// Reads a PSI from a whole section buffer.
    ///
    /// # Errors
    ///
    /// A pointer field other than 0 gives an `ErrorKind::Unsupported` error; malformed tables,
    /// CRC mismatches and non-stuffing bytes after the tables give an `ErrorKind::InvalidInput`
    /// error; a buffer that ends inside a table gives an `ErrorKind::Other` error. See
    /// `spec_read_psi`.
    pub fn read_from(reader: &[u8]) -> (r: Result<Self>)
        ensures
            match r {
                Ok(psi) => spec_read_psi(reader@) == Ok::<Seq<SpecPsiTable>, ErrorKind>(psi@),
                Err(e) => spec_read_psi(reader@) == Err::<Seq<SpecPsiTable>, ErrorKind>(e.kind),
            },
    {
        if reader.len() < 1 {
            return Err(Error::end_of_input());
        }
        if reader[0] != 0 {
            return Err(Error::unsupported("Pointer field must be 0"));
        }
        let mut rest: &[u8] = skip(reader, 1);
        let mut tables: Vec<PsiTable> = Vec::new();
        loop
            invariant_except_break
                reader@.len() >= 1,
                reader@[0] == 0,
                spec_read_psi_tables(reader@.skip(1), false) == match spec_read_psi_tables(
                    rest@,
                    tables@.len() > 0,
                ) {
                    Ok(ts) => Ok(tables@.map_values(|t: PsiTable| t@) + ts),
                    Err(k) => Err(k),
                },
            ensures
                reader@.len() >= 1,
                reader@[0] == 0,
                spec_read_psi_tables(reader@.skip(1), false) == Ok::<
                    Seq<SpecPsiTable>,
                    ErrorKind,
                >(tables@.map_values(|t: PsiTable| t@)),
            decreases rest@.len(),
        {
            if rest.len() == 0 {
                assert(tables@.map_values(|t: PsiTable| t@) + Seq::<SpecPsiTable>::empty()
                    =~= tables@.map_values(|t: PsiTable| t@));
                break ;
            }
            if tables.len() > 0 && rest[0] == 0xFF {
                let mut stuffing: &[u8] = skip(rest, 1);
                consume_stuffing_bytes(&mut stuffing)?;
                assert(tables@.map_values(|t: PsiTable| t@) + Seq::<SpecPsiTable>::empty()
                    =~= tables@.map_values(|t: PsiTable| t@));
                break ;
            }
            let ghost before = rest@;
            let ghost done = tables@.map_values(|t: PsiTable| t@);
            let table = PsiTable::read_from(&mut rest)?;
            let ghost n = before.len() - rest@.len();
            assert(0 < n <= before.len());
            tables.push(table);
            assert(tables@.map_values(|t: PsiTable| t@) =~= done.push(table@));
            proof {
                match spec_read_psi_tables(rest@, true) {
                    Ok(ts) => {
                        assert(done + (seq![table@] + ts) =~= done.push(table@) + ts);
                    },
                    Err(_) => {},
                }
            }
        }
        Ok(Psi { tables })
    }

    /// Writes the PSI: a zero pointer field, then its tables.
    ///
    /// # Errors
    ///
    /// A table whose syntax section is longer than `MAX_SYNTAX_SECTION_LEN` gives an
    /// `ErrorKind::InvalidInput` error; the tables before it have been written.
    pub fn write_to(&self, out: &mut Vec<u8>) -> (r: Result<()>)
        ensures
            final(out)@ == old(out)@ + psi_write(self@).0,
            match r {
                Ok(_) => !psi_write(self@).1,
                Err(e) => psi_write(self@).1 && e.kind == ErrorKind::InvalidInput,
            },
    {
        out.write_u8(0);
        let ghost ts = self@;
        let mut i: usize = 0;
        while i < self.tables.len()
            invariant
                i <= self.tables@.len(),
                ts == self@,
                !psi_tables_write(ts.take(i as int)).1,
                out@ == old(out)@ + seq![0u8] + psi_tables_write(ts.take(i as int)).0,
            decreases self.tables@.len() - i,
        {
            assert(ts.take(i + 1).drop_last() =~= ts.take(i as int));
            assert(ts.take(i + 1).last() == self.tables@[i as int]@);
            let ghost before = out@;
            match self.tables[i].write_to(out) {
                Ok(()) => {},
                Err(e) => {
                    proof {
                        lemma_psi_tables_write_failed(ts, i as int + 1);
                        assert(out@ =~= old(out)@ + psi_write(ts).0);
                    }
                    return Err(e);
                },
            }
            i = i + 1;
            assert(out@ =~= old(out)@ + seq![0u8] + psi_tables_write(ts.take(i as int)).0);
        }
        assert(ts.take(ts.len() as int) =~= ts);
        assert(out@ =~= old(out)@ + psi_write(ts).0);
        Ok(())
    }
}

/// Once a table has failed, the tables after it change nothing.
proof fn lemma_psi_tables_write_failed(ts: Seq<SpecPsiTable>, i: int)
    requires
        0 <= i <= ts.len(),
        psi_tables_write(ts.take(i)).1,
    ensures
        psi_tables_write(ts) == psi_tables_write(ts.take(i)),
    decreases ts.len() - i,
{
    if i < ts.len() {
        assert(ts.take(i + 1).drop_last() =~= ts.take(i));
        lemma_psi_tables_write_failed(ts, i + 1);
    } else {
        assert(ts.take(i) =~= ts);
    }
}

impl PsiTable {
    /// Reads a PSI table and checks its CRC.
    pub fn read_from(reader: &mut &[u8]) -> (r: Result<Self>)
        ensures
            match r {
                Ok(t) => read_as(spec_read_psi_table(old(reader)@), old(reader)@, final(reader)@, t@),
                Err(e) => {
                    &&& spec_read_psi_table(old(reader)@) == Err::<(SpecPsiTable, int), ErrorKind>(
                        e.kind,
                    )
                    &&& final(reader)@ == old(reader)@.skip(psi_table_taken_on_error(old(reader)@))
                },
            },
    {
        let s: &[u8] = *reader;
        let mut rd: &[u8] = s;
        let (header, syntax_section_len) = match PsiTableHeader::read_from(&mut rd) {
            Ok(v) => v,
            Err(e) => {
                *reader = rd;
                return Err(e);
            },
        };
        if syntax_section_len == 0 {
            *reader = skip(s, 3);
            return Ok(PsiTable { header, syntax: None });
        }
        if syntax_section_len < 4 {
            *reader = skip(s, 3);
            return Err(Error::invalid_input("Syntax section length must be at least 4"));
        }
        let want = (syntax_section_len - 4) as usize;
        let rl = if want <= s.len() - 3 {
            want
        } else {
            s.len() - 3
        };
        let region = take(skip(s, 3), rl);
        assert(region@ =~= s@.subrange(3, 3 + rl));
        let syntax = match PsiTableSyntax::read_from(region) {
            Ok(x) => x,
            Err(e) => {
                let taken = if region.len() < 3 {
                    region.len()
                } else if (region[2] & 0b1100_0000) != 0b1100_0000 {
                    3
                } else {
                    region.len()
                };
                *reader = skip(s, 3 + taken);
                return Err(e);
            },
        };
        let mut crc = WithCrc32::new(Vec::new());
        crc.write_all(take(s, 3 + rl));
        let crc32 = crc.crc32();
        if s.len() < 3 + rl + 4 {
            *reader = skip(s, s.len());
            return Err(Error::end_of_input());
        }
        let mut tail: &[u8] = skip(s, 3 + rl);
        let expected_crc32 = tail.read_u32()?;
        assert(expected_crc32 == be_u32(s@, 3 + rl));
        if crc32 != expected_crc32 {
            *reader = tail;
            assert(tail@ =~= s@.skip(3 + rl + 4));
            return Err(Error::invalid_input("CRC32 mismatch"));
        }
        *reader = tail;
        assert(tail@ =~= s@.skip(3 + rl + 4));
        Ok(PsiTable { header, syntax: Some(syntax) })
    }

    /// Writes the PSI table, with the CRC where there is a syntax section.
    ///
    /// # Errors
    ///
    /// If the syntax section is longer than `MAX_SYNTAX_SECTION_LEN`, it will return an
    /// `ErrorKind::InvalidInput` error and write nothing.
    pub fn write_to(&self, out: &mut Vec<u8>) -> (r: Result<()>)
        ensures
            match r {
                Ok(_) => !psi_table_write_fails(self@) && final(out)@ == old(out)@
                    + psi_table_bytes(self@),
                Err(e) => psi_table_write_fails(self@) && e.kind == ErrorKind::InvalidInput
                    && final(out)@ == old(out)@,
            },
    {
        let syntax_section_len: usize = match &self.syntax {
            Some(s) => {
                if s.table_data.len() > MAX_SYNTAX_SECTION_LEN {
                    return Err(Error::invalid_input("Syntax section length exceeds maximum"));
                }
                s.external_size()
            },
            None => 0,
        };
        let mut writer = WithCrc32::new(Vec::new());
        self.header.write_to(&mut writer, syntax_section_len)?;
        let ghost head = writer.inner()@;
        if let Some(x) = &self.syntax {
            x.write_to(&mut writer);
            let crc32 = writer.crc32();
            let ghost body = writer.inner()@;
            proof {
                lemma_crc_update_append(CRC32_INIT, head, psi_syntax_bytes(x@));
                assert(head =~= Seq::<u8>::empty() + head);
            }
            let bytes = writer.into_stream();
            write_all(out, bytes.as_slice());
            out.write_u32(crc32);
            assert(out@ =~= old(out)@ + psi_table_bytes(self@));
        } else {
            let bytes = writer.into_stream();
            write_all(out, bytes.as_slice());
            assert(out@ =~= old(out)@ + psi_table_bytes(self@));
        }
        Ok(())
    }
}

impl WriteBytesExt for WithCrc32<Vec<u8>> {
    fn write_u8(&mut self, n: u8)
        ensures
            final(self).inner()@ == old(self).inner()@.push(n),
            final(self).crc_register() == crate::crc::crc_update(
                old(self).crc_register(),
                seq![n],
            ),
    {
        let buf = [n];
        self.write_all(&buf);
        assert(buf@ =~= seq![n]);
        assert(old(self).inner()@ + seq![n] =~= old(self).inner()@.push(n));
    }

    fn write_u16(&mut self, n: u16)
        ensures
            final(self).inner()@ == old(self).inner()@ + u16_bytes(n),
            final(self).crc_register() == crate::crc::crc_update(
                old(self).crc_register(),
                u16_bytes(n),
            ),
    {
        let buf = [(n >> 8u16) as u8, n as u8];
        assert(buf@ =~= u16_bytes(n));
        self.write_all(&buf);
    }

    fn write_u32(&mut self, n: u32)
        ensures
            final(self).inner()@ == old(self).inner()@ + u32_bytes(n),
            final(self).crc_register() == crate::crc::crc_update(
                old(self).crc_register(),
                u32_bytes(n),
            ),
    {
        let buf = [(n >> 24u32) as u8, (n >> 16u32) as u8, (n >> 8u32) as u8, n as u8];
        assert(buf@ =~= u32_bytes(n));
        self.write_all(&buf);
    }

    fn write_uint<const SIZE: usize>(&mut self, n: u64)
        ensures
            final(self).inner()@ == old(self).inner()@ + crate::util::uint_bytes(n, SIZE as nat),
            final(self).crc_register() == crate::crc::crc_update(
                old(self).crc_register(),
                crate::util::uint_bytes(n, SIZE as nat),
            ),
    {
        let mut buf: Vec<u8> = Vec::new();
        buf.write_uint::<SIZE>(n);
        assert(buf@ =~= crate::util::uint_bytes(n, SIZE as nat));
        self.write_all(buf.as_slice());
    }

    fn write_i8(&mut self, n: i8)
        ensures
            final(self).inner()@ == old(self).inner()@.push(n as u8),
            final(self).crc_register() == crate::crc::crc_update(
                old(self).crc_register(),
                seq![n as u8],
            ),
    {
        let buf = [n as u8];
        self.write_all(&buf);
        assert(buf@ =~= seq![n as u8]);
        assert(old(self).inner()@ + seq![n as u8] =~= old(self).inner()@.push(n as u8));
    }
}

impl PsiTableHeader {
    /// Reads a PSI table header; returns it with the syntax section length.
    pub fn read_from(reader: &mut &[u8]) -> (r: Result<(Self, u16)>)
        ensures
            match r {
                Ok(v) => read_as(
                    spec_read_psi_table_header(old(reader)@),
                    old(reader)@,
                    final(reader)@,
                    v,
                ),
                Err(e) => {
                    &&& spec_read_psi_table_header(old(reader)@) == Err::<
                        ((PsiTableHeader, u16), int),
                        ErrorKind,
                    >(e.kind)
                    &&& final(reader)@ == old(reader)@.skip(taken_by_failed_read(old(reader)@, 3))
                },
            },
    {
        let s: &[u8] = *reader;
        if s.len() < 3 {
            *reader = skip(s, s.len());
            return Err(Error::end_of_input());
        }
        *reader = skip(s, 3);
        let table_id = s[0];
        let n = be_u16_at(s, 1);
        let syntax_section_indicator = (n & 0b1000_0000_0000_0000) != 0;
        let private_bit = (n & 0b0100_0000_0000_0000) != 0;
        if (n & 0b0011_0000_0000_0000) != 0b0011_0000_0000_0000 {
            return Err(Error::invalid_input("Unexpected reserved bits"));
        }
        if (n & 0b0000_1100_0000_0000) != 0 {
            return Err(Error::invalid_input("Unexpected section length unused bits"));
        }
        let syntax_section_len = n & 0b0000_0011_1111_1111;
        if (syntax_section_len as usize) > MAX_SYNTAX_SECTION_LEN {
            return Err(Error::invalid_input("Syntax section length exceeds maximum"));
        }
        if syntax_section_indicator && syntax_section_len == 0 {
            return Err(
                Error::invalid_input("Syntax section length cannot be 0 when indicator is set"),
            );
        }
        *reader = skip(s, 3);
        Ok((PsiTableHeader { table_id, private_bit }, syntax_section_len))
    }

    /// Writes the PSI table header with the syntax section length `syntax_section_len`.
    ///
    /// # Errors
    ///
    /// If `syntax_section_len` exceeds `MAX_SYNTAX_SECTION_LEN`, it will return an
    /// `ErrorKind::InvalidInput` error and write nothing.
    pub fn write_to(&self, writer: &mut WithCrc32<Vec<u8>>, syntax_section_len: usize) -> (r: Result<()>)
        ensures
            match r {
                Ok(_) => {
                    &&& syntax_section_len <= 1021
                    &&& final(writer).inner()@ == old(writer).inner()@ + psi_header_bytes(
                        *self,
                        syntax_section_len as u16,
                    )
                    &&& final(writer).crc_register() == crate::crc::crc_update(
                        old(writer).crc_register(),
                        psi_header_bytes(*self, syntax_section_len as u16),
                    )
                },
                Err(e) => {
                    &&& syntax_section_len > 1021
                    &&& e.kind == ErrorKind::InvalidInput
                    &&& *final(writer) == *old(writer)
                },
            },
    {
        if syntax_section_len > MAX_SYNTAX_SECTION_LEN {
            return Err(Error::invalid_input("Syntax section length exceeds maximum"));
        }
        let len = syntax_section_len as u16;
        let n = (if len != 0 {
            0x8000u16
        } else {
            0
        }) | (if self.private_bit {
            0x4000u16
        } else {
            0
        }) | 0x3000u16 | len;
        let buf = [self.table_id, (n >> 8u16) as u8, n as u8];
        assert(buf@ =~= psi_header_bytes(*self, len));
        writer.write_all(&buf);
        Ok(())
    }
}

impl PsiTableSyntax {
    /// The size of the syntax section, CRC included.
    pub fn external_size(&self) -> (n: usize)
        requires
            self.table_data@.len() <= usize::MAX - 9,
        ensures
            n == psi_syntax_size(self@),
    {
        2 + 1 + 1 + 1 + self.table_data.len() + 4
    }

    /// Reads a syntax section from the region that the syntax section length bounds.
    pub fn read_from(reader: &[u8]) -> (r: Result<Self>)
        ensures
            match r {
                Ok(s) => spec_read_psi_syntax(reader@) == Ok::<SpecPsiTableSyntax, ErrorKind>(s@),
                Err(e) => spec_read_psi_syntax(reader@) == Err::<SpecPsiTableSyntax, ErrorKind>(
                    e.kind,
                ),
            },
    {
        if reader.len() < 3 {
            return Err(Error::end_of_input());
        }
        let table_id_extension = be_u16_at(reader, 0);
        let b = reader[2];
        if (b & 0b1100_0000) != 0b1100_0000 {
            return Err(Error::invalid_input("Unexpected reserved bits"));
        }
        let version_number = VersionNumber::from_u8((b & 0b0011_1110) >> 1u8);
        proof {
            assert((b & 0x3E) >> 1u8 <= 0x1F) by (bit_vector);
        }
        let version_number = match version_number {
            Ok(v) => v,
            Err(e) => {
                return Err(e);
            },
        };
        let current_next_indicator = (b & 0b0000_0001) != 0;
        if reader.len() < 5 {
            return Err(Error::end_of_input());
        }
        let section_number = reader[3];
        let last_section_number = reader[4];
        let mut table_data = Vec::new();
        write_all(&mut table_data, skip(reader, 5));
        Ok(
            PsiTableSyntax {
                table_id_extension,
                version_number,
                current_next_indicator,
                section_number,
                last_section_number,
                table_data,
            },
        )
    }

    /// Writes the syntax section, CRC excluded.
    pub fn write_to(&self, writer: &mut WithCrc32<Vec<u8>>)
        ensures
            final(writer).inner()@ == old(writer).inner()@ + psi_syntax_bytes(self@),
            final(writer).crc_register() == crate::crc::crc_update(
                old(writer).crc_register(),
                psi_syntax_bytes(self@),
            ),
    {
        let v = self.version_number.as_u8();
        let n = 0b1100_0000u8 | (v << 1u8) | (if self.current_next_indicator {
            1u8
        } else {
            0
        });
        let buf = [
            (self.table_id_extension >> 8u16) as u8,
            self.table_id_extension as u8,
            n,
            self.section_number,
            self.last_section_number,
        ];
        let ghost w0 = writer.inner()@;
        let ghost c0 = writer.crc_register();
        writer.write_all(&buf);
        writer.write_all(self.table_data.as_slice());
        proof {
            assert(buf@ + self.table_data@ =~= psi_syntax_bytes(self@));
            lemma_crc_update_append(c0, buf@, self.table_data@);
            assert(writer.inner()@ =~= w0 + psi_syntax_bytes(self@));
        }
    }
}

} // verus!

verus! {

/// `true` if the table reads back as written: it does not fail to write and its version
/// number is valid.
pub open spec fn psi_table_roundtrips(t: SpecPsiTable) -> bool {
    &&& !psi_table_write_fails(t)
    &&& (t.syntax matches Some(s) ==> s.version_number.valid())
}

pub(crate) proof fn lemma_psi_header_word_bits(h: PsiTableHeader, len: u16)
    requires
        len <= 1021,
    ensures
        psi_header_word(h, len) & 0x3000 == 0x3000,
        psi_header_word(h, len) & 0x0C00 == 0,
        psi_header_word(h, len) & 0x03FF == len,
        (psi_header_word(h, len) & 0x4000 != 0) == h.private_bit,
        (psi_header_word(h, len) & 0x8000 != 0) == (len != 0),
{
    let p = h.private_bit;
    let w = psi_header_word(h, len);
    assert(w & 0x3000 == 0x3000 && w & 0x0C00 == 0 && w & 0x03FF == len && (w & 0x4000 != 0) == p
        && (w & 0x8000 != 0) == (len != 0)) by (bit_vector)
        requires
            len <= 1021,
            w == (if len != 0 {
                0x8000u16
            } else {
                0
            }) | (if p {
                0x4000u16
            } else {
                0
            }) | 0x3000u16 | len,
    ;
}

proof fn lemma_psi_version_byte_bits(s: SpecPsiTableSyntax)
    requires
        s.version_number.valid(),
    ensures
        psi_version_byte(s) & 0xC0 == 0xC0,
        (psi_version_byte(s) & 0x3E) >> 1u8 == s.version_number.value(),
        (psi_version_byte(s) & 0x01 != 0) == s.current_next_indicator,
{
    let v = s.version_number.value();
    let c = s.current_next_indicator;
    let b = psi_version_byte(s);
    assert(b & 0xC0 == 0xC0 && (b & 0x3E) >> 1u8 == v && (b & 0x01 != 0) == c) by (bit_vector)
        requires
            v <= 0x1F,
            b == 0xC0u8 | (v << 1u8) | (if c {
                1u8
            } else {
                0
            }),
    ;
}

/// A PSI table reads back as the table that was written, CRC included, whatever follows it.
pub proof fn lemma_psi_table_roundtrip(t: SpecPsiTable, rest: Seq<u8>)
    requires
        psi_table_roundtrips(t),
    ensures
        spec_read_psi_table(psi_table_bytes(t) + rest) == Ok::<(SpecPsiTable, int), ErrorKind>(
            (t, psi_table_bytes(t).len() as int),
        ),
{
    let len = psi_table_syntax_len(t) as u16;
    let head = psi_header_bytes(t.header, len);
    let b = psi_table_bytes(t);
    let s = b + rest;
    lemma_psi_header_word_bits(t.header, len);
    lemma_u16_bytes_roundtrip(psi_header_word(t.header, len));
    assert(be_u16(s, 1) == be_u16(u16_bytes(psi_header_word(t.header, len)), 0));
    assert(spec_read_psi_table_header(s) == Ok::<((PsiTableHeader, u16), int), ErrorKind>(
        ((t.header, len), 3),
    ));
    match t.syntax {
        None => {},
        Some(syn) => {
            let sb = psi_syntax_bytes(syn);
            let crc = crc32_of(head + sb);
            assert(b == head + sb + u32_bytes(crc));
            let rl = sb.len() as int;
            assert(len - 4 == rl);
            assert(s.subrange(3, 3 + rl) =~= sb);
            lemma_psi_version_byte_bits(syn);
            lemma_u16_bytes_roundtrip(syn.table_id_extension);
            assert(be_u16(sb, 0) == be_u16(u16_bytes(syn.table_id_extension), 0));
            assert(sb.skip(5) =~= syn.table_data);
            assert(spec_read_psi_syntax(sb) == Ok::<SpecPsiTableSyntax, ErrorKind>(syn));
            assert(s.take(3 + rl) =~= head + sb);
            lemma_u32_bytes_roundtrip(crc);
            assert(be_u32(s, 3 + rl) == be_u32(u32_bytes(crc), 0));
        },
    }
}

proof fn lemma_psi_tables_write_front(t: SpecPsiTable, rest: Seq<SpecPsiTable>)
    requires
        psi_table_roundtrips(t),
        forall|i: int| 0 <= i < rest.len() ==> psi_table_roundtrips(#[trigger] rest[i]),
    ensures
        psi_tables_write(seq![t] + rest) == (psi_table_bytes(t) + psi_tables_write(rest).0, false),
        !psi_tables_write(rest).1,
    decreases rest.len(),
{
    if rest.len() == 0 {
        let e = Seq::<SpecPsiTable>::empty();
        assert(seq![t] + rest =~= seq![t]);
        assert(seq![t].drop_last() =~= e);
        assert(psi_tables_write(e) == (Seq::<u8>::empty(), false));
        assert(rest =~= e);
        assert(psi_tables_write(seq![t]) == (Seq::<u8>::empty() + psi_table_bytes(t), false));
        assert(psi_table_bytes(t) + Seq::<u8>::empty() =~= Seq::<u8>::empty() + psi_table_bytes(
            t,
        ));
    } else {
        let init = rest.drop_last();
        assert forall|i: int| 0 <= i < init.len() implies psi_table_roundtrips(
            #[trigger] init[i],
        ) by {
            assert(init[i] == rest[i]);
        }
        lemma_psi_tables_write_front(t, init);
        assert((seq![t] + rest).drop_last() =~= seq![t] + init);
        assert((seq![t] + rest).last() == rest.last());
        assert(psi_table_roundtrips(rest[rest.len() - 1]));
        assert(rest.drop_last() =~= init);
        assert(psi_tables_write(rest) == (
            psi_tables_write(init).0 + psi_table_bytes(rest.last()),
            false,
        ));
        assert(psi_tables_write(seq![t] + rest) == (
            psi_table_bytes(t) + psi_tables_write(init).0 + psi_table_bytes(rest.last()),
            false,
        ));
        assert(psi_table_bytes(t) + psi_tables_write(init).0 + psi_table_bytes(rest.last())
            =~= psi_table_bytes(t) + (psi_tables_write(init).0 + psi_table_bytes(rest.last())));
    }
}

proof fn lemma_psi_tables_roundtrip(ts: Seq<SpecPsiTable>, after_table: bool, st: Seq<u8>)
    requires
        forall|i: int| 0 <= i < ts.len() ==> psi_table_roundtrips(#[trigger] ts[i]),
        forall|i: int|
            0 <= i < ts.len() && (i > 0 || after_table) ==> (#[trigger] ts[i]).header.table_id
                != 0xFF,
        all_stuffing(st),
        st.len() > 0 ==> ts.len() > 0 || after_table,
    ensures
        !psi_tables_write(ts).1,
        spec_read_psi_tables(psi_tables_write(ts).0 + st, after_table) == Ok::<
            Seq<SpecPsiTable>,
            ErrorKind,
        >(ts),
    decreases ts.len(),
{
    if ts.len() == 0 {
        assert(psi_tables_write(ts).0 =~= Seq::<u8>::empty());
        assert(ts =~= Seq::<SpecPsiTable>::empty());
        let r = psi_tables_write(ts).0 + st;
        assert(r =~= st);
        if st.len() > 0 {
            assert(r[0] == 0xFF);
            assert(all_stuffing(r.skip(1)));
        }
    } else {
        let t = ts[0];
        let rest = ts.skip(1);
        assert(ts =~= seq![t] + rest);
        assert forall|i: int| 0 <= i < rest.len() implies psi_table_roundtrips(
            #[trigger] rest[i],
        ) by {
            assert(rest[i] == ts[i + 1]);
        }
        assert forall|i: int| 0 <= i < rest.len() && (i > 0 || true) implies (
        #[trigger] rest[i]).header.table_id != 0xFF by {
            assert(rest[i] == ts[i + 1]);
        }
        lemma_psi_tables_write_front(t, rest);
        lemma_psi_tables_roundtrip(rest, true, st);
        let tb = psi_table_bytes(t);
        let w = psi_tables_write(ts).0;
        assert(w == tb + psi_tables_write(rest).0);
        let r = w + st;
        assert(r =~= tb + (psi_tables_write(rest).0 + st));
        lemma_psi_table_roundtrip(t, psi_tables_write(rest).0 + st);
        assert(tb.len() >= 3);
        assert(r[0] == t.header.table_id);
        assert(r.skip(tb.len() as int) =~= psi_tables_write(rest).0 + st);
        assert(seq![t] + rest =~= ts);
    }
}

/// A PSI reads back as the tables that were written, followed by any stuffing (none where
/// there is no table), where none but the first table has the table id 0xFF (which, after a
/// table, starts stuffing) and each table reads back as written.
pub proof fn lemma_psi_roundtrip(ts: Seq<SpecPsiTable>, st: Seq<u8>)
    requires
        forall|i: int| 0 <= i < ts.len() ==> psi_table_roundtrips(#[trigger] ts[i]),
        forall|i: int| 0 < i < ts.len() ==> (#[trigger] ts[i]).header.table_id != 0xFF,
        all_stuffing(st),
        ts.len() == 0 ==> st.len() == 0,
    ensures
        !psi_write(ts).1,
        spec_read_psi(psi_write(ts).0 + st) == Ok::<Seq<SpecPsiTable>, ErrorKind>(ts),
{
    lemma_psi_tables_roundtrip(ts, false, st);
    assert((psi_write(ts).0 + st).skip(1) =~= psi_tables_write(ts).0 + st);
}

/// A PSI of one table reads back as that table.
pub proof fn lemma_psi_single_table_roundtrip(t: SpecPsiTable)
    requires
        psi_table_roundtrips(t),
    ensures
        !psi_write(seq![t]).1,
        spec_read_psi(psi_write(seq![t]).0) == Ok::<Seq<SpecPsiTable>, ErrorKind>(seq![t]),
{
    let ts = seq![t];
    let e = Seq::<SpecPsiTable>::empty();
    assert(ts.drop_last() =~= e);
    assert(psi_tables_write(e) == (Seq::<u8>::empty(), false));
    assert(psi_tables_write(ts) == (Seq::<u8>::empty() + psi_table_bytes(t), false));
    let tb = psi_table_bytes(t);
    let b = psi_write(ts).0;
    assert(b.skip(1) =~= tb + Seq::<u8>::empty());
    lemma_psi_table_roundtrip(t, Seq::empty());
    let n = tb.len() as int;
    let r = b.skip(1);
    assert(spec_read_psi_table(r) == Ok::<(SpecPsiTable, int), ErrorKind>((t, n)));
    assert(r.skip(n).len() == 0);
    assert(spec_read_psi_tables(r.skip(n), true) == Ok::<Seq<SpecPsiTable>, ErrorKind>(e));
    assert(tb.len() >= 3);
    assert(r[0] == t.header.table_id);
    assert(seq![t] + e =~= seq![t]);
    assert(spec_read_psi_tables(r, false) == Ok::<Seq<SpecPsiTable>, ErrorKind>(seq![t]));
}

} // verus!

verus! {

/// The syntax section of the only table of `ts`, checked to be a current, single-section
/// table with the id `table_id` and a clear private bit.
pub open spec fn spec_single_table_syntax(ts: Seq<SpecPsiTable>, table_id: u8) -> core::result::Result<
    SpecPsiTableSyntax,
    ErrorKind,
> {
    if ts.len() != 1 {
        Err(ErrorKind::InvalidInput)
    } else if ts[0].header.table_id != table_id {
        Err(ErrorKind::InvalidInput)
    } else if ts[0].header.private_bit {
        Err(ErrorKind::InvalidInput)
    } else {
        match ts[0].syntax {
            None => Err(ErrorKind::InvalidInput),
            Some(syntax) => if syntax.section_number != 0 {
                Err(ErrorKind::InvalidInput)
            } else if syntax.last_section_number != 0 {
                Err(ErrorKind::InvalidInput)
            } else if !syntax.current_next_indicator {
                Err(ErrorKind::InvalidInput)
            } else {
                Ok(syntax)
            },
        }
    }
}

/// The one table that a PAT or PMT is written as.
pub open spec fn single_table(
    table_id: u8,
    table_id_extension: u16,
    version_number: VersionNumber,
    table_data: Seq<u8>,
) -> SpecPsiTable {
    SpecPsiTable {
        header: PsiTableHeader { table_id, private_bit: false },
        syntax: Some(
            SpecPsiTableSyntax {
                table_id_extension,
                version_number,
                current_next_indicator: true,
                section_number: 0,
                last_section_number: 0,
                table_data,
            },
        ),
    }
}

impl Psi {
    /// Takes the syntax section of the only table, checked as `spec_single_table_syntax` says.
    pub fn into_single_table_syntax(self, table_id: u8) -> (r: Result<PsiTableSyntax>)
        ensures
            match r {
                Ok(s) => spec_single_table_syntax(self@, table_id) == Ok::<
                    SpecPsiTableSyntax,
                    ErrorKind,
                >(s@),
                Err(e) => spec_single_table_syntax(self@, table_id) == Err::<
                    SpecPsiTableSyntax,
                    ErrorKind,
                >(e.kind),
            },
    {
        let mut tables = self.tables;
        if tables.len() != 1 {
            return Err(Error::invalid_input("Expected exactly one PSI table"));
        }
        let table = tables.pop().unwrap();
        assert(self@[0] == table@);
        if table.header.table_id != table_id {
            return Err(Error::invalid_input("Unexpected table_id"));
        }
        if table.header.private_bit {
            return Err(Error::invalid_input("Unexpected private_bit"));
        }
        let syntax = match table.syntax {
            Some(s) => s,
            None => {
                return Err(Error::invalid_input("Expected table syntax"));
            },
        };
        if syntax.section_number != 0 {
            return Err(Error::invalid_input("Expected section_number 0"));
        }
        if syntax.last_section_number != 0 {
            return Err(Error::invalid_input("Expected last_section_number 0"));
        }
        if !syntax.current_next_indicator {
            return Err(Error::invalid_input("Expected current_next_indicator to be true"));
        }
        Ok(syntax)
    }

    /// Makes the PSI of one current, single-section table with a clear private bit.
    pub fn single_table(
        table_id: u8,
        table_id_extension: u16,
        version_number: VersionNumber,
        table_data: Vec<u8>,
    ) -> (psi: Psi)
        ensures
            psi@ == seq![single_table(table_id, table_id_extension, version_number, table_data@)],
    {
        let header = PsiTableHeader { table_id, private_bit: false };
        let syntax = Some(
            PsiTableSyntax {
                table_id_extension,
                version_number,
                current_next_indicator: true,
                section_number: 0,
                last_section_number: 0,
                table_data,
            },
        );
        let mut tables = Vec::new();
        tables.push(PsiTable { header, syntax });
        let psi = Psi { tables };
        assert(psi@ =~= seq![single_table(table_id, table_id_extension, version_number, table_data@)]);
        psi
    }
}

} // verus!
