use crate::error::{ErrorKind, Result};
use crate::ts::psi::{
    lemma_psi_single_table_roundtrip, psi_write, single_table,
    spec_read_psi, spec_single_table_syntax, Psi, SpecPsiTable,
};
use crate::ts::types::{lemma_pid_roundtrip, pid_bytes, spec_read_pid, Pid, VersionNumber};
use crate::util::{be_u16, lemma_u16_bytes_roundtrip, read_as, taken_by_failed_read, u16_bytes, Parsed, ReadBytesExt, WriteBytesExt};
use vstd::prelude::*;

verus! {

/// Payload for PAT (Program Association Table) packets.
#[derive(Debug, Clone, PartialEq, Eq, Hash)]
pub struct Pat {
    pub transport_stream_id: u16,
    pub version_number: VersionNumber,
    pub table: Vec<ProgramAssociation>,
}

/// An entry of a program association table.
#[derive(Debug, Clone, Copy, PartialEq, Eq, Hash)]
pub struct ProgramAssociation {
    pub program_num: u16,
    /// The packet identifier that contains the associated PMT.
    pub program_map_pid: Pid,
}

/// The value of a `Pat`.
#[verifier::ext_equal]
pub struct SpecPat {
    pub transport_stream_id: u16,
    pub version_number: VersionNumber,
    pub table: Seq<ProgramAssociation>,
}

impl View for Pat {
    type V = SpecPat;

    open spec fn view(&self) -> SpecPat {
        SpecPat {
            transport_stream_id: self.transport_stream_id,
            version_number: self.version_number,
            table: self.table@,
        }
    }
}

/// The table id of a PAT.
pub open spec fn pat_table_id() -> u8 {
    0
}

/// A program association read from the front of `s`.
pub open spec fn spec_read_program_association(s: Seq<u8>) -> Parsed<ProgramAssociation> {
    if s.len() < 2 {
        Err(ErrorKind::Other)
    } else {
        match spec_read_pid(s.skip(2)) {
            Err(k) => Err(k),
            Ok((pid, _)) => Ok((ProgramAssociation { program_num: be_u16(s, 0), program_map_pid: pid }, 4)),
        }
    }
}

/// The program associations that make up the table data `d`.
pub open spec fn spec_read_program_associations(d: Seq<u8>) -> core::result::Result<
    Seq<ProgramAssociation>,
    ErrorKind,
>
    decreases d.len(),
{
    if d.len() == 0 {
        Ok(Seq::empty())
    } else {
        match spec_read_program_association(d) {
            Err(k) => Err(k),
            Ok((pa, _)) => match spec_read_program_associations(d.skip(4)) {
                Err(k) => Err(k),
                Ok(pas) => Ok(seq![pa] + pas),
            },
        }
    }
}

/// A PAT read from a whole section buffer.
pub open spec fn spec_read_pat(s: Seq<u8>) -> core::result::Result<SpecPat, ErrorKind> {
    match spec_read_psi(s) {
        Err(k) => Err(k),
        Ok(ts) => match spec_single_table_syntax(ts, pat_table_id()) {
            Err(k) => Err(k),
            Ok(syntax) => match spec_read_program_associations(syntax.table_data) {
                Err(k) => Err(k),
                Ok(table) => Ok(
                    SpecPat {
                        transport_stream_id: syntax.table_id_extension,
                        version_number: syntax.version_number,
                        table,
                    },
                ),
            },
        },
    }
}

/// The bytes of a program association.
pub open spec fn program_association_bytes(pa: ProgramAssociation) -> Seq<u8> {
    u16_bytes(pa.program_num) + pid_bytes(pa.program_map_pid)
}

/// The bytes of program associations, one after the other.
pub open spec fn program_associations_bytes(pas: Seq<ProgramAssociation>) -> Seq<u8>
    decreases pas.len(),
{
    if pas.len() == 0 {
        Seq::empty()
    } else {
        program_associations_bytes(pas.drop_last()) + program_association_bytes(pas.last())
    }
}

/// The PSI that a PAT is written as.
pub open spec fn pat_psi(p: SpecPat) -> Seq<SpecPsiTable> {
    seq![
        single_table(
            pat_table_id(),
            p.transport_stream_id,
            p.version_number,
            program_associations_bytes(p.table),
        ),
    ]
}

impl Pat {
    /// The table id of a PAT.
    pub const TABLE_ID: u8 = 0;

    /// Reads a PAT from a whole section buffer.
    ///
    /// # Errors
    ///
    /// See `spec_read_pat`: malformed PSI, a table that is not a single current PAT section,
    /// or malformed program associations give an error.
    pub fn read_from(reader: &[u8]) -> (r: Result<Self>)
        ensures
            match r {
                Ok(p) => spec_read_pat(reader@) == Ok::<SpecPat, ErrorKind>(p@),
                Err(e) => spec_read_pat(reader@) == Err::<SpecPat, ErrorKind>(e.kind),
            },
    {
        let psi = Psi::read_from(reader)?;
        let ghost ts = psi@;
        let syntax = psi.into_single_table_syntax(Self::TABLE_ID)?;
        let mut rd: &[u8] = syntax.table_data.as_slice();
        let mut table: Vec<ProgramAssociation> = Vec::new();
        while rd.len() > 0
            invariant
                spec_read_psi(reader@) == Ok::<Seq<SpecPsiTable>, ErrorKind>(ts),
                spec_single_table_syntax(ts, pat_table_id()) == Ok::<
                    crate::ts::psi::SpecPsiTableSyntax,
                    ErrorKind,
                >(syntax@),
                spec_read_program_associations(syntax.table_data@) == match spec_read_program_associations(
                    rd@,
                ) {
                    Ok(pas) => Ok(table@ + pas),
                    Err(k) => Err(k),
                },
            decreases rd@.len(),
        {
            let pa = ProgramAssociation::read_from(&mut rd)?;
            proof {
                match spec_read_program_associations(rd@) {
                    Ok(pas) => {
                        assert(table@ + (seq![pa] + pas) =~= table@.push(pa) + pas);
                    },
                    Err(_) => {},
                }
            }
            table.push(pa);
        }
        assert(table@ + Seq::<ProgramAssociation>::empty() =~= table@);
        Ok(Pat {
            transport_stream_id: syntax.table_id_extension,
            version_number: syntax.version_number,
            table,
        })
    }

    /// Writes the PAT as a PSI.
    ///
    /// # Errors
    ///
    /// If the table is too long for one PSI section, it will return an `ErrorKind::InvalidInput`
    /// error.
    pub fn write_to(&self, out: &mut Vec<u8>) -> (r: Result<()>)
        ensures
            final(out)@ == old(out)@ + psi_write(pat_psi(self@)).0,
            match r {
                Ok(_) => !psi_write(pat_psi(self@)).1,
                Err(e) => psi_write(pat_psi(self@)).1 && e.kind == ErrorKind::InvalidInput,
            },
    {
        self.to_psi()?.write_to(out)
    }

    /// The PSI that the PAT is written as.
    pub fn to_psi(&self) -> (r: Result<Psi>)
        ensures
            r matches Ok(psi) && psi@ == pat_psi(self@),
    {
        let mut table_data = Vec::new();
        let mut i: usize = 0;
        while i < self.table.len()
            invariant
                i <= self.table@.len(),
                table_data@ == program_associations_bytes(self.table@.take(i as int)),
            decreases self.table@.len() - i,
        {
            assert(self.table@.take(i + 1).drop_last() =~= self.table@.take(i as int));
            self.table[i].write_to(&mut table_data);
            i = i + 1;
        }
        assert(self.table@.take(i as int) =~= self.table@);
        Ok(Psi::single_table(Self::TABLE_ID, self.transport_stream_id, self.version_number, table_data))
    }
}

impl ProgramAssociation {
    /// Reads a program association.
    pub fn read_from(reader: &mut &[u8]) -> (r: Result<Self>)
        ensures
            match r {
                Ok(pa) => read_as(
                    spec_read_program_association(old(reader)@),
                    old(reader)@,
                    final(reader)@,
                    pa,
                ),
                Err(e) => spec_read_program_association(old(reader)@) == Err::<
                    (ProgramAssociation, int),
                    ErrorKind,
                >(e.kind) && final(reader)@ == old(reader)@.skip(
                    taken_by_failed_read(old(reader)@, 4),
                ),
            },
    {
        let ghost s = reader@;
        let program_num = reader.read_u16()?;
        let ghost s2 = reader@;
        let program_map_pid = match Pid::read_from(reader) {
            Ok(p) => p,
            Err(e) => {
                assert(reader@ =~= s.skip(taken_by_failed_read(s, 4)));
                return Err(e);
            },
        };
        assert(reader@ =~= s.skip(4));
        Ok(ProgramAssociation { program_num, program_map_pid })
    }

    /// Writes the program association.
    pub fn write_to(&self, out: &mut Vec<u8>)
        ensures
            final(out)@ == old(out)@ + program_association_bytes(*self),
    {
        out.write_u16(self.program_num);
        self.program_map_pid.write_to(out);
        assert(out@ =~= old(out)@ + program_association_bytes(*self));
    }
}

} // verus!

verus! {

/// `true` if the PAT reads back as written: its version number and PIDs are valid and its
/// table fits in one PSI section.
pub open spec fn pat_roundtrips(p: SpecPat) -> bool {
    &&& p.version_number.valid()
    &&& forall|i: int| 0 <= i < p.table.len() ==> (#[trigger] p.table[i]).program_map_pid.valid()
    &&& !psi_write(pat_psi(p)).1
}

proof fn lemma_program_associations_bytes_front(x: ProgramAssociation, xs: Seq<ProgramAssociation>)
    ensures
        program_associations_bytes(seq![x] + xs) == program_association_bytes(x)
            + program_associations_bytes(xs),
    decreases xs.len(),
{
    if xs.len() == 0 {
        assert(seq![x] + xs =~= seq![x]);
        assert(seq![x].drop_last() =~= Seq::<ProgramAssociation>::empty());
        assert(program_associations_bytes(Seq::<ProgramAssociation>::empty()) =~= Seq::<u8>::empty());
        assert(program_association_bytes(x) + Seq::<u8>::empty() =~= program_association_bytes(x));
    } else {
        assert((seq![x] + xs).drop_last() =~= seq![x] + xs.drop_last());
        lemma_program_associations_bytes_front(x, xs.drop_last());
        assert(program_association_bytes(x) + program_associations_bytes(xs.drop_last())
            + program_association_bytes(xs.last()) =~= program_association_bytes(x) + (
        program_associations_bytes(xs.drop_last()) + program_association_bytes(xs.last())));
    }
}

proof fn lemma_program_associations_roundtrip(pas: Seq<ProgramAssociation>)
    requires
        forall|i: int| 0 <= i < pas.len() ==> (#[trigger] pas[i]).program_map_pid.valid(),
    ensures
        spec_read_program_associations(program_associations_bytes(pas)) == Ok::<
            Seq<ProgramAssociation>,
            ErrorKind,
        >(pas),
    decreases pas.len(),
{
    if pas.len() > 0 {
        let x = pas[0];
        let xs = pas.drop_first();
        assert(pas =~= seq![x] + xs);
        lemma_program_associations_bytes_front(x, xs);
        assert(forall|i: int| 0 <= i < xs.len() ==> xs[i] == pas[i + 1]);
        lemma_program_associations_roundtrip(xs);
        let rest = program_associations_bytes(xs);
        let b = program_association_bytes(x) + rest;
        lemma_u16_bytes_roundtrip(x.program_num);
        assert(be_u16(b, 0) == be_u16(u16_bytes(x.program_num), 0));
        assert(b.skip(2) =~= pid_bytes(x.program_map_pid) + rest);
        lemma_pid_roundtrip(x.program_map_pid, rest);
        assert(b.skip(4) =~= rest);
        assert(spec_read_program_association(b) == Ok::<(ProgramAssociation, int), ErrorKind>((x, 4)));
        assert(program_associations_bytes(pas) == b);
        assert(b.len() > 0);
        assert(spec_read_program_associations(b.skip(4)) == Ok::<Seq<ProgramAssociation>, ErrorKind>(xs));
        assert(spec_read_program_associations(b) == Ok::<Seq<ProgramAssociation>, ErrorKind>(seq![x] + xs));
        assert(seq![x] + xs =~= pas);
    } else {
        assert(program_associations_bytes(pas) =~= Seq::<u8>::empty());
        assert(pas =~= Seq::<ProgramAssociation>::empty());
    }
}

/// A PAT reads back as the PAT that was written.
pub proof fn lemma_pat_roundtrip(p: SpecPat)
    requires
        pat_roundtrips(p),
    ensures
        spec_read_pat(psi_write(pat_psi(p)).0) == Ok::<SpecPat, ErrorKind>(p),
{
    let t = pat_psi(p)[0];
    assert(pat_psi(p) =~= seq![t]);
    lemma_psi_single_table_roundtrip(t);
    lemma_program_associations_roundtrip(p.table);
}

} // verus!
