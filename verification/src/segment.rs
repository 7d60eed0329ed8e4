//! The segment table of an executable image.

use vstd::prelude::*;
use vstd::arithmetic::power2::is_pow2;
use vstd::slice::slice_subrange;
use crate::align::is_power_of_two;
use crate::error::BootError;
use crate::header::{ElfClass, FileHeader, ELF32_SEGMENT_ENTRY_SIZE, ELF64_SEGMENT_ENTRY_SIZE};

verus! {

/// Whether a segment takes part in loading.
#[derive(Clone, Copy, Debug, PartialEq, Eq, Structural)]
pub enum SegmentKind {
    /// The segment is copied into memory before the image runs.
    Loadable,
    /// Any other kind of entry. It is kept in the table and skipped by
    /// everything that follows.
    Other,
}

/// One entry of the segment table.
#[derive(Clone, Copy, Debug, PartialEq, Eq, Structural)]
pub struct SegmentDescriptor {
    pub kind: SegmentKind,
    /// Virtual address of the segment's first byte.
    pub virtual_addr: u64,
    /// Offset of the segment's bytes in the file.
    pub file_offset: u64,
    /// Number of bytes that the file holds for the segment.
    pub file_size: u64,
    /// Number of bytes that the segment takes in memory.
    pub mem_size: u64,
    /// Alignment that the segment asks for.
    pub align: u64,
}

impl SegmentDescriptor {
    /// The segment is a loadable one.
    pub open spec fn spec_is_loadable(&self) -> bool {
        self.kind == SegmentKind::Loadable
    }

    /// The segment takes at least as much in memory as it has in the file,
    /// and the alignment it asks for is a power of two, or zero for none.
    pub open spec fn well_formed(&self) -> bool {
        &&& self.file_size <= self.mem_size
        &&& (self.align == 0 || is_pow2(self.align as int))
    }

    /// Whether the segment takes at least as much in memory as it has in the
    /// file, and asks for an alignment that is a power of two, or for none.
    pub fn is_well_formed(&self) -> (ok: bool)
        ensures
            ok == self.well_formed(),
    {
        self.file_size <= self.mem_size && (self.align == 0 || is_power_of_two(self.align))
    }

    /// One past the last virtual address of the segment.
    pub open spec fn end_addr(&self) -> int {
        self.virtual_addr + self.mem_size
    }

    /// The segment is a loadable one.
    #[verifier::when_used_as_spec(spec_is_loadable)]
    pub fn is_loadable(&self) -> (loadable: bool)
        ensures
            loadable == self.spec_is_loadable(),
    {
        self.kind == SegmentKind::Loadable
    }
}

/// The segment that xmas-elf reads from an entry of a 32-bit segment table,
/// its words in the byte order of the machine that runs it.
pub uninterp spec fn decoded_segment32(entry: Seq<u8>) -> SegmentDescriptor;

/// The segment that xmas-elf reads from an entry of a 64-bit segment table,
/// its words in the byte order of the machine that runs it.
pub uninterp spec fn decoded_segment64(entry: Seq<u8>) -> SegmentDescriptor;

/// The segment that an entry of a segment table of `class` stands for.
pub open spec fn decoded_segment(class: ElfClass, entry: Seq<u8>) -> SegmentDescriptor {
    match class {
        ElfClass::Elf32 => decoded_segment32(entry),
        ElfClass::Elf64 => decoded_segment64(entry),
    }
}

/// The bytes of entry `i` of a segment table.
pub open spec fn table_entry(header: FileHeader, table: Seq<u8>, i: int) -> Seq<u8> {
    table.subrange(i * header.segment_entry_size, (i + 1) * header.segment_entry_size)
}

/// What parsing `table` as the segment table that `header` announces comes to.
pub open spec fn parsed_segment_table(header: FileHeader, table: Seq<u8>) -> Result<
    Seq<SegmentDescriptor>,
    BootError,
> {
    if !header.well_formed() {
        Err(BootError::HeaderMismatch)
    } else if table.len() < header.segment_table_len() {
        Err(BootError::TruncatedRead)
    } else {
        Ok(
            Seq::new(
                header.segment_count as nat,
                |i: int| decoded_segment(header.class, table_entry(header, table, i)),
            ),
        )
    }
}

/// Reads one entry of a 32-bit segment table with `zero::read`, as a
/// `xmas_elf::program::ProgramHeader32`, and hands back its fields.
///
/// Trusted: the fields depend on the bytes of the entry alone. `zero::read`
/// asserts that the input is as long as the structure, hence the `requires`,
/// and that it is aligned for it, so it is given a copy that starts on an
/// eight-byte boundary. The segment is loadable where
/// `ProgramHeader::get_type` gives `Type::Load`.
#[verifier::external_body]
fn read_segment32(entry: &[u8]) -> (segment: SegmentDescriptor)
    requires
        entry@.len() >= ELF32_SEGMENT_ENTRY_SIZE,
    ensures
        segment == decoded_segment32(entry@),
{
    let mut buf = vec![0u8; entry.len() + 8];
    let at = buf.as_ptr().addr().wrapping_neg() % 8;
    buf[at..at + entry.len()].copy_from_slice(entry);
    let ph = xmas_elf::program::ProgramHeader::Ph32(zero::read(&buf[at..at + entry.len()]));
    SegmentDescriptor {
        kind: match ph.get_type() {
            Ok(xmas_elf::program::Type::Load) => SegmentKind::Loadable,
            _ => SegmentKind::Other,
        },
        virtual_addr: ph.virtual_addr(),
        file_offset: ph.offset(),
        file_size: ph.file_size(),
        mem_size: ph.mem_size(),
        align: ph.align(),
    }
}

/// Reads one entry of a 64-bit segment table with `zero::read`, as a
/// `xmas_elf::program::ProgramHeader64`, and hands back its fields.
///
/// Trusted: the fields depend on the bytes of the entry alone. `zero::read`
/// asserts that the input is as long as the structure, hence the `requires`,
/// and that it is aligned for it, so it is given a copy that starts on an
/// eight-byte boundary. The segment is loadable where
/// `ProgramHeader::get_type` gives `Type::Load`.
#[verifier::external_body]
fn read_segment64(entry: &[u8]) -> (segment: SegmentDescriptor)
    requires
        entry@.len() >= ELF64_SEGMENT_ENTRY_SIZE,
    ensures
        segment == decoded_segment64(entry@),
{
    let mut buf = vec![0u8; entry.len() + 8];
    let at = buf.as_ptr().addr().wrapping_neg() % 8;
    buf[at..at + entry.len()].copy_from_slice(entry);
    let ph = xmas_elf::program::ProgramHeader::Ph64(zero::read(&buf[at..at + entry.len()]));
    SegmentDescriptor {
        kind: match ph.get_type() {
            Ok(xmas_elf::program::Type::Load) => SegmentKind::Loadable,
            _ => SegmentKind::Other,
        },
        virtual_addr: ph.virtual_addr(),
        file_offset: ph.offset(),
        file_size: ph.file_size(),
        mem_size: ph.mem_size(),
        align: ph.align(),
    }
}

/// Parses the segment table that `header` announces from `table`, which are
/// the bytes that a read at the table's offset gave.
///
/// Fails with `HeaderMismatch` where the header's entry size is not the one
/// of its class, and with `TruncatedRead` where `table` is shorter than the
/// whole table. Otherwise every entry is decoded, loadable or not, in table
/// order.
pub fn parse_segment_table(header: &FileHeader, table: &[u8]) -> (segments: Result<
    Vec<SegmentDescriptor>,
    BootError,
>)
    ensures
        match segments {
            Ok(list) => parsed_segment_table(*header, table@) == Ok::<
                Seq<SegmentDescriptor>,
                BootError,
            >(list@),
            Err(e) => parsed_segment_table(*header, table@) == Err::<
                Seq<SegmentDescriptor>,
                BootError,
            >(e),
        },
{
    let entry_size: usize = header.segment_entry_size as usize;
    if header.segment_entry_size != header.class.segment_entry_size() {
        return Err(BootError::HeaderMismatch);
    }
    if table.len() < header.segment_table_len() {
        return Err(BootError::TruncatedRead);
    }
    let count: usize = header.segment_count as usize;
    let mut list: Vec<SegmentDescriptor> = Vec::new();
    let mut i: usize = 0;
    while i < count
        invariant
            i <= count,
            count == header.segment_count,
            entry_size == header.segment_entry_size,
            entry_size == 32 || entry_size == 56,
            header.well_formed(),
            count * entry_size <= table@.len(),
            list@.len() == i,
            forall|k: int|
                0 <= k < i ==> list@[k] == decoded_segment(
                    header.class,
                    #[trigger] table_entry(*header, table@, k),
                ),
        decreases count - i,
    {
        assert(i * entry_size + entry_size == (i + 1) * entry_size && (i + 1) * entry_size <= count
            * entry_size) by (nonlinear_arith)
            requires
                i < count,
        ;
        let entry = slice_subrange(table, i * entry_size, (i + 1) * entry_size);
        let segment = match header.class {
            ElfClass::Elf32 => read_segment32(entry),
            ElfClass::Elf64 => read_segment64(entry),
        };
        list.push(segment);
        i += 1;
    }
    proof {
        let expected = Seq::new(
            header.segment_count as nat,
            |k: int| decoded_segment(header.class, table_entry(*header, table@, k)),
        );
        assert(list@ =~= expected);
    }
    Ok(list)
}

} // verus!
