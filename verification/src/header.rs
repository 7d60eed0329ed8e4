//! The file header of an executable image.

use vstd::prelude::*;
use crate::error::BootError;

verus! {

/// Length of the identification block that opens every file header.
pub const IDENT_SIZE: usize = 16;

/// Length of the file header of a 32-bit image.
pub const ELF32_HEADER_SIZE: usize = 52;

/// Length of the file header of a 64-bit image.
pub const ELF64_HEADER_SIZE: usize = 64;

/// Length of one segment-table entry of a 32-bit image.
pub const ELF32_SEGMENT_ENTRY_SIZE: u16 = 32;

/// Length of one segment-table entry of a 64-bit image.
pub const ELF64_SEGMENT_ENTRY_SIZE: u16 = 56;

/// The addressing class of an image.
#[derive(Clone, Copy, Debug, PartialEq, Eq, Structural)]
pub enum ElfClass {
    Elf32,
    Elf64,
}

impl ElfClass {
    /// The class that the fifth byte of the identification block stands for.
    pub open spec fn of_byte(byte: u8) -> Option<ElfClass> {
        if byte == 1 {
            Some(ElfClass::Elf32)
        } else if byte == 2 {
            Some(ElfClass::Elf64)
        } else {
            None
        }
    }

    /// Length of the whole file header for this class.
    pub open spec fn spec_header_size(self) -> usize {
        match self {
            ElfClass::Elf32 => ELF32_HEADER_SIZE,
            ElfClass::Elf64 => ELF64_HEADER_SIZE,
        }
    }

    /// Length that a segment-table entry must have for this class.
    pub open spec fn spec_segment_entry_size(self) -> u16 {
        match self {
            ElfClass::Elf32 => ELF32_SEGMENT_ENTRY_SIZE,
            ElfClass::Elf64 => ELF64_SEGMENT_ENTRY_SIZE,
        }
    }

    /// Decodes the class byte; `None` for a byte that names no supported class.
    pub fn from_byte(byte: u8) -> (class: Option<ElfClass>)
        ensures
            class == ElfClass::of_byte(byte),
    {
        if byte == 1 {
            Some(ElfClass::Elf32)
        } else if byte == 2 {
            Some(ElfClass::Elf64)
        } else {
            None
        }
    }

    /// Length of the whole file header for this class.
    #[verifier::when_used_as_spec(spec_header_size)]
    pub fn header_size(self) -> (size: usize)
        ensures
            size == self.spec_header_size(),
    {
        match self {
            ElfClass::Elf32 => ELF32_HEADER_SIZE,
            ElfClass::Elf64 => ELF64_HEADER_SIZE,
        }
    }

    /// Length that a segment-table entry must have for this class.
    #[verifier::when_used_as_spec(spec_segment_entry_size)]
    pub fn segment_entry_size(self) -> (size: u16)
        ensures
            size == self.spec_segment_entry_size(),
    {
        match self {
            ElfClass::Elf32 => ELF32_SEGMENT_ENTRY_SIZE,
            ElfClass::Elf64 => ELF64_SEGMENT_ENTRY_SIZE,
        }
    }
}

/// The words of a file header that the loader reads, as they were decoded,
/// before anything has been checked.
#[derive(Clone, Copy, Debug, PartialEq, Eq, Structural)]
pub struct HeaderWords {
    pub entry_point: u64,
    pub segment_table_offset: u64,
    pub segment_entry_size: u16,
    pub segment_count: u16,
}

/// A file header that has passed its checks.
#[derive(Clone, Copy, Debug, PartialEq, Eq, Structural)]
pub struct FileHeader {
    pub class: ElfClass,
    /// Virtual address at which the image starts running.
    pub entry_point: u64,
    /// Offset of the segment table in the file.
    pub segment_table_offset: u64,
    /// Length of one segment-table entry.
    pub segment_entry_size: u16,
    /// Number of segment-table entries.
    pub segment_count: u16,
}

impl FileHeader {
    /// The entry size is the one that goes with the class.
    pub open spec fn well_formed(self) -> bool {
        self.segment_entry_size == self.class.segment_entry_size()
    }

    /// The header that `words` give for an image of `class`, or the reason
    /// why they give none.
    pub open spec fn checked(class: ElfClass, words: HeaderWords) -> Result<FileHeader, BootError> {
        if words.segment_entry_size != class.segment_entry_size() {
            Err(BootError::HeaderMismatch)
        } else {
            Ok(
                FileHeader {
                    class,
                    entry_point: words.entry_point,
                    segment_table_offset: words.segment_table_offset,
                    segment_entry_size: words.segment_entry_size,
                    segment_count: words.segment_count,
                },
            )
        }
    }

    /// Number of bytes that the segment table takes in the file.
    pub open spec fn spec_segment_table_len(&self) -> usize {
        (self.segment_count * self.segment_entry_size) as usize
    }

    /// Checks decoded words against the class of the image. Whatever else the
    /// words hold, an entry size other than the one of the class is a header
    /// mismatch.
    pub fn from_words(class: ElfClass, words: HeaderWords) -> (header: Result<FileHeader, BootError>)
        ensures
            header == FileHeader::checked(class, words),
            words.segment_entry_size != class.segment_entry_size() ==> header == Err::<
                FileHeader,
                BootError,
            >(BootError::HeaderMismatch),
            header is Ok ==> header.unwrap().well_formed(),
    {
        if words.segment_entry_size != class.segment_entry_size() {
            Err(BootError::HeaderMismatch)
        } else {
            Ok(
                FileHeader {
                    class,
                    entry_point: words.entry_point,
                    segment_table_offset: words.segment_table_offset,
                    segment_entry_size: words.segment_entry_size,
                    segment_count: words.segment_count,
                },
            )
        }
    }

    /// Number of bytes that the segment table takes in the file.
    #[verifier::when_used_as_spec(spec_segment_table_len)]
    pub fn segment_table_len(&self) -> (len: usize)
        ensures
            len == self.segment_count * self.segment_entry_size,
            len == self.spec_segment_table_len(),
    {
        assert(self.segment_count * self.segment_entry_size <= 0xffff * 0xffff) by (nonlinear_arith)
            requires
                self.segment_count <= 0xffff,
                self.segment_entry_size <= 0xffff,
        ;
        (self.segment_count as usize) * (self.segment_entry_size as usize)
    }
}

/// The first four bytes are the magic number of the format.
pub open spec fn has_magic(bytes: Seq<u8>) -> bool {
    &&& bytes.len() >= 4
    &&& bytes[0] == 0x7f
    &&& bytes[1] == 0x45
    &&& bytes[2] == 0x4c
    &&& bytes[3] == 0x46
}

/// `bytes` hold a whole file header: the identification block with the magic
/// number and a supported class, and as many bytes as a header of that class
/// has.
pub open spec fn header_complete(bytes: Seq<u8>) -> bool {
    &&& bytes.len() >= IDENT_SIZE
    &&& has_magic(bytes)
    &&& ElfClass::of_byte(bytes[4]) is Some
    &&& bytes.len() >= ElfClass::of_byte(bytes[4]).unwrap().header_size()
}

/// The words that xmas-elf decodes from a whole file header. It reads them
/// where they stand, in the byte order of the machine that runs it.
pub uninterp spec fn header_words(bytes: Seq<u8>) -> HeaderWords;

/// What parsing `bytes` as a file header comes to. Bytes that are fewer than
/// the shortest header are a truncated read, whatever they hold; only then
/// are the magic number and the class looked at.
pub open spec fn parsed_header(bytes: Seq<u8>) -> Result<FileHeader, BootError> {
    if bytes.len() < ELF32_HEADER_SIZE {
        Err(BootError::TruncatedRead)
    } else if !has_magic(bytes) {
        Err(BootError::HeaderMismatch)
    } else {
        match ElfClass::of_byte(bytes[4]) {
            None => Err(BootError::UnsupportedClass),
            Some(class) => if bytes.len() < class.header_size() {
                Err(BootError::TruncatedRead)
            } else {
                FileHeader::checked(class, header_words(bytes))
            },
        }
    }
}

/// Decodes a file header with `xmas_elf::header::parse_header` and hands back
/// the four words that the loader reads.
///
/// Trusted: `parse_header` succeeds exactly on input that holds a whole
/// header (sixteen bytes or more, the magic number, class byte 1 or 2, and 52
/// or 64 bytes by the class), and the words it reads depend on the bytes
/// alone. It reads the header in place and asserts that the input is aligned
/// for that, so it is given a copy that starts on an eight-byte boundary.
#[verifier::external_body]
fn read_header_words(bytes: &[u8]) -> (words: Option<HeaderWords>)
    ensures
        words is Some <==> header_complete(bytes@),
        words is Some ==> words.unwrap() == header_words(bytes@),
{
    let mut buf = vec![0u8; bytes.len() + 8];
    let at = buf.as_ptr().addr().wrapping_neg() % 8;
    buf[at..at + bytes.len()].copy_from_slice(bytes);
    match xmas_elf::header::parse_header(&buf[at..at + bytes.len()]) {
        Ok(h) => Some(HeaderWords {
            entry_point: h.pt2.entry_point(),
            segment_table_offset: h.pt2.ph_offset(),
            segment_entry_size: h.pt2.ph_entry_size(),
            segment_count: h.pt2.ph_count(),
        }),
        Err(_) => None,
    }
}

/// Whether the first four bytes are the magic number of the format.
fn magic_matches(bytes: &[u8]) -> (found: bool)
    requires
        bytes@.len() >= 4,
    ensures
        found == has_magic(bytes@),
{
    bytes[0] == 0x7f && bytes[1] == 0x45 && bytes[2] == 0x4c && bytes[3] == 0x46
}

/// Parses the file header that stands at the start of `bytes`, which are what
/// a read at offset 0 of the image file gave.
///
/// Fails with `TruncatedRead` where the bytes are fewer than the shortest
/// header, whatever they hold, or fewer than the header of the image's class;
/// with `HeaderMismatch` where the magic number is missing or the size of a
/// segment-table entry is not the one of the image's class; and with
/// `UnsupportedClass` where the class byte names neither class.
pub fn parse_file_header(bytes: &[u8]) -> (header: Result<FileHeader, BootError>)
    ensures
        header == parsed_header(bytes@),
        bytes@.len() < ELF32_HEADER_SIZE ==> header == Err::<FileHeader, BootError>(
            BootError::TruncatedRead,
        ),
        header is Ok ==> header.unwrap().well_formed(),
        header_complete(bytes@) && header_words(bytes@).segment_entry_size != ElfClass::of_byte(
            bytes@[4],
        ).unwrap().segment_entry_size() ==> header == Err::<FileHeader, BootError>(
            BootError::HeaderMismatch,
        ),
{
    if bytes.len() < ELF32_HEADER_SIZE {
        return Err(BootError::TruncatedRead);
    }
    if !magic_matches(bytes) {
        return Err(BootError::HeaderMismatch);
    }
    match ElfClass::from_byte(bytes[4]) {
        None => Err(BootError::UnsupportedClass),
        Some(class) => {
            if bytes.len() < class.header_size() {
                Err(BootError::TruncatedRead)
            } else {
                let words = read_header_words(bytes);
                FileHeader::from_words(class, words.unwrap())
            }
        },
    }
}

} // verus!
