//! The binary archive container: its fixed-size parts and the kinds of entries.

use vstd::prelude::*;

verus! {

/// Version written into every archive header.
pub const FORMAT_VERSION: u16 = 1;
/// Size in bytes of the archive header.
pub const HEADER_SIZE: u64 = 32;
/// Size in bytes of an entry descriptor, without its path and name.
pub const ENTRY_DESC_SIZE: u64 = 44;

/// The four bytes that open an archive ("MMBK").
pub open spec fn magic_header() -> Seq<u8> {
    seq![0x4du8, 0x4du8, 0x42u8, 0x4bu8]
}

/// The four bytes that close an archive ("KBMM").
pub open spec fn magic_footer() -> Seq<u8> {
    seq![0x4bu8, 0x42u8, 0x4du8, 0x4du8]
}

/// What an archive entry stands for.
#[derive(Debug, Clone, Copy, PartialEq, Eq, Structural)]
pub enum EntryType {
    File,
    Directory,
}

impl EntryType {
    /// The byte that stores the type.
    pub open spec fn spec_code(self) -> u8 {
        match self {
            EntryType::File => 0,
            EntryType::Directory => 1,
        }
    }

    pub fn code(&self) -> (r: u8)
        ensures
            r == self.spec_code(),
    {
        match self {
            EntryType::File => 0,
            EntryType::Directory => 1,
        }
    }

    pub open spec fn spec_from_code(b: u8) -> Option<EntryType> {
        if b == 0 {
            Some(EntryType::File)
        } else if b == 1 {
            Some(EntryType::Directory)
        } else {
            None
        }
    }

    pub fn from_code(b: u8) -> (r: Option<EntryType>)
        ensures
            r == Self::spec_from_code(b),
    {
        if b == 0 {
            Some(EntryType::File)
        } else if b == 1 {
            Some(EntryType::Directory)
        } else {
            None
        }
    }
}

/// How the data of an entry is stored.
#[derive(Debug, Clone, Copy, PartialEq, Eq, Structural)]
pub enum Compression {
    Uncompressed,
    Deflate,
}

impl Compression {
    /// The byte that stores the compression method.
    pub open spec fn spec_code(self) -> u8 {
        match self {
            Compression::Uncompressed => 0,
            Compression::Deflate => 1,
        }
    }

    pub fn code(&self) -> (r: u8)
        ensures
            r == self.spec_code(),
    {
        match self {
            Compression::Uncompressed => 0,
            Compression::Deflate => 1,
        }
    }

    pub open spec fn spec_from_code(b: u8) -> Option<Compression> {
        if b == 0 {
            Some(Compression::Uncompressed)
        } else if b == 1 {
            Some(Compression::Deflate)
        } else {
            None
        }
    }

    pub fn from_code(b: u8) -> (r: Option<Compression>)
        ensures
            r == Self::spec_from_code(b),
    {
        if b == 0 {
            Some(Compression::Uncompressed)
        } else if b == 1 {
            Some(Compression::Deflate)
        } else {
            None
        }
    }
}

/// Archive-wide flags; bit 0 is set when some entry is compressed.
#[derive(Debug, Clone, Copy, PartialEq, Eq, Structural)]
pub struct ArchiveFlags(pub u16);

impl ArchiveFlags {
    pub fn new() -> (r: ArchiveFlags)
        ensures
            r.0 == 0,
    {
        ArchiveFlags(0)
    }
}

/// Zero bytes that follow `size` bytes of data so that the next data starts on a
/// multiple of four.
pub open spec fn spec_padding(size: nat) -> nat {
    ((4 - size % 4) % 4) as nat
}

pub open spec fn spec_padded_size(size: nat) -> nat {
    size + spec_padding(size)
}

/// A size rounded up to the next multiple of four is a multiple of four, no
/// smaller, and less than four larger.
pub proof fn lemma_padded_size(size: nat)
    ensures
        spec_padded_size(size) % 4 == 0,
        size <= spec_padded_size(size) < size + 4,
{
}

} // verus!
