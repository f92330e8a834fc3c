//! Reading archives back: the header, the entry descriptors and the metadata.

use vstd::prelude::*;
use vstd::utf8::{decode_utf8, valid_utf8};
use crate::archive::{ArchiveFlags, Compression, EntryType, magic_header};
use crate::bytes::{crc32, get_u16, get_u32, get_u64, le_value, spec_crc32};
use crate::text::{str_eq, string_from_utf8};
use crate::error::MMBakError;
use vstd::string::StringExecFns;

verus! {

/// Why bytes are not an archive.
#[derive(Debug, Clone, Copy, PartialEq, Eq, Structural)]
pub enum ArchiveError {
    Truncated,
    InvalidMagic,
    HeaderChecksum,
    UnknownEntryType,
    UnknownCompression,
    InvalidUtf8,
}

impl ArchiveError {
    pub open spec fn spec_message(self) -> Seq<char> {
        match self {
            ArchiveError::Truncated => "Archive is truncated"@,
            ArchiveError::InvalidMagic => "Invalid magic bytes"@,
            ArchiveError::HeaderChecksum => "Header checksum mismatch"@,
            ArchiveError::UnknownEntryType => "Unknown entry type"@,
            ArchiveError::UnknownCompression => "Unknown compression method"@,
            ArchiveError::InvalidUtf8 => "Invalid UTF-8 text"@,
        }
    }

    /// What went wrong, in words.
    pub fn message(&self) -> (r: &'static str)
        ensures
            r@ == self.spec_message(),
    {
        match self {
            ArchiveError::Truncated => "Archive is truncated",
            ArchiveError::InvalidMagic => "Invalid magic bytes",
            ArchiveError::HeaderChecksum => "Header checksum mismatch",
            ArchiveError::UnknownEntryType => "Unknown entry type",
            ArchiveError::UnknownCompression => "Unknown compression method",
            ArchiveError::InvalidUtf8 => "Invalid UTF-8 text",
        }
    }
}

/// The fixed-size header of an archive.
#[derive(Debug, Clone, Copy, PartialEq, Eq, Structural)]
pub struct ArchiveHeader {
    pub version: u16,
    pub flags: ArchiveFlags,
    pub entry_count: u32,
    pub metadata_count: u32,
    pub data_offset: u64,
    pub checksum: u32,
}

/// An entry descriptor as it is stored, its time in seconds since the Unix epoch.
pub struct EntryRecord {
    pub entry_type: EntryType,
    pub compression: Compression,
    pub permissions: u16,
    pub path: String,
    pub name: String,
    pub uncompressed_size: u64,
    pub compressed_size: u64,
    pub data_offset: u64,
    pub modified: u64,
    pub checksum: u32,
}

pub struct EntryRecordView {
    pub entry_type: EntryType,
    pub compression: Compression,
    pub permissions: u16,
    pub path: Seq<char>,
    pub name: Seq<char>,
    pub uncompressed_size: u64,
    pub compressed_size: u64,
    pub data_offset: u64,
    pub modified: u64,
    pub checksum: u32,
}

impl View for EntryRecord {
    type V = EntryRecordView;

    open spec fn view(&self) -> EntryRecordView {
        EntryRecordView {
            entry_type: self.entry_type,
            compression: self.compression,
            permissions: self.permissions,
            path: self.path@,
            name: self.name@,
            uncompressed_size: self.uncompressed_size,
            compressed_size: self.compressed_size,
            data_offset: self.data_offset,
            modified: self.modified,
            checksum: self.checksum,
        }
    }
}

/// A key/value pair of archive metadata.
pub struct MetadataEntry {
    pub key: String,
    pub value: String,
}

impl View for MetadataEntry {
    type V = (Seq<char>, Seq<char>);

    open spec fn view(&self) -> (Seq<char>, Seq<char>) {
        (self.key@, self.value@)
    }
}

/// Everything an archive states about itself before its data region.
pub struct ArchiveLayout {
    pub header: ArchiveHeader,
    pub entries: Vec<EntryRecord>,
    pub metadata: Vec<MetadataEntry>,
}

pub struct ArchiveLayoutView {
    pub header: ArchiveHeader,
    pub entries: Seq<EntryRecordView>,
    pub metadata: Seq<(Seq<char>, Seq<char>)>,
}

impl View for ArchiveLayout {
    type V = ArchiveLayoutView;

    open spec fn view(&self) -> ArchiveLayoutView {
        ArchiveLayoutView {
            header: self.header,
            entries: self.entries@.map_values(|e: EntryRecord| e@),
            metadata: self.metadata@.map_values(|m: MetadataEntry| m@),
        }
    }
}

/// The little-endian number stored in `width` bytes of `s` from `at`.
pub open spec fn field(s: Seq<u8>, at: int, width: int) -> nat {
    le_value(s.subrange(at, at + width))
}

/// Reads one entry descriptor at the start of `s`; gives it and the number of
/// bytes it takes.
#[verifier::opaque]
pub open spec fn spec_parse_entry(s: Seq<u8>) -> Result<(EntryRecordView, nat), ArchiveError> {
    if s.len() < 44 {
        Err(ArchiveError::Truncated)
    } else if EntryType::spec_from_code(s[0]) is None {
        Err(ArchiveError::UnknownEntryType)
    } else if Compression::spec_from_code(s[1]) is None {
        Err(ArchiveError::UnknownCompression)
    } else {
        let plen = field(s, 4, 2) as int;
        let nlen = field(s, 6, 2) as int;
        if s.len() < 44 + plen + nlen {
            Err(ArchiveError::Truncated)
        } else {
            let pb = s.subrange(44, 44 + plen);
            let nb = s.subrange(44 + plen, 44 + plen + nlen);
            if !valid_utf8(pb) || !valid_utf8(nb) {
                Err(ArchiveError::InvalidUtf8)
            } else {
                Ok(
                    (
                        EntryRecordView {
                            entry_type: EntryType::spec_from_code(s[0]).unwrap(),
                            compression: Compression::spec_from_code(s[1]).unwrap(),
                            permissions: field(s, 2, 2) as u16,
                            path: decode_utf8(pb),
                            name: decode_utf8(nb),
                            uncompressed_size: field(s, 8, 8) as u64,
                            compressed_size: field(s, 16, 8) as u64,
                            data_offset: field(s, 24, 8) as u64,
                            modified: field(s, 32, 8) as u64,
                            checksum: field(s, 40, 4) as u32,
                        },
                        (44 + plen + nlen) as nat,
                    ),
                )
            }
        }
    }
}

/// Reads `count` entry descriptors from the start of `s`.
pub open spec fn spec_parse_entries(s: Seq<u8>, count: nat) -> Result<(Seq<EntryRecordView>, nat), ArchiveError>
    decreases count,
{
    if count == 0 {
        Ok((Seq::empty(), 0))
    } else {
        match spec_parse_entry(s) {
            Err(e) => Err(e),
            Ok((r, n)) => match spec_parse_entries(s.skip(n as int), (count - 1) as nat) {
                Err(e) => Err(e),
                Ok((rs, m)) => Ok((seq![r] + rs, n + m)),
            },
        }
    }
}

/// Reads one metadata item at the start of `s`.
#[verifier::opaque]
pub open spec fn spec_parse_item(s: Seq<u8>) -> Result<((Seq<char>, Seq<char>), nat), ArchiveError> {
    if s.len() < 4 {
        Err(ArchiveError::Truncated)
    } else {
        let klen = field(s, 0, 2) as int;
        let vlen = field(s, 2, 2) as int;
        if s.len() < 4 + klen + vlen {
            Err(ArchiveError::Truncated)
        } else {
            let kb = s.subrange(4, 4 + klen);
            let vb = s.subrange(4 + klen, 4 + klen + vlen);
            if !valid_utf8(kb) || !valid_utf8(vb) {
                Err(ArchiveError::InvalidUtf8)
            } else {
                Ok(((decode_utf8(kb), decode_utf8(vb)), (4 + klen + vlen) as nat))
            }
        }
    }
}

/// Reads `count` metadata items from the start of `s`.
pub open spec fn spec_parse_items(s: Seq<u8>, count: nat) -> Result<(Seq<(Seq<char>, Seq<char>)>, nat), ArchiveError>
    decreases count,
{
    if count == 0 {
        Ok((Seq::empty(), 0))
    } else {
        match spec_parse_item(s) {
            Err(e) => Err(e),
            Ok((r, n)) => match spec_parse_items(s.skip(n as int), (count - 1) as nat) {
                Err(e) => Err(e),
                Ok((rs, m)) => Ok((seq![r] + rs, n + m)),
            },
        }
    }
}

pub open spec fn spec_parse_header(b: Seq<u8>) -> ArchiveHeader {
    ArchiveHeader {
        version: field(b, 4, 2) as u16,
        flags: ArchiveFlags(field(b, 6, 2) as u16),
        entry_count: field(b, 8, 4) as u32,
        metadata_count: field(b, 12, 4) as u32,
        data_offset: field(b, 16, 8) as u64,
        checksum: field(b, 24, 4) as u32,
    }
}

/// What the bytes `b` state as an archive: the magic bytes are checked first,
/// then the header checksum, then the descriptors and the metadata are read.
pub open spec fn spec_parse_archive(b: Seq<u8>) -> Result<ArchiveLayoutView, ArchiveError> {
    if b.len() < 4 {
        Err(ArchiveError::Truncated)
    } else if b.subrange(0, 4) != magic_header() {
        Err(ArchiveError::InvalidMagic)
    } else if b.len() < 32 {
        Err(ArchiveError::Truncated)
    } else if field(b, 24, 4) != spec_crc32(b.subrange(0, 24)) as nat {
        Err(ArchiveError::HeaderChecksum)
    } else {
        let h = spec_parse_header(b);
        match spec_parse_entries(b.skip(32), h.entry_count as nat) {
            Err(e) => Err(e),
            Ok((es, n)) => match spec_parse_items(b.skip(32 + n as int), h.metadata_count as nat) {
                Err(e) => Err(e),
                Ok((ms, m)) => Ok(ArchiveLayoutView { header: h, entries: es, metadata: ms }),
            },
        }
    }
}


// ---------------------------------------------------------------------------
// Reading one record after another.

pub proof fn lemma_parse_entry_bounds(s: Seq<u8>)
    ensures
        spec_parse_entry(s) matches Ok((r, n)) ==> n <= s.len(),
{
    reveal(spec_parse_entry);
}

pub proof fn lemma_parse_item_bounds(s: Seq<u8>)
    ensures
        spec_parse_item(s) matches Ok((r, n)) ==> n <= s.len(),
{
    reveal(spec_parse_item);
}

pub proof fn lemma_parse_entries_bounds(s: Seq<u8>, count: nat)
    ensures
        spec_parse_entries(s, count) matches Ok((rs, k)) ==> k <= s.len() && rs.len() == count,
    decreases count,
{
    if count > 0 {
        match spec_parse_entry(s) {
            Err(e) => {},
            Ok((r, n)) => {
                lemma_parse_entry_bounds(s);
                lemma_parse_entries_bounds(s.skip(n as int), (count - 1) as nat);
            },
        }
    }
}

pub proof fn lemma_parse_entries_step(s: Seq<u8>, i: nat)
    ensures
        spec_parse_entries(s, i + 1) == match spec_parse_entries(s, i) {
            Err(e) => Err(e),
            Ok((rs, n)) => match spec_parse_entry(s.skip(n as int)) {
                Err(e) => Err(e),
                Ok((r, m)) => Ok((rs.push(r), n + m)),
            },
        },
    decreases i,
{
    assert(s.skip(0) =~= s);
    if i == 0 {
        match spec_parse_entry(s) {
            Err(e) => {},
            Ok((r, n)) => {
                assert(spec_parse_entries(s.skip(n as int), 0) == Ok::<(Seq<EntryRecordView>, nat), ArchiveError>((Seq::<EntryRecordView>::empty(), 0nat)));
                assert(seq![r] + Seq::<EntryRecordView>::empty() =~= Seq::<EntryRecordView>::empty().push(r));
            },
        }
    } else {
        match spec_parse_entry(s) {
            Err(e) => {},
            Ok((r, n)) => {
                let t = s.skip(n as int);
                lemma_parse_entry_bounds(s);
                lemma_parse_entries_step(t, (i - 1) as nat);
                lemma_parse_entries_bounds(t, (i - 1) as nat);
                assert(((i + 1) - 1) as nat == i);
                match spec_parse_entries(t, (i - 1) as nat) {
                    Err(e) => {},
                    Ok((rs, k)) => {
                        assert(t.skip(k as int) =~= s.skip((n + k) as int));
                        match spec_parse_entry(t.skip(k as int)) {
                            Err(e) => {},
                            Ok((x, m)) => {
                                assert(seq![r] + rs.push(x) =~= (seq![r] + rs).push(x));
                            },
                        }
                    },
                }
            },
        }
    }
}

pub proof fn lemma_parse_entries_err(s: Seq<u8>, i: nat, count: nat)
    requires
        i <= count,
        spec_parse_entries(s, i) is Err,
    ensures
        spec_parse_entries(s, count) == spec_parse_entries(s, i),
    decreases count - i,
{
    if i < count {
        lemma_parse_entries_step(s, i);
        lemma_parse_entries_err(s, i + 1, count);
    }
}

pub proof fn lemma_parse_items_bounds(s: Seq<u8>, count: nat)
    ensures
        spec_parse_items(s, count) matches Ok((rs, k)) ==> k <= s.len() && rs.len() == count,
    decreases count,
{
    if count > 0 {
        match spec_parse_item(s) {
            Err(e) => {},
            Ok((r, n)) => {
                lemma_parse_item_bounds(s);
                lemma_parse_items_bounds(s.skip(n as int), (count - 1) as nat);
            },
        }
    }
}

pub proof fn lemma_parse_items_step(s: Seq<u8>, i: nat)
    ensures
        spec_parse_items(s, i + 1) == match spec_parse_items(s, i) {
            Err(e) => Err(e),
            Ok((rs, n)) => match spec_parse_item(s.skip(n as int)) {
                Err(e) => Err(e),
                Ok((r, m)) => Ok((rs.push(r), n + m)),
            },
        },
    decreases i,
{
    assert(s.skip(0) =~= s);
    if i == 0 {
        match spec_parse_item(s) {
            Err(e) => {},
            Ok((r, n)) => {
                assert(spec_parse_items(s.skip(n as int), 0) == Ok::<(Seq<(Seq<char>, Seq<char>)>, nat), ArchiveError>((Seq::<(Seq<char>, Seq<char>)>::empty(), 0nat)));
                assert(seq![r] + Seq::<(Seq<char>, Seq<char>)>::empty() =~= Seq::<(Seq<char>, Seq<char>)>::empty().push(r));
            },
        }
    } else {
        match spec_parse_item(s) {
            Err(e) => {},
            Ok((r, n)) => {
                let t = s.skip(n as int);
                lemma_parse_item_bounds(s);
                lemma_parse_items_step(t, (i - 1) as nat);
                lemma_parse_items_bounds(t, (i - 1) as nat);
                assert(((i + 1) - 1) as nat == i);
                match spec_parse_items(t, (i - 1) as nat) {
                    Err(e) => {},
                    Ok((rs, k)) => {
                        assert(t.skip(k as int) =~= s.skip((n + k) as int));
                        match spec_parse_item(t.skip(k as int)) {
                            Err(e) => {},
                            Ok((x, m)) => {
                                assert(seq![r] + rs.push(x) =~= (seq![r] + rs).push(x));
                            },
                        }
                    },
                }
            },
        }
    }
}

pub proof fn lemma_parse_items_err(s: Seq<u8>, i: nat, count: nat)
    requires
        i <= count,
        spec_parse_items(s, i) is Err,
    ensures
        spec_parse_items(s, count) == spec_parse_items(s, i),
    decreases count - i,
{
    if i < count {
        lemma_parse_items_step(s, i);
        lemma_parse_items_err(s, i + 1, count);
    }
}


// ---------------------------------------------------------------------------
// Reading bytes.

/// Reads the entry descriptor that starts at `pos`.
fn parse_entry_at(buf: &[u8], pos: usize) -> (r: Result<(EntryRecord, usize), ArchiveError>)
    requires
        pos <= buf@.len(),
    ensures
        match (r, spec_parse_entry(buf@.skip(pos as int))) {
            (Ok((rec, n)), Ok((v, m))) => rec@ == v && n == m,
            (Err(e), Err(f)) => e == f,
            _ => false,
        },
{
    reveal(spec_parse_entry);
    let ghost s = buf@.skip(pos as int);
    if buf.len() - pos < 44 {
        return Err(ArchiveError::Truncated);
    }
    let t = match EntryType::from_code(buf[pos]) {
        Some(t) => t,
        None => return Err(ArchiveError::UnknownEntryType),
    };
    let c = match Compression::from_code(buf[pos + 1]) {
        Some(c) => c,
        None => return Err(ArchiveError::UnknownCompression),
    };
    let permissions = get_u16(buf, pos + 2);
    assert(s.subrange(2, 4) =~= buf@.subrange(pos + 2, pos + 4));
    let plen = get_u16(buf, pos + 4) as usize;
    assert(s.subrange(4, 6) =~= buf@.subrange(pos + 4, pos + 6));
    let nlen = get_u16(buf, pos + 6) as usize;
    assert(s.subrange(6, 8) =~= buf@.subrange(pos + 6, pos + 8));
    let uncompressed_size = get_u64(buf, pos + 8);
    assert(s.subrange(8, 16) =~= buf@.subrange(pos + 8, pos + 16));
    let compressed_size = get_u64(buf, pos + 16);
    assert(s.subrange(16, 24) =~= buf@.subrange(pos + 16, pos + 24));
    let data_offset = get_u64(buf, pos + 24);
    assert(s.subrange(24, 32) =~= buf@.subrange(pos + 24, pos + 32));
    let modified = get_u64(buf, pos + 32);
    assert(s.subrange(32, 40) =~= buf@.subrange(pos + 32, pos + 40));
    let checksum = get_u32(buf, pos + 40);
    assert(s.subrange(40, 44) =~= buf@.subrange(pos + 40, pos + 44));
    if buf.len() - pos - 44 < plen + nlen {
        return Err(ArchiveError::Truncated);
    }
    let ps = pos + 44;
    let ns = ps + plen;
    let ne = ns + nlen;
    assert(s.subrange(44, 44 + plen) =~= buf@.subrange(ps as int, ns as int));
    assert(s.subrange(44 + plen, 44 + plen + nlen) =~= buf@.subrange(ns as int, ne as int));
    let path = match string_from_utf8(buf, ps, ns) {
        Some(p) => p,
        None => return Err(ArchiveError::InvalidUtf8),
    };
    let name = match string_from_utf8(buf, ns, ne) {
        Some(n) => n,
        None => return Err(ArchiveError::InvalidUtf8),
    };
    let rec = EntryRecord {
        entry_type: t,
        compression: c,
        permissions,
        path,
        name,
        uncompressed_size,
        compressed_size,
        data_offset,
        modified,
        checksum,
    };
    Ok((rec, 44 + plen + nlen))
}

/// Reads the metadata item that starts at `pos`.
fn parse_item_at(buf: &[u8], pos: usize) -> (r: Result<(MetadataEntry, usize), ArchiveError>)
    requires
        pos <= buf@.len(),
    ensures
        match (r, spec_parse_item(buf@.skip(pos as int))) {
            (Ok((item, n)), Ok((v, m))) => item@ == v && n == m,
            (Err(e), Err(f)) => e == f,
            _ => false,
        },
{
    reveal(spec_parse_item);
    let ghost s = buf@.skip(pos as int);
    if buf.len() - pos < 4 {
        return Err(ArchiveError::Truncated);
    }
    let klen = get_u16(buf, pos) as usize;
    assert(s.subrange(0, 2) =~= buf@.subrange(pos as int, pos + 2));
    let vlen = get_u16(buf, pos + 2) as usize;
    assert(s.subrange(2, 4) =~= buf@.subrange(pos + 2, pos + 4));
    if buf.len() - pos - 4 < klen + vlen {
        return Err(ArchiveError::Truncated);
    }
    let ks = pos + 4;
    let vs = ks + klen;
    let ve = vs + vlen;
    assert(s.subrange(4, 4 + klen) =~= buf@.subrange(ks as int, vs as int));
    assert(s.subrange(4 + klen, 4 + klen + vlen) =~= buf@.subrange(vs as int, ve as int));
    let key = match string_from_utf8(buf, ks, vs) {
        Some(k) => k,
        None => return Err(ArchiveError::InvalidUtf8),
    };
    let value = match string_from_utf8(buf, vs, ve) {
        Some(v) => v,
        None => return Err(ArchiveError::InvalidUtf8),
    };
    Ok((MetadataEntry { key, value }, 4 + klen + vlen))
}


/// Reads `count` entry descriptors from `start`.
fn parse_entries_at(buf: &[u8], start: usize, count: u32) -> (r: Result<(Vec<EntryRecord>, usize), ArchiveError>)
    requires
        start <= buf@.len(),
    ensures
        match (r, spec_parse_entries(buf@.skip(start as int), count as nat)) {
            (Ok((recs, n)), Ok((vs, m))) => recs@.map_values(|e: EntryRecord| e@) == vs && n == m,
            (Err(e), Err(f)) => e == f,
            _ => false,
        },
{
    let ghost s = buf@.skip(start as int);
    let mut recs: Vec<EntryRecord> = Vec::new();
    let mut pos: usize = start;
    let mut i: u32 = 0;
    let blen = buf.len();
    assert(recs@.map_values(|e: EntryRecord| e@) =~= Seq::<EntryRecordView>::empty());
    while i < count
        invariant
            start <= pos <= buf@.len(),
            blen == buf@.len(),
            i <= count,
            s == buf@.skip(start as int),
            spec_parse_entries(s, i as nat) == Ok::<(Seq<EntryRecordView>, nat), ArchiveError>(
                (recs@.map_values(|e: EntryRecord| e@), (pos - start) as nat),
            ),
        decreases count - i,
    {
        proof {
            lemma_parse_entries_step(s, i as nat);
            assert(s.skip(pos - start) =~= buf@.skip(pos as int));
        }
        match parse_entry_at(buf, pos) {
            Err(e) => {
                proof {
                    lemma_parse_entries_err(s, (i + 1) as nat, count as nat);
                }
                return Err(e);
            },
            Ok((rec, n)) => {
                proof {
                    lemma_parse_entry_bounds(buf@.skip(pos as int));
                    assert(buf@.skip(pos as int).len() == buf@.len() - pos);
                    assert(n <= buf@.len() - pos);
                }
                let ghost before = recs@;
                recs.push(rec);
                assert(recs@.map_values(|e: EntryRecord| e@) =~= before.map_values(
                    |e: EntryRecord| e@,
                ).push(rec@));
                pos = pos + n;
                i = i + 1;
            },
        }
    }
    Ok((recs, pos - start))
}

/// Reads `count` metadata items from `start`.
fn parse_items_at(buf: &[u8], start: usize, count: u32) -> (r: Result<(Vec<MetadataEntry>, usize), ArchiveError>)
    requires
        start <= buf@.len(),
    ensures
        match (r, spec_parse_items(buf@.skip(start as int), count as nat)) {
            (Ok((items, n)), Ok((vs, m))) => items@.map_values(|e: MetadataEntry| e@) == vs && n == m,
            (Err(e), Err(f)) => e == f,
            _ => false,
        },
{
    let ghost s = buf@.skip(start as int);
    let mut items: Vec<MetadataEntry> = Vec::new();
    let mut pos: usize = start;
    let mut i: u32 = 0;
    let blen = buf.len();
    assert(items@.map_values(|e: MetadataEntry| e@) =~= Seq::<(Seq<char>, Seq<char>)>::empty());
    while i < count
        invariant
            start <= pos <= buf@.len(),
            blen == buf@.len(),
            i <= count,
            s == buf@.skip(start as int),
            spec_parse_items(s, i as nat) == Ok::<(Seq<(Seq<char>, Seq<char>)>, nat), ArchiveError>(
                (items@.map_values(|e: MetadataEntry| e@), (pos - start) as nat),
            ),
        decreases count - i,
    {
        proof {
            lemma_parse_items_step(s, i as nat);
            assert(s.skip(pos - start) =~= buf@.skip(pos as int));
        }
        match parse_item_at(buf, pos) {
            Err(e) => {
                proof {
                    lemma_parse_items_err(s, (i + 1) as nat, count as nat);
                }
                return Err(e);
            },
            Ok((item, n)) => {
                proof {
                    lemma_parse_item_bounds(buf@.skip(pos as int));
                    assert(buf@.skip(pos as int).len() == buf@.len() - pos);
                    assert(n <= buf@.len() - pos);
                }
                let ghost before = items@;
                items.push(item);
                assert(items@.map_values(|e: MetadataEntry| e@) =~= before.map_values(
                    |e: MetadataEntry| e@,
                ).push(item@));
                pos = pos + n;
                i = i + 1;
            },
        }
    }
    Ok((items, pos - start))
}

/// Reads what the archive `buf` states about itself.
pub fn parse_layout(buf: &[u8]) -> (r: Result<ArchiveLayout, ArchiveError>)
    ensures
        match (r, spec_parse_archive(buf@)) {
            (Ok(l), Ok(v)) => l@ == v,
            (Err(e), Err(f)) => e == f,
            _ => false,
        },
{
    if buf.len() < 4 {
        return Err(ArchiveError::Truncated);
    }
    if !(buf[0] == 0x4d && buf[1] == 0x4d && buf[2] == 0x42 && buf[3] == 0x4b) {
        assert(buf@.subrange(0, 4) != magic_header()) by {
            if buf@.subrange(0, 4) == magic_header() {
                assert(buf@.subrange(0, 4)[0] == buf@[0]);
                assert(buf@.subrange(0, 4)[1] == buf@[1]);
                assert(buf@.subrange(0, 4)[2] == buf@[2]);
                assert(buf@.subrange(0, 4)[3] == buf@[3]);
            }
        }
        return Err(ArchiveError::InvalidMagic);
    }
    assert(buf@.subrange(0, 4) =~= magic_header());
    if buf.len() < 32 {
        return Err(ArchiveError::Truncated);
    }
    let checksum = get_u32(buf, 24);
    let computed = crc32(slice_prefix(buf, 24));
    if checksum != computed {
        return Err(ArchiveError::HeaderChecksum);
    }
    let version = get_u16(buf, 4);
    let flags = get_u16(buf, 6);
    let entry_count = get_u32(buf, 8);
    let metadata_count = get_u32(buf, 12);
    let data_offset = get_u64(buf, 16);
    let header = ArchiveHeader {
        version,
        flags: ArchiveFlags(flags),
        entry_count,
        metadata_count,
        data_offset,
        checksum,
    };
    assert(header == spec_parse_header(buf@));
    let (entries, n) = match parse_entries_at(buf, 32, entry_count) {
        Ok(x) => x,
        Err(e) => return Err(e),
    };
    proof {
        lemma_parse_entries_bounds(buf@.skip(32), entry_count as nat);
    }
    let (metadata, m) = match parse_items_at(buf, 32 + n, metadata_count) {
        Ok(x) => x,
        Err(e) => return Err(e),
    };
    Ok(ArchiveLayout { header, entries, metadata })
}

/// The first `n` bytes of `buf`.
fn slice_prefix(buf: &[u8], n: usize) -> (r: &[u8])
    requires
        n <= buf@.len(),
    ensures
        r@ == buf@.subrange(0, n as int),
{
    vstd::slice::slice_subrange(buf, 0, n)
}


// ---------------------------------------------------------------------------
// Archives read back.

/// An entry of an archive.
pub struct MMBakEntry {
    pub entry_type: EntryType,
    pub compression: Compression,
    pub permissions: u16,
    pub path: String,
    pub name: String,
    pub uncompressed_size: u64,
    pub compressed_size: u64,
    pub data_offset: u64,
    /// When the entry was last modified, in whole seconds since the Unix epoch
    pub modified_time: u64,
    pub checksum: u32,
}

/// The path of an entry within the archive: its directory path, a slash and
/// its name, or the name alone for an entry at the root.
pub open spec fn spec_full_path(path: Seq<char>, name: Seq<char>) -> Seq<char> {
    if path.len() == 0 {
        name
    } else {
        path + seq!['/'] + name
    }
}

impl MMBakEntry {
    pub open spec fn full_path_view(&self) -> Seq<char> {
        spec_full_path(self.path@, self.name@)
    }

    pub fn is_dir(&self) -> (r: bool)
        ensures
            r == (self.entry_type == EntryType::Directory),
    {
        match self.entry_type {
            EntryType::Directory => true,
            EntryType::File => false,
        }
    }

    pub fn is_file(&self) -> (r: bool)
        ensures
            r == (self.entry_type == EntryType::File),
    {
        match self.entry_type {
            EntryType::File => true,
            EntryType::Directory => false,
        }
    }

    pub fn full_path(&self) -> (r: String)
        ensures
            r@ == self.full_path_view(),
    {
        if self.path.as_str().unicode_len() == 0 {
            self.name.clone()
        } else {
            let mut s = self.path.clone();
            let slash = "/";
            proof {
                reveal_strlit("/");
            }
            s.append(slash);
            s.append(self.name.as_str());
            assert(slash@ =~= seq!['/']);
            s
        }
    }
}

/// The entry `e` holds the fields of the descriptor `v`.
pub open spec fn entry_matches(e: MMBakEntry, v: EntryRecordView) -> bool {
    &&& e.entry_type == v.entry_type
    &&& e.compression == v.compression
    &&& e.permissions == v.permissions
    &&& e.path@ == v.path
    &&& e.name@ == v.name
    &&& e.uncompressed_size == v.uncompressed_size
    &&& e.compressed_size == v.compressed_size
    &&& e.data_offset == v.data_offset
    &&& e.modified_time == v.modified
    &&& e.checksum == v.checksum
}

/// A parsed archive.
pub struct MMBakArchive {
    header: ArchiveHeader,
    entries: Vec<MMBakEntry>,
    metadata: Vec<MetadataEntry>,
    file_size: u64,
}

impl MMBakArchive {
    pub closed spec fn spec_header(&self) -> ArchiveHeader {
        self.header
    }

    pub closed spec fn spec_entries(&self) -> Seq<MMBakEntry> {
        self.entries@
    }

    pub closed spec fn spec_metadata(&self) -> Seq<(Seq<char>, Seq<char>)> {
        self.metadata@.map_values(|m: MetadataEntry| m@)
    }

    pub closed spec fn spec_file_size(&self) -> u64 {
        self.file_size
    }

    /// Reads an archive from its bytes: a well-formed archive is read in full,
    /// and any other is refused with the reason.
    pub fn from_bytes(bytes: &[u8]) -> (r: Result<MMBakArchive, MMBakError>)
        ensures
            match spec_parse_archive(bytes@) {
                Err(e) => r matches Err(MMBakError::InvalidDataFormat(m)) && m@ == e.spec_message(),
                Ok(l) => match r {
                    Ok(a) => {
                        &&& a.spec_header() == l.header
                        &&& a.spec_metadata() == l.metadata
                        &&& a.spec_entries().len() == l.entries.len()
                        &&& forall|i: int|
                            0 <= i < l.entries.len() ==> entry_matches(
                                #[trigger] a.spec_entries()[i],
                                l.entries[i],
                            )
                        &&& a.spec_file_size() == bytes@.len()
                    },
                    Err(_) => false,
                },
            },
    {
        let layout = match parse_layout(bytes) {
            Ok(l) => l,
            Err(e) => return Err(MMBakError::InvalidDataFormat(e.message().to_owned())),
        };
        let ghost lv = layout@;
        let ArchiveLayout { header, entries: records, metadata } = layout;
        let mut entries: Vec<MMBakEntry> = Vec::new();
        let mut records = records;
        let ghost recs = records@;
        assert(lv.entries.len() == recs.len());
        // Records are taken from the back so that each can be moved.
        let mut rev: Vec<MMBakEntry> = Vec::new();
        while records.len() > 0
            invariant
                spec_parse_archive(bytes@) == Ok::<ArchiveLayoutView, ArchiveError>(lv),
                lv.entries.len() == recs.len(),
                records@ == recs.take(records@.len() as int),
                records@.len() <= recs.len(),
                rev@.len() == recs.len() - records@.len(),
                forall|j: int|
                    0 <= j < rev@.len() ==> entry_matches(
                        #[trigger] rev@[j],
                        recs[recs.len() - 1 - j]@,
                    ),
            decreases records@.len(),
        {
            let rec = records.pop().unwrap();
            assert(rec == recs[records@.len() as int]);
            let e = MMBakEntry {
                entry_type: rec.entry_type,
                compression: rec.compression,
                permissions: rec.permissions,
                path: rec.path,
                name: rec.name,
                uncompressed_size: rec.uncompressed_size,
                compressed_size: rec.compressed_size,
                data_offset: rec.data_offset,
                modified_time: rec.modified,
                checksum: rec.checksum,
            };
            rev.push(e);
            assert(records@ =~= recs.take(records@.len() as int));
        }
        while rev.len() > 0
            invariant
                rev@.len() + entries@.len() == recs.len(),
                forall|j: int|
                    0 <= j < rev@.len() ==> entry_matches(
                        #[trigger] rev@[j],
                        recs[recs.len() - 1 - j]@,
                    ),
                forall|j: int|
                    0 <= j < entries@.len() ==> entry_matches(#[trigger] entries@[j], recs[j]@),
            decreases rev@.len(),
        {
            let e = rev.pop().unwrap();
            entries.push(e);
        }
        assert(recs.map_values(|e: EntryRecord| e@) == lv.entries);
        assert forall|i: int| 0 <= i < lv.entries.len() implies entry_matches(
            #[trigger] entries@[i],
            lv.entries[i],
        ) by {
            assert(lv.entries[i] == recs[i]@);
        }
        Ok(MMBakArchive { header, entries, metadata, file_size: bytes.len() as u64 })
    }

    pub fn header(&self) -> (r: &ArchiveHeader)
        ensures
            *r == self.spec_header(),
    {
        &self.header
    }

    pub fn entries(&self) -> (r: &[MMBakEntry])
        ensures
            r@ == self.spec_entries(),
    {
        self.entries.as_slice()
    }

    pub fn metadata(&self) -> (r: &[MetadataEntry])
        ensures
            r@.map_values(|m: MetadataEntry| m@) == self.spec_metadata(),
    {
        self.metadata.as_slice()
    }

    pub fn file_size(&self) -> (r: u64)
        ensures
            r == self.spec_file_size(),
    {
        self.file_size
    }

    /// The first entry whose full path is `path`.
    pub fn find_entry(&self, path: &str) -> (r: Option<&MMBakEntry>)
        ensures
            r matches Some(e) ==> exists|i: int|
                0 <= i < self.spec_entries().len() && self.spec_entries()[i] == *e
                    && e.full_path_view() == path@ && forall|j: int|
                    0 <= j < i ==> (#[trigger] self.spec_entries()[j]).full_path_view() != path@,
            r is None ==> forall|i: int|
                0 <= i < self.spec_entries().len() ==> (#[trigger] self.spec_entries()[i]).full_path_view()
                    != path@,
    {
        let mut i: usize = 0;
        while i < self.entries.len()
            invariant
                0 <= i <= self.entries@.len(),
                forall|j: int|
                    0 <= j < i ==> (#[trigger] self.entries@[j]).full_path_view() != path@,
            decreases self.entries@.len() - i,
        {
            let full = self.entries[i].full_path();
            if str_eq(full.as_str(), path) {
                assert(self.spec_entries()[i as int] == self.entries@[i as int]);
                assert(forall|j: int| 0 <= j < i ==> self.spec_entries()[j] == self.entries@[j]);
                return Some(&self.entries[i]);
            }
            i += 1;
        }
        None
    }

    /// The sum of the entries' uncompressed sizes (`u64::MAX` if it does not fit).
    pub fn total_uncompressed_size(&self) -> (r: u64)
        ensures
            r == spec_min_u64(spec_total_uncompressed(self.spec_entries())),
    {
        let mut total: u64 = 0;
        let mut i: usize = 0;
        while i < self.entries.len()
            invariant
                0 <= i <= self.entries@.len(),
                total == spec_min_u64(spec_total_uncompressed(self.entries@.take(i as int))),
            decreases self.entries@.len() - i,
        {
            assert(self.entries@.take(i + 1).drop_last() =~= self.entries@.take(i as int));
            let n = self.entries[i].uncompressed_size;
            if total > u64::MAX - n {
                total = u64::MAX;
            } else {
                total = total + n;
            }
            i += 1;
        }
        assert(self.entries@.take(i as int) =~= self.entries@);
        total
    }

    /// The entries that are files, in order.
    pub fn files(&self) -> (r: Vec<&MMBakEntry>)
        ensures
            r@.map_values(|e: &MMBakEntry| *e) == self.spec_entries().filter(
                |e: MMBakEntry| e.entry_type == EntryType::File,
            ),
    {
        let ghost pred = |e: MMBakEntry| e.entry_type == EntryType::File;
        let mut r: Vec<&MMBakEntry> = Vec::new();
        let mut i: usize = 0;
        while i < self.entries.len()
            invariant
                0 <= i <= self.entries@.len(),
                pred == (|e: MMBakEntry| e.entry_type == EntryType::File),
                r@.map_values(|e: &MMBakEntry| *e) == self.entries@.take(i as int).filter(pred),
            decreases self.entries@.len() - i,
        {
            proof {
                reveal(Seq::filter);
                assert(self.entries@.take(i + 1).drop_last() =~= self.entries@.take(i as int));
            }
            let ghost before = r@;
            if self.entries[i].is_file() {
                r.push(&self.entries[i]);
                assert(r@.map_values(|e: &MMBakEntry| *e) =~= before.map_values(|e: &MMBakEntry| *e).push(self.entries@[i as int]));
            }
            i += 1;
        }
        assert(self.entries@.take(i as int) =~= self.entries@);
        r
    }
}

/// Sizes above `u64::MAX` are counted as `u64::MAX`.
pub open spec fn spec_min_u64(n: nat) -> u64 {
    if n > u64::MAX {
        u64::MAX
    } else {
        n as u64
    }
}

pub open spec fn spec_total_uncompressed(es: Seq<MMBakEntry>) -> nat
    decreases es.len(),
{
    if es.len() == 0 {
        0
    } else {
        spec_total_uncompressed(es.drop_last()) + es.last().uncompressed_size as nat
    }
}

} // verus!
