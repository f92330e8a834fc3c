//! Building archives: entries, metadata and the bytes of the whole archive.

use vstd::prelude::*;
use vstd::utf8::encode_utf8;
use crate::archive::{ArchiveFlags, Compression, EntryType, FORMAT_VERSION, HEADER_SIZE, magic_footer, magic_header, spec_padded_size, spec_padding};
use crate::bytes::{crc32, le_bytes, put_u16, put_u32, put_u64, spec_crc32};
use crate::clock::now_seconds;
use crate::error::MMBakError;

verus! {

/// Helper for building entries
pub struct EntryBuilder {
    pub entry_type: EntryType,
    pub compression: Compression,
    pub permissions: u16,
    pub path: String,
    pub name: String,
    pub data: Vec<u8>,
    /// When the entry was last modified, in whole seconds since the Unix
    /// epoch (0 for an earlier time)
    pub modified_time: u64,
}

/// A file entry modified `time` seconds after the Unix epoch.
pub fn file_entry_at(path: &str, name: &str, data: Vec<u8>, time: u64) -> (r: EntryBuilder)
    ensures
        r.entry_type == EntryType::File,
        r.compression == Compression::Uncompressed,
        r.permissions == 0o644,
        r.path@ == path@,
        r.name@ == name@,
        r.data@ == data@,
        r.modified_time == time,
{
    EntryBuilder {
        entry_type: EntryType::File,
        compression: Compression::Uncompressed,
        permissions: 0o644,
        path: path.to_owned(),
        name: name.to_owned(),
        data,
        modified_time: time,
    }
}

/// A directory entry modified `time` seconds after the Unix epoch.
pub fn dir_entry_at(path: &str, name: &str, time: u64) -> (r: EntryBuilder)
    ensures
        r.entry_type == EntryType::Directory,
        r.compression == Compression::Uncompressed,
        r.permissions == 0o755,
        r.path@ == path@,
        r.name@ == name@,
        r.data@ == Seq::<u8>::empty(),
        r.modified_time == time,
{
    EntryBuilder {
        entry_type: EntryType::Directory,
        compression: Compression::Uncompressed,
        permissions: 0o755,
        path: path.to_owned(),
        name: name.to_owned(),
        data: Vec::new(),
        modified_time: time,
    }
}

/// Build a file entry, modified now
pub fn file_entry(path: &str, name: &str, data: Vec<u8>) -> (r: EntryBuilder)
    ensures
        r.entry_type == EntryType::File,
        r.compression == Compression::Uncompressed,
        r.permissions == 0o644,
        r.path@ == path@,
        r.name@ == name@,
        r.data@ == data@,
{
    file_entry_at(path, name, data, now_seconds())
}

/// Build a directory entry, modified now
pub fn dir_entry(path: &str, name: &str) -> (r: EntryBuilder)
    ensures
        r.entry_type == EntryType::Directory,
        r.compression == Compression::Uncompressed,
        r.permissions == 0o755,
        r.path@ == path@,
        r.name@ == name@,
        r.data@ == Seq::<u8>::empty(),
{
    dir_entry_at(path, name, now_seconds())
}

// ---------------------------------------------------------------------------
// The bytes of an archive.

pub open spec fn path_bytes(e: EntryBuilder) -> Seq<u8> {
    encode_utf8(e.path@)
}

pub open spec fn name_bytes(e: EntryBuilder) -> Seq<u8> {
    encode_utf8(e.name@)
}

/// The descriptor of one entry whose data starts at `offset` and which was last
/// modified `time` seconds after the Unix epoch.
pub open spec fn spec_entry_desc(e: EntryBuilder, offset: nat, time: u64) -> Seq<u8> {
    seq![e.entry_type.spec_code(), e.compression.spec_code()]
        + le_bytes(e.permissions as nat, 2)
        + le_bytes(path_bytes(e).len() % 0x10000, 2)
        + le_bytes(name_bytes(e).len() % 0x10000, 2)
        + le_bytes(e.data@.len(), 8)
        + le_bytes(e.data@.len(), 8)
        + le_bytes(offset, 8)
        + le_bytes(time as nat, 8)
        + le_bytes(spec_crc32(e.data@) as nat, 4)
        + path_bytes(e)
        + name_bytes(e)
}

pub open spec fn spec_desc_size(e: EntryBuilder) -> nat {
    44 + path_bytes(e).len() + name_bytes(e).len()
}

/// Total size of the entry descriptors.
pub open spec fn spec_entry_table_size(es: Seq<EntryBuilder>) -> nat
    decreases es.len(),
{
    if es.len() == 0 {
        0
    } else {
        spec_entry_table_size(es.drop_last()) + spec_desc_size(es.last())
    }
}

/// Total size of the data region: every entry's data padded to four bytes.
pub open spec fn spec_data_span(es: Seq<EntryBuilder>) -> nat
    decreases es.len(),
{
    if es.len() == 0 {
        0
    } else {
        spec_data_span(es.drop_last()) + spec_padded_size(es.last().data@.len())
    }
}

/// The descriptors of `es` (with modification times `ts`) when the data
/// region starts at `base`.
pub open spec fn spec_entry_table(es: Seq<EntryBuilder>, ts: Seq<u64>, base: nat) -> Seq<u8>
    decreases es.len(),
{
    if es.len() == 0 {
        Seq::empty()
    } else {
        spec_entry_table(es.drop_last(), ts.drop_last(), base) + spec_entry_desc(
            es.last(),
            base + spec_data_span(es.drop_last()),
            ts.last(),
        )
    }
}

pub open spec fn spec_metadata_item(m: (String, String)) -> Seq<u8> {
    let k = encode_utf8(m.0@);
    let v = encode_utf8(m.1@);
    le_bytes(k.len() % 0x10000, 2) + le_bytes(v.len() % 0x10000, 2) + k + v
}

pub open spec fn spec_metadata_item_size(m: (String, String)) -> nat {
    4 + encode_utf8(m.0@).len() + encode_utf8(m.1@).len()
}

pub open spec fn spec_metadata_size(ms: Seq<(String, String)>) -> nat
    decreases ms.len(),
{
    if ms.len() == 0 {
        0
    } else {
        spec_metadata_size(ms.drop_last()) + spec_metadata_item_size(ms.last())
    }
}

pub open spec fn spec_metadata_bytes(ms: Seq<(String, String)>) -> Seq<u8>
    decreases ms.len(),
{
    if ms.len() == 0 {
        Seq::empty()
    } else {
        spec_metadata_bytes(ms.drop_last()) + spec_metadata_item(ms.last())
    }
}

pub open spec fn too_large_message() -> Seq<char> {
    seq!['A', 'r', 'c', 'h', 'i', 'v', 'e', ' ', 't', 'o', 'o', ' ', 'l', 'a', 'r', 'g', 'e']
}

pub open spec fn zeros(n: nat) -> Seq<u8> {
    Seq::new(n, |i: int| 0u8)
}

/// The data region: each entry's data followed by its padding.
pub open spec fn spec_data_region(es: Seq<EntryBuilder>) -> Seq<u8>
    decreases es.len(),
{
    if es.len() == 0 {
        Seq::empty()
    } else {
        spec_data_region(es.drop_last()) + es.last().data@ + zeros(
            spec_padding(es.last().data@.len()),
        )
    }
}

/// All entries' data, one after another.
pub open spec fn spec_all_data(es: Seq<EntryBuilder>) -> Seq<u8>
    decreases es.len(),
{
    if es.len() == 0 {
        Seq::empty()
    } else {
        spec_all_data(es.drop_last()) + es.last().data@
    }
}

/// Where the data region starts.
pub open spec fn spec_data_offset(es: Seq<EntryBuilder>, ms: Seq<(String, String)>) -> nat {
    32 + spec_entry_table_size(es) + spec_metadata_size(ms)
}

/// The header fields covered by the header checksum, after the magic bytes.
pub open spec fn spec_header_fields(flags: u16, n_entries: nat, n_meta: nat, data_offset: nat) -> Seq<
    u8,
> {
    le_bytes(FORMAT_VERSION as nat, 2) + le_bytes(flags as nat, 2) + le_bytes(
        n_entries % 0x1_0000_0000,
        4,
    ) + le_bytes(n_meta % 0x1_0000_0000, 4) + le_bytes(data_offset, 8)
}

pub open spec fn spec_header(flags: u16, n_entries: nat, n_meta: nat, data_offset: nat) -> Seq<u8> {
    let checked = magic_header() + spec_header_fields(flags, n_entries, n_meta, data_offset);
    checked + le_bytes(spec_crc32(checked) as nat, 4) + zeros(4)
}

pub open spec fn spec_footer(es: Seq<EntryBuilder>) -> Seq<u8> {
    le_bytes(spec_crc32(spec_all_data(es)) as nat, 4) + magic_footer() + zeros(8)
}

/// The modification times of the entries, in order.
pub open spec fn spec_entry_times(es: Seq<EntryBuilder>) -> Seq<u64> {
    es.map_values(|e: EntryBuilder| e.modified_time)
}

/// The complete archive for entries `es` (modified at `ts`), metadata `ms` and `flags`.
pub open spec fn spec_archive(
    es: Seq<EntryBuilder>,
    ms: Seq<(String, String)>,
    flags: ArchiveFlags,
    ts: Seq<u64>,
) -> Seq<u8> {
    let off = spec_data_offset(es, ms);
    spec_header(flags.0, es.len(), ms.len(), off) + spec_entry_table(es, ts, off)
        + spec_metadata_bytes(ms) + spec_data_region(es) + spec_footer(es)
}

/// The length of that archive.
pub open spec fn spec_archive_len(es: Seq<EntryBuilder>, ms: Seq<(String, String)>) -> nat {
    spec_data_offset(es, ms) + spec_data_span(es) + 16
}


// ---------------------------------------------------------------------------
// Facts about prefixes.

pub proof fn lemma_table_size_prefix(es: Seq<EntryBuilder>, i: int)
    requires
        0 <= i <= es.len(),
    ensures
        spec_entry_table_size(es.take(i)) <= spec_entry_table_size(es),
    decreases es.len(),
{
    if i < es.len() {
        assert(es.take(i) =~= es.drop_last().take(i));
        lemma_table_size_prefix(es.drop_last(), i);
    } else {
        assert(es.take(i) =~= es);
    }
}

pub proof fn lemma_data_span_prefix(es: Seq<EntryBuilder>, i: int)
    requires
        0 <= i <= es.len(),
    ensures
        spec_data_span(es.take(i)) <= spec_data_span(es),
    decreases es.len(),
{
    if i < es.len() {
        assert(es.take(i) =~= es.drop_last().take(i));
        lemma_data_span_prefix(es.drop_last(), i);
    } else {
        assert(es.take(i) =~= es);
    }
}

pub proof fn lemma_metadata_size_prefix(ms: Seq<(String, String)>, i: int)
    requires
        0 <= i <= ms.len(),
    ensures
        spec_metadata_size(ms.take(i)) <= spec_metadata_size(ms),
    decreases ms.len(),
{
    if i < ms.len() {
        assert(ms.take(i) =~= ms.drop_last().take(i));
        lemma_metadata_size_prefix(ms.drop_last(), i);
    } else {
        assert(ms.take(i) =~= ms);
    }
}

// ---------------------------------------------------------------------------
// Writing bytes.

/// Appends `src` to `out`.
pub fn put_bytes(out: &mut Vec<u8>, src: &[u8])
    ensures
        final(out)@ == old(out)@ + src@,
{
    let mut i: usize = 0;
    while i < src.len()
        invariant
            0 <= i <= src@.len(),
            out@ == old(out)@ + src@.take(i as int),
        decreases src@.len() - i,
    {
        out.push(src[i]);
        assert(src@.take(i + 1) =~= src@.take(i as int).push(src@[i as int]));
        i += 1;
    }
    assert(src@.take(src@.len() as int) =~= src@);
}

/// Appends `n` zero bytes to `out`.
fn put_zeros(out: &mut Vec<u8>, n: u64)
    ensures
        final(out)@ == old(out)@ + zeros(n as nat),
{
    let mut i: u64 = 0;
    while i < n
        invariant
            0 <= i <= n,
            out@ == old(out)@ + zeros(i as nat),
        decreases n - i,
    {
        out.push(0u8);
        assert(zeros((i + 1) as nat) =~= zeros(i as nat).push(0u8));
        i += 1;
    }
}

/// Appends the descriptor of `e`.
fn put_entry_desc(out: &mut Vec<u8>, e: &EntryBuilder, offset: u64, time: u64)
    ensures
        final(out)@ == old(out)@ + spec_entry_desc(*e, offset as nat, time),
{
    let ghost start = out@;
    out.push(e.entry_type.code());
    out.push(e.compression.code());
    put_u16(out, e.permissions);
    let pb = e.path.as_str().as_bytes();
    let nb = e.name.as_str().as_bytes();
    put_u16(out, (pb.len() % 0x10000) as u16);
    put_u16(out, (nb.len() % 0x10000) as u16);
    let dl = e.data.len() as u64;
    put_u64(out, dl);
    put_u64(out, dl);
    put_u64(out, offset);
    put_u64(out, time);
    let c = crc32(e.data.as_slice());
    put_u32(out, c);
    put_bytes(out, pb);
    put_bytes(out, nb);
    assert(out@ =~= start + spec_entry_desc(*e, offset as nat, time));
}

/// Appends one metadata item.
fn put_metadata_item(out: &mut Vec<u8>, m: &(String, String))
    ensures
        final(out)@ == old(out)@ + spec_metadata_item(*m),
{
    let ghost start = out@;
    let kb = m.0.as_str().as_bytes();
    let vb = m.1.as_str().as_bytes();
    put_u16(out, (kb.len() % 0x10000) as u16);
    put_u16(out, (vb.len() % 0x10000) as u16);
    put_bytes(out, kb);
    put_bytes(out, vb);
    assert(out@ =~= start + spec_metadata_item(*m));
}


// ---------------------------------------------------------------------------
// The writer.

/// Builder for creating MMBak archive files
pub struct MMBakWriter {
    entries: Vec<EntryBuilder>,
    metadata: Vec<(String, String)>,
    flags: ArchiveFlags,
}

impl MMBakWriter {
    pub closed spec fn spec_entries(&self) -> Seq<EntryBuilder> {
        self.entries@
    }

    pub closed spec fn spec_metadata(&self) -> Seq<(String, String)> {
        self.metadata@
    }

    pub closed spec fn spec_flags(&self) -> ArchiveFlags {
        self.flags
    }

    /// Create a new archive writer
    pub fn new() -> (r: Self)
        ensures
            r.spec_entries() == Seq::<EntryBuilder>::empty(),
            r.spec_metadata() == Seq::<(String, String)>::empty(),
            r.spec_flags().0 == 0,
    {
        MMBakWriter { entries: Vec::new(), metadata: Vec::new(), flags: ArchiveFlags::new() }
    }

    /// Add an entry to the archive; a compressed entry sets bit 0 of the flags.
    pub fn add_entry(&mut self, entry: EntryBuilder)
        ensures
            final(self).spec_entries() == old(self).spec_entries().push(entry),
            final(self).spec_metadata() == old(self).spec_metadata(),
            final(self).spec_flags() == (if entry.compression != Compression::Uncompressed {
                ArchiveFlags(old(self).spec_flags().0 | 1)
            } else {
                old(self).spec_flags()
            }),
    {
        if entry.compression != Compression::Uncompressed {
            self.flags = ArchiveFlags(self.flags.0 | 0x01);
        }
        self.entries.push(entry);
    }

    /// Add metadata key-value pair
    pub fn add_metadata(&mut self, key: String, value: String)
        ensures
            final(self).spec_metadata() == old(self).spec_metadata().push((key, value)),
            final(self).spec_entries() == old(self).spec_entries(),
            final(self).spec_flags() == old(self).spec_flags(),
    {
        self.metadata.push((key, value));
    }

    /// Set archive flags
    pub fn set_flags(&mut self, flags: ArchiveFlags)
        ensures
            final(self).spec_flags() == flags,
            final(self).spec_entries() == old(self).spec_entries(),
            final(self).spec_metadata() == old(self).spec_metadata(),
    {
        self.flags = flags;
    }

    /// The archive can be held in memory: its length is at most `usize::MAX`.
    pub open spec fn fits(&self) -> bool {
        spec_archive_len(self.spec_entries(), self.spec_metadata()) <= usize::MAX
    }

    /// Calculate size of the entry table
    fn entry_table_size(&self) -> (r: u64)
        requires
            self.fits(),
        ensures
            r == spec_entry_table_size(self.entries@),
    {
        let mut total: u64 = 0;
        let mut i: usize = 0;
        while i < self.entries.len()
            invariant
                0 <= i <= self.entries@.len(),
                self.fits(),
                total == spec_entry_table_size(self.entries@.take(i as int)),
            decreases self.entries@.len() - i,
        {
            let e = &self.entries[i];
            proof {
                assert(self.entries@.take(i + 1).drop_last() =~= self.entries@.take(i as int));
                lemma_table_size_prefix(self.entries@, i + 1);
            }
            let d = 44 + e.path.as_str().as_bytes().len() as u64 + e.name.as_str().as_bytes().len() as u64;
            total = total + d;
            i += 1;
        }
        assert(self.entries@.take(i as int) =~= self.entries@);
        total
    }

    /// Calculate size of the metadata region
    fn metadata_size(&self) -> (r: u64)
        requires
            self.fits(),
        ensures
            r == spec_metadata_size(self.metadata@),
    {
        let mut total: u64 = 0;
        let mut i: usize = 0;
        while i < self.metadata.len()
            invariant
                0 <= i <= self.metadata@.len(),
                self.fits(),
                total == spec_metadata_size(self.metadata@.take(i as int)),
            decreases self.metadata@.len() - i,
        {
            let m = &self.metadata[i];
            proof {
                assert(self.metadata@.take(i + 1).drop_last() =~= self.metadata@.take(i as int));
                lemma_metadata_size_prefix(self.metadata@, i + 1);
            }
            let d = 4 + m.0.as_str().as_bytes().len() as u64 + m.1.as_str().as_bytes().len() as u64;
            total = total + d;
            i += 1;
        }
        assert(self.metadata@.take(i as int) =~= self.metadata@);
        total
    }

    /// Calculate the data offset (where actual file data begins): the header,
    /// then each entry's descriptor with its path and name, then each metadata
    /// pair with its lengths.
    pub fn calculate_data_offset(&self) -> (r: u64)
        requires
            self.fits(),
        ensures
            r == spec_data_offset(self.spec_entries(), self.spec_metadata()),
    {
        HEADER_SIZE + self.entry_table_size() + self.metadata_size()
    }

    /// The length of the archive, or `None` when it would not fit in memory.
    fn checked_len(&self) -> (r: Option<u64>)
        ensures
            r matches Some(n) ==> self.fits() && n == spec_archive_len(self.entries@, self.metadata@),
            r is None ==> !self.fits(),
    {
        let limit: u64 = usize::MAX as u64;
        let ghost es = self.entries@;
        let ghost ms = self.metadata@;
        let ghost full = spec_archive_len(es, ms);
        let mut total: u64 = 48;
        let mut i: usize = 0;
        while i < self.entries.len()
            invariant
                0 <= i <= es.len(),
                es == self.entries@,
                ms == self.metadata@,
                full == spec_archive_len(es, ms),
                limit == usize::MAX,
                total == 48 + spec_entry_table_size(es.take(i as int)),
                total <= limit,
            decreases es.len() - i,
        {
            let e = &self.entries[i];
            proof {
                assert(es.take(i + 1).drop_last() =~= es.take(i as int));
                lemma_table_size_prefix(es, i + 1);
            }
            let pl = e.path.as_str().as_bytes().len() as u64;
            let nl = e.name.as_str().as_bytes().len() as u64;
            if total > limit - 44 {
                return None;
            }
            total = total + 44;
            if pl > limit - total {
                return None;
            }
            total = total + pl;
            if nl > limit - total {
                return None;
            }
            total = total + nl;
            i += 1;
        }
        assert(es.take(i as int) =~= es);
        let mut j: usize = 0;
        while j < self.metadata.len()
            invariant
                0 <= j <= ms.len(),
                es == self.entries@,
                ms == self.metadata@,
                full == spec_archive_len(es, ms),
                limit == usize::MAX,
                total == 48 + spec_entry_table_size(es) + spec_metadata_size(ms.take(j as int)),
                total <= limit,
            decreases ms.len() - j,
        {
            let m = &self.metadata[j];
            proof {
                assert(ms.take(j + 1).drop_last() =~= ms.take(j as int));
                lemma_metadata_size_prefix(ms, j + 1);
            }
            let kl = m.0.as_str().as_bytes().len() as u64;
            let vl = m.1.as_str().as_bytes().len() as u64;
            if total > limit - 4 {
                return None;
            }
            total = total + 4;
            if kl > limit - total {
                return None;
            }
            total = total + kl;
            if vl > limit - total {
                return None;
            }
            total = total + vl;
            j += 1;
        }
        assert(ms.take(j as int) =~= ms);
        let mut k: usize = 0;
        while k < self.entries.len()
            invariant
                0 <= k <= es.len(),
                es == self.entries@,
                ms == self.metadata@,
                full == spec_archive_len(es, ms),
                limit == usize::MAX,
                total == 48 + spec_entry_table_size(es) + spec_metadata_size(ms) + spec_data_span(
                    es.take(k as int),
                ),
                total <= limit,
            decreases es.len() - k,
        {
            let e = &self.entries[k];
            proof {
                assert(es.take(k + 1).drop_last() =~= es.take(k as int));
                lemma_data_span_prefix(es, k + 1);
            }
            let dl = e.data.len() as u64;
            if dl > limit - total {
                return None;
            }
            total = total + dl;
            let p = Self::padding(dl);
            if p > limit - total {
                return None;
            }
            total = total + p;
            k += 1;
        }
        assert(es.take(k as int) =~= es);
        Some(total)
    }

    /// The bytes of the archive, for entries modified `times[i]` seconds after
    /// the Unix epoch.
    #[verifier::rlimit(60)]
    #[verifier::spinoff_prover]
    pub fn encode(&self, times: &Vec<u64>) -> (r: Vec<u8>)
        requires
            self.fits(),
            times@.len() == self.spec_entries().len(),
        ensures
            r@ == spec_archive(self.spec_entries(), self.spec_metadata(), self.spec_flags(), times@),
    {
        let ghost es = self.entries@;
        let ghost ms = self.metadata@;
        let ghost ts = times@;
        let off = self.calculate_data_offset();
        let mut out: Vec<u8> = Vec::new();
        // Header.
        out.push(0x4d);
        out.push(0x4d);
        out.push(0x42);
        out.push(0x4b);
        put_u16(&mut out, FORMAT_VERSION);
        put_u16(&mut out, self.flags.0);
        put_u32(&mut out, (self.entries.len() as u64 % 0x1_0000_0000) as u32);
        put_u32(&mut out, (self.metadata.len() as u64 % 0x1_0000_0000) as u32);
        put_u64(&mut out, off);
        assert(out@ =~= magic_header() + spec_header_fields(
            self.flags.0,
            es.len(),
            ms.len(),
            off as nat,
        ));
        let checksum = crc32(out.as_slice());
        put_u32(&mut out, checksum);
        put_zeros(&mut out, 4);
        let ghost header = spec_header(self.flags.0, es.len(), ms.len(), off as nat);
        assert(out@ =~= header);
        proof {
            lemma_table_size_prefix(es, 0);
        }
        // Entry descriptors.
        let mut offset: u64 = off;
        let mut i: usize = 0;
        while i < self.entries.len()
            invariant
                0 <= i <= es.len(),
                es == self.entries@,
                ms == self.metadata@,
                ts == times@,
                ts.len() == es.len(),
                self.fits(),
                off == spec_data_offset(es, ms),
                offset == off + spec_data_span(es.take(i as int)),
                out@ == header + spec_entry_table(es.take(i as int), ts.take(i as int), off as nat),
            decreases es.len() - i,
        {
            let e = &self.entries[i];
            proof {
                assert(es.take(i + 1).drop_last() =~= es.take(i as int));
                assert(ts.take(i + 1).drop_last() =~= ts.take(i as int));
                lemma_data_span_prefix(es, i + 1);
            }
            put_entry_desc(&mut out, e, offset, times[i]);
            offset = offset + Self::padded_size(e.data.len() as u64);
            i += 1;
        }
        assert(es.take(i as int) =~= es);
        assert(ts.take(i as int) =~= ts);
        let ghost upto_table = out@;
        // Metadata.
        let mut j: usize = 0;
        while j < self.metadata.len()
            invariant
                0 <= j <= ms.len(),
                ms == self.metadata@,
                out@ == upto_table + spec_metadata_bytes(ms.take(j as int)),
            decreases ms.len() - j,
        {
            proof {
                assert(ms.take(j + 1).drop_last() =~= ms.take(j as int));
            }
            put_metadata_item(&mut out, &self.metadata[j]);
            j += 1;
        }
        assert(ms.take(j as int) =~= ms);
        let ghost upto_meta = out@;
        // Data, each entry padded to four bytes.
        let mut all: Vec<u8> = Vec::new();
        let mut k: usize = 0;
        while k < self.entries.len()
            invariant
                0 <= k <= es.len(),
                es == self.entries@,
                out@ == upto_meta + spec_data_region(es.take(k as int)),
                all@ == spec_all_data(es.take(k as int)),
            decreases es.len() - k,
        {
            let e = &self.entries[k];
            proof {
                assert(es.take(k + 1).drop_last() =~= es.take(k as int));
            }
            let ghost before = out@;
            put_bytes(&mut out, e.data.as_slice());
            put_zeros(&mut out, Self::padding(e.data.len() as u64));
            assert(out@ =~= before + e.data@ + zeros(spec_padding(e.data@.len())));
            put_bytes(&mut all, e.data.as_slice());
            k += 1;
        }
        assert(es.take(k as int) =~= es);
        // Footer.
        let ghost upto_data = out@;
        let total = crc32(all.as_slice());
        put_u32(&mut out, total);
        out.push(0x4b);
        out.push(0x42);
        out.push(0x4d);
        out.push(0x4d);
        put_u64(&mut out, 0);
        assert(le_bytes(0, 8) =~= zeros(8)) by {
            reveal_with_fuel(le_bytes, 9);
        }
        assert(out@ =~= upto_data + spec_footer(es));
        out
    }

    /// Write the complete archive: its bytes, each descriptor carrying its
    /// entry's modification time. An archive too large to be held in memory is
    /// refused.
    pub fn write(self) -> (r: Result<Vec<u8>, MMBakError>)
        ensures
            r is Ok <==> self.fits(),
            r matches Ok(bytes) ==> bytes@ == spec_archive(
                self.spec_entries(),
                self.spec_metadata(),
                self.spec_flags(),
                spec_entry_times(self.spec_entries()),
            ),
            r matches Err(e) ==> e matches MMBakError::InvalidDataFormat(m) && m@ == too_large_message(),
    {
        match self.checked_len() {
            None => {
                let m = "Archive too large";
                proof {
                    reveal_strlit("Archive too large");
                }
                assert(m@ =~= too_large_message());
                Err(MMBakError::InvalidDataFormat(m.to_owned()))
            },
            Some(_) => {
                let mut times: Vec<u64> = Vec::new();
                let mut i: usize = 0;
                while i < self.entries.len()
                    invariant
                        0 <= i <= self.entries@.len(),
                        times@ == spec_entry_times(self.entries@.take(i as int)),
                    decreases self.entries@.len() - i,
                {
                    proof {
                        assert(self.entries@.take(i + 1).drop_last() =~= self.entries@.take(i as int));
                    }
                    times.push(self.entries[i].modified_time);
                    assert(times@ =~= spec_entry_times(self.entries@.take(i + 1)));
                    i += 1;
                }
                assert(self.entries@.take(i as int) =~= self.entries@);
                let bytes = self.encode(&times);
                Ok(bytes)
            },
        }
    }

    fn padded_size(size: u64) -> (r: u64)
        requires
            size + 3 <= u64::MAX,
        ensures
            r == spec_padded_size(size as nat),
    {
        size + Self::padding(size)
    }

    fn padding(size: u64) -> (r: u64)
        ensures
            r == spec_padding(size as nat),
    {
        (4 - (size % 4)) % 4
    }
}


} // verus!
