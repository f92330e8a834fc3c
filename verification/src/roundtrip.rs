//! What reading an archive gives back of what was written.

use vstd::prelude::*;
use vstd::utf8::{decode_utf8, encode_utf8, encode_utf8_decode_utf8, encode_utf8_valid_utf8};
use crate::archive::{ArchiveFlags, Compression, EntryType, FORMAT_VERSION, magic_footer, magic_header, spec_padded_size, spec_padding};
use crate::bytes::{le_bytes, le_value, lemma_le_roundtrip, lemma_le_roundtrip_small, lemma_pow256_values, pow256, spec_crc32};
use crate::unpack::{
    ArchiveError, ArchiveHeader, ArchiveLayoutView, EntryRecordView, MMBakEntry, entry_matches, field,
    lemma_parse_entries_step, spec_total_uncompressed,
    lemma_parse_items_step, spec_parse_archive, spec_parse_entries, spec_parse_entry, spec_parse_item,
    spec_parse_items,
};
use crate::writer::{
    EntryBuilder, name_bytes, path_bytes, spec_data_span, spec_desc_size, spec_entry_desc,
    spec_entry_table, spec_entry_table_size, spec_metadata_bytes, spec_metadata_item,
    spec_metadata_item_size, spec_metadata_size, spec_archive, spec_archive_len, spec_data_offset,
    spec_data_region, spec_footer, spec_header, spec_header_fields, zeros, lemma_data_span_prefix,
};

verus! {

/// The descriptor that reading gives back for entry `e` written with data at
/// `offset` and modification time `time`.
pub open spec fn spec_record_of(e: EntryBuilder, offset: nat, time: u64) -> EntryRecordView {
    EntryRecordView {
        entry_type: e.entry_type,
        compression: e.compression,
        permissions: e.permissions,
        path: e.path@,
        name: e.name@,
        uncompressed_size: e.data@.len() as u64,
        compressed_size: e.data@.len() as u64,
        data_offset: offset as u64,
        modified: time,
        checksum: spec_crc32(e.data@),
    }
}

/// The path and name of `e` fit the two-byte length fields.
pub open spec fn entry_names_fit(e: EntryBuilder) -> bool {
    path_bytes(e).len() < 0x10000 && name_bytes(e).len() < 0x10000
}

pub proof fn lemma_entry_codes(e: EntryBuilder)
    ensures
        EntryType::spec_from_code(e.entry_type.spec_code()) == Some(e.entry_type),
        Compression::spec_from_code(e.compression.spec_code()) == Some(e.compression),
{
}

/// Reading a descriptor gives back the entry it was written for.
pub proof fn lemma_parse_desc(e: EntryBuilder, offset: nat, time: u64, rest: Seq<u8>)
    requires
        entry_names_fit(e),
        offset < 0x1_0000_0000_0000_0000,
        e.data@.len() < 0x1_0000_0000_0000_0000,
    ensures
        spec_parse_entry(spec_entry_desc(e, offset, time) + rest) == Ok::<(EntryRecordView, nat), crate::unpack::ArchiveError>(
            (spec_record_of(e, offset, time), spec_desc_size(e)),
        ),
{
    reveal(spec_parse_entry);
    lemma_pow256_values();
    lemma_entry_codes(e);
    let pb = path_bytes(e);
    let nb = name_bytes(e);
    let d = e.data@;
    let f_perm = le_bytes(e.permissions as nat, 2);
    let f_plen = le_bytes(pb.len() % 0x10000, 2);
    let f_nlen = le_bytes(nb.len() % 0x10000, 2);
    let f_len = le_bytes(d.len(), 8);
    let f_off = le_bytes(offset, 8);
    let f_time = le_bytes(time as nat, 8);
    let f_crc = le_bytes(spec_crc32(d) as nat, 4);
    lemma_le_roundtrip_small(e.permissions as nat, 2);
    lemma_le_roundtrip_small(pb.len() % 0x10000, 2);
    lemma_le_roundtrip_small(nb.len() % 0x10000, 2);
    lemma_le_roundtrip_small(d.len(), 8);
    lemma_le_roundtrip_small(offset, 8);
    lemma_le_roundtrip_small(time as nat, 8);
    lemma_le_roundtrip_small(spec_crc32(d) as nat, 4);
    let desc = spec_entry_desc(e, offset, time);
    let s = desc + rest;
    assert(desc =~= seq![e.entry_type.spec_code(), e.compression.spec_code()] + f_perm + f_plen
        + f_nlen + f_len + f_len + f_off + f_time + f_crc + pb + nb);
    assert(s.subrange(2, 4) =~= f_perm);
    assert(s.subrange(4, 6) =~= f_plen);
    assert(s.subrange(6, 8) =~= f_nlen);
    assert(s.subrange(8, 16) =~= f_len);
    assert(s.subrange(16, 24) =~= f_len);
    assert(s.subrange(24, 32) =~= f_off);
    assert(s.subrange(32, 40) =~= f_time);
    assert(s.subrange(40, 44) =~= f_crc);
    assert(pb.len() % 0x10000 == pb.len());
    assert(nb.len() % 0x10000 == nb.len());
    assert(field(s, 4, 2) == pb.len());
    assert(field(s, 6, 2) == nb.len());
    assert(s.subrange(44, 44 + pb.len() as int) =~= pb);
    assert(s.subrange(44 + pb.len() as int, 44 + pb.len() as int + nb.len() as int) =~= nb);
    encode_utf8_valid_utf8(e.path@);
    encode_utf8_valid_utf8(e.name@);
    encode_utf8_decode_utf8(e.path@);
    encode_utf8_decode_utf8(e.name@);
}


/// The descriptors that reading gives back for entries `es` written with
/// modification times `ts` and the data region at `base`.
pub open spec fn spec_expected_records(es: Seq<EntryBuilder>, ts: Seq<u64>, base: nat) -> Seq<EntryRecordView>
    decreases es.len(),
{
    if es.len() == 0 {
        Seq::empty()
    } else {
        spec_expected_records(es.drop_last(), ts.drop_last(), base).push(
            spec_record_of(es.last(), base + spec_data_span(es.drop_last()), ts.last()),
        )
    }
}

pub proof fn lemma_desc_len(e: EntryBuilder, offset: nat, time: u64)
    ensures
        spec_entry_desc(e, offset, time).len() == spec_desc_size(e),
{
    lemma_le_roundtrip(e.permissions as nat, 2);
    lemma_le_roundtrip(path_bytes(e).len() % 0x10000, 2);
    lemma_le_roundtrip(name_bytes(e).len() % 0x10000, 2);
    lemma_le_roundtrip(e.data@.len(), 8);
    lemma_le_roundtrip(offset, 8);
    lemma_le_roundtrip(time as nat, 8);
    lemma_le_roundtrip(spec_crc32(e.data@) as nat, 4);
}

pub proof fn lemma_table_len(es: Seq<EntryBuilder>, ts: Seq<u64>, base: nat)
    ensures
        spec_entry_table(es, ts, base).len() == spec_entry_table_size(es),
    decreases es.len(),
{
    if es.len() > 0 {
        lemma_table_len(es.drop_last(), ts.drop_last(), base);
        lemma_desc_len(es.last(), base + spec_data_span(es.drop_last()), ts.last());
    }
}

/// Reading the descriptors of a table gives back every entry.
pub proof fn lemma_parse_table(es: Seq<EntryBuilder>, ts: Seq<u64>, base: nat, rest: Seq<u8>)
    requires
        ts.len() == es.len(),
        forall|i: int| 0 <= i < es.len() ==> entry_names_fit(#[trigger] es[i]),
        base + spec_data_span(es) < 0x1_0000_0000_0000_0000,
    ensures
        spec_parse_entries(spec_entry_table(es, ts, base) + rest, es.len()) == Ok::<(Seq<EntryRecordView>, nat), ArchiveError>(
            (spec_expected_records(es, ts, base), spec_entry_table_size(es)),
        ),
    decreases es.len(),
{
    if es.len() == 0 {
        assert(spec_entry_table(es, ts, base) + rest =~= rest);
    } else {
        let p = es.drop_last();
        let e = es.last();
        let off = base + spec_data_span(p);
        let desc = spec_entry_desc(e, off, ts.last());
        let x = spec_entry_table(p, ts.drop_last(), base) + (desc + rest);
        assert(spec_entry_table(es, ts, base) + rest =~= x);
        assert forall|i: int| 0 <= i < p.len() implies entry_names_fit(#[trigger] p[i]) by {
            assert(p[i] == es[i]);
        }
        lemma_parse_table(p, ts.drop_last(), base, desc + rest);
        lemma_table_len(p, ts.drop_last(), base);
        lemma_parse_entries_step(x, p.len());
        assert(x.skip(spec_entry_table_size(p) as int) =~= desc + rest);
        assert(entry_names_fit(e)) by {
            assert(e == es[es.len() - 1]);
        }
        lemma_parse_desc(e, off, ts.last(), rest);
        assert(p.len() + 1 == es.len());
    }
}

/// Reading a metadata item gives back the pair it was written for.
pub proof fn lemma_parse_meta_item(m: (String, String), rest: Seq<u8>)
    requires
        encode_utf8(m.0@).len() < 0x10000,
        encode_utf8(m.1@).len() < 0x10000,
    ensures
        spec_parse_item(spec_metadata_item(m) + rest) == Ok::<((Seq<char>, Seq<char>), nat), ArchiveError>(
            ((m.0@, m.1@), spec_metadata_item_size(m)),
        ),
{
    reveal(spec_parse_item);
    lemma_pow256_values();
    let kb = encode_utf8(m.0@);
    let vb = encode_utf8(m.1@);
    let fk = le_bytes(kb.len() % 0x10000, 2);
    let fv = le_bytes(vb.len() % 0x10000, 2);
    lemma_le_roundtrip_small(kb.len() % 0x10000, 2);
    lemma_le_roundtrip_small(vb.len() % 0x10000, 2);
    let item = spec_metadata_item(m);
    let s = item + rest;
    assert(item =~= fk + fv + kb + vb);
    assert(s.subrange(0, 2) =~= fk);
    assert(s.subrange(2, 4) =~= fv);
    assert(kb.len() % 0x10000 == kb.len());
    assert(vb.len() % 0x10000 == vb.len());
    assert(s.subrange(4, 4 + kb.len() as int) =~= kb);
    assert(s.subrange(4 + kb.len() as int, 4 + kb.len() as int + vb.len() as int) =~= vb);
    encode_utf8_valid_utf8(m.0@);
    encode_utf8_valid_utf8(m.1@);
    encode_utf8_decode_utf8(m.0@);
    encode_utf8_decode_utf8(m.1@);
}

pub open spec fn meta_fits(m: (String, String)) -> bool {
    encode_utf8(m.0@).len() < 0x10000 && encode_utf8(m.1@).len() < 0x10000
}

pub open spec fn meta_views(ms: Seq<(String, String)>) -> Seq<(Seq<char>, Seq<char>)> {
    ms.map_values(|m: (String, String)| (m.0@, m.1@))
}

pub proof fn lemma_metadata_len(ms: Seq<(String, String)>)
    ensures
        spec_metadata_bytes(ms).len() == spec_metadata_size(ms),
    decreases ms.len(),
{
    if ms.len() > 0 {
        lemma_metadata_len(ms.drop_last());
        let m = ms.last();
        lemma_le_roundtrip(encode_utf8(m.0@).len() % 0x10000, 2);
        lemma_le_roundtrip(encode_utf8(m.1@).len() % 0x10000, 2);
    }
}

/// Reading the metadata region gives back every pair.
pub proof fn lemma_parse_metadata(ms: Seq<(String, String)>, rest: Seq<u8>)
    requires
        forall|i: int| 0 <= i < ms.len() ==> meta_fits(#[trigger] ms[i]),
    ensures
        spec_parse_items(spec_metadata_bytes(ms) + rest, ms.len()) == Ok::<(Seq<(Seq<char>, Seq<char>)>, nat), ArchiveError>(
            (meta_views(ms), spec_metadata_size(ms)),
        ),
    decreases ms.len(),
{
    if ms.len() == 0 {
        assert(spec_metadata_bytes(ms) + rest =~= rest);
        assert(meta_views(ms) =~= Seq::<(Seq<char>, Seq<char>)>::empty());
    } else {
        let p = ms.drop_last();
        let m = ms.last();
        let item = spec_metadata_item(m);
        let x = spec_metadata_bytes(p) + (item + rest);
        assert(spec_metadata_bytes(ms) + rest =~= x);
        assert forall|i: int| 0 <= i < p.len() implies meta_fits(#[trigger] p[i]) by {
            assert(p[i] == ms[i]);
        }
        lemma_parse_metadata(p, item + rest);
        lemma_metadata_len(p);
        lemma_parse_items_step(x, p.len());
        assert(x.skip(spec_metadata_size(p) as int) =~= item + rest);
        assert(meta_fits(m)) by {
            assert(m == ms[ms.len() - 1]);
        }
        lemma_parse_meta_item(m, rest);
        assert(p.len() + 1 == ms.len());
        assert(meta_views(ms) =~= meta_views(p).push((m.0@, m.1@)));
    }
}


/// Entries, metadata and times that an archive can hold exactly: the counts fit
/// their four-byte fields, every path, name, key and value fits its two-byte
/// length field, and every offset fits eight bytes.
pub open spec fn spec_archive_wf(es: Seq<EntryBuilder>, ms: Seq<(String, String)>, ts: Seq<u64>) -> bool {
    &&& ts.len() == es.len()
    &&& es.len() < 0x1_0000_0000
    &&& ms.len() < 0x1_0000_0000
    &&& forall|i: int| 0 <= i < es.len() ==> entry_names_fit(#[trigger] es[i])
    &&& forall|i: int| 0 <= i < ms.len() ==> meta_fits(#[trigger] ms[i])
    &&& spec_archive_len(es, ms) <= u64::MAX
}

/// What reading gives back of the archive written for `es`, `ms`, `flags`, `ts`.
pub open spec fn spec_expected_layout(
    es: Seq<EntryBuilder>,
    ms: Seq<(String, String)>,
    flags: ArchiveFlags,
    ts: Seq<u64>,
) -> ArchiveLayoutView {
    let off = spec_data_offset(es, ms);
    ArchiveLayoutView {
        header: ArchiveHeader {
            version: FORMAT_VERSION,
            flags: flags,
            entry_count: es.len() as u32,
            metadata_count: ms.len() as u32,
            data_offset: off as u64,
            checksum: spec_crc32(magic_header() + spec_header_fields(flags.0, es.len(), ms.len(), off)),
        },
        entries: spec_expected_records(es, ts, off),
        metadata: meta_views(ms),
    }
}

/// Reading an archive gives back the header, every entry (with its type,
/// compression, permissions, path, name, sizes, data offset, time and data
/// checksum) and every metadata pair that were written, in order.
#[verifier::rlimit(80)]
#[verifier::spinoff_prover]
pub proof fn lemma_archive_roundtrip(
    es: Seq<EntryBuilder>,
    ms: Seq<(String, String)>,
    flags: ArchiveFlags,
    ts: Seq<u64>,
)
    requires
        spec_archive_wf(es, ms, ts),
    ensures
        spec_parse_archive(spec_archive(es, ms, flags, ts)) == Ok::<ArchiveLayoutView, ArchiveError>(
            spec_expected_layout(es, ms, flags, ts),
        ),
{
    lemma_pow256_values();
    let off = spec_data_offset(es, ms);
    let fields = spec_header_fields(flags.0, es.len(), ms.len(), off);
    let checked = magic_header() + fields;
    let crc = spec_crc32(checked);
    let h = spec_header(flags.0, es.len(), ms.len(), off);
    let t = spec_entry_table(es, ts, off);
    let m = spec_metadata_bytes(ms);
    let r = spec_data_region(es);
    let f = spec_footer(es);
    let b = spec_archive(es, ms, flags, ts);
    let f_ver = le_bytes(FORMAT_VERSION as nat, 2);
    let f_flags = le_bytes(flags.0 as nat, 2);
    let f_ne = le_bytes(es.len() % 0x1_0000_0000, 4);
    let f_nm = le_bytes(ms.len() % 0x1_0000_0000, 4);
    let f_off = le_bytes(off, 8);
    let f_crc = le_bytes(crc as nat, 4);
    lemma_le_roundtrip_small(FORMAT_VERSION as nat, 2);
    lemma_le_roundtrip_small(flags.0 as nat, 2);
    lemma_le_roundtrip_small(es.len() % 0x1_0000_0000, 4);
    lemma_le_roundtrip_small(ms.len() % 0x1_0000_0000, 4);
    lemma_le_roundtrip_small(off, 8);
    lemma_le_roundtrip_small(crc as nat, 4);
    assert(fields =~= f_ver + f_flags + f_ne + f_nm + f_off);
    assert(checked.len() == 24);
    assert(h =~= checked + f_crc + zeros(4));
    assert(h.len() == 32);
    assert(b =~= h + (t + (m + r + f)));
    assert(b.subrange(0, 4) =~= magic_header());
    assert(b.subrange(0, 24) =~= checked);
    assert(b.subrange(4, 6) =~= f_ver);
    assert(b.subrange(6, 8) =~= f_flags);
    assert(b.subrange(8, 12) =~= f_ne);
    assert(b.subrange(12, 16) =~= f_nm);
    assert(b.subrange(16, 24) =~= f_off);
    assert(b.subrange(24, 28) =~= f_crc);
    assert(es.len() % 0x1_0000_0000 == es.len());
    assert(ms.len() % 0x1_0000_0000 == ms.len());
    // The descriptors.
    lemma_table_len(es, ts, off);
    assert(b.skip(32) =~= t + (m + r + f));
    lemma_parse_table(es, ts, off, m + r + f);
    // The metadata.
    assert(b.skip(32 + spec_entry_table_size(es) as int) =~= m + (r + f));
    lemma_parse_metadata(ms, r + f);
}

/// The data offset written in the header is where the data begins: it is the
/// length of the header, the entry descriptors and the metadata, and the
/// archive continues from there with the entries' data and the footer.
pub proof fn lemma_data_offset(es: Seq<EntryBuilder>, ms: Seq<(String, String)>, flags: ArchiveFlags, ts: Seq<u64>)
    ensures
        spec_data_offset(es, ms) == spec_header(flags.0, es.len(), ms.len(), spec_data_offset(es, ms)).len()
            + spec_entry_table(es, ts, spec_data_offset(es, ms)).len() + spec_metadata_bytes(ms).len(),
        spec_archive(es, ms, flags, ts).skip(spec_data_offset(es, ms) as int) == spec_data_region(es)
            + spec_footer(es),
{
    let off = spec_data_offset(es, ms);
    let checked = magic_header() + spec_header_fields(flags.0, es.len(), ms.len(), off);
    lemma_le_roundtrip(FORMAT_VERSION as nat, 2);
    lemma_le_roundtrip(flags.0 as nat, 2);
    lemma_le_roundtrip(es.len() % 0x1_0000_0000, 4);
    lemma_le_roundtrip(ms.len() % 0x1_0000_0000, 4);
    lemma_le_roundtrip(off, 8);
    lemma_le_roundtrip(spec_crc32(checked) as nat, 4);
    assert(spec_header(flags.0, es.len(), ms.len(), off).len() == 32);
    lemma_table_len(es, ts, off);
    lemma_metadata_len(ms);
    let pre = spec_header(flags.0, es.len(), ms.len(), off) + spec_entry_table(es, ts, off) + spec_metadata_bytes(ms);
    assert(spec_archive(es, ms, flags, ts) =~= pre + (spec_data_region(es) + spec_footer(es)));
    assert(pre.len() == off);
    assert(spec_archive(es, ms, flags, ts).skip(off as int) =~= spec_data_region(es) + spec_footer(es));
}

/// The data region is as long as the entries' padded data.
pub proof fn lemma_data_region_len(es: Seq<EntryBuilder>)
    ensures
        spec_data_region(es).len() == spec_data_span(es),
    decreases es.len(),
{
    if es.len() > 0 {
        lemma_data_region_len(es.drop_last());
    }
}

/// Within the data region, entry `i`'s data starts after the padded data of
/// the entries before it and is followed by its padding.
pub proof fn lemma_data_region_entry(es: Seq<EntryBuilder>, i: int)
    requires
        0 <= i < es.len(),
    ensures
        spec_data_span(es.take(i)) + spec_padded_size(es[i].data@.len()) == spec_data_span(es.take(i + 1)),
        spec_data_span(es.take(i + 1)) <= spec_data_region(es).len(),
        spec_data_region(es).subrange(spec_data_span(es.take(i)) as int, (spec_data_span(es.take(i)) + es[i].data@.len()) as int) == es[i].data@,
        spec_data_region(es).subrange((spec_data_span(es.take(i)) + es[i].data@.len()) as int, spec_data_span(es.take(i + 1)) as int) == zeros(spec_padding(es[i].data@.len())),
    decreases es.len(),
{
    let d = es.drop_last();
    lemma_data_region_len(es);
    lemma_data_region_len(d);
    assert(es.take(i + 1).drop_last() =~= es.take(i));
    assert(es.take(i + 1).last() == es[i]);
    let r = spec_data_region(es);
    let rd = spec_data_region(d);
    let last = es.last();
    assert(r == rd + last.data@ + zeros(spec_padding(last.data@.len())));
    if i == es.len() - 1 {
        assert(es.take(i) =~= d);
        assert(es.take(i + 1) =~= es);
        assert(r.subrange(rd.len() as int, (rd.len() + last.data@.len()) as int) =~= last.data@);
        assert(r.subrange((rd.len() + last.data@.len()) as int, r.len() as int) =~= zeros(
            spec_padding(last.data@.len()),
        ));
    } else {
        assert(d.take(i) =~= es.take(i));
        assert(d.take(i + 1) =~= es.take(i + 1));
        assert(d[i] == es[i]);
        lemma_data_region_entry(d, i);
        let a = spec_data_span(es.take(i));
        let b = spec_data_span(es.take(i + 1));
        assert(r.subrange(a as int, (a + es[i].data@.len()) as int) =~= rd.subrange(a as int, (a + es[i].data@.len()) as int));
        assert(r.subrange((a + es[i].data@.len()) as int, b as int) =~= rd.subrange((a + es[i].data@.len()) as int, b as int));
    }
}

/// The descriptor read back for entry `i` of `es`, with the data region at `base`.
pub proof fn lemma_expected_record(es: Seq<EntryBuilder>, ts: Seq<u64>, base: nat, i: int)
    requires
        0 <= i < es.len(),
        ts.len() == es.len(),
    ensures
        spec_expected_records(es, ts, base).len() == es.len(),
        spec_expected_records(es, ts, base)[i] == spec_record_of(es[i], base + spec_data_span(es.take(i)), ts[i]),
    decreases es.len(),
{
    let d = es.drop_last();
    let rd = spec_expected_records(d, ts.drop_last(), base);
    let last = spec_record_of(es.last(), base + spec_data_span(d), ts.last());
    assert(spec_expected_records(es, ts, base) == rd.push(last));
    if es.len() > 1 {
        lemma_expected_record(d, ts.drop_last(), base, 0);
    } else {
        assert(rd.len() == 0);
    }
    assert(rd.len() == d.len());
    if i == es.len() - 1 {
        assert(es.take(i) =~= d);
        assert(ts.last() == ts[i]);
    } else {
        assert(d.take(i) =~= es.take(i));
        lemma_expected_record(d, ts.drop_last(), base, i);
        assert(d[i] == es[i]);
        assert(ts.drop_last()[i] == ts[i]);
    }
}

/// Where each entry's data lands: the offset recorded in entry `i`'s
/// descriptor is the data offset plus the padded sizes of the entries before
/// it; the entry's data stands there, followed by zero bytes up to a multiple
/// of four; and the archive ends 16 bytes after the last padded data.
pub proof fn lemma_entry_placement(
    es: Seq<EntryBuilder>,
    ms: Seq<(String, String)>,
    flags: ArchiveFlags,
    ts: Seq<u64>,
    i: int,
)
    requires
        0 <= i < es.len(),
        ts.len() == es.len(),
    ensures
        ({
            let off = spec_data_offset(es, ms) + spec_data_span(es.take(i));
            let d = es[i].data@;
            &&& spec_expected_records(es, ts, spec_data_offset(es, ms))[i].data_offset == off as u64
            &&& spec_archive(es, ms, flags, ts).subrange(off as int, (off + d.len()) as int) == d
            &&& spec_archive(es, ms, flags, ts).subrange((off + d.len()) as int, (off + spec_padded_size(d.len())) as int)
                == zeros(spec_padding(d.len()))
        }),
        spec_archive(es, ms, flags, ts).len() == spec_data_offset(es, ms) + spec_data_span(es) + 16,
{
    let base = spec_data_offset(es, ms);
    let a = spec_archive(es, ms, flags, ts);
    lemma_data_offset(es, ms, flags, ts);
    lemma_expected_record(es, ts, base, i);
    lemma_data_region_entry(es, i);
    lemma_data_region_len(es);
    lemma_le_roundtrip(spec_crc32(crate::writer::spec_all_data(es)) as nat, 4);
    assert(spec_footer(es).len() == 16);
    let tail = spec_data_region(es) + spec_footer(es);
    assert(a.skip(base as int) == tail);
    assert(a.len() == base + tail.len());
    let x = spec_data_span(es.take(i));
    let n = es[i].data@.len();
    let y = spec_data_span(es.take(i + 1));
    assert(a.subrange((base + x) as int, (base + x + n) as int) =~= tail.subrange(x as int, (x + n) as int));
    assert(tail.subrange(x as int, (x + n) as int) =~= spec_data_region(es).subrange(x as int, (x + n) as int));
    assert(a.subrange((base + x + n) as int, (base + y) as int) =~= tail.subrange((x + n) as int, y as int));
    assert(tail.subrange((x + n) as int, y as int) =~= spec_data_region(es).subrange((x + n) as int, y as int));
}

/// The data of the entries, one after another, as given to `add_entry`.
proof fn lemma_all_data_flatten(es: Seq<EntryBuilder>)
    ensures
        crate::writer::spec_all_data(es) == es.map_values(|e: EntryBuilder| e.data@).flatten(),
    decreases es.len(),
{
    let ds = es.map_values(|e: EntryBuilder| e.data@);
    ds.lemma_flatten_and_flatten_alt_are_equivalent();
    if es.len() > 0 {
        lemma_all_data_flatten(es.drop_last());
        assert(ds.drop_last() =~= es.drop_last().map_values(|e: EntryBuilder| e.data@));
        let d = ds.drop_last();
        d.lemma_flatten_and_flatten_alt_are_equivalent();
    }
}

/// The archive ends with its footer: the CRC-32 of the entries' data, one
/// after another exactly as given (none of the padding of the data region),
/// then the footer's magic bytes and eight zero bytes.
pub proof fn lemma_footer_checksum(es: Seq<EntryBuilder>, ms: Seq<(String, String)>, flags: ArchiveFlags, ts: Seq<u64>)
    ensures
        ({
            let a = spec_archive(es, ms, flags, ts);
            let n = a.len() as int;
            &&& n >= 16
            &&& a.subrange(n - 16, n - 12) == le_bytes(
                spec_crc32(es.map_values(|e: EntryBuilder| e.data@).flatten()) as nat,
                4,
            )
            &&& a.subrange(n - 12, n - 8) == magic_footer()
            &&& a.subrange(n - 8, n) == zeros(8)
        }),
{
    lemma_all_data_flatten(es);
    let crc = spec_crc32(crate::writer::spec_all_data(es));
    lemma_le_roundtrip(crc as nat, 4);
    let f = spec_footer(es);
    assert(f.len() == 16);
    let a = spec_archive(es, ms, flags, ts);
    let pre = spec_header(flags.0, es.len(), ms.len(), spec_data_offset(es, ms)) + spec_entry_table(
        es,
        ts,
        spec_data_offset(es, ms),
    ) + spec_metadata_bytes(ms) + spec_data_region(es);
    assert(a == pre + f);
    let n = a.len() as int;
    assert(a.subrange(n - 16, n - 12) =~= f.subrange(0, 4));
    assert(f.subrange(0, 4) =~= le_bytes(crc as nat, 4));
    assert(a.subrange(n - 12, n - 8) =~= magic_footer());
    assert(a.subrange(n - 8, n) =~= zeros(8));
}

/// The total size of entries is additive: one entry counts its own
/// uncompressed size, and two lists of entries count the sum of their totals.
pub proof fn lemma_total_uncompressed_additive(a: Seq<MMBakEntry>, b: Seq<MMBakEntry>, e: MMBakEntry)
    ensures
        spec_total_uncompressed(Seq::<MMBakEntry>::empty()) == 0,
        spec_total_uncompressed(seq![e]) == e.uncompressed_size,
        spec_total_uncompressed(a + b) == spec_total_uncompressed(a) + spec_total_uncompressed(b),
    decreases b.len(),
{
    assert(seq![e].drop_last() =~= Seq::<MMBakEntry>::empty());
    if b.len() > 0 {
        lemma_total_uncompressed_additive(a, b.drop_last(), e);
        assert((a + b).drop_last() =~= a + b.drop_last());
    } else {
        assert(a + b =~= a);
    }
}

/// The total uncompressed size of the entries read back from a written
/// archive is the number of data bytes given for them.
pub proof fn lemma_read_back_total(es: Seq<EntryBuilder>, ts: Seq<u64>, base: nat, ents: Seq<MMBakEntry>)
    requires
        ts.len() == es.len(),
        ents.len() == es.len(),
        forall|i: int| 0 <= i < es.len() ==> es[i].data@.len() <= u64::MAX,
        forall|i: int|
            0 <= i < es.len() ==> entry_matches(#[trigger] ents[i], spec_expected_records(es, ts, base)[i]),
    ensures
        spec_total_uncompressed(ents) == es.map_values(|e: EntryBuilder| e.data@).flatten().len(),
    decreases es.len(),
{
    lemma_all_data_flatten(es);
    if es.len() > 0 {
        let d = es.drop_last();
        let n = es.len() - 1;
        assert forall|i: int| 0 <= i < d.len() implies entry_matches(
            #[trigger] ents.drop_last()[i],
            spec_expected_records(d, ts.drop_last(), base)[i],
        ) by {
            lemma_expected_record(es, ts, base, i);
            lemma_expected_record(d, ts.drop_last(), base, i);
            assert(d.take(i) =~= es.take(i));
            assert(ents.drop_last()[i] == ents[i]);
        }
        lemma_read_back_total(d, ts.drop_last(), base, ents.drop_last());
        lemma_all_data_flatten(d);
        lemma_expected_record(es, ts, base, n);
        assert(entry_matches(ents[n], spec_expected_records(es, ts, base)[n]));
        assert(ents.last() == ents[n]);
    }
}

} // verus!
