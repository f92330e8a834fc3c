use mmbak_parser::archive::{ArchiveFlags, Compression, EntryType, FORMAT_VERSION};
use mmbak_parser::error::MMBakError;
use mmbak_parser::unpack::{parse_layout, ArchiveError, MMBakArchive, MMBakEntry};
use mmbak_parser::writer::{dir_entry, dir_entry_at, file_entry, file_entry_at, MMBakWriter};

fn read_back(buf: &[u8]) -> MMBakArchive {
    MMBakArchive::from_bytes(buf).unwrap()
}

#[test]
fn test_header_parsing() {
    // Create a minimal valid archive in memory
    let mut writer = MMBakWriter::new();
    writer.add_entry(file_entry("", "test.txt", b"hello world".to_vec()));
    let buf = writer.write().unwrap();

    // Parse it back
    let archive = read_back(&buf);

    let header = archive.header();
    assert_eq!(header.version, 1);
    assert_eq!(header.entry_count, 1);
}

#[test]
fn test_entry_types() {
    let mut writer = MMBakWriter::new();
    writer.add_entry(dir_entry("", "mydir"));
    writer.add_entry(file_entry("mydir", "file.txt", b"content".to_vec()));
    let buf = writer.write().unwrap();

    let archive = read_back(&buf);

    assert_eq!(archive.entries().len(), 2);
    assert!(archive.entries()[0].is_dir());
    assert!(archive.entries()[1].is_file());
    assert_eq!(archive.entries()[0].name, "mydir");
    assert_eq!(archive.entries()[1].name, "file.txt");
}

#[test]
fn test_metadata() {
    let mut writer = MMBakWriter::new();
    writer.add_metadata("author".to_string(), "test".to_string());
    writer.add_metadata("version".to_string(), "1.0".to_string());
    writer.add_entry(file_entry("", "a.txt", vec![0u8; 100]));
    let buf = writer.write().unwrap();

    let archive = read_back(&buf);

    assert_eq!(archive.metadata().len(), 2);
    assert_eq!(archive.metadata()[0].key, "author");
    assert_eq!(archive.metadata()[0].value, "test");
    assert_eq!(archive.metadata()[1].key, "version");
    assert_eq!(archive.metadata()[1].value, "1.0");
}

#[test]
fn test_find_entry() {
    let mut writer = MMBakWriter::new();
    writer.add_entry(file_entry("config", "app.json", b"{}".to_vec()));
    writer.add_entry(file_entry("data", "users.db", vec![1u8; 50]));
    let buf = writer.write().unwrap();

    let archive = read_back(&buf);

    assert!(archive.find_entry("config/app.json").is_some());
    assert!(archive.find_entry("data/users.db").is_some());
    assert!(archive.find_entry("nonexistent").is_none());
}

#[test]
fn test_size_calculations() {
    let mut writer = MMBakWriter::new();
    writer.add_entry(file_entry("", "small.txt", vec![0u8; 100]));
    writer.add_entry(file_entry("", "large.txt", vec![0u8; 1000]));
    let buf = writer.write().unwrap();

    let archive = read_back(&buf);

    assert_eq!(archive.total_uncompressed_size(), 1100);
    assert_eq!(archive.files().len(), 2);
}

#[test]
fn test_invalid_magic() {
    let data = b"XXXXinvalid data";
    let result = MMBakArchive::from_bytes(data.as_slice());

    assert!(result.is_err());
    let err = result.err().unwrap().message();
    assert!(err.contains("Invalid magic bytes"));
}

#[test]
fn test_empty_archive() {
    let writer = MMBakWriter::new();
    let buf = writer.write().unwrap();

    let archive = read_back(&buf);

    assert_eq!(archive.entries().len(), 0);
    assert_eq!(archive.metadata().len(), 0);
    assert_eq!(archive.total_uncompressed_size(), 0);
}

#[test]
fn test_entry_full_path() {
    let entry = MMBakEntry {
        entry_type: EntryType::File,
        compression: Compression::Uncompressed,
        permissions: 0o644,
        path: "config/app".to_string(),
        name: "settings.json".to_string(),
        uncompressed_size: 42,
        compressed_size: 42,
        data_offset: 0,
        modified_time: now_secs(),
        checksum: 0,
    };

    assert_eq!(entry.full_path(), "config/app/settings.json");

    let root_entry = MMBakEntry {
        entry_type: EntryType::File,
        compression: Compression::Uncompressed,
        permissions: 0o644,
        path: "".to_string(),
        name: "README.md".to_string(),
        uncompressed_size: 100,
        compressed_size: 100,
        data_offset: 0,
        modified_time: now_secs(),
        checksum: 0,
    };

    assert_eq!(root_entry.full_path(), "README.md");
}

// ---------------------------------------------------------------------------

#[test]
fn archive_layout_round_trip() {
    let mut writer = MMBakWriter::new();
    writer.add_metadata("k".to_string(), "v".to_string());
    writer.add_entry(file_entry("a", "x.bin", vec![7u8; 5]));
    writer.add_entry(dir_entry("a", "sub"));
    writer.add_entry(file_entry("a/sub", "ü.txt", b"abcdefgh".to_vec()));
    let buf = writer.write().unwrap();
    let layout = parse_layout(&buf).unwrap();
    assert_eq!(layout.header.version, FORMAT_VERSION);
    assert_eq!(layout.header.flags, ArchiveFlags(0));
    assert_eq!(layout.header.entry_count, 3);
    assert_eq!(layout.header.metadata_count, 1);
    // 32 + (44+1+5) + (44+1+3) + (44+5+6) + (4+1+1)
    let data_offset = 32 + 50 + 48 + 55 + 6;
    assert_eq!(layout.header.data_offset, data_offset);
    assert_eq!(layout.entries[0].data_offset, data_offset);
    // 5 bytes padded to 8, then an empty directory
    assert_eq!(layout.entries[1].data_offset, data_offset + 8);
    assert_eq!(layout.entries[2].data_offset, data_offset + 8);
    assert_eq!(layout.entries[2].name, "ü.txt");
    assert_eq!(layout.entries[2].path, "a/sub");
    assert_eq!(layout.entries[2].uncompressed_size, 8);
    assert_eq!(layout.entries[0].checksum, crc32fast::hash(&[7u8; 5]));
    assert_eq!(layout.entries[1].entry_type, EntryType::Directory);
    assert_eq!(layout.entries[0].permissions, 0o644);
    assert_eq!(layout.entries[1].permissions, 0o755);
    // header, table, metadata, data (8 + 0 + 8) and the 16-byte footer
    assert_eq!(buf.len() as u64, data_offset + 16 + 16);
    assert_eq!(&buf[0..4], b"MMBK");
    assert_eq!(&buf[buf.len() - 12..buf.len() - 8], b"KBMM");
}

#[test]
fn compressed_entry_sets_flag() {
    let mut writer = MMBakWriter::new();
    let mut e = file_entry("", "z", vec![1, 2, 3]);
    e.compression = Compression::Deflate;
    writer.add_entry(e);
    let buf = writer.write().unwrap();
    let archive = read_back(&buf);
    assert_eq!(archive.header().flags, ArchiveFlags(1));
    assert_eq!(archive.entries()[0].compression, Compression::Deflate);
}

#[test]
fn set_flags_is_written() {
    let mut writer = MMBakWriter::new();
    writer.set_flags(ArchiveFlags(0x8002));
    let buf = writer.write().unwrap();
    assert_eq!(read_back(&buf).header().flags, ArchiveFlags(0x8002));
}

#[test]
fn parse_errors() {
    assert_eq!(parse_layout(b"MM").err(), Some(ArchiveError::Truncated));
    assert_eq!(parse_layout(b"MMBK1234").err(), Some(ArchiveError::Truncated));
    let writer = MMBakWriter::new();
    let good = writer.write().unwrap();
    // A changed header field no longer matches the header checksum.
    let mut bad = good.clone();
    bad[6] ^= 1;
    assert_eq!(parse_layout(&bad).err(), Some(ArchiveError::HeaderChecksum));

    let mut writer = MMBakWriter::new();
    writer.add_entry(file_entry("", "f", vec![]));
    let one = writer.write().unwrap();
    // The entry type byte of the first descriptor.
    let mut bad = one.clone();
    bad[32] = 9;
    assert_eq!(parse_layout(&bad).err(), Some(ArchiveError::UnknownEntryType));
    let mut bad = one.clone();
    bad[33] = 9;
    assert_eq!(parse_layout(&bad).err(), Some(ArchiveError::UnknownCompression));
    let mut bad = one.clone();
    bad[32 + 44] = 0xff;
    assert_eq!(parse_layout(&bad).err(), Some(ArchiveError::InvalidUtf8));
    // Cut inside the descriptor.
    assert_eq!(parse_layout(&one[..40]).err(), Some(ArchiveError::Truncated));

    match MMBakArchive::from_bytes(&one[..40]) {
        Err(MMBakError::InvalidDataFormat(m)) => assert_eq!(m, "Archive is truncated"),
        _ => panic!("expected a format error"),
    }
}

#[test]
fn archive_file_size_and_time() {
    let mut writer = MMBakWriter::new();
    writer.add_entry(file_entry("", "t", vec![1]));
    let buf = writer.write().unwrap();
    let archive = read_back(&buf);
    assert_eq!(archive.file_size(), buf.len() as u64);
    let secs = archive.entries()[0].modified_time;
    let now = now_secs();
    assert!(secs <= now && now - secs < 600);
}

#[test]
fn entry_times_are_written_and_read_back() {
    let f = file_entry_at("p", "f", b"123456789".to_vec(), 1234);
    assert_eq!(f.modified_time, 1234);
    let d = dir_entry_at("", "p", 0);
    assert_eq!(d.modified_time, 0);
    let mut w = MMBakWriter::new();
    w.add_entry(d);
    w.add_entry(f);
    let buf = w.write().unwrap();
    // The time field of the second descriptor (32 + 44 + 1 bytes in, 32 bytes into it).
    assert_eq!(&buf[109..117], &1234u64.to_le_bytes());
    let layout = parse_layout(&buf).unwrap();
    assert_eq!(layout.entries[0].modified, 0);
    assert_eq!(layout.entries[1].modified, 1234);
    // The CRC-32 check value.
    assert_eq!(layout.entries[1].checksum, 0xCBF4_3926);
    let archive = read_back(&buf);
    assert_eq!(archive.entries()[1].modified_time, 1234);
}

#[test]
fn entry_data_lands_at_its_offset() {
    let mut w = MMBakWriter::new();
    w.add_entry(file_entry_at("", "a", vec![7u8; 5], 1));
    w.add_entry(file_entry_at("", "b", vec![9u8; 2], 2));
    let d = w.calculate_data_offset() as usize;
    assert_eq!(d, 32 + (44 + 1) * 2);
    let buf = w.write().unwrap();
    let layout = parse_layout(&buf).unwrap();
    assert_eq!(layout.entries[0].data_offset as usize, d);
    assert_eq!(layout.entries[1].data_offset as usize, d + 8);
    assert_eq!(&buf[d..d + 5], &[7u8; 5]);
    assert_eq!(&buf[d + 5..d + 8], &[0u8; 3]);
    assert_eq!(&buf[d + 8..d + 10], &[9u8; 2]);
    assert_eq!(&buf[d + 10..d + 12], &[0u8; 2]);
    assert_eq!(buf.len(), d + 12 + 16);
}

/// The current time in whole seconds since the Unix epoch.
fn now_secs() -> u64 {
    std::time::SystemTime::now().duration_since(std::time::UNIX_EPOCH).unwrap().as_secs()
}
