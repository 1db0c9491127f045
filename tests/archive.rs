use gpk_unpacker::{
    decode_name, extract_archive, extract_entry, name_end, parse_entries, parse_header,
    read_le_u32, EntryDescriptor, GpkError, Header, ENTRY_SIZE, HEADER_SIZE, NAME_FIELD_SIZE,
};
use std::collections::HashMap;

fn name_field(name: &[u8]) -> Vec<u8> {
    let mut f = name.to_vec();
    f.resize(NAME_FIELD_SIZE, 0);
    f
}

fn record(name: &[u8], size: u32, offset: u32) -> Vec<u8> {
    let mut r = name_field(name);
    r.extend_from_slice(&size.to_le_bytes());
    r.extend_from_slice(&offset.to_le_bytes());
    r
}

/// An archive whose entries are laid out after the table, in order.
fn archive(files: &[(&[u8], &[u8])]) -> Vec<u8> {
    let mut buf = (files.len() as u32).to_le_bytes().to_vec();
    let mut offset = (HEADER_SIZE + files.len() * ENTRY_SIZE) as u32;
    for (name, content) in files {
        buf.extend(record(name, content.len() as u32, offset));
        offset += content.len() as u32;
    }
    for (_, content) in files {
        buf.extend_from_slice(content);
    }
    buf
}

#[test]
fn header_round_trip() {
    for n in [0u32, 1, 2, 255, 256, 0x0102_0304, 0xdead_beef, u32::MAX] {
        let mut buf = n.to_le_bytes().to_vec();
        assert_eq!(parse_header(&buf), Ok(Header { entry_count: n }));
        buf.extend_from_slice(&[9, 9, 9]);
        assert_eq!(parse_header(&buf), Ok(Header { entry_count: n }));
    }
}

#[test]
fn header_little_endian() {
    assert_eq!(parse_header(&[0x04, 0x03, 0x02, 0x01]), Ok(Header { entry_count: 0x0102_0304 }));
}

#[test]
fn header_truncated() {
    assert_eq!(parse_header(&[1, 2, 3]), Err(GpkError::TruncatedHeader { buffer_len: 3 }));
    assert_eq!(parse_header(&[]), Err(GpkError::TruncatedHeader { buffer_len: 0 }));
}

#[test]
fn read_le_u32_at_offset() {
    assert_eq!(read_le_u32(&[0xff, 0x78, 0x56, 0x34, 0x12], 1), 0x1234_5678);
}

#[test]
fn entries_none() {
    assert_eq!(parse_entries(&[0, 0, 0, 0], 0), Ok(vec![]));
    assert_eq!(parse_entries(&[0, 0, 0, 0, 7, 7, 7], 0), Ok(vec![]));
}

#[test]
fn entries_truncated() {
    let mut buf = 2u32.to_le_bytes().to_vec();
    buf.extend(record(b"one", 0, 0));
    assert_eq!(
        parse_entries(&buf, 2),
        Err(GpkError::TruncatedEntryTable { entry_count: 2, buffer_len: HEADER_SIZE + ENTRY_SIZE })
    );
    assert_eq!(parse_entries(&[0, 0, 0], 0), Err(GpkError::TruncatedEntryTable { entry_count: 0, buffer_len: 3 }));
}

#[test]
fn entries_in_table_order() {
    let mut buf = 2u32.to_le_bytes().to_vec();
    buf.extend(record(b"first.dat", 10, 0x0102_0304));
    buf.extend(record(b"second.dat", 0xaabb_ccdd, 7));
    let entries = parse_entries(&buf, 2).unwrap();
    assert_eq!(
        entries,
        vec![
            EntryDescriptor { name: "first.dat".to_string(), size: 10, offset: 0x0102_0304 },
            EntryDescriptor { name: "second.dat".to_string(), size: 0xaabb_ccdd, offset: 7 },
        ]
    );
}

#[test]
fn name_null_padded() {
    assert_eq!(decode_name(&name_field(b"file.txt")), "file.txt");
    assert_eq!(name_end(&name_field(b"file.txt")), 8);
}

#[test]
fn name_without_null() {
    let field = vec![b'x'; NAME_FIELD_SIZE];
    let name = decode_name(&field);
    assert_eq!(name.len(), 260);
    assert!(name.chars().all(|c| c == 'x'));
    assert_eq!(name_end(&field), 260);
}

#[test]
fn name_empty_and_trailing_bytes() {
    assert_eq!(decode_name(&name_field(b"")), "");
    let mut field = name_field(b"ab");
    field[3] = b'c';
    field[4] = b'd';
    assert_eq!(decode_name(&field), "ab");
}

#[test]
fn name_utf8_text() {
    assert_eq!(decode_name(&name_field("caf\u{e9}.txt".as_bytes())), "caf\u{e9}.txt");
    assert_eq!(decode_name(&name_field(&[b'a', 0xff, b'b'])), "a\u{fffd}b");
}

#[test]
fn extract_single_entry() {
    let mut buf = 1u32.to_le_bytes().to_vec();
    buf.extend(record(b"a.bin", 5, 272));
    buf.extend_from_slice(&[1, 2, 3, 4, 5]);
    let entries = parse_entries(&buf, 1).unwrap();
    let file = extract_entry(&buf, 0, &entries[0]).unwrap();
    assert_eq!(file.relative_name, "a.bin");
    assert_eq!(file.content, &[1, 2, 3, 4, 5]);
}

#[test]
fn extract_out_of_bounds() {
    let buf = vec![0u8; 10];
    let entry = EntryDescriptor { name: "x".to_string(), size: 5, offset: 6 };
    assert_eq!(
        extract_entry(&buf, 3, &entry).unwrap_err(),
        GpkError::EntryOutOfBounds { index: 3, offset: 6, size: 5, buffer_len: 10 }
    );
    let huge = EntryDescriptor { name: "x".to_string(), size: u32::MAX, offset: u32::MAX };
    assert_eq!(
        extract_entry(&buf, 0, &huge).unwrap_err(),
        GpkError::EntryOutOfBounds { index: 0, offset: u32::MAX, size: u32::MAX, buffer_len: 10 }
    );
}

#[test]
fn extract_up_to_the_end() {
    let buf: Vec<u8> = (0..10).collect();
    let entry = EntryDescriptor { name: "tail".to_string(), size: 4, offset: 6 };
    assert_eq!(extract_entry(&buf, 0, &entry).unwrap().content, &[6, 7, 8, 9]);
    let empty = EntryDescriptor { name: "none".to_string(), size: 0, offset: 10 };
    assert_eq!(extract_entry(&buf, 0, &empty).unwrap().content, &[] as &[u8]);
}

#[test]
fn archive_all_entries_in_order() {
    let buf = archive(&[(b"a.txt", b"hello"), (b"b.txt", b""), (b"a.txt", b"again")]);
    let files = extract_archive(&buf).unwrap();
    let got: Vec<(&str, &[u8])> = files.iter().map(|f| (f.relative_name.as_str(), f.content)).collect();
    assert_eq!(got, vec![("a.txt", &b"hello"[..]), ("b.txt", &b""[..]), ("a.txt", &b"again"[..])]);
}

#[test]
fn archive_errors() {
    assert_eq!(extract_archive(&[1, 0]).unwrap_err(), GpkError::TruncatedHeader { buffer_len: 2 });
    assert_eq!(
        extract_archive(&[1, 0, 0, 0]).unwrap_err(),
        GpkError::TruncatedEntryTable { entry_count: 1, buffer_len: 4 }
    );
    let mut buf = archive(&[(b"ok", b"12"), (b"bad", b"34")]);
    let len = buf.len();
    let second = HEADER_SIZE + ENTRY_SIZE + NAME_FIELD_SIZE;
    buf[second..second + 4].copy_from_slice(&100u32.to_le_bytes());
    let offset = u32::from_le_bytes(buf[second + 4..second + 8].try_into().unwrap());
    assert_eq!(
        extract_archive(&buf).unwrap_err(),
        GpkError::EntryOutOfBounds { index: 1, offset, size: 100, buffer_len: len }
    );
}

#[test]
fn archive_empty() {
    assert_eq!(extract_archive(&[0, 0, 0, 0]).unwrap().len(), 0);
}

fn write_all(disk: &mut HashMap<String, Vec<u8>>, buf: &[u8]) {
    for f in extract_archive(buf).unwrap() {
        disk.insert(f.relative_name, f.content.to_vec());
    }
}

#[test]
fn extraction_twice_same_files() {
    let buf = archive(&[(b"x", b"1"), (b"y", b"22"), (b"x", b"333")]);
    let mut disk: HashMap<String, Vec<u8>> = HashMap::new();
    disk.insert("other".to_string(), vec![0]);
    write_all(&mut disk, &buf);
    let once = disk.clone();
    write_all(&mut disk, &buf);
    assert_eq!(disk, once);
    assert_eq!(disk["x"], b"333");
    assert_eq!(disk["y"], b"22");
    assert_eq!(disk["other"], vec![0]);
}
