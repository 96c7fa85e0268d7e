use wadparse::wad::{decode_directory, decode_header, parse_wad, read_directory_entry, Header, Identification, ParseError};

fn le32(v: i32) -> [u8; 4] {
    v.to_le_bytes()
}

fn header_bytes(tag: &[u8; 4], numlumps: i32, infotablesofs: i32) -> Vec<u8> {
    let mut b: Vec<u8> = Vec::new();
    b.extend_from_slice(tag);
    b.extend_from_slice(&le32(numlumps));
    b.extend_from_slice(&le32(infotablesofs));
    b
}

fn record_bytes(filepos: i32, size: i32, name: &[u8; 8]) -> Vec<u8> {
    let mut b: Vec<u8> = Vec::new();
    b.extend_from_slice(&le32(filepos));
    b.extend_from_slice(&le32(size));
    b.extend_from_slice(name);
    b
}

#[test]
fn header_round_trip_iwad() {
    let wad = header_bytes(b"IWAD", 7, 12);
    let h = decode_header(&wad).unwrap();
    assert_eq!(h.identification, Identification::IWAD);
    assert_eq!(h.numlumps, 7);
    assert_eq!(h.infotablesofs, 12);
}

#[test]
fn header_round_trip_pwad_negative_fields() {
    let wad = header_bytes(b"PWAD", -5, -123456);
    let h = decode_header(&wad).unwrap();
    assert_eq!(h.identification, Identification::PWAD);
    assert_eq!(h.numlumps, -5);
    assert_eq!(h.infotablesofs, -123456);
}

#[test]
fn header_round_trip_extreme_fields() {
    let wad = header_bytes(b"IWAD", i32::MIN, i32::MAX);
    let h = decode_header(&wad).unwrap();
    assert_eq!(h.numlumps, i32::MIN);
    assert_eq!(h.infotablesofs, i32::MAX);
}

#[test]
fn unrecognized_tag_fails() {
    let wad = header_bytes(b"ZWAD", 0, 0);
    assert_eq!(decode_header(&wad), Err(ParseError::UnrecognizedIdentification));
}

#[test]
fn lowercase_tag_fails() {
    let wad = header_bytes(b"iwad", 3, 12);
    assert_eq!(decode_header(&wad), Err(ParseError::UnrecognizedIdentification));
}

#[test]
fn example_failure_xwad() {
    let mut wad = header_bytes(b"XWAD", 2, 12);
    wad.extend_from_slice(&record_bytes(100, 4, b"LUMP0000"));
    assert_eq!(decode_header(&wad), Err(ParseError::UnrecognizedIdentification));
    assert_eq!(parse_wad(&wad), Err(ParseError::UnrecognizedIdentification));
}

#[test]
fn short_buffer_fails() {
    let wad: Vec<u8> = b"IWAD\x02\x00\x00\x00\x0c\x00\x00".to_vec();
    assert_eq!(wad.len(), 11);
    assert_eq!(decode_header(&wad), Err(ParseError::TruncatedHeader));
}

#[test]
fn empty_buffer_fails() {
    let wad: Vec<u8> = Vec::new();
    assert_eq!(decode_header(&wad), Err(ParseError::TruncatedHeader));
    assert_eq!(parse_wad(&wad), Err(ParseError::TruncatedHeader));
}

#[test]
fn directory_count_formula() {
    // 12 header bytes + 33 more: floor(33 / 16) == 2 whole records.
    let mut wad = header_bytes(b"IWAD", 2, 12);
    wad.extend_from_slice(&record_bytes(100, 4, b"AAAAAAAA"));
    wad.extend_from_slice(&record_bytes(200, 8, b"BBBBBBBB"));
    wad.push(0xEE);
    assert_eq!(wad.len(), 45);
    assert_eq!(decode_directory(&wad, 12).len(), 2);
    // From the start of the buffer: floor(45 / 16) == 2 as well.
    assert_eq!(decode_directory(&wad, 0).len(), 2);
    assert_eq!(decode_directory(&wad, 1).len(), 2);
}

#[test]
fn directory_offset_out_of_range_is_empty() {
    let mut wad = header_bytes(b"IWAD", 0, -4);
    wad.extend_from_slice(&record_bytes(1, 2, b"CCCCCCCC"));
    assert_eq!(decode_directory(&wad, -4).len(), 0);
    assert_eq!(decode_directory(&wad, i32::MIN).len(), 0);
    assert_eq!(decode_directory(&wad, wad.len() as i32).len(), 0);
    assert_eq!(decode_directory(&wad, i32::MAX).len(), 0);
}

#[test]
fn trailing_partial_record_ignored() {
    let mut wad = header_bytes(b"PWAD", 1, 12);
    wad.extend_from_slice(&record_bytes(64, 16, b"DDDDDDDD"));
    wad.extend_from_slice(&[1, 2, 3, 4, 5]);
    let dir = decode_directory(&wad, 12);
    assert_eq!(dir.len(), 1);
    assert_eq!(dir[0].filepos, 64);
    assert_eq!(dir[0].size, 16);
    assert_eq!(dir[0].name, "DDDDDDDD");
}

#[test]
fn descriptor_order_preserved() {
    let mut wad = header_bytes(b"IWAD", 3, 12);
    wad.extend_from_slice(&record_bytes(10, 1, b"FIRST\0\0\0"));
    wad.extend_from_slice(&record_bytes(20, 2, b"SECOND\0\0"));
    wad.extend_from_slice(&record_bytes(30, 3, b"THIRD\0\0\0"));
    let dir = decode_directory(&wad, 12);
    assert_eq!(dir.len(), 3);
    assert_eq!(dir[0].name, "FIRST\0\0\0");
    assert_eq!(dir[1].name, "SECOND\0\0");
    assert_eq!(dir[2].name, "THIRD\0\0\0");
    assert_eq!(dir[0].filepos, 10);
    assert_eq!(dir[1].filepos, 20);
    assert_eq!(dir[2].filepos, 30);
}

#[test]
fn directory_round_trip() {
    let records: [(i32, i32, &[u8; 8]); 3] =
        [(100, 4, b"E1M1\0\0\0\0"), (-7, 0, b"THINGS\0\0"), (i32::MAX, i32::MIN, b"VERTEXES")];
    let mut wad = header_bytes(b"PWAD", records.len() as i32, 12);
    for (filepos, size, name) in records.iter() {
        wad.extend_from_slice(&record_bytes(*filepos, *size, *name));
    }
    let dir = decode_directory(&wad, 12);
    assert_eq!(dir.len(), records.len());
    for (d, (filepos, size, name)) in dir.iter().zip(records.iter()) {
        assert_eq!(d.filepos, *filepos);
        assert_eq!(d.size, *size);
        assert_eq!(d.name.as_bytes(), *name);
    }
}

#[test]
fn end_to_end_example() {
    let mut wad = header_bytes(b"IWAD", 2, 12);
    wad.extend_from_slice(&record_bytes(100, 4, b"LUMP0000"));
    wad.extend_from_slice(&record_bytes(200, 8, b"LUMP0001"));
    let (header, dir) = parse_wad(&wad).unwrap();
    assert_eq!(
        header,
        Header { identification: Identification::IWAD, numlumps: 2, infotablesofs: 12 }
    );
    assert_eq!(dir.len(), 2);
    assert_eq!(dir[0].filepos, 100);
    assert_eq!(dir[0].size, 4);
    assert_eq!(dir[0].name, "LUMP0000");
    assert_eq!(dir[1].filepos, 200);
    assert_eq!(dir[1].size, 8);
    assert_eq!(dir[1].name, "LUMP0001");
}

#[test]
fn read_directory_entry_at_index() {
    let mut wad = vec![0u8; 16];
    wad.extend_from_slice(&record_bytes(-1, 2048, b"SEGS\0\0\0\0"));
    let d = read_directory_entry(&wad, 16);
    assert_eq!(d.filepos, -1);
    assert_eq!(d.size, 2048);
    assert_eq!(d.name, "SEGS\0\0\0\0");
}

#[test]
fn invalid_name_bytes_replaced_not_fatal() {
    let mut wad = header_bytes(b"IWAD", 1, 12);
    wad.extend_from_slice(&record_bytes(5, 6, &[b'A', 0xFF, 0xFE, b'B', 0, 0, 0, 0]));
    let dir = decode_directory(&wad, 12);
    assert_eq!(dir.len(), 1);
    assert_eq!(dir[0].name, "A\u{FFFD}\u{FFFD}B\0\0\0\0");
}

#[test]
fn from_tag_recognizes_both_tags_only() {
    assert_eq!(Identification::from_tag(b'I', b'W', b'A', b'D'), Some(Identification::IWAD));
    assert_eq!(Identification::from_tag(b'P', b'W', b'A', b'D'), Some(Identification::PWAD));
    assert_eq!(Identification::from_tag(b'X', b'W', b'A', b'D'), None);
    assert_eq!(Identification::from_tag(b'I', b'W', b'A', b'd'), None);
}

#[test]
fn tag_string_names_the_kind() {
    assert_eq!(Identification::IWAD.tag_string(), "IWAD");
    assert_eq!(Identification::PWAD.tag_string(), "PWAD");
}
