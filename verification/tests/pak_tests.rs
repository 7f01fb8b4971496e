use ue_pak_sig::pak::{try_parse_footer, PakFooter, PAK_MAGIC};
use ue_pak_sig::Error;

fn make_footer_buf(version: i32, index_offset: i64, index_size: i64, hash: [u8; 20]) -> Vec<u8> {
    let mut buf = Vec::new();
    // EncryptionKeyGuid (16 bytes)
    buf.extend_from_slice(&[0u8; 16]);
    // bEncryptedIndex (1 byte)
    buf.push(0);
    // Magic
    buf.extend_from_slice(&PAK_MAGIC.to_le_bytes());
    // Version
    buf.extend_from_slice(&version.to_le_bytes());
    // IndexOffset
    buf.extend_from_slice(&index_offset.to_le_bytes());
    // IndexSize
    buf.extend_from_slice(&index_size.to_le_bytes());
    // IndexHash
    buf.extend_from_slice(&hash);
    // CompressionMethods (160 bytes)
    buf.extend_from_slice(&[0u8; 160]);
    buf
}

#[test]
fn round_trip_footer() {
    let hash = [0xABu8; 20];
    let buf = make_footer_buf(11, 12345, 6789, hash);
    let footer = PakFooter::read(&buf).unwrap();
    assert_eq!(footer.version, 11);
    assert_eq!(footer.index_offset, 12345);
    assert_eq!(footer.index_size, 6789);
    assert_eq!(footer.index_hash, hash);
}

#[test]
fn footer_after_data_and_encrypted_flag() {
    let mut buf = vec![0x5Au8; 1000];
    let mut footer = make_footer_buf(8, -1, 42, [7u8; 20]);
    footer[16] = 1;
    buf.extend_from_slice(&footer);
    let f = PakFooter::read(&buf).unwrap();
    assert_eq!(f.version, 8);
    assert_eq!(f.index_offset, -1);
    assert_eq!(f.index_size, 42);
    assert_eq!(f.index_hash, [7u8; 20]);
    assert!(f.encrypted_index);
}

#[test]
fn old_footer_without_guid() {
    // v3-6: bEncryptedIndex, magic, version, offset, size, hash = 45 bytes.
    let full = make_footer_buf(3, 100, 200, [1u8; 20]);
    let buf = full[16..61].to_vec();
    assert_eq!(buf.len(), 45);
    let f = PakFooter::read(&buf).unwrap();
    assert_eq!(f.version, 3);
    assert_eq!(f.index_offset, 100);
    assert_eq!(f.index_size, 200);
    assert!(!f.encrypted_index);
}

#[test]
fn footer_read_from_file_tail_matches_whole_file() {
    let mut buf = vec![0x11u8; 5000];
    buf.extend_from_slice(&make_footer_buf(11, 5, 6, [9u8; 20]));
    let whole = PakFooter::read(&buf).unwrap();
    let tail = PakFooter::read(&buf[buf.len() - 222..]).unwrap();
    assert_eq!(whole.index_hash, tail.index_hash);
    assert_eq!(whole.version, tail.version);
    assert_eq!(whole.index_offset, tail.index_offset);
}

#[test]
fn missing_footer_is_invalid_pak() {
    let buf = vec![0u8; 300];
    match PakFooter::read(&buf) {
        Err(Error::InvalidPak(msg)) => assert_eq!(msg, "pak footer magic not found"),
        other => panic!("unexpected result {:?}", other),
    }
    assert!(matches!(PakFooter::read(&[]), Err(Error::InvalidPak(_))));
}

#[test]
fn magic_too_close_to_end_is_skipped() {
    // A magic number with fewer than 44 bytes after it does not count.
    let mut buf = vec![0u8; 50];
    buf.extend_from_slice(&PAK_MAGIC.to_le_bytes());
    buf.extend_from_slice(&[0u8; 30]);
    assert!(matches!(PakFooter::read(&buf), Err(Error::InvalidPak(_))));
}

#[test]
fn short_buffers_hold_no_footer() {
    assert!(try_parse_footer(&[]).is_none());
    assert!(try_parse_footer(&[0xE1, 0x12, 0x6F]).is_none());
    let mut buf = PAK_MAGIC.to_le_bytes().to_vec();
    buf.extend_from_slice(&[0u8; 39]);
    assert!(try_parse_footer(&buf).is_none());
    buf.push(0);
    assert!(try_parse_footer(&buf).is_some());
}
