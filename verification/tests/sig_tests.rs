use ue_pak_sig::crypto;
use ue_pak_sig::sig::{version_label, SIG_MAGIC, SIG_VERSION};
use ue_pak_sig::{Error, SigFile, UeVersion};

#[test]
fn round_trip_serialization() {
    let sig = SigFile {
        encrypted_hash: vec![0xAAu8; 256],
        chunk_hashes: vec![0x11223344, 0xDEADBEEF],
    };

    let mut buf = Vec::new();
    sig.write(&mut buf).unwrap();

    let parsed = SigFile::read(&buf).unwrap();
    assert_eq!(parsed.encrypted_hash, sig.encrypted_hash);
    assert_eq!(parsed.chunk_hashes, sig.chunk_hashes);
}

#[test]
fn wrong_magic_returns_error() {
    let mut buf = 0u32.to_le_bytes().to_vec();
    buf.extend_from_slice(&1i32.to_le_bytes());
    let result = SigFile::read(&buf);
    assert!(matches!(result, Err(Error::InvalidMagic(_))));
}

#[test]
fn master_hash_is_sha1_of_le_u32s() {
    let sig = SigFile {
        encrypted_hash: vec![],
        chunk_hashes: vec![1u32, 2u32],
    };
    let expected = crypto::sha1_of_u32_slice(&[1, 2]);
    assert_eq!(sig.master_hash(), expected);
}

#[test]
fn write_gives_exact_bytes() {
    let sig = SigFile {
        encrypted_hash: vec![1, 2, 3],
        chunk_hashes: vec![0x04030201],
    };
    let mut buf = vec![0xEE];
    sig.write(&mut buf).unwrap();
    assert_eq!(
        buf,
        vec![
            0xEE, 0xAA, 0x2D, 0x83, 0x73, 1, 0, 0, 0, 3, 0, 0, 0, 1, 2, 3, 1, 0, 0, 0, 1, 2, 3, 4
        ]
    );
}

#[test]
fn wrong_magic_reports_value() {
    let buf = [0x78, 0x56, 0x34, 0x12, 1, 0, 0, 0];
    assert!(matches!(SigFile::read(&buf), Err(Error::InvalidMagic(0x12345678))));
}

#[test]
fn unsupported_version_is_reported() {
    let mut buf = SIG_MAGIC.to_le_bytes().to_vec();
    buf.extend_from_slice(&2i32.to_le_bytes());
    assert!(matches!(SigFile::read(&buf), Err(Error::UnsupportedVersion(2))));
}

#[test]
fn truncated_input_is_an_io_error() {
    let sig = SigFile {
        encrypted_hash: vec![9; 10],
        chunk_hashes: vec![5, 6, 7],
    };
    let mut buf = Vec::new();
    sig.write(&mut buf).unwrap();
    for cut in [0, 3, 7, 11, 15, 25, buf.len() - 1] {
        match SigFile::read(&buf[..cut]) {
            Err(Error::Io(msg)) => assert_eq!(msg, "failed to fill whole buffer"),
            other => panic!("cut {}: unexpected {:?}", cut, other),
        }
    }
}

#[test]
fn trailing_bytes_are_ignored() {
    let sig = SigFile {
        encrypted_hash: vec![],
        chunk_hashes: vec![],
    };
    let mut buf = Vec::new();
    sig.write(&mut buf).unwrap();
    assert_eq!(buf.len(), 16);
    buf.extend_from_slice(&[1, 2, 3]);
    let parsed = SigFile::read(&buf).unwrap();
    assert!(parsed.encrypted_hash.is_empty());
    assert!(parsed.chunk_hashes.is_empty());
}

#[test]
fn constants_and_labels() {
    assert_eq!(SIG_MAGIC, 0x73832DAA);
    assert_eq!(SIG_VERSION, 1);
    assert_eq!(version_label(UeVersion::V426), "4.26");
    assert_eq!(version_label(UeVersion::V427), "4.27");
}
