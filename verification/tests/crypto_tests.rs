use ue_pak_sig::crypto::{crc32, sha1, sha1_of_u32_slice};
use ue_pak_sig::sig::{compute_chunk_hashes, ChunkHasher};
use ue_pak_sig::CHUNK_SIZE;

fn hex(s: &str) -> Vec<u8> {
    (0..s.len())
        .step_by(2)
        .map(|i| u8::from_str_radix(&s[i..i + 2], 16).unwrap())
        .collect()
}

#[test]
fn crc32_check_value() {
    assert_eq!(crc32(b"123456789"), 0xCBF43926);
}

#[test]
fn sha1_of_abc() {
    assert_eq!(sha1(b"abc").to_vec(), hex("a9993e364706816aba3e25717850c26c9cd0d89d"));
}

#[test]
fn sha1_of_u32_slice_hashes_little_endian_bytes() {
    let expected = hex("b20866c15c0dc6430fd571b727d99e007db5a061");
    assert_eq!(sha1_of_u32_slice(&[1, 2]).to_vec(), expected);
    assert_eq!(sha1_of_u32_slice(&[1, 2]), sha1(&[1, 0, 0, 0, 2, 0, 0, 0]));
}

#[test]
fn chunk_hashes_of_empty_data() {
    assert_eq!(compute_chunk_hashes(&[]), Vec::<u32>::new());
}

#[test]
fn chunk_hashes_split_at_64_kib() {
    let data: Vec<u8> = (0..CHUNK_SIZE + 1).map(|i| (i % 256) as u8).collect();
    assert_eq!(compute_chunk_hashes(&data), vec![0xb11de6a1, 0xd202ef8d]);
    assert_eq!(compute_chunk_hashes(&data[..CHUNK_SIZE]), vec![0xb11de6a1]);
    assert_eq!(compute_chunk_hashes(&data[CHUNK_SIZE..]), vec![crc32(&[0u8])]);
}

#[test]
fn chunk_hasher_ignores_how_data_is_split() {
    let data: Vec<u8> = (0..200_000usize).map(|i| ((i * 13) % 256) as u8).collect();
    let whole = compute_chunk_hashes(&data);
    assert_eq!(whole.len(), 4);
    let mut hasher = ChunkHasher::new();
    let mut pos = 0;
    let mut step = 1;
    while pos < data.len() {
        let end = (pos + step).min(data.len());
        hasher.update(&data[pos..end]);
        pos = end;
        step = step * 3 + 7;
    }
    hasher.update(&[]);
    assert_eq!(hasher.finish(), whole);
}
