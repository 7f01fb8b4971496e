//! The part of a `.pak` file footer that signing needs.
use vstd::prelude::*;
use vstd::bytes::{spec_u32_to_le_bytes, spec_u64_from_le_bytes, spec_u64_to_le_bytes};
use crate::error::{Error, ErrorView};
use crate::sig::{le_u32_at, read_u32_at};

verus! {

/// The magic number of a pak footer, read as a little-endian `u32`.
pub const PAK_MAGIC: u32 = 0x5A6F12E1;

/// Minimal pak file footer, containing only the fields needed for sig
/// generation and verification.
#[derive(Debug, Clone)]
pub struct PakFooter {
    /// Pak format version.
    pub version: i32,
    /// Byte offset of the primary index within the pak file.
    pub index_offset: i64,
    /// Byte length of the primary index.
    pub index_size: i64,
    /// SHA1 hash of the raw primary index data, as stored in the footer.
    pub index_hash: [u8; 20],
    /// Whether the primary index is AES-encrypted.
    pub encrypted_index: bool,
}

/// The mathematical value of a [`PakFooter`].
pub struct PakFooterView {
    pub version: i32,
    pub index_offset: i64,
    pub index_size: i64,
    pub index_hash: Seq<u8>,
    pub encrypted_index: bool,
}

impl View for PakFooter {
    type V = PakFooterView;

    open spec fn view(&self) -> PakFooterView {
        PakFooterView {
            version: self.version,
            index_offset: self.index_offset,
            index_size: self.index_size,
            index_hash: self.index_hash@,
            encrypted_index: self.encrypted_index,
        }
    }
}

/// The `i64` stored little-endian at `s[p..p + 8]`.
pub open spec fn le_i64_at(s: Seq<u8>, p: int) -> i64 {
    spec_u64_from_le_bytes(s.subrange(p, p + 8)) as i64
}

/// Whether a footer starts with its magic number at `buf[i]`: the magic is there,
/// and the 44 bytes from magic to the end of the index hash are all in `buf`.
pub open spec fn footer_magic_at(buf: Seq<u8>, i: int) -> bool {
    &&& 0 <= i
    &&& i + 44 <= buf.len()
    &&& le_u32_at(buf, i) == PAK_MAGIC
}

/// The footer whose magic number is at `buf[i]`: version, index offset, index
/// size and index hash follow the magic; the byte before it, if any, is the
/// encrypted-index flag.
pub open spec fn footer_at(buf: Seq<u8>, i: int) -> PakFooterView {
    PakFooterView {
        version: le_u32_at(buf, i + 4) as i32,
        index_offset: le_i64_at(buf, i + 8),
        index_size: le_i64_at(buf, i + 16),
        index_hash: buf.subrange(i + 24, i + 44),
        encrypted_index: i > 0 && buf[i - 1] != 0,
    }
}

/// The footer at the first position from `i` on where one starts, if any.
pub open spec fn first_footer_from(buf: Seq<u8>, i: int) -> Option<PakFooterView>
    decreases buf.len() - i,
{
    if i < 0 || i + 4 > buf.len() {
        None
    } else if footer_magic_at(buf, i) {
        Some(footer_at(buf, i))
    } else {
        first_footer_from(buf, i + 1)
    }
}

/// The footer that a scan of `buf` from its start finds.
pub open spec fn parse_footer(buf: Seq<u8>) -> Option<PakFooterView> {
    first_footer_from(buf, 0)
}

/// The footer found in the last `size` bytes of `data`, if `data` has that many.
pub open spec fn footer_in_last(data: Seq<u8>, size: int) -> Option<PakFooterView> {
    if data.len() >= size {
        parse_footer(data.subrange(data.len() - size, data.len() as int))
    } else {
        None
    }
}

/// The footer of a pak file with contents `data`: the first one found when the
/// last 221, 222, 61 and 45 bytes are tried in this order (the footer sizes of
/// the pak versions of UE 4.20 to 4.27).
pub open spec fn pak_footer(data: Seq<u8>) -> Option<PakFooterView> {
    if footer_in_last(data, 221) is Some {
        footer_in_last(data, 221)
    } else if footer_in_last(data, 222) is Some {
        footer_in_last(data, 222)
    } else if footer_in_last(data, 61) is Some {
        footer_in_last(data, 61)
    } else {
        footer_in_last(data, 45)
    }
}

/// The message of the error for a pak file without a footer.
pub open spec fn no_footer_message() -> Seq<char> {
    "pak footer magic not found"@
}

pub open spec fn footer_option_view(r: Option<PakFooter>) -> Option<PakFooterView> {
    match r {
        Some(f) => Some(f@),
        None => None,
    }
}

fn read_i64_at(buf: &[u8], p: usize) -> (r: i64)
    requires
        p + 8 <= buf@.len(),
    ensures
        r == le_i64_at(buf@, p as int),
{
    let _ = buf.len();
    vstd::bytes::u64_from_le_bytes(&buf[p..p + 8]) as i64
}

/// Scan `buf` for the footer magic and decode the footer at its first fitting position.
///
/// The index hash comes out as stored: its `k`-th byte is the byte 24 + `k`
/// places after the magic number.
pub fn try_parse_footer(buf: &[u8]) -> (r: Option<PakFooter>)
    ensures
        footer_option_view(r) == parse_footer(buf@),
        r matches Some(f) ==> exists|i: int|
            #[trigger] footer_magic_at(buf@, i) && forall|k: int|
                0 <= k < 20 ==> f.index_hash@[k] == buf@[i + 24 + k],
{
    let len = buf.len();
    let mut i: usize = 0;
    while len >= 4 && i <= len - 4
        invariant
            len == buf@.len(),
            first_footer_from(buf@, 0) == first_footer_from(buf@, i as int),
        decreases len - i,
    {
        let magic = read_u32_at(buf, i);
        if magic == PAK_MAGIC && len - i >= 44 {
            let version = #[verifier::truncate] (read_u32_at(buf, i + 4) as i32);
            let index_offset = read_i64_at(buf, i + 8);
            let index_size = read_i64_at(buf, i + 16);
            let mut index_hash = [0u8; 20];
            let mut k: usize = 0;
            while k < 20
                invariant
                    k <= 20,
                    i + 44 <= len,
                    len == buf@.len(),
                    forall|j: int| 0 <= j < k ==> index_hash@[j] == buf@[i + 24 + j],
                decreases 20 - k,
            {
                index_hash[k] = buf[i + 24 + k];
                k = k + 1;
            }
            assert(index_hash@ == buf@.subrange(i + 24, i + 44));
            assert(footer_magic_at(buf@, i as int));
            let encrypted_index = i > 0 && buf[i - 1] != 0;
            return Some(PakFooter { version, index_offset, index_size, index_hash, encrypted_index });
        }
        i = i + 1;
    }
    None
}

/// The footer in the last `size` bytes of `data`, if it has that many.
fn footer_in_last_bytes(data: &[u8], size: usize) -> (r: Option<PakFooter>)
    ensures
        footer_option_view(r) == footer_in_last(data@, size as int),
        r matches Some(f) ==> exists|p: int|
            data@.len() - size <= p && #[trigger] footer_magic_at(data@, p) && forall|k: int|
                0 <= k < 20 ==> f.index_hash@[k] == data@[p + 24 + k],
{
    let len = data.len();
    if len >= size {
        let tail = &data[len - size..len];
        let r = try_parse_footer(tail);
        proof {
            if r is Some {
                let f = r->0;
                let i = choose|i: int|
                    #[trigger] footer_magic_at(tail@, i) && forall|k: int|
                        0 <= k < 20 ==> f.index_hash@[k] == tail@[i + 24 + k];
                let p = len - size + i;
                assert(tail@.subrange(i, i + 4) == data@.subrange(p, p + 4));
                assert(footer_magic_at(data@, p));
                assert forall|k: int| 0 <= k < 20 implies f.index_hash@[k] == data@[p + 24 + k] by {
                    assert(tail@[i + 24 + k] == data@[p + 24 + k]);
                }
            }
        }
        r
    } else {
        None
    }
}

impl PakFooter {
    /// Find and decode the footer of a pak file whose contents are `data`.
    ///
    /// Tries a set of known footer sizes to handle multiple pak format
    /// versions (UE 4.20–4.27). `data` may also be only the last bytes of the
    /// file, as long as it holds at least 222 of them: see
    /// [`lemma_footer_from_tail`].
    ///
    /// The index hash is returned as stored, byte for byte: the `k`-th byte
    /// of it is the byte 24 + `k` places after the footer's magic number,
    /// which lies in the last 222 bytes of `data`.
    pub fn read(data: &[u8]) -> (r: Result<PakFooter, Error>)
        ensures
            match r {
                Ok(f) => pak_footer(data@) == Some(f@),
                Err(e) => pak_footer(data@) is None && e@ == ErrorView::InvalidPak(no_footer_message()),
            },
            r matches Ok(f) ==> exists|p: int|
                data@.len() - 222 <= p && #[trigger] footer_magic_at(data@, p) && forall|k: int|
                    0 <= k < 20 ==> f.index_hash@[k] == data@[p + 24 + k],
    {
        if let Some(f) = footer_in_last_bytes(data, 221) {
            return Ok(f);
        }
        if let Some(f) = footer_in_last_bytes(data, 222) {
            return Ok(f);
        }
        if let Some(f) = footer_in_last_bytes(data, 61) {
            return Ok(f);
        }
        if let Some(f) = footer_in_last_bytes(data, 45) {
            return Ok(f);
        }
        Err(Error::InvalidPak("pak footer magic not found".to_string()))
    }
}

proof fn lemma_first_footer_from(buf: Seq<u8>, k: int)
    requires
        0 <= k,
    ensures
        first_footer_from(buf, k) is Some <==> exists|i: int| k <= i && #[trigger] footer_magic_at(buf, i),
        first_footer_from(buf, k) matches Some(f) ==> exists|i: int|
            k <= i && #[trigger] footer_magic_at(buf, i) && (forall|j: int|
                k <= j < i ==> !#[trigger] footer_magic_at(buf, j)) && f == footer_at(buf, i),
    decreases buf.len() - k,
{
    if k + 4 > buf.len() {
        assert forall|i: int| k <= i implies !#[trigger] footer_magic_at(buf, i) by {}
    } else if footer_magic_at(buf, k) {
        assert(forall|j: int| k <= j < k ==> !#[trigger] footer_magic_at(buf, j));
    } else {
        lemma_first_footer_from(buf, k + 1);
        if first_footer_from(buf, k) is Some {
            let f = first_footer_from(buf, k)->0;
            let i = choose|i: int|
                k + 1 <= i && #[trigger] footer_magic_at(buf, i) && (forall|j: int|
                    k + 1 <= j < i ==> !#[trigger] footer_magic_at(buf, j)) && f == footer_at(buf, i);
            assert forall|j: int| k <= j < i implies !#[trigger] footer_magic_at(buf, j) by {
                if j > k {
                    assert(k + 1 <= j < i);
                }
            }
        }
        assert((exists|i: int| k <= i && #[trigger] footer_magic_at(buf, i)) ==> (exists|i: int|
            k + 1 <= i && #[trigger] footer_magic_at(buf, i)));
    }
}

/// The scan of [`try_parse_footer`] finds a footer exactly when some position
/// of `buf` starts one (its magic number followed by 40 more bytes of
/// footer), and then it is the footer at the first such position; a buffer of
/// fewer than 44 bytes holds none.
pub proof fn lemma_parse_footer_first(buf: Seq<u8>)
    ensures
        parse_footer(buf) is Some <==> exists|i: int| #[trigger] footer_magic_at(buf, i),
        parse_footer(buf) matches Some(f) ==> exists|i: int|
            #[trigger] footer_magic_at(buf, i) && (forall|j: int|
                0 <= j < i ==> !#[trigger] footer_magic_at(buf, j)) && f == footer_at(buf, i),
        buf.len() < 44 ==> parse_footer(buf) is None,
{
    lemma_first_footer_from(buf, 0);
    assert((exists|i: int| #[trigger] footer_magic_at(buf, i)) ==> (exists|i: int|
        0 <= i && #[trigger] footer_magic_at(buf, i)));
}

proof fn lemma_first_footer_hash_len(buf: Seq<u8>, i: int)
    ensures
        first_footer_from(buf, i) matches Some(f) ==> f.index_hash.len() == 20,
    decreases buf.len() - i,
{
    if !(i < 0 || i + 4 > buf.len()) && !footer_magic_at(buf, i) {
        lemma_first_footer_hash_len(buf, i + 1);
    }
}

/// A pak footer's index hash has 20 bytes.
pub proof fn lemma_pak_footer_hash_len(data: Seq<u8>)
    ensures
        pak_footer(data) matches Some(f) ==> f.index_hash.len() == 20,
{
    let l = data.len() as int;
    if l >= 221 {
        lemma_first_footer_hash_len(data.subrange(l - 221, l), 0);
    }
    if l >= 222 {
        lemma_first_footer_hash_len(data.subrange(l - 222, l), 0);
    }
    if l >= 61 {
        lemma_first_footer_hash_len(data.subrange(l - 61, l), 0);
    }
    if l >= 45 {
        lemma_first_footer_hash_len(data.subrange(l - 45, l), 0);
    }
}

/// The footer of a pak file is found as well in its last `tail_len` bytes, when
/// those are at least 222 bytes or the whole file.
pub proof fn lemma_footer_from_tail(data: Seq<u8>, tail_len: int)
    requires
        222 <= tail_len <= data.len() || tail_len == data.len(),
    ensures
        pak_footer(data.subrange(data.len() - tail_len, data.len() as int)) == pak_footer(data),
{
    let tail = data.subrange(data.len() - tail_len, data.len() as int);
    assert forall|size: int| 0 <= size <= 222 implies #[trigger] footer_in_last(tail, size)
        == footer_in_last(data, size) by {
        if tail.len() >= size {
            assert(tail.subrange(tail.len() - size, tail.len() as int) == data.subrange(
                data.len() - size,
                data.len() as int,
            ));
        }
    }
    assert(footer_in_last(tail, 221) == footer_in_last(data, 221));
    assert(footer_in_last(tail, 222) == footer_in_last(data, 222));
    assert(footer_in_last(tail, 61) == footer_in_last(data, 61));
    assert(footer_in_last(tail, 45) == footer_in_last(data, 45));
}

/// The 44 bytes of a footer from its magic number on: the magic, the version,
/// the index offset and the index size, each little-endian, then the index hash.
pub open spec fn footer_bytes(version: i32, index_offset: i64, index_size: i64, index_hash: Seq<u8>) -> Seq<u8> {
    spec_u32_to_le_bytes(PAK_MAGIC) + spec_u32_to_le_bytes(version as u32) + spec_u64_to_le_bytes(
        index_offset as u64,
    ) + spec_u64_to_le_bytes(index_size as u64) + index_hash
}

/// Footer bytes placed after `pre` start a footer there, which decodes to the
/// fields they were made of.
proof fn lemma_footer_bytes_decode(
    version: i32,
    index_offset: i64,
    index_size: i64,
    index_hash: Seq<u8>,
    pre: Seq<u8>,
    rest: Seq<u8>,
)
    requires
        index_hash.len() == 20,
    ensures
        ({
            let b = pre + footer_bytes(version, index_offset, index_size, index_hash) + rest;
            let i = pre.len() as int;
            &&& footer_magic_at(b, i)
            &&& footer_at(b, i) == PakFooterView {
                version,
                index_offset,
                index_size,
                index_hash,
                encrypted_index: i > 0 && pre.last() != 0,
            }
        }),
{
    vstd::bytes::lemma_auto_spec_u32_to_from_le_bytes();
    vstd::bytes::lemma_auto_spec_u64_to_from_le_bytes();
    let b = pre + footer_bytes(version, index_offset, index_size, index_hash) + rest;
    let i = pre.len() as int;
    assert(b.subrange(i, i + 4) == spec_u32_to_le_bytes(PAK_MAGIC));
    assert(b.subrange(i + 4, i + 8) == spec_u32_to_le_bytes(version as u32));
    assert(b.subrange(i + 8, i + 16) == spec_u64_to_le_bytes(index_offset as u64));
    assert(b.subrange(i + 16, i + 24) == spec_u64_to_le_bytes(index_size as u64));
    assert(b.subrange(i + 24, i + 44) == index_hash);
    assert((version as u32) as i32 == version) by (bit_vector);
    assert((index_offset as u64) as i64 == index_offset) by (bit_vector);
    assert((index_size as u64) as i64 == index_size) by (bit_vector);
    if i > 0 {
        assert(b[i - 1] == pre.last());
    }
}

/// The scan from `k` finds the footer at `i` when one starts there and none
/// starts between `k` and `i`.
proof fn lemma_first_footer_at(buf: Seq<u8>, k: int, i: int)
    requires
        0 <= k <= i,
        footer_magic_at(buf, i),
        forall|j: int| k <= j < i ==> !#[trigger] footer_magic_at(buf, j),
    ensures
        first_footer_from(buf, k) == Some(footer_at(buf, i)),
    decreases i - k,
{
    if k < i {
        assert(!footer_magic_at(buf, k));
        lemma_first_footer_at(buf, k + 1, i);
    }
}

/// Decoding the bytes of a footer, whatever follows them, gives back the
/// version, index offset, index size and index hash it was made of, the
/// index hash byte for byte.
pub proof fn lemma_footer_roundtrip(
    version: i32,
    index_offset: i64,
    index_size: i64,
    index_hash: Seq<u8>,
    rest: Seq<u8>,
)
    requires
        index_hash.len() == 20,
    ensures
        parse_footer(footer_bytes(version, index_offset, index_size, index_hash) + rest) == Some(
            PakFooterView { version, index_offset, index_size, index_hash, encrypted_index: false },
        ),
{
    let fb = footer_bytes(version, index_offset, index_size, index_hash);
    lemma_footer_bytes_decode(version, index_offset, index_size, index_hash, Seq::empty(), rest);
    assert(Seq::<u8>::empty() + fb + rest == fb + rest);
    lemma_first_footer_at(fb + rest, 0, 0);
}

/// A pak whose last 221 bytes are laid out as UE 4.27 writes its footer (a
/// 16-byte GUID, the encrypted-index flag byte, the footer bytes, and 160
/// bytes of compression method names) has the footer made of those fields,
/// its index hash as stored, provided no magic number starts in the GUID or
/// at the flag byte.
pub proof fn lemma_pak_footer_v427_layout(
    body: Seq<u8>,
    guid: Seq<u8>,
    flag: u8,
    version: i32,
    index_offset: i64,
    index_size: i64,
    index_hash: Seq<u8>,
    names: Seq<u8>,
)
    requires
        guid.len() == 16,
        index_hash.len() == 20,
        names.len() == 160,
        forall|j: int|
            0 <= j <= 16 ==> le_u32_at(
                guid.push(flag) + footer_bytes(version, index_offset, index_size, index_hash) + names,
                j,
            ) != PAK_MAGIC,
    ensures
        pak_footer(
            body + (guid.push(flag) + footer_bytes(version, index_offset, index_size, index_hash) + names),
        ) == Some(
            PakFooterView { version, index_offset, index_size, index_hash, encrypted_index: flag != 0 },
        ),
{
    let pre = guid.push(flag);
    let tail = pre + footer_bytes(version, index_offset, index_size, index_hash) + names;
    let data = body + tail;
    lemma_footer_bytes_decode(version, index_offset, index_size, index_hash, pre, names);
    vstd::bytes::lemma_auto_spec_u32_to_from_le_bytes();
    vstd::bytes::lemma_auto_spec_u64_to_from_le_bytes();
    assert(tail.len() == 221);
    assert(data.subrange(data.len() - 221, data.len() as int) == tail);
    assert forall|j: int| 0 <= j < 17 implies !#[trigger] footer_magic_at(tail, j) by {}
    lemma_first_footer_at(tail, 0, 17);
}

} // verus!
