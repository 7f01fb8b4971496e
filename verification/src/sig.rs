//! The `.sig` file: its byte format, and how it is made and checked.
use vstd::prelude::*;
use vstd::bytes::{spec_u32_from_le_bytes, spec_u32_to_le_bytes};
use crate::crypto::{crc32, crc32_checksum, sha1_digest, sha1_of_u32_slice, u32s_le_bytes, CHUNK_SIZE};
use crate::error::{unexpected_eof, unexpected_eof_message, Error, ErrorView};
use crate::key::{signature_made_for, SigningKey, SigningKeyView};
use crate::rsa_keys::unprefixed_signature_valid;
use crate::pak::{no_footer_message, pak_footer, PakFooter};

verus! {

broadcast use vstd::seq_lib::group_seq_properties;

/// The first four bytes of every `.sig` file, read as a little-endian `u32`.
pub const SIG_MAGIC: u32 = 0x73832DAA;

/// The only `.sig` format version this library reads and writes.
pub const SIG_VERSION: i32 = 1;

/// Unreal Engine version variant that determines the signing scheme.
///
/// The on-disk `.sig` format is identical for both versions; they differ
/// only in what data is RSA-signed.
#[derive(Debug, Clone, Copy, PartialEq, Eq, Structural)]
pub enum UeVersion {
    /// UE 4.26 — signs `SHA1(chunk_crcs)` (20 bytes).
    V426,
    /// UE 4.27 — signs `IndexHash || SHA1(chunk_crcs)` (40 bytes),
    /// where `IndexHash` is the SHA1 of the pak's primary index as stored
    /// in the pak footer.
    V427,
}

/// The engine version as people write it: "4.26" or "4.27".
pub fn version_label(v: UeVersion) -> (r: &'static str)
    ensures
        r@ == (match v {
            UeVersion::V426 => "4.26"@,
            UeVersion::V427 => "4.27"@,
        }),
{
    match v {
        UeVersion::V426 => "4.26",
        UeVersion::V427 => "4.27",
    }
}

/// A parsed UE4 `.sig` file.
#[derive(Debug, Clone)]
pub struct SigFile {
    /// RSA-encrypted block produced by `FRSA::EncryptPrivate`.
    pub encrypted_hash: Vec<u8>,
    /// CRC32 hashes of each contiguous 64 KiB chunk of the corresponding
    /// `.pak` file, in order.
    pub chunk_hashes: Vec<u32>,
}

/// The mathematical value of a [`SigFile`].
pub struct SigFileView {
    pub encrypted_hash: Seq<u8>,
    pub chunk_hashes: Seq<u32>,
}

impl View for SigFile {
    type V = SigFileView;

    open spec fn view(&self) -> SigFileView {
        SigFileView { encrypted_hash: self.encrypted_hash@, chunk_hashes: self.chunk_hashes@ }
    }
}

/// The `u32` stored little-endian at `s[p..p + 4]`.
pub open spec fn le_u32_at(s: Seq<u8>, p: int) -> u32 {
    spec_u32_from_le_bytes(s.subrange(p, p + 4))
}

/// The `i32` stored little-endian at `s[p..p + 4]`.
pub open spec fn le_i32_at(s: Seq<u8>, p: int) -> i32 {
    le_u32_at(s, p) as i32
}

/// The `n` little-endian `u32` values stored one after another from `s[p]` on.
pub open spec fn le_u32s_at(s: Seq<u8>, p: int, n: nat) -> Seq<u32> {
    Seq::new(n, |k: int| le_u32_at(s, p + 4 * k))
}

/// The bytes of a `.sig` file with the given contents: magic, version,
/// length-prefixed encrypted block, count-prefixed list of chunk checksums,
/// every integer little-endian. Lengths are stored as `i32`.
pub open spec fn sig_bytes(v: SigFileView) -> Seq<u8> {
    spec_u32_to_le_bytes(SIG_MAGIC) + spec_u32_to_le_bytes(SIG_VERSION as u32)
        + spec_u32_to_le_bytes((v.encrypted_hash.len() as i32) as u32) + v.encrypted_hash
        + spec_u32_to_le_bytes((v.chunk_hashes.len() as i32) as u32) + u32s_le_bytes(v.chunk_hashes)
}

/// Whether reading `s` as a `.sig` file reaches a negative length field
/// (the encrypted block's length or the checksum count).
pub open spec fn sig_has_negative_length(s: Seq<u8>) -> bool {
    &&& s.len() >= 12
    &&& le_u32_at(s, 0) == SIG_MAGIC
    &&& le_i32_at(s, 4) == SIG_VERSION
    &&& {
        let n = le_i32_at(s, 8) as int;
        ||| n < 0
        ||| (s.len() - 12 >= n + 4 && le_i32_at(s, 12 + n) < 0)
    }
}

/// What reading `s` as a `.sig` file gives; bytes after the checksum list are ignored.
pub open spec fn parse_sig(s: Seq<u8>) -> Result<SigFileView, ErrorView> {
    let eof = ErrorView::Io(unexpected_eof_message());
    if s.len() < 4 {
        Err(eof)
    } else if le_u32_at(s, 0) != SIG_MAGIC {
        Err(ErrorView::InvalidMagic(le_u32_at(s, 0)))
    } else if s.len() < 8 {
        Err(eof)
    } else if le_i32_at(s, 4) != SIG_VERSION {
        Err(ErrorView::UnsupportedVersion(le_i32_at(s, 4)))
    } else if s.len() < 12 {
        Err(eof)
    } else {
        let n = le_i32_at(s, 8) as int;
        let p = 12 + n;
        if s.len() < p + 4 {
            Err(eof)
        } else {
            let c = le_i32_at(s, p) as int;
            if s.len() < p + 4 + 4 * c {
                Err(eof)
            } else {
                Ok(
                    SigFileView {
                        encrypted_hash: s.subrange(12, p),
                        chunk_hashes: le_u32s_at(s, p + 4, c as nat),
                    },
                )
            }
        }
    }
}

/// The value of a read result.
pub open spec fn sig_result_view(r: Result<SigFile, Error>) -> Result<SigFileView, ErrorView> {
    match r {
        Ok(s) => Ok(s@),
        Err(e) => Err(e@),
    }
}

/// The `u32` stored little-endian at `data[p..p + 4]`.
pub(crate) fn read_u32_at(data: &[u8], p: usize) -> (r: u32)
    requires
        p + 4 <= data@.len(),
    ensures
        r == le_u32_at(data@, p as int),
{
    let _ = data.len();
    vstd::bytes::u32_from_le_bytes(&data[p..p + 4])
}

/// Whether reading `data` as a `.sig` file would meet a negative length field,
/// which [`SigFile::read`] does not accept.
pub fn has_negative_length(data: &[u8]) -> (r: bool)
    ensures
        r == sig_has_negative_length(data@),
{
    let len = data.len();
    if len < 12 || read_u32_at(data, 0) != SIG_MAGIC || read_u32_at(data, 4) as i32 != SIG_VERSION {
        return false;
    }
    let n = read_u32_at(data, 8) as i32;
    if n < 0 {
        return true;
    }
    let n = n as usize;
    if len - 12 < n || len - 12 - n < 4 {
        return false;
    }
    (read_u32_at(data, 12 + n) as i32) < 0
}

impl SigFile {
    /// Deserialize a `.sig` file from the bytes `data`.
    ///
    /// The encrypted block is read from byte 12 on, and the `k`-th checksum
    /// from the 4 bytes that start 16 + `k` * 4 bytes after it.
    pub fn read(data: &[u8]) -> (r: Result<SigFile, Error>)
        requires
            !sig_has_negative_length(data@),
        ensures
            sig_result_view(r) == parse_sig(data@),
            r matches Ok(s) ==> data@.subrange(0, sig_bytes(s@).len() as int) == sig_bytes(s@),
            r matches Ok(s) ==> ({
                let n = s.encrypted_hash@.len() as int;
                &&& s.encrypted_hash@ == data@.subrange(12, 12 + n)
                &&& forall|k: int|
                    0 <= k < s.chunk_hashes@.len() ==> #[trigger] s.chunk_hashes@[k]
                        == spec_u32_from_le_bytes(data@.subrange(16 + n + 4 * k, 20 + n + 4 * k))
            }),
    {
        let len = data.len();
        if len < 4 {
            return Err(unexpected_eof());
        }
        let magic = read_u32_at(data, 0);
        if magic != SIG_MAGIC {
            return Err(Error::InvalidMagic(magic));
        }
        if len < 8 {
            return Err(unexpected_eof());
        }
        let version = read_u32_at(data, 4) as i32;
        if version != SIG_VERSION {
            return Err(Error::UnsupportedVersion(version));
        }
        if len < 12 {
            return Err(unexpected_eof());
        }
        let enc_len = read_u32_at(data, 8) as i32;
        let enc_len = enc_len as usize;
        if len - 12 < enc_len {
            return Err(unexpected_eof());
        }
        let p = 12 + enc_len;
        if len - p < 4 {
            return Err(unexpected_eof());
        }
        let encrypted_hash = vstd::slice::slice_to_vec(&data[12..p]);
        let count = read_u32_at(data, p) as i32;
        let count = count as usize;
        if (len - p - 4) / 4 < count {
            return Err(unexpected_eof());
        }
        let mut chunk_hashes: Vec<u32> = Vec::new();
        let mut k: usize = 0;
        while k < count
            invariant
                k <= count,
                p + 4 + 4 * count <= len,
                len == data@.len(),
                chunk_hashes@ == le_u32s_at(data@, p + 4, k as nat),
            decreases count - k,
        {
            chunk_hashes.push(read_u32_at(data, p + 4 + 4 * k));
            k = k + 1;
        }
        assert(encrypted_hash@.len() == enc_len);
        assert forall|j: int| 0 <= j < count implies #[trigger] chunk_hashes@[j]
            == spec_u32_from_le_bytes(data@.subrange(16 + enc_len + 4 * j, 20 + enc_len + 4 * j)) by {
            assert(chunk_hashes@[j] == le_u32_at(data@, p + 4 + 4 * j));
        }
        proof {
            lemma_read_bytes_are_written_bytes(data@);
        }
        Ok(SigFile { encrypted_hash, chunk_hashes })
    }

    /// Serialize this `.sig` file, appending its bytes to `writer`.
    ///
    /// After the 16 + n bytes of header and encrypted block (n its length),
    /// the checksums follow in their order, the `k`-th as the 4 little-endian
    /// bytes that start 16 + n + `k` * 4 bytes into the file.
    pub fn write(&self, writer: &mut Vec<u8>) -> (r: Result<(), Error>)
        ensures
            r is Ok,
            final(writer)@ == old(writer)@ + sig_bytes(self@),
            ({
                let start = old(writer)@.len() as int;
                let n = self.encrypted_hash@.len() as int;
                &&& final(writer)@.len() == start + 16 + n + 4 * self.chunk_hashes@.len()
                &&& final(writer)@.subrange(start + 12, start + 12 + n) == self.encrypted_hash@
                &&& forall|k: int|
                    0 <= k < self.chunk_hashes@.len() ==> #[trigger] final(writer)@.subrange(
                        start + 16 + n + 4 * k,
                        start + 20 + n + 4 * k,
                    ) == spec_u32_to_le_bytes(self.chunk_hashes@[k])
            }),
    {
        let ghost start = writer@;
        writer.extend_from_slice(vstd::bytes::u32_to_le_bytes(SIG_MAGIC).as_slice());
        writer.extend_from_slice(vstd::bytes::u32_to_le_bytes(SIG_VERSION as u32).as_slice());
        let enc_len = self.encrypted_hash.len() as i32;
        writer.extend_from_slice(vstd::bytes::u32_to_le_bytes(enc_len as u32).as_slice());
        writer.extend_from_slice(self.encrypted_hash.as_slice());
        let count = self.chunk_hashes.len() as i32;
        writer.extend_from_slice(vstd::bytes::u32_to_le_bytes(count as u32).as_slice());
        let ghost before_hashes = writer@;
        let mut i: usize = 0;
        while i < self.chunk_hashes.len()
            invariant
                i <= self.chunk_hashes@.len(),
                writer@ == before_hashes + u32s_le_bytes(self.chunk_hashes@.take(i as int)),
            decreases self.chunk_hashes@.len() - i,
        {
            writer.extend_from_slice(vstd::bytes::u32_to_le_bytes(self.chunk_hashes[i]).as_slice());
            assert(self.chunk_hashes@.take(i + 1).drop_last() == self.chunk_hashes@.take(i as int));
            i = i + 1;
        }
        assert(self.chunk_hashes@.take(self.chunk_hashes@.len() as int) == self.chunk_hashes@);
        proof {
            let n = self.encrypted_hash@.len() as int;
            let st = start.len() as int;
            let sb = sig_bytes(self@);
            lemma_sig_bytes_layout(self@);
            assert(writer@ == start + sb);
            assert(writer@.subrange(st + 12, st + 12 + n) == sb.subrange(12, 12 + n));
            assert forall|k: int| 0 <= k < self.chunk_hashes@.len() implies #[trigger] writer@.subrange(
                st + 16 + n + 4 * k,
                st + 20 + n + 4 * k,
            ) == spec_u32_to_le_bytes(self.chunk_hashes@[k]) by {
                assert(writer@.subrange(st + 16 + n + 4 * k, st + 20 + n + 4 * k) == sb.subrange(
                    16 + n + 4 * k,
                    20 + n + 4 * k,
                ));
            }
        }
        Ok(())
    }
}

/// The number of chunks that `len` bytes make: full chunks of [`CHUNK_SIZE`]
/// bytes, and one shorter chunk for what remains, if anything does.
pub open spec fn chunk_count(len: nat) -> nat {
    ((len + CHUNK_SIZE - 1) / (CHUNK_SIZE as int)) as nat
}

/// The `k`-th chunk of `data`.
pub open spec fn chunk_of(data: Seq<u8>, k: int) -> Seq<u8> {
    let end = if (k + 1) * CHUNK_SIZE <= data.len() {
        (k + 1) * CHUNK_SIZE
    } else {
        data.len() as int
    };
    data.subrange(k * CHUNK_SIZE, end)
}

/// The CRC32 of each chunk of `data`, in order: what a `.sig` file lists for a pak with contents `data`.
pub open spec fn chunk_checksums(data: Seq<u8>) -> Seq<u32> {
    Seq::new(chunk_count(data.len()), |k: int| crc32_checksum(chunk_of(data, k)))
}

/// Computes the chunk checksums of a stream of bytes that arrives in pieces of
/// any size, holding at most one chunk of it at a time.
pub struct ChunkHasher {
    pending: Vec<u8>,
    hashes: Vec<u32>,
    fed: Ghost<Seq<u8>>,
}

impl View for ChunkHasher {
    type V = Seq<u8>;

    /// All the bytes fed so far.
    closed spec fn view(&self) -> Seq<u8> {
        self.fed@
    }
}

impl ChunkHasher {
    /// The state is consistent: the checksums of the full chunks fed so far
    /// are kept, and the bytes after them wait in `pending`.
    pub closed spec fn wf(&self) -> bool {
        let h = self.hashes@.len();
        &&& self.pending@.len() < CHUNK_SIZE
        &&& self.fed@.len() == h * CHUNK_SIZE + self.pending@.len()
        &&& self.pending@ == self.fed@.skip(h * CHUNK_SIZE)
        &&& forall|k: int|
            0 <= k < h ==> #[trigger] self.hashes@[k] == crc32_checksum(
                self.fed@.subrange(k * CHUNK_SIZE, (k + 1) * CHUNK_SIZE),
            )
    }

    /// A hasher that has been fed nothing.
    pub fn new() -> (r: ChunkHasher)
        ensures
            r.wf(),
            r@ == Seq::<u8>::empty(),
    {
        ChunkHasher { pending: Vec::new(), hashes: Vec::new(), fed: Ghost(Seq::empty()) }
    }

    /// Feed the next bytes of the stream.
    pub fn update(&mut self, data: &[u8])
        requires
            old(self).wf(),
        ensures
            final(self).wf(),
            final(self)@ == old(self)@ + data@,
    {
        let ghost start = self.fed@;
        let mut i: usize = 0;
        while i < data.len()
            invariant
                self.wf(),
                i <= data@.len(),
                self.fed@ == start + data@.take(i as int),
            decreases data@.len() - i,
        {
            let ghost old_fed = self.fed@;
            let room = CHUNK_SIZE - self.pending.len();
            let rest = data.len() - i;
            let take = if room < rest {
                room
            } else {
                rest
            };
            self.pending.extend_from_slice(&data[i..i + take]);
            assert(data@.take(i + take) == data@.take(i as int) + data@.subrange(i as int, i + take));
            self.fed = Ghost(start + data@.take(i + take));
            i = i + take;
            let ghost h = self.hashes@.len() as int;
            assert(self.pending@ == self.fed@.skip(h * CHUNK_SIZE));
            assert(self.fed@.take(old_fed.len() as int) == old_fed);
            assert forall|k: int| 0 <= k < h implies #[trigger] self.hashes@[k] == crc32_checksum(
                self.fed@.subrange(k * CHUNK_SIZE, (k + 1) * CHUNK_SIZE),
            ) by {
                assert(self.fed@.subrange(k * CHUNK_SIZE, (k + 1) * CHUNK_SIZE) == old_fed.subrange(
                    k * CHUNK_SIZE,
                    (k + 1) * CHUNK_SIZE,
                ));
            }
            if self.pending.len() == CHUNK_SIZE {
                assert(self.fed@.subrange(h * CHUNK_SIZE, (h + 1) * CHUNK_SIZE) == self.pending@);
                let c = crc32(self.pending.as_slice());
                let ghost old_hashes = self.hashes@;
                self.hashes.push(c);
                self.pending.clear();
                assert(self.pending@ == self.fed@.skip((h + 1) * CHUNK_SIZE));
                assert forall|k: int| 0 <= k < h + 1 implies #[trigger] self.hashes@[k] == crc32_checksum(
                    self.fed@.subrange(k * CHUNK_SIZE, (k + 1) * CHUNK_SIZE),
                ) by {
                    if k < h {
                        assert(self.hashes@[k] == old_hashes[k]);
                    }
                }
            }
            assert(self.wf());
        }
        assert(data@.take(data@.len() as int) == data@);
    }

    /// The checksums of all the chunks of the bytes fed.
    pub fn finish(self) -> (r: Vec<u32>)
        requires
            self.wf(),
        ensures
            r@ == chunk_checksums(self@),
    {
        let ghost fed = self.fed@;
        let ghost h = self.hashes@.len() as int;
        let mut hashes = self.hashes;
        if self.pending.len() > 0 {
            let c = crc32(self.pending.as_slice());
            hashes.push(c);
            assert(chunk_of(fed, h) == self.pending@);
        }
        assert(chunk_count(fed.len()) == hashes@.len()) by (nonlinear_arith)
            requires
                fed.len() == h * CHUNK_SIZE + self.pending@.len(),
                self.pending@.len() < CHUNK_SIZE,
                hashes@.len() == if self.pending@.len() > 0 { h + 1 } else { h },
                h >= 0,
        ;
        assert forall|k: int| 0 <= k < hashes@.len() implies #[trigger] hashes@[k] == crc32_checksum(
            chunk_of(fed, k),
        ) by {
            if k < h {
                assert((k + 1) * CHUNK_SIZE <= fed.len()) by (nonlinear_arith)
                    requires
                        k < h,
                        fed.len() >= h * CHUNK_SIZE,
                ;
            }
        }
        assert(hashes@ == chunk_checksums(fed));
        hashes
    }
}

/// The CRC32 of each 64 KiB chunk of `data`, in order.
pub fn compute_chunk_hashes(data: &[u8]) -> (r: Vec<u32>)
    ensures
        r@ == chunk_checksums(data@),
{
    let mut hasher = ChunkHasher::new();
    hasher.update(data);
    hasher.finish()
}

/// The digest of the chunk checksums that a `.sig` file signs: SHA-1 of their
/// little-endian bytes.
pub open spec fn master_hash_of(chunk_hashes: Seq<u32>) -> Seq<u8> {
    sha1_digest(u32s_le_bytes(chunk_hashes))
}

/// The plaintext that is RSA-signed for a pak whose footer is found in
/// `footer_source` (the pak's contents, or at least their last 222 bytes).
pub open spec fn sign_plaintext(footer_source: Seq<u8>, version: UeVersion, master: Seq<u8>) -> Result<Seq<u8>, ErrorView> {
    match version {
        UeVersion::V426 => Ok(master),
        UeVersion::V427 => match pak_footer(footer_source) {
            Some(f) => Ok(f.index_hash + master),
            None => Err(ErrorView::InvalidPak(no_footer_message())),
        },
    }
}

/// Whether `r` is a possible outcome of signing a pak with chunk checksums
/// `chunk_hashes`, its footer found in `footer_source`, with `key`. Failing to
/// build the plaintext, or a key without a private part, give their errors;
/// otherwise the RSA layer decides, and a file it produces lists the
/// checksums and holds a signature that `key` made of the plaintext.
pub open spec fn sign_outcome(
    chunk_hashes: Seq<u32>,
    footer_source: Seq<u8>,
    key: SigningKeyView,
    version: UeVersion,
    r: Result<SigFileView, ErrorView>,
) -> bool {
    match sign_plaintext(footer_source, version, master_hash_of(chunk_hashes)) {
        Err(e) => r == Err::<SigFileView, ErrorView>(e),
        Ok(plaintext) => match key.private_exponent {
            None => r == Err::<SigFileView, ErrorView>(
                ErrorView::Rsa(crate::key::no_private_key_message()),
            ),
            Some(_) => match r {
                Ok(s) => s.chunk_hashes == chunk_hashes && signature_made_for(
                    key,
                    plaintext,
                    s.encrypted_hash,
                ),
                Err(e) => e matches ErrorView::Rsa(m) && crate::rsa_keys::sign_refusal(
                    crate::key::key_size(key),
                    plaintext.len(),
                    m,
                ),
            },
        },
    }
}

/// Whether signing is sure to succeed: the plaintext can be built (for 4.27
/// the pak's footer is found), the key has its private part and a modulus
/// that is the product of two distinct primes, and the plaintext leaves room
/// for the padding.
pub open spec fn signing_succeeds(master: Seq<u8>, footer_source: Seq<u8>, key: SigningKeyView, version: UeVersion) -> bool {
    &&& sign_plaintext(footer_source, version, master) matches Ok(p)
    &&& p.len() + 11 <= crate::key::key_size(key)
    &&& key.private_exponent is Some
    &&& crate::rsa_keys::two_prime_modulus(crate::rsa_keys::le_value(key.modulus))
}

/// The outcome of checking `sig` against a pak whose chunk checksums are
/// `computed` and whose footer is found in `footer_source`: the checksums must
/// be those listed, and the signature must be one of the plaintext.
pub open spec fn sig_check(
    sig: SigFileView,
    computed: Seq<u32>,
    footer_source: Seq<u8>,
    key: SigningKeyView,
    version: UeVersion,
) -> Result<(), ErrorView> {
    if computed != sig.chunk_hashes {
        Err(ErrorView::SignatureMismatch)
    } else {
        match sign_plaintext(footer_source, version, master_hash_of(sig.chunk_hashes)) {
            Err(e) => Err(e),
            Ok(plaintext) => if unprefixed_signature_valid(
                key.modulus,
                key.public_exponent,
                plaintext,
                sig.encrypted_hash,
            ) {
                Ok(())
            } else {
                Err(ErrorView::SignatureMismatch)
            },
        }
    }
}

/// The value of a check result.
pub open spec fn unit_result_view(r: Result<(), Error>) -> Result<(), ErrorView> {
    match r {
        Ok(()) => Ok(()),
        Err(e) => Err(e@),
    }
}

/// The plaintext has 20 bytes for 4.26 and 40 for 4.27.
pub proof fn lemma_plaintext_len(footer_source: Seq<u8>, version: UeVersion, master: Seq<u8>)
    requires
        master.len() == 20,
    ensures
        sign_plaintext(footer_source, version, master) matches Ok(p) ==> p.len() == match version {
            UeVersion::V426 => 20int,
            UeVersion::V427 => 40int,
        },
{
    crate::pak::lemma_pak_footer_hash_len(footer_source);
}

/// A signature made of the plaintext for one version is refused under the other.
proof fn lemma_other_version_refused(
    sig: SigFileView,
    computed: Seq<u32>,
    footer_source: Seq<u8>,
    key: SigningKeyView,
    version: UeVersion,
    plaintext: Seq<u8>,
)
    requires
        master_hash_of(sig.chunk_hashes).len() == 20,
        sign_plaintext(footer_source, version, master_hash_of(sig.chunk_hashes)) == Ok::<Seq<u8>, ErrorView>(plaintext),
        crate::rsa_keys::signs_only(key.modulus, key.public_exponent, plaintext, sig.encrypted_hash),
    ensures
        forall|other: UeVersion|
            other != version ==> (#[trigger] sig_check(sig, computed, footer_source, key, other)) is Err,
{
    assert forall|other: UeVersion| other != version implies (#[trigger] sig_check(
        sig,
        computed,
        footer_source,
        key,
        other,
    )) is Err by {
        let master = master_hash_of(sig.chunk_hashes);
        lemma_plaintext_len(footer_source, version, master);
        lemma_plaintext_len(footer_source, other, master);
        if let Ok(p2) = sign_plaintext(footer_source, other, master) {
            assert(p2.len() != plaintext.len());
            assert(!unprefixed_signature_valid(key.modulus, key.public_exponent, p2, sig.encrypted_hash));
        }
    }
}

/// Build the plaintext to sign: the master hash, preceded for 4.27 by the
/// index hash of the footer found in `footer_source`.
fn build_sign_plaintext(footer_source: &[u8], version: UeVersion, master_hash: &[u8; 20]) -> (r: Result<Vec<u8>, Error>)
    ensures
        match sign_plaintext(footer_source@, version, master_hash@) {
            Ok(p) => r matches Ok(x) && x@ == p,
            Err(e) => r matches Err(x) && x@ == e,
        },
{
    match version {
        UeVersion::V426 => Ok(vstd::slice::slice_to_vec(master_hash.as_slice())),
        UeVersion::V427 => {
            let footer = match PakFooter::read(footer_source) {
                Ok(f) => f,
                Err(e) => {
                    return Err(e);
                },
            };
            let mut plaintext: Vec<u8> = Vec::with_capacity(40);
            plaintext.extend_from_slice(footer.index_hash.as_slice());
            plaintext.extend_from_slice(master_hash.as_slice());
            Ok(plaintext)
        },
    }
}

/// Whether `a` and `b` hold the same values.
fn same_u32s(a: &[u32], b: &[u32]) -> (r: bool)
    ensures
        r == (a@ == b@),
{
    if a.len() != b.len() {
        return false;
    }
    let mut i: usize = 0;
    while i < a.len()
        invariant
            a@.len() == b@.len(),
            i <= a@.len(),
            forall|j: int| 0 <= j < i ==> a@[j] == b@[j],
        decreases a@.len() - i,
    {
        if a[i] != b[i] {
            return false;
        }
        i = i + 1;
    }
    assert(a@ == b@);
    true
}

impl SigFile {
    /// Compute `SHA1(chunk_hashes)` — the "master hash" that is embedded
    /// inside the RSA-encrypted block.
    pub fn master_hash(&self) -> (r: [u8; 20])
        ensures
            r@ == master_hash_of(self.chunk_hashes@),
    {
        sha1_of_u32_slice(self.chunk_hashes.as_slice())
    }

    /// Sign a pak given its chunk checksums and a source of its footer (the
    /// pak's contents, or at least their last 222 bytes), for pak data that
    /// is streamed rather than held in memory.
    pub fn sign_chunks(
        chunk_hashes: Vec<u32>,
        footer_source: &[u8],
        key: &SigningKey,
        version: UeVersion,
    ) -> (r: Result<SigFile, Error>)
        ensures
            sign_outcome(chunk_hashes@, footer_source@, key@, version, sig_result_view(r)),
            signing_succeeds(master_hash_of(chunk_hashes@), footer_source@, key@, version) ==> r is Ok,
            r matches Ok(s) ==> sig_check(s@, chunk_hashes@, footer_source@, key@, version) is Ok,
            r matches Ok(s) ==> forall|other: UeVersion|
                other != version ==> (#[trigger] sig_check(s@, chunk_hashes@, footer_source@, key@, other)) is Err,
    {
        let master = sha1_of_u32_slice(chunk_hashes.as_slice());
        let plaintext = match build_sign_plaintext(footer_source, version, &master) {
            Ok(p) => p,
            Err(e) => {
                return Err(e);
            },
        };
        match key.sign(plaintext.as_slice()) {
            Ok(encrypted_hash) => {
                let r = SigFile { encrypted_hash, chunk_hashes };
                proof {
                    lemma_other_version_refused(r@, r.chunk_hashes@, footer_source@, key@, version, plaintext@);
                }
                Ok(r)
            },
            Err(e) => Err(e),
        }
    }

    /// Sign a `.pak` file whose contents are `pak` and produce a `SigFile`.
    ///
    /// For `UeVersion::V427`, also reads the pak footer to extract the
    /// primary index hash. The file it returns passes
    /// [`SigFile::verify_from_reader`] with the same pak, key and version.
    pub fn sign_from_reader(pak: &[u8], key: &SigningKey, version: UeVersion) -> (r: Result<SigFile, Error>)
        ensures
            sign_outcome(chunk_checksums(pak@), pak@, key@, version, sig_result_view(r)),
            signing_succeeds(master_hash_of(chunk_checksums(pak@)), pak@, key@, version) ==> r is Ok,
            r matches Ok(s) ==> sig_check(s@, chunk_checksums(pak@), pak@, key@, version) is Ok,
            r matches Ok(s) ==> forall|other: UeVersion|
                other != version ==> (#[trigger] sig_check(s@, chunk_checksums(pak@), pak@, key@, other)) is Err,
    {
        let chunk_hashes = compute_chunk_hashes(pak);
        Self::sign_chunks(chunk_hashes, pak, key, version)
    }

    /// Check this `.sig` file against a pak given its chunk checksums and a
    /// source of its footer (the pak's contents, or at least their last 222 bytes).
    pub fn verify_chunks(
        &self,
        computed: &[u32],
        footer_source: &[u8],
        key: &SigningKey,
        version: UeVersion,
    ) -> (r: Result<(), Error>)
        ensures
            unit_result_view(r) == sig_check(self@, computed@, footer_source@, key@, version),
            r is Ok ==> computed@ == self.chunk_hashes@,
            r is Ok ==> forall|other: UeVersion|
                other != version ==> (#[trigger] sig_check(self@, computed@, footer_source@, key@, other)) is Err,
    {
        if !same_u32s(computed, self.chunk_hashes.as_slice()) {
            return Err(Error::SignatureMismatch);
        }
        let master = sha1_of_u32_slice(self.chunk_hashes.as_slice());
        let plaintext = match build_sign_plaintext(footer_source, version, &master) {
            Ok(p) => p,
            Err(e) => {
                return Err(e);
            },
        };
        let r = key.verify(plaintext.as_slice(), self.encrypted_hash.as_slice());
        proof {
            lemma_check_needs_listed_checksums(self@, computed@, footer_source@, key@, version);
            if r is Ok {
                lemma_other_version_refused(self@, computed@, footer_source@, key@, version, plaintext@);
            }
        }
        r
    }

    /// Verify this `.sig` file against a `.pak` file whose contents are `pak`.
    ///
    /// Checks that:
    /// 1. The chunk CRC32s match those computed from the pak file.
    /// 2. The RSA signature decrypts to the expected plaintext.
    pub fn verify_from_reader(&self, pak: &[u8], key: &SigningKey, version: UeVersion) -> (r: Result<(), Error>)
        ensures
            unit_result_view(r) == sig_check(self@, chunk_checksums(pak@), pak@, key@, version),
            r is Ok ==> chunk_checksums(pak@) == self.chunk_hashes@,
            r is Ok ==> forall|other: UeVersion|
                other != version ==> (#[trigger] sig_check(self@, chunk_checksums(pak@), pak@, key@, other)) is Err,
    {
        let computed = compute_chunk_hashes(pak);
        proof {
            lemma_check_needs_listed_checksums(self@, chunk_checksums(pak@), pak@, key@, version);
        }
        self.verify_chunks(computed.as_slice(), pak, key, version)
    }
}

/// Signing (through its plaintext) and checking give the same outcome whether the footer is looked
/// for in the whole pak or in its last `tail_len` bytes, when those are at
/// least 222 bytes or the whole pak.
pub proof fn lemma_footer_source_tail(
    pak: Seq<u8>,
    tail_len: int,
    sig: SigFileView,
    computed: Seq<u32>,
    key: SigningKeyView,
    version: UeVersion,
)
    requires
        222 <= tail_len <= pak.len() || tail_len == pak.len(),
    ensures
        ({
            let tail = pak.subrange(pak.len() - tail_len, pak.len() as int);
            &&& sign_plaintext(tail, version, master_hash_of(computed)) == sign_plaintext(
                pak,
                version,
                master_hash_of(computed),
            )
            &&& sig_check(sig, computed, tail, key, version) == sig_check(sig, computed, pak, key, version)
        }),
{
    crate::pak::lemma_footer_from_tail(pak, tail_len);
}

/// A `.sig` file that checks against a pak still checks after it is written
/// and read back (with any bytes after it), as long as its lengths fit the
/// `i32` fields that store them.
pub proof fn lemma_written_sig_still_checks(
    sig: SigFileView,
    rest: Seq<u8>,
    computed: Seq<u32>,
    footer_source: Seq<u8>,
    key: SigningKeyView,
    version: UeVersion,
)
    requires
        sig.encrypted_hash.len() <= i32::MAX,
        sig.chunk_hashes.len() <= i32::MAX,
        sig_check(sig, computed, footer_source, key, version) is Ok,
    ensures
        !sig_has_negative_length(sig_bytes(sig) + rest),
        parse_sig(sig_bytes(sig) + rest) matches Ok(read) && sig_check(
            read,
            computed,
            footer_source,
            key,
            version,
        ) is Ok,
{
    lemma_sig_write_read_roundtrip(sig, rest);
}

/// The encoding of `values` is 4 bytes per value, the `k`-th value at bytes `4k..4k + 4`.
pub proof fn lemma_u32s_le_bytes(values: Seq<u32>)
    ensures
        u32s_le_bytes(values).len() == 4 * values.len(),
        forall|k: int|
            0 <= k < values.len() ==> #[trigger] u32s_le_bytes(values).subrange(4 * k, 4 * k + 4)
                == spec_u32_to_le_bytes(values[k]),
    decreases values.len(),
{
    vstd::bytes::lemma_auto_spec_u32_to_from_le_bytes();
    if values.len() > 0 {
        let init = values.drop_last();
        lemma_u32s_le_bytes(init);
        let whole = u32s_le_bytes(values);
        assert forall|k: int| 0 <= k < values.len() implies #[trigger] whole.subrange(4 * k, 4 * k + 4)
            == spec_u32_to_le_bytes(values[k]) by {
            if k < init.len() {
                assert(whole.subrange(4 * k, 4 * k + 4) == u32s_le_bytes(init).subrange(4 * k, 4 * k + 4));
            } else {
                assert(whole.subrange(4 * k, 4 * k + 4) == spec_u32_to_le_bytes(values.last()));
            }
        }
    }
}

/// Reading what `write` produced gives back the same file, whatever bytes follow it,
/// as long as both lengths fit the `i32` fields that store them.
pub proof fn lemma_sig_write_read_roundtrip(v: SigFileView, rest: Seq<u8>)
    requires
        v.encrypted_hash.len() <= i32::MAX,
        v.chunk_hashes.len() <= i32::MAX,
    ensures
        !sig_has_negative_length(sig_bytes(v) + rest),
        parse_sig(sig_bytes(v) + rest) == Ok::<SigFileView, ErrorView>(v),
{
    vstd::bytes::lemma_auto_spec_u32_to_from_le_bytes();
    lemma_u32s_le_bytes(v.chunk_hashes);
    let b = sig_bytes(v) + rest;
    let n = v.encrypted_hash.len() as int;
    let c = v.chunk_hashes.len() as int;
    let hs = u32s_le_bytes(v.chunk_hashes);
    assert(b.subrange(0, 4) == spec_u32_to_le_bytes(SIG_MAGIC));
    assert(b.subrange(4, 8) == spec_u32_to_le_bytes(SIG_VERSION as u32));
    assert(b.subrange(8, 12) == spec_u32_to_le_bytes((n as i32) as u32));
    assert(b.subrange(12, 12 + n) == v.encrypted_hash);
    assert(b.subrange(12 + n, 16 + n) == spec_u32_to_le_bytes((c as i32) as u32));
    assert(le_i32_at(b, 8) == n);
    assert(le_i32_at(b, 12 + n) == c);
    assert forall|k: int| 0 <= k < c implies #[trigger] le_u32s_at(b, 16 + n, c as nat)[k]
        == v.chunk_hashes[k] by {
        assert(b.subrange(16 + n + 4 * k, 16 + n + 4 * k + 4) == hs.subrange(4 * k, 4 * k + 4));
    }
    assert(le_u32s_at(b, 16 + n, c as nat) == v.chunk_hashes);
}

/// A `.sig` file checks against a pak only if it lists exactly the pak's
/// chunk checksums, every one of them, in order: a change to any chunk, the
/// last one included, that changes its checksum makes the check fail.
pub proof fn lemma_check_needs_listed_checksums(
    sig: SigFileView,
    computed: Seq<u32>,
    footer_source: Seq<u8>,
    key: SigningKeyView,
    version: UeVersion,
)
    ensures
        sig_check(sig, computed, footer_source, key, version) is Ok ==> computed.len() == sig.chunk_hashes.len()
            && forall|k: int| 0 <= k < computed.len() ==> #[trigger] computed[k] == sig.chunk_hashes[k],
        (exists|k: int| 0 <= k < computed.len() && #[trigger] computed[k] != sig.chunk_hashes[k])
            ==> sig_check(sig, computed, footer_source, key, version) == Err::<(), ErrorView>(
            ErrorView::SignatureMismatch,
        ),
{
}

/// The bytes of a `.sig` file, field by field: magic, version and the length
/// of the encrypted block (4 bytes each), the block itself from byte 12 on,
/// then the number of checksums and the checksums in their order, 4
/// little-endian bytes each.
pub proof fn lemma_sig_bytes_layout(v: SigFileView)
    ensures
        ({
            let b = sig_bytes(v);
            let n = v.encrypted_hash.len() as int;
            let c = v.chunk_hashes.len() as int;
            &&& b.len() == 16 + n + 4 * c
            &&& b.subrange(0, 4) == spec_u32_to_le_bytes(SIG_MAGIC)
            &&& b.subrange(4, 8) == spec_u32_to_le_bytes(SIG_VERSION as u32)
            &&& b.subrange(8, 12) == spec_u32_to_le_bytes((n as i32) as u32)
            &&& b.subrange(12, 12 + n) == v.encrypted_hash
            &&& b.subrange(12 + n, 16 + n) == spec_u32_to_le_bytes((c as i32) as u32)
            &&& forall|k: int|
                0 <= k < c ==> #[trigger] b.subrange(16 + n + 4 * k, 20 + n + 4 * k) == spec_u32_to_le_bytes(
                    v.chunk_hashes[k],
                )
        }),
{
    vstd::bytes::lemma_auto_spec_u32_to_from_le_bytes();
    lemma_u32s_le_bytes(v.chunk_hashes);
    let b = sig_bytes(v);
    let n = v.encrypted_hash.len() as int;
    let c = v.chunk_hashes.len() as int;
    let hs = u32s_le_bytes(v.chunk_hashes);
    assert(b.subrange(0, 4) == spec_u32_to_le_bytes(SIG_MAGIC));
    assert(b.subrange(4, 8) == spec_u32_to_le_bytes(SIG_VERSION as u32));
    assert(b.subrange(8, 12) == spec_u32_to_le_bytes((n as i32) as u32));
    assert(b.subrange(12, 12 + n) == v.encrypted_hash);
    assert(b.subrange(12 + n, 16 + n) == spec_u32_to_le_bytes((c as i32) as u32));
    assert forall|k: int| 0 <= k < c implies #[trigger] b.subrange(16 + n + 4 * k, 20 + n + 4 * k)
        == spec_u32_to_le_bytes(v.chunk_hashes[k]) by {
        assert(b.subrange(16 + n + 4 * k, 20 + n + 4 * k) == hs.subrange(4 * k, 4 * k + 4));
    }
}

/// Reading and writing agree byte for byte: a file that reads successfully
/// begins with exactly the bytes that writing what was read produces (the
/// bytes after its checksum list are those reading ignores).
pub proof fn lemma_read_bytes_are_written_bytes(data: Seq<u8>)
    requires
        !sig_has_negative_length(data),
    ensures
        parse_sig(data) matches Ok(v) ==> data.subrange(0, sig_bytes(v).len() as int) == sig_bytes(v),
{
    if let Ok(v) = parse_sig(data) {
        vstd::bytes::lemma_auto_spec_u32_to_from_le_bytes();
        lemma_sig_bytes_layout(v);
        let b = sig_bytes(v);
        let n = v.encrypted_hash.len() as int;
        let c = v.chunk_hashes.len() as int;
        let len = b.len() as int;
        let d = data.subrange(0, len);
        let xv = le_u32_at(data, 4);
        let xn = le_u32_at(data, 8);
        let xc = le_u32_at(data, 12 + n);
        assert((xv as i32) == 1i32 ==> xv == 1u32) by (bit_vector);
        assert((xn as i32) as u32 == xn) by (bit_vector);
        assert((xc as i32) as u32 == xc) by (bit_vector);
        assert(le_i32_at(data, 8) == n);
        assert(le_i32_at(data, 12 + n) == c);
        assert(d.subrange(0, 4) == b.subrange(0, 4)) by {
            assert(d.subrange(0, 4) == data.subrange(0, 4));
        }
        assert(d.subrange(4, 8) == b.subrange(4, 8)) by {
            assert(d.subrange(4, 8) == data.subrange(4, 8));
        }
        assert(d.subrange(8, 12) == b.subrange(8, 12)) by {
            assert(d.subrange(8, 12) == data.subrange(8, 12));
        }
        assert(d.subrange(12 + n, 16 + n) == b.subrange(12 + n, 16 + n)) by {
            assert(d.subrange(12 + n, 16 + n) == data.subrange(12 + n, 16 + n));
        }
        assert forall|k: int| 0 <= k < c implies #[trigger] d.subrange(16 + n + 4 * k, 20 + n + 4 * k)
            == b.subrange(16 + n + 4 * k, 20 + n + 4 * k) by {
            assert(d.subrange(16 + n + 4 * k, 20 + n + 4 * k) == data.subrange(16 + n + 4 * k, 20 + n + 4 * k));
            assert(v.chunk_hashes[k] == le_u32_at(data, 16 + n + 4 * k));
        }
        assert forall|j: int| 0 <= j < len implies d[j] == b[j] by {
            if j < 4 {
                assert(d.subrange(0, 4)[j] == b.subrange(0, 4)[j]);
            } else if j < 8 {
                assert(d.subrange(4, 8)[j - 4] == b.subrange(4, 8)[j - 4]);
            } else if j < 12 {
                assert(d.subrange(8, 12)[j - 8] == b.subrange(8, 12)[j - 8]);
            } else if j < 12 + n {
                assert(b.subrange(12, 12 + n)[j - 12] == v.encrypted_hash[j - 12]);
            } else if j < 16 + n {
                assert(d.subrange(12 + n, 16 + n)[j - 12 - n] == b.subrange(12 + n, 16 + n)[j - 12 - n]);
            } else {
                let k = (j - 16 - n) / 4;
                let r = (j - 16 - n) % 4;
                assert(0 <= k < c && j == 16 + n + 4 * k + r && 0 <= r < 4);
                assert(d.subrange(16 + n + 4 * k, 20 + n + 4 * k)[r] == b.subrange(16 + n + 4 * k, 20 + n + 4 * k)[r]);
            }
        }
        assert(d == b);
    }
}

/// The plaintext signed for 4.26 is the 20-byte master hash itself; for 4.27
/// it can be built exactly when the pak's footer is found, and it is 40
/// bytes: the footer's index hash as stored, then the master hash.
pub proof fn lemma_plaintext_layout(footer_source: Seq<u8>, version: UeVersion, master: Seq<u8>)
    requires
        master.len() == 20,
    ensures
        version == UeVersion::V426 ==> sign_plaintext(footer_source, version, master) == Ok::<Seq<u8>, ErrorView>(
            master,
        ),
        version == UeVersion::V427 ==> (sign_plaintext(footer_source, version, master) is Ok <==> pak_footer(
            footer_source,
        ) is Some),
        version == UeVersion::V427 ==> (pak_footer(footer_source) matches Some(f) ==> (sign_plaintext(
            footer_source,
            version,
            master,
        ) matches Ok(p) && p.len() == 40 && forall|k: int|
            0 <= k < 20 ==> #[trigger] p[k] == f.index_hash[k] && p[20 + k] == master[k])),
{
    crate::pak::lemma_pak_footer_hash_len(footer_source);
}

/// The chunks of a pak cut it into consecutive pieces: every byte at
/// position `j` is byte `j % CHUNK_SIZE` of chunk `j / CHUNK_SIZE`, every
/// chunk but the last has [`CHUNK_SIZE`] bytes, the last has at least one, and
/// there is one checksum per chunk.
pub proof fn lemma_chunks_cover(data: Seq<u8>)
    ensures
        chunk_checksums(data).len() == chunk_count(data.len()),
        forall|j: int|
            0 <= j < data.len() ==> j / (CHUNK_SIZE as int) < chunk_count(data.len()) && #[trigger] data[j] == chunk_of(
                data,
                j / (CHUNK_SIZE as int),
            )[j % (CHUNK_SIZE as int)],
        forall|k: int| 0 <= k < chunk_count(data.len()) - 1 ==> #[trigger] chunk_of(data, k).len() == CHUNK_SIZE,
        chunk_count(data.len()) > 0 ==> 0 < chunk_of(data, chunk_count(data.len()) - 1).len() <= CHUNK_SIZE,
{
    let len = data.len() as int;
    let c = chunk_count(data.len()) as int;
    let cs = CHUNK_SIZE as int;
    assert(c * cs >= len && (len > 0 ==> (c - 1) * cs < len) && c >= 0 && (len == 0 ==> c == 0)) by (nonlinear_arith)
        requires
            c == (len + cs - 1) / cs,
            cs == 65536,
            len >= 0,
    ;
    assert forall|j: int| 0 <= j < len implies j / (CHUNK_SIZE as int) < c && #[trigger] data[j] == chunk_of(
        data,
        j / (CHUNK_SIZE as int),
    )[j % (CHUNK_SIZE as int)] by {
        let k = j / cs;
        let r = j % cs;
        assert(j == k * cs + r && 0 <= r < cs && k >= 0) by (nonlinear_arith)
            requires
                k == j / cs,
                r == j % cs,
                cs == 65536,
                j >= 0,
        ;
        assert(k < c) by (nonlinear_arith)
            requires
                j == k * cs + r,
                0 <= r,
                j < len,
                c * cs >= len,
                cs > 0,
        ;
    }
    assert forall|k: int| 0 <= k < c - 1 implies #[trigger] chunk_of(data, k).len() == CHUNK_SIZE by {
        assert((k + 1) * cs <= (c - 1) * cs) by (nonlinear_arith)
            requires
                k + 1 <= c - 1,
                cs > 0,
        ;
    }
    if c > 0 {
        assert((c - 1) * cs >= 0) by (nonlinear_arith)
            requires
                c >= 1,
                cs > 0,
        ;
    }
}

} // verus!
