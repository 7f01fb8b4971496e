//! RSA keys built by the `rsa` crate, each kept beside the little-endian
//! components it was built from, and the PKCS#1 v1.5 (unprefixed) operations
//! on them. Only the constructors of this module build these keys, so the
//! components beside a key are always the ones it was built from.
use vstd::prelude::*;
use vstd::arithmetic::power::pow;
use vstd::arithmetic::power2::pow2;
use rsa::rand_core::OsRng;
use rsa::traits::SignatureScheme;
use rsa::{pkcs1v15::Pkcs1v15Sign, BigUint, RsaPrivateKey, RsaPublicKey};

verus! {

#[verifier::external_type_specification]
#[verifier::external_body]
pub struct ExRsaPublicKey(rsa::RsaPublicKey);

#[verifier::external_type_specification]
#[verifier::external_body]
pub struct ExRsaPrivateKey(rsa::RsaPrivateKey);

/// The number that the little-endian bytes `b` stand for.
pub open spec fn le_value(b: Seq<u8>) -> nat
    decreases b.len(),
{
    if b.len() == 0 {
        0
    } else {
        b[0] as nat + 256 * le_value(b.drop_first())
    }
}

/// The number of bytes that `n` takes, without leading zero bytes (the RSA key size `k`).
pub open spec fn byte_len(n: nat) -> nat
    decreases n,
{
    if n == 0 {
        0
    } else {
        1 + byte_len(n / 256)
    }
}

/// Why `rsa::RsaPublicKey::new` refuses the modulus `n` and exponent `e`, as its
/// error displays, or `None` when it accepts them. The checks, in the order
/// the crate makes them: the modulus has at most 4096 bits; the exponent fits
/// a `u64`; the exponent is below the modulus and the modulus is odd; the
/// exponent is odd, at least 2 and at most 2^33 - 1.
pub open spec fn public_key_rejection(n: nat, e: nat) -> Option<Seq<char>> {
    if n >= pow2(4096) {
        Some("modulus too large"@)
    } else if e >= 0x1_0000_0000_0000_0000 {
        Some("public exponent too large"@)
    } else if e >= n || n % 2 == 0 {
        Some("invalid modulus"@)
    } else if e % 2 == 0 {
        Some("invalid exponent"@)
    } else if e < 2 {
        Some("public exponent too small"@)
    } else if e > 0x1_ffff_ffff {
        Some("public exponent too large"@)
    } else {
        None
    }
}

/// Why `rsa::RsaPrivateKey::from_components(n, e, d, vec![])` refuses the
/// little-endian components, as its error displays, or `None` when it accepts them.
pub uninterp spec fn private_key_rejection(n: Seq<u8>, e: Seq<u8>, d: Seq<u8>) -> Option<Seq<char>>;

/// The number that the big-endian bytes `b` stand for.
pub open spec fn be_value(b: Seq<u8>) -> nat
    decreases b.len(),
{
    if b.len() == 0 {
        0
    } else {
        be_value(b.drop_last()) * 256 + b.last() as nat
    }
}

/// The PKCS#1 v1.5 type 1 block of `k` bytes for `msg`, with no DigestInfo
/// prefix: `00 01 FF .. FF 00 msg`.
pub open spec fn type1_block(k: nat, msg: Seq<u8>) -> Seq<u8> {
    seq![0u8, 1u8] + Seq::new((k - 3 - msg.len()) as nat, |i: int| 0xFFu8) + seq![0u8] + msg
}

/// Whether `sig` is a PKCS#1 v1.5 (unprefixed) signature of `msg` under the
/// public key with little-endian components `n`, `e`: with `k` the key size in
/// bytes, the signature has `k` bytes, its big-endian value is below the
/// modulus, the message leaves room for at least 8 bytes of padding, and the
/// signature raised to `e` modulo `n` is the type 1 block of `msg`.
pub open spec fn unprefixed_signature_valid(n: Seq<u8>, e: Seq<u8>, msg: Seq<u8>, sig: Seq<u8>) -> bool {
    let k = byte_len(le_value(n));
    &&& sig.len() == k
    &&& be_value(sig) < le_value(n)
    &&& msg.len() + 11 <= k
    &&& pow(be_value(sig) as int, le_value(e)) % (le_value(n) as int) == be_value(type1_block(k, msg)) as int
}

/// Whether `msg` is the only message that `sig` is a valid signature of under
/// the public key with little-endian components `n`, `e`.
pub open spec fn signs_only(n: Seq<u8>, e: Seq<u8>, msg: Seq<u8>, sig: Seq<u8>) -> bool {
    forall|other: Seq<u8>| #[trigger] unprefixed_signature_valid(n, e, other, sig) ==> other == msg
}

/// Whether `p` is a prime number.
pub open spec fn is_prime(p: nat) -> bool {
    &&& p > 1
    &&& forall|d: nat| 1 < d < p ==> #[trigger] (p % d) != 0
}

/// Whether `n` is the product of two distinct primes, as the modulus of a
/// two-prime RSA key is.
pub open spec fn two_prime_modulus(n: nat) -> bool {
    exists|p: nat, q: nat| #![trigger is_prime(p), is_prime(q)] is_prime(p) && is_prime(q) && p != q && n == p * q
}

/// Whether `message` is what the crate's PKCS#1 v1.5 signing refuses a
/// message of `msg_len` bytes with, under a key of `k` bytes: "message too
/// long" when the message leaves fewer than 8 padding bytes, else "internal
/// error" (its check of the computed signature failed).
pub open spec fn sign_refusal(k: nat, msg_len: nat, message: Seq<char>) -> bool {
    if msg_len + 11 > k {
        message == "message too long"@
    } else {
        message == "internal error"@
    }
}

/// An RSA public key together with the little-endian components it was built from.
pub struct PublicKey {
    key: RsaPublicKey,
    modulus: Vec<u8>,
    exponent: Vec<u8>,
}

impl PublicKey {
    /// The modulus the key was built from, little-endian.
    pub closed spec fn modulus(&self) -> Seq<u8> {
        self.modulus@
    }

    /// The public exponent the key was built from, little-endian.
    pub closed spec fn exponent(&self) -> Seq<u8> {
        self.exponent@
    }

    /// A copy of the modulus.
    pub fn modulus_bytes(&self) -> (r: Vec<u8>)
        ensures
            r@ == self.modulus(),
    {
        self.modulus.clone()
    }

    /// A copy of the public exponent.
    pub fn exponent_bytes(&self) -> (r: Vec<u8>)
        ensures
            r@ == self.exponent(),
    {
        self.exponent.clone()
    }

    /// The public exponent.
    pub fn exponent_slice(&self) -> (r: &[u8])
        ensures
            r@ == self.exponent(),
    {
        self.exponent.as_slice()
    }
}

/// An RSA private key together with the little-endian components it was built from.
pub struct PrivateKey {
    key: RsaPrivateKey,
    modulus: Vec<u8>,
    public_exponent: Vec<u8>,
    private_exponent: Vec<u8>,
}

impl PrivateKey {
    /// The modulus the key was built from, little-endian.
    pub closed spec fn modulus(&self) -> Seq<u8> {
        self.modulus@
    }

    /// The public exponent the key was built from, little-endian.
    pub closed spec fn public_exponent(&self) -> Seq<u8> {
        self.public_exponent@
    }

    /// The private exponent the key was built from, little-endian.
    pub closed spec fn private_exponent(&self) -> Seq<u8> {
        self.private_exponent@
    }
}

/// Builds the key with `rsa::RsaPublicKey::new` from the little-endian components
/// (read with `BigUint::from_bytes_le`), keeping the components beside it; the
/// error becomes its displayed message.
#[verifier::external_body]
pub fn rsa_public_key(modulus: Vec<u8>, exponent: Vec<u8>) -> (r: Result<PublicKey, String>)
    ensures
        match r {
            Ok(k) => public_key_rejection(le_value(modulus@), le_value(exponent@)) is None
                && k.modulus() == modulus@ && k.exponent() == exponent@,
            Err(m) => public_key_rejection(le_value(modulus@), le_value(exponent@)) == Some(m@),
        },
{
    let key = RsaPublicKey::new(BigUint::from_bytes_le(&modulus), BigUint::from_bytes_le(&exponent));
    match key {
        Ok(key) => Ok(PublicKey { key, modulus, exponent }),
        Err(err) => Err(err.to_string()),
    }
}

/// Builds the key with `rsa::RsaPrivateKey::from_components(n, e, d, vec![])` from
/// the little-endian components, keeping them beside it; the error becomes its
/// displayed message. With no primes given the crate recovers them from `d`,
/// which subtracts 1 from `d * e` once `e` exceeds 2^16: `requires` leaves out
/// a zero `d` there, where that subtraction panics.
#[verifier::external_body]
pub fn rsa_private_key(modulus: Vec<u8>, public_exponent: Vec<u8>, private_exponent: Vec<u8>) -> (r: Result<PrivateKey, String>)
    requires
        public_key_rejection(le_value(modulus@), le_value(public_exponent@)) is None,
        le_value(private_exponent@) != 0 || le_value(public_exponent@) <= 65536,
    ensures
        match r {
            Ok(k) => private_key_rejection(modulus@, public_exponent@, private_exponent@) is None
                && k.modulus() == modulus@ && k.public_exponent() == public_exponent@
                && k.private_exponent() == private_exponent@,
            Err(m) => private_key_rejection(modulus@, public_exponent@, private_exponent@) == Some(m@),
        },
{
    let n = BigUint::from_bytes_le(&modulus);
    let e = BigUint::from_bytes_le(&public_exponent);
    match RsaPrivateKey::from_components(n, e, BigUint::from_bytes_le(&private_exponent), vec![]) {
        Ok(key) => Ok(PrivateKey { key, modulus, public_exponent, private_exponent }),
        Err(err) => Err(err.to_string()),
    }
}

/// Signs `msg` with `Pkcs1v15Sign::new_unprefixed().sign`, blinding with `OsRng`.
///
/// The crate pads first, refusing with "message too long" a message that
/// leaves fewer than 8 padding bytes; no random value is drawn then. Otherwise
/// it decrypts the padded block blinded by a random factor, unblinds modulo
/// `n`, and returns the result (written big-endian on the key size) only if
/// raising it to `e` modulo `n` gives back the padded block, refusing with
/// "internal error" if not; the block is below `n`, so no other error occurs.
/// A key that `from_components` accepted has two factors above 1 whose
/// product is `n`, with `d * e` congruent to 1 modulo each factor minus 1 (its
/// `validate`). When `n` is the product of two distinct primes, those factors
/// are these primes, so raising to `d` (through the CRT or not, blinded or
/// not) undoes raising to `e` modulo `n`, and the check passes: the contract
/// promises success there. `from_components` does not test primality, and for
/// a key it accepts with a composite factor whether the check passes depends
/// on the blinding factor (a test shows such a key); for those keys the
/// contract states only what holds of every outcome. `OsRng` panics only if
/// the system's random source fails, which nothing here can rule out.
#[verifier::external_body]
pub fn rsa_sign(key: &PrivateKey, msg: &[u8]) -> (r: Result<Vec<u8>, String>)
    ensures
        r matches Ok(s) ==> unprefixed_signature_valid(key.modulus(), key.public_exponent(), msg@, s@),
        msg@.len() + 11 > byte_len(le_value(key.modulus())) ==> r is Err,
        two_prime_modulus(le_value(key.modulus())) && msg@.len() + 11 <= byte_len(le_value(key.modulus()))
            ==> r is Ok,
        r matches Err(m) ==> sign_refusal(byte_len(le_value(key.modulus())), msg@.len(), m@),
{
    match Pkcs1v15Sign::new_unprefixed().sign(Some(&mut OsRng), &key.key, msg) {
        Ok(s) => Ok(s),
        Err(err) => Err(err.to_string()),
    }
}

/// Checks `sig` against `msg` with `Pkcs1v15Sign::new_unprefixed().verify`,
/// which refuses a signature whose length is not the key size or whose value
/// is not below the modulus, raises it to `e` modulo `n`, writes the result
/// big-endian on the key size, and accepts exactly when that is the type 1
/// block of `msg` (refusing a message without room for 8 padding bytes).
#[verifier::external_body]
pub fn rsa_verify(key: &PublicKey, msg: &[u8], sig: &[u8]) -> (r: bool)
    ensures
        r == unprefixed_signature_valid(key.modulus(), key.exponent(), msg@, sig@),
{
    Pkcs1v15Sign::new_unprefixed().verify(&key.key, msg, sig).is_ok()
}

proof fn lemma_be_value_injective(a: Seq<u8>, b: Seq<u8>)
    requires
        a.len() == b.len(),
        be_value(a) == be_value(b),
    ensures
        a == b,
    decreases a.len(),
{
    if a.len() > 0 {
        let x = a.last() as int;
        let y = b.last() as int;
        let pa = be_value(a.drop_last()) as int;
        let pb = be_value(b.drop_last()) as int;
        assert(pa * 256 + x == pb * 256 + y);
        assert(x == y && pa == pb);
        lemma_be_value_injective(a.drop_last(), b.drop_last());
        assert(a == a.drop_last().push(a.last()));
        assert(b == b.drop_last().push(b.last()));
    } else {
        assert(a == b);
    }
}

proof fn lemma_type1_block_injective(k: nat, m1: Seq<u8>, m2: Seq<u8>)
    requires
        m1.len() + 11 <= k,
        m2.len() + 11 <= k,
        type1_block(k, m1) == type1_block(k, m2),
    ensures
        m1 == m2,
{
    let b1 = type1_block(k, m1);
    let b2 = type1_block(k, m2);
    assert(b1.len() == k);
    if m1.len() < m2.len() {
        let p = k - m2.len() - 1;
        assert(b2[p] == 0u8);
        assert(b1[p] == 0xFFu8);
    } else if m2.len() < m1.len() {
        let p = k - m1.len() - 1;
        assert(b1[p] == 0u8);
        assert(b2[p] == 0xFFu8);
    } else {
        assert(m1 == b1.skip(k - m1.len()));
        assert(m2 == b2.skip(k - m2.len()));
    }
}

/// A valid signature is valid for one message only: the type 1 block that it
/// gives back determines the message.
pub proof fn lemma_signs_only(n: Seq<u8>, e: Seq<u8>, msg: Seq<u8>, sig: Seq<u8>)
    requires
        unprefixed_signature_valid(n, e, msg, sig),
    ensures
        signs_only(n, e, msg, sig),
{
    let k = byte_len(le_value(n));
    assert forall|other: Seq<u8>| #[trigger] unprefixed_signature_valid(n, e, other, sig) implies other
        == msg by {
        let b1 = type1_block(k, msg);
        let b2 = type1_block(k, other);
        assert(b1.len() == k && b2.len() == k);
        lemma_be_value_injective(b1, b2);
        lemma_type1_block_injective(k, msg, other);
    }
}

} // verus!
