//! The RSA signing key and the two operations that the `.sig` format needs.
use vstd::prelude::*;
use crate::error::{Error, ErrorView};
use crate::ini::{CryptoConfig, CryptoConfigView};
use crate::rsa_keys::{
    byte_len, le_value, private_key_rejection, public_key_rejection, rsa_private_key, rsa_public_key,
    lemma_signs_only, rsa_sign, rsa_verify, signs_only, two_prime_modulus, unprefixed_signature_valid,
    PrivateKey, PublicKey,
};

verus! {

proof fn lemma_le_value_drop_first(b: Seq<u8>)
    requires
        b.len() > 0,
    ensures
        le_value(b.drop_first()) <= le_value(b),
{
}

proof fn lemma_le_value_skip(b: Seq<u8>, i: int)
    requires
        0 <= i <= b.len(),
    ensures
        le_value(b.skip(i)) <= le_value(b),
    decreases i,
{
    if i == 0 {
        assert(b.skip(0) == b);
    } else {
        lemma_le_value_skip(b, i - 1);
        assert(b.skip(i - 1).drop_first() == b.skip(i));
        lemma_le_value_drop_first(b.skip(i - 1));
    }
}

/// The number that the little-endian bytes `b` stand for, when it fits a `u64`.
fn le_value_u64(b: &[u8]) -> (r: Option<u64>)
    ensures
        match r {
            Some(v) => v == le_value(b@),
            None => le_value(b@) >= 0x1_0000_0000_0000_0000,
        },
{
    let mut i = b.len();
    let mut v: u64 = 0;
    assert(b@.skip(i as int).len() == 0);
    while i > 0
        invariant
            i <= b@.len(),
            v == le_value(b@.skip(i as int)),
        decreases i,
    {
        let c = b[i - 1];
        assert(b@.skip(i - 1).drop_first() == b@.skip(i as int));
        assert(le_value(b@.skip(i - 1)) == c + 256 * v);
        if v > (u64::MAX - c as u64) / 256 {
            assert(c + 256 * v > u64::MAX) by (nonlinear_arith)
                requires
                    v > (u64::MAX - c as u64) / 256,
                    c <= 255,
            ;
            proof {
                lemma_le_value_skip(b@, i - 1);
            }
            return None;
        }
        assert(c + 256 * v <= u64::MAX) by (nonlinear_arith)
            requires
                v <= (u64::MAX - c as u64) / 256,
                c <= 255,
        ;
        v = c as u64 + 256 * v;
        i = i - 1;
    }
    assert(b@.skip(0) == b@);
    Some(v)
}

/// An RSA signing key pair loaded from a [`CryptoConfig`].
///
/// Holds the public key always; the private key is present only when the
/// config includes `SigningPrivateExponent` (i.e. editor/developer configs).
pub struct SigningKey {
    public: PublicKey,
    private: Option<PrivateKey>,
}

/// The mathematical value of a [`SigningKey`]: its little-endian components.
pub struct SigningKeyView {
    pub modulus: Seq<u8>,
    pub public_exponent: Seq<u8>,
    pub private_exponent: Option<Seq<u8>>,
}

impl View for SigningKey {
    type V = SigningKeyView;

    closed spec fn view(&self) -> SigningKeyView {
        SigningKeyView {
            modulus: self.public.modulus(),
            public_exponent: self.public.exponent(),
            private_exponent: match self.private {
                Some(p) => Some(p.private_exponent()),
                None => None,
            },
        }
    }
}

/// The size of the key in bytes: that of its modulus without leading zero bytes.
pub open spec fn key_size(key: SigningKeyView) -> nat {
    byte_len(le_value(key.modulus))
}

/// Whether `sig` is a signature that the key `key` made of `plaintext`: a
/// valid PKCS#1 v1.5 signature of `plaintext` under the key's public part
/// (see [`unprefixed_signature_valid`]), and so of no other message.
pub open spec fn signature_made_for(key: SigningKeyView, plaintext: Seq<u8>, sig: Seq<u8>) -> bool {
    &&& unprefixed_signature_valid(key.modulus, key.public_exponent, plaintext, sig)
    &&& signs_only(key.modulus, key.public_exponent, plaintext, sig)
}

/// The message of the error for a configuration without a modulus.
pub open spec fn missing_modulus_message() -> Seq<char> {
    "missing SigningModulus"@
}

/// The message of the error for a configuration without a public exponent.
pub open spec fn missing_public_exponent_message() -> Seq<char> {
    "missing SigningPublicExponent"@
}

/// The message of the error for signing with a key that has no private part.
pub open spec fn no_private_key_message() -> Seq<char> {
    "private key not available"@
}

/// What building a key from the configuration `cfg` gives: the modulus and the
/// public exponent must be present and form a public key; a private exponent,
/// if present, must complete them to a private key.
pub open spec fn key_from_config(cfg: CryptoConfigView) -> Result<SigningKeyView, ErrorView> {
    match cfg.signing_modulus {
        None => Err(ErrorView::InvalidIni(missing_modulus_message())),
        Some(n) => match cfg.signing_public_exponent {
            None => Err(ErrorView::InvalidIni(missing_public_exponent_message())),
            Some(e) => match public_key_rejection(le_value(n), le_value(e)) {
                Some(m) => Err(ErrorView::Rsa(m)),
                None => match cfg.signing_private_exponent {
                    None => Ok(SigningKeyView { modulus: n, public_exponent: e, private_exponent: None }),
                    Some(d) => match private_key_rejection(n, e, d) {
                        Some(m) => Err(ErrorView::Rsa(m)),
                        None => Ok(
                            SigningKeyView { modulus: n, public_exponent: e, private_exponent: Some(d) },
                        ),
                    },
                },
            },
        },
    }
}

/// Whether building a key from `cfg` reaches the recovery of the primes with a
/// zero private exponent and a public exponent above 2^16, where the RSA crate
/// panics (it subtracts 1 from `d * e`).
pub open spec fn key_from_config_panics(cfg: CryptoConfigView) -> bool {
    &&& cfg.signing_modulus matches Some(n)
    &&& cfg.signing_public_exponent matches Some(e)
    &&& public_key_rejection(le_value(n), le_value(e)) is None
    &&& cfg.signing_private_exponent matches Some(d)
    &&& le_value(d) == 0
    &&& le_value(e) > 65536
}

/// Building a key from a configuration that holds a modulus and a public
/// exponent succeeds exactly when the RSA crate accepts them as a public key
/// and, where a private exponent is given, accepts all three as a private
/// key; the key then holds these components, and each refusal is an RSA error.
pub proof fn lemma_key_from_config_outcome(cfg: CryptoConfigView)
    requires
        cfg.signing_modulus is Some,
        cfg.signing_public_exponent is Some,
    ensures
        ({
            let n = cfg.signing_modulus->0;
            let e = cfg.signing_public_exponent->0;
            &&& key_from_config(cfg) is Ok <==> (public_key_rejection(le_value(n), le_value(e)) is None
                && (cfg.signing_private_exponent matches Some(d) ==> private_key_rejection(n, e, d) is None))
            &&& key_from_config(cfg) matches Ok(k) ==> (k.modulus == n && k.public_exponent == e
                && k.private_exponent == cfg.signing_private_exponent)
            &&& key_from_config(cfg) matches Err(x) ==> x is Rsa
        }),
{
}

pub open spec fn key_result_view(r: Result<SigningKey, Error>) -> Result<SigningKeyView, ErrorView> {
    match r {
        Ok(k) => Ok(k@),
        Err(e) => Err(e@),
    }
}

impl SigningKey {
    #[verifier::type_invariant]
    closed spec fn parts_agree(self) -> bool {
        match self.private {
            Some(p) => p.modulus() == self.public.modulus() && p.public_exponent() == self.public.exponent(),
            None => true,
        }
    }

    /// Complete the public key with the private exponent of `config`, if any.
    fn with_private_part(config: &CryptoConfig, public: PublicKey) -> (r: Result<SigningKey, Error>)
        requires
            config@.signing_modulus == Some(public.modulus()),
            config@.signing_public_exponent == Some(public.exponent()),
            public_key_rejection(le_value(public.modulus()), le_value(public.exponent())) is None,
            !key_from_config_panics(config@),
        ensures
            key_result_view(r) == key_from_config(config@),
    {
        match &config.signing_private_exponent {
            None => Ok(SigningKey { public, private: None }),
            Some(d) => {
                let n = public.modulus_bytes();
                let e = public.exponent_bytes();
                match rsa_private_key(n, e, d.clone()) {
                    Ok(private) => Ok(SigningKey { public, private: Some(private) }),
                    Err(m) => Err(Error::Rsa(m)),
                }
            },
        }
    }

    /// The public key that the modulus and public exponent of `config` form.
    fn public_part(config: &CryptoConfig) -> (r: Result<PublicKey, Error>)
        ensures
            match r {
                Ok(k) => config@.signing_modulus == Some(k.modulus())
                    && config@.signing_public_exponent == Some(k.exponent())
                    && public_key_rejection(le_value(k.modulus()), le_value(k.exponent())) is None,
                Err(e) => key_from_config(config@) == Err::<SigningKeyView, ErrorView>(e@)
                    && !(config@.signing_modulus matches Some(n)
                    && config@.signing_public_exponent matches Some(x)
                    && public_key_rejection(le_value(n), le_value(x)) is None),
            },
    {
        let modulus = match &config.signing_modulus {
            Some(m) => m,
            None => {
                return Err(Error::InvalidIni("missing SigningModulus".to_string()));
            },
        };
        let pub_exp = match &config.signing_public_exponent {
            Some(e) => e,
            None => {
                return Err(Error::InvalidIni("missing SigningPublicExponent".to_string()));
            },
        };
        match rsa_public_key(modulus.clone(), pub_exp.clone()) {
            Ok(k) => Ok(k),
            Err(m) => Err(Error::Rsa(m)),
        }
    }

    /// Construct a `SigningKey` from a parsed [`CryptoConfig`].
    ///
    /// Returns an error if the config is missing the modulus or public
    /// exponent, or if the RSA components are invalid. The components are
    /// little-endian big integers, as UE stores them.
    pub fn from_config(config: &CryptoConfig) -> (r: Result<SigningKey, Error>)
        requires
            !key_from_config_panics(config@),
        ensures
            key_result_view(r) == key_from_config(config@),
    {
        let public = match Self::public_part(config) {
            Ok(k) => k,
            Err(e) => {
                return Err(e);
            },
        };
        Self::with_private_part(config, public)
    }

    /// [`SigningKey::from_config`] for any configuration: `None` where building
    /// the key would reach the RSA crate's panic (see [`key_from_config_panics`]).
    pub fn try_from_config(config: &CryptoConfig) -> (r: Option<Result<SigningKey, Error>>)
        ensures
            match r {
                None => key_from_config_panics(config@),
                Some(k) => !key_from_config_panics(config@) && key_result_view(k) == key_from_config(config@),
            },
    {
        let public = match Self::public_part(config) {
            Ok(k) => k,
            Err(e) => {
                return Some(Err(e));
            },
        };
        if let Some(d) = &config.signing_private_exponent {
            let d_zero = match le_value_u64(d.as_slice()) {
                Some(v) => v == 0,
                None => false,
            };
            let e_large = match le_value_u64(public.exponent_slice()) {
                Some(v) => v > 65536,
                None => true,
            };
            if d_zero && e_large {
                return None;
            }
        }
        Some(Self::with_private_part(config, public))
    }

    /// Returns `true` if a private key is available for signing.
    pub fn has_private_key(&self) -> (r: bool)
        ensures
            r == (self@.private_exponent is Some),
    {
        self.private.is_some()
    }

    /// Sign `data` using RSA private key with PKCS#1 v1.5 Type 1 padding
    /// (no DigestInfo prefix), matching UE's `FRSA::EncryptPrivate`.
    ///
    /// Fails exactly when there is no private key with "private key not
    /// available"; with one, data that leaves fewer than 8 padding bytes is
    /// refused with "message too long". Otherwise the RSA layer signs, and only
    /// fails ("internal error") when its check of the result fails: never for
    /// a key whose modulus is the product of two distinct primes (a consistent
    /// key), while for a key with composite factors it may depend on its
    /// random blinding. A
    /// signature that it returns is one of `data` alone under this key's public
    /// part, so [`SigningKey::verify`] accepts it for `data` and refuses it for
    /// any other plaintext.
    pub fn sign(&self, data: &[u8]) -> (r: Result<Vec<u8>, Error>)
        ensures
            self@.private_exponent is None <==> (r matches Err(e) && e@ == ErrorView::Rsa(
                no_private_key_message(),
            )),
            r matches Ok(s) ==> self@.private_exponent is Some && signature_made_for(self@, data@, s@),
            self@.private_exponent is Some ==> (r matches Err(e) ==> e@ matches ErrorView::Rsa(m)
                && crate::rsa_keys::sign_refusal(key_size(self@), data@.len(), m)),
            self@.private_exponent is Some && data@.len() + 11 > key_size(self@) ==> r is Err,
            self@.private_exponent is Some && two_prime_modulus(le_value(self@.modulus)) && data@.len() + 11
                <= key_size(self@) ==> r is Ok,
    {
        proof {
            use_type_invariant(self);
        }
        match &self.private {
            None => Err(Error::Rsa("private key not available".to_string())),
            Some(k) => match rsa_sign(k, data) {
                Err(m) => {
                    proof {
                        reveal_strlit("private key not available");
                        reveal_strlit("internal error");
                        reveal_strlit("message too long");
                        assert(no_private_key_message().len() == 25);
                        assert("internal error"@.len() == 14);
                        assert("message too long"@.len() == 16);
                    }
                    Err(Error::Rsa(m))
                },
                Ok(s) => {
                    proof {
                        lemma_signs_only(self@.modulus, self@.public_exponent, data@, s@);
                    }
                    Ok(s)
                },
            },
        }
    }

    /// Verify a signature against `expected_plaintext` using the public key,
    /// matching UE's `FRSA::DecryptPublic`.
    pub fn verify(&self, expected_plaintext: &[u8], signature: &[u8]) -> (r: Result<(), Error>)
        ensures
            match r {
                Ok(()) => unprefixed_signature_valid(self@.modulus, self@.public_exponent, expected_plaintext@, signature@)
                    && signs_only(self@.modulus, self@.public_exponent, expected_plaintext@, signature@),
                Err(e) => !unprefixed_signature_valid(self@.modulus, self@.public_exponent, expected_plaintext@, signature@)
                    && e@ == ErrorView::SignatureMismatch,
            },
    {
        if rsa_verify(&self.public, expected_plaintext, signature) {
            proof {
                lemma_signs_only(self@.modulus, self@.public_exponent, expected_plaintext@, signature@);
            }
            Ok(())
        } else {
            Err(Error::SignatureMismatch)
        }
    }
}

} // verus!
