use ue_pak_sig::pak::PAK_MAGIC;
use ue_pak_sig::sig::compute_chunk_hashes;
use ue_pak_sig::{CryptoConfig, Error, SigFile, SigningKey, UeVersion};

const KEY_1024: &str = "SigningPublicExponent=AQAB
SigningModulus=aad/xw5sjAIzm3sfvDWmvvNEwKBcjeFdQaXTLG10uMbhWBCavI0EBc63FObD8lUNQpVjv/zedTuZF6bNK3MG2YcKl7/irbvM+AgR8gYsEjkLtzzkfbrutB36VK95+nbhN6KUiv2NwyaH9U7hV/Vs/Uq0W8uv4Zvj8NM2WNKjapY=
SigningPrivateExponent=\"6RZQx0JpY7+0UU+Ue2WTzGlEZ08vaqFG1KZYSQw3jbqZ69CbQk8aJ8f87CBEvQYKn4SK6c6GWxz4mfbRM+NyX07F8wg1RAuVdalrVUhuX4O1rfph52787NxH40JT8Pqy1C1rA75AHTEmzUCupw/dHVwJaW71y7nmWFjBPKI/K5M=\"
";

const KEY_256: &str = "SigningPublicExponent=AQAB
SigningModulus=rUdoMUBgJUjVvr4sfb72gAPIZRkZ3zeJ0GJwXJVxg5o=
SigningPrivateExponent=fQrMkBrtnUuOICTYjRZ1U32EuAtYJ/Fk4sWs+7JALGg=
";

const SIG_426: &str = "4f5396fc23857312cfde0703829c811ae38e84261526d651b814e47119a767aabaaa9cc0591568e6cc387be4733c2073af76976f836b7c1b09a097f1881d8d3f93189afda3ff0cb4767b45deed98a23b1298003422f4cacff5044565a1be487ecf07f9ec7182583b97801fc2cbbb51857f75b2ddb4a58abf1f6243093098f854";
const SIG_427: &str = "2e131e41e9a5cd111c44b9adf34fbb4838acd0f8aed35dbcc0f398b802c6d67d693ed25e5eeee1f902b0dbce213b2ecd7c79d55f3148fd62a9bea6b0a9c214131f75b6160c4c70f52f4c66cf127b4414b36000d28e82840bc10ab022480c73559b59bbc0c5893a2be35591c01738ab74e23a8726d2d4b48aeb62940283c57b1a";

fn hex(s: &str) -> Vec<u8> {
    (0..s.len())
        .step_by(2)
        .map(|i| u8::from_str_radix(&s[i..i + 2], 16).unwrap())
        .collect()
}

fn key(text: &str) -> SigningKey {
    SigningKey::from_config(&CryptoConfig::from_ini_str(text).unwrap()).unwrap()
}

fn public_only(text: &str) -> SigningKey {
    let mut cfg = CryptoConfig::from_ini_str(text).unwrap();
    cfg.signing_private_exponent = None;
    SigningKey::from_config(&cfg).unwrap()
}

fn sample_pak() -> Vec<u8> {
    let mut pak: Vec<u8> = (0..70000usize).map(|i| ((i * 7) % 251) as u8).collect();
    pak.extend_from_slice(&[0u8; 17]);
    pak.extend_from_slice(&PAK_MAGIC.to_le_bytes());
    pak.extend_from_slice(&11i32.to_le_bytes());
    pak.extend_from_slice(&12345i64.to_le_bytes());
    pak.extend_from_slice(&6789i64.to_le_bytes());
    pak.extend_from_slice(&[0xABu8; 20]);
    pak.extend_from_slice(&[0u8; 160]);
    pak
}

fn rsa_message(r: Result<SigningKey, Error>) -> String {
    match r {
        Err(Error::Rsa(m)) => m,
        Err(e) => panic!("unexpected error {:?}", e),
        Ok(_) => panic!("key accepted"),
    }
}

#[test]
fn key_with_private_part() {
    assert!(key(KEY_1024).has_private_key());
    assert!(!public_only(KEY_1024).has_private_key());
}

#[test]
fn missing_components_are_reported() {
    let cfg = CryptoConfig::from_ini_str("SigningPublicExponent=AQAB\n").unwrap();
    match SigningKey::from_config(&cfg) {
        Err(Error::InvalidIni(m)) => assert_eq!(m, "missing SigningModulus"),
        _ => panic!("expected missing modulus"),
    }
    let cfg = CryptoConfig::from_ini_str("SigningModulus=AQAB\n").unwrap();
    match SigningKey::from_config(&cfg) {
        Err(Error::InvalidIni(m)) => assert_eq!(m, "missing SigningPublicExponent"),
        _ => panic!("expected missing exponent"),
    }
}

#[test]
fn invalid_public_keys_are_reported() {
    // The sample config: modulus 65537 is not above the exponent 65537.
    let cfg = CryptoConfig::from_ini_str("SigningPublicExponent=AQAB\nSigningModulus=AQAB\n").unwrap();
    assert_eq!(rsa_message(SigningKey::from_config(&cfg)), "invalid modulus");
    // An even exponent.
    let cfg = CryptoConfig::from_ini_str("SigningPublicExponent=BA==\nSigningModulus=/w==\n").unwrap();
    assert_eq!(rsa_message(SigningKey::from_config(&cfg)), "invalid exponent");
    // An exponent of 1.
    let cfg = CryptoConfig::from_ini_str("SigningPublicExponent=AQ==\nSigningModulus=/w==\n").unwrap();
    assert_eq!(rsa_message(SigningKey::from_config(&cfg)), "public exponent too small");
}

#[test]
fn inconsistent_private_exponent_is_refused() {
    let mut cfg = CryptoConfig::from_ini_str(KEY_1024).unwrap();
    cfg.signing_private_exponent = Some(vec![3]);
    assert!(matches!(SigningKey::from_config(&cfg), Err(Error::Rsa(_))));
}

#[test]
fn zero_private_exponent_is_not_built() {
    let mut cfg = CryptoConfig::from_ini_str(KEY_1024).unwrap();
    cfg.signing_private_exponent = Some(vec![0, 0]);
    assert!(SigningKey::try_from_config(&cfg).is_none());
    let cfg = CryptoConfig::from_ini_str(KEY_1024).unwrap();
    assert!(matches!(SigningKey::try_from_config(&cfg), Some(Ok(_))));
}

#[test]
fn sign_gives_pkcs1_type1_signature() {
    let k = key(KEY_1024);
    let master = hex("e34cf8a03c89d85127d2c04d81ecdb0e167ec298");
    let s = k.sign(&master).unwrap();
    assert_eq!(s, hex(SIG_426));
    assert!(k.verify(&master, &s).is_ok());
}

#[test]
fn sign_without_private_key_fails() {
    let k = public_only(KEY_1024);
    match k.sign(b"data") {
        Err(Error::Rsa(m)) => assert_eq!(m, "private key not available"),
        other => panic!("unexpected {:?}", other),
    }
}

#[test]
fn message_too_long_for_small_key() {
    let k = key(KEY_256);
    match k.sign(&[0u8; 40]) {
        Err(Error::Rsa(m)) => assert_eq!(m, "message too long"),
        other => panic!("unexpected {:?}", other),
    }
    let s = k.sign(&[7u8; 20]).unwrap();
    assert_eq!(s.len(), 32);
    assert!(k.verify(&[7u8; 20], &s).is_ok());
}

#[test]
fn verify_refuses_wrong_signature_or_data() {
    let k = key(KEY_1024);
    let mut s = hex(SIG_426);
    let master = hex("e34cf8a03c89d85127d2c04d81ecdb0e167ec298");
    assert!(matches!(k.verify(b"other data", &s), Err(Error::SignatureMismatch)));
    s[10] ^= 1;
    assert!(matches!(k.verify(&master, &s), Err(Error::SignatureMismatch)));
    assert!(matches!(k.verify(&master, &s[1..]), Err(Error::SignatureMismatch)));
}

#[test]
fn sign_pak_for_each_version() {
    let k = key(KEY_1024);
    let pak = sample_pak();
    let sig = SigFile::sign_from_reader(&pak, &k, UeVersion::V426).unwrap();
    assert_eq!(sig.chunk_hashes, vec![0x91af6755, 0xc8c79b0b]);
    assert_eq!(sig.encrypted_hash, hex(SIG_426));
    let sig = SigFile::sign_from_reader(&pak, &k, UeVersion::V427).unwrap();
    assert_eq!(sig.encrypted_hash, hex(SIG_427));
}

#[test]
fn signed_pak_verifies() {
    let k = key(KEY_1024);
    let pak = sample_pak();
    for version in [UeVersion::V426, UeVersion::V427] {
        let sig = SigFile::sign_from_reader(&pak, &k, version).unwrap();
        assert!(sig.verify_from_reader(&pak, &k, version).is_ok());
        assert!(sig.verify_from_reader(&pak, &public_only(KEY_1024), version).is_ok());
        let mut bytes = Vec::new();
        sig.write(&mut bytes).unwrap();
        let reread = SigFile::read(&bytes).unwrap();
        assert!(reread.verify_from_reader(&pak, &k, version).is_ok());
    }
}

#[test]
fn streamed_signing_matches() {
    let k = key(KEY_1024);
    let pak = sample_pak();
    let hashes = compute_chunk_hashes(&pak);
    let tail = &pak[pak.len() - 222..];
    let sig = SigFile::sign_chunks(hashes.clone(), tail, &k, UeVersion::V427).unwrap();
    assert_eq!(sig.encrypted_hash, hex(SIG_427));
    assert!(sig.verify_chunks(&hashes, tail, &k, UeVersion::V427).is_ok());
}

#[test]
fn verify_detects_changes() {
    let k = key(KEY_1024);
    let mut pak = sample_pak();
    let sig = SigFile::sign_from_reader(&pak, &k, UeVersion::V426).unwrap();
    // Signed for 4.26, checked as 4.27: the plaintext differs.
    assert!(matches!(sig.verify_from_reader(&pak, &k, UeVersion::V427), Err(Error::SignatureMismatch)));
    pak[5] ^= 0xFF;
    assert!(matches!(sig.verify_from_reader(&pak, &k, UeVersion::V426), Err(Error::SignatureMismatch)));
}

#[test]
fn pak_without_footer_cannot_be_signed_for_427() {
    let k = key(KEY_1024);
    let pak = vec![1u8; 1000];
    match SigFile::sign_from_reader(&pak, &k, UeVersion::V427) {
        Err(Error::InvalidPak(m)) => assert_eq!(m, "pak footer magic not found"),
        other => panic!("unexpected {:?}", other),
    }
    assert!(SigFile::sign_from_reader(&pak, &k, UeVersion::V426).is_ok());
}

#[test]
fn signature_is_for_one_message_only() {
    let k = key(KEY_1024);
    let k2 = public_only(KEY_1024);
    let m = [5u8; 30];
    let m2 = [6u8; 30];
    let s = k.sign(&m).unwrap();
    assert!(k.verify(&m, &s).is_ok());
    assert!(k2.verify(&m, &s).is_ok());
    assert!(matches!(k.verify(&m2, &s), Err(Error::SignatureMismatch)));
    assert!(matches!(k2.verify(&m[..29], &s), Err(Error::SignatureMismatch)));
}

#[test]
fn each_version_refuses_the_other() {
    let k = key(KEY_1024);
    let pak = sample_pak();
    let s426 = SigFile::sign_from_reader(&pak, &k, UeVersion::V426).unwrap();
    let s427 = SigFile::sign_from_reader(&pak, &k, UeVersion::V427).unwrap();
    assert!(matches!(s426.verify_from_reader(&pak, &k, UeVersion::V427), Err(Error::SignatureMismatch)));
    assert!(matches!(s427.verify_from_reader(&pak, &k, UeVersion::V426), Err(Error::SignatureMismatch)));
}

#[test]
fn signature_not_below_modulus_is_refused() {
    let k = key(KEY_1024);
    let master = hex("e34cf8a03c89d85127d2c04d81ecdb0e167ec298");
    assert!(matches!(k.verify(&master, &[0xFFu8; 128]), Err(Error::SignatureMismatch)));
    assert!(matches!(k.verify(&[0u8; 118], &hex(SIG_426)), Err(Error::SignatureMismatch)));
}

// A key that `from_components` accepts although one of the two factors it
// recovers from `d` (130565 = 5 * 26113) is not prime. With it, whether the
// crate's blinded signing passes its own check depends on the blinding factor.
const KEY_COMPOSITE_FACTOR: &str = "SigningPublicExponent=AQAB
SigningModulus=NY99IwIGsstnaDBrEwQ=
SigningPrivateExponent=MRAu7J51/l8pY2b2mg==
";

#[test]
fn signing_outcome_can_depend_on_blinding() {
    let k = key(KEY_COMPOSITE_FACTOR);
    let mut successes = 0;
    let mut failures = 0;
    for _ in 0..64 {
        match k.sign(&[]) {
            Ok(s) => {
                assert_eq!(s.len(), 14);
                assert!(k.verify(&[], &s).is_ok());
                successes += 1;
            }
            Err(Error::Rsa(m)) => {
                assert_eq!(m, "internal error");
                failures += 1;
            }
            Err(e) => panic!("unexpected error {:?}", e),
        }
    }
    assert!(successes > 0 && failures > 0, "{} successes, {} failures", successes, failures);
}
