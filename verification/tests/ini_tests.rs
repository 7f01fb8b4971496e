use ue_pak_sig::error::DecodeError;
use ue_pak_sig::{CryptoConfig, Error};

const SAMPLE: &str = r#"EncryptionKey=AAEC
SigningPublicExponent=AQAB
SigningModulus=AQAB
SigningPrivateExponent="AQAB"
bEnablePakSigning=True
"#;

#[test]
fn parses_sample() {
    let cfg = CryptoConfig::from_ini_str(SAMPLE).unwrap();
    assert_eq!(
        cfg.signing_public_exponent.as_deref(),
        Some(&[0x01, 0x00, 0x01][..])
    );
    assert!(cfg.encryption_key.is_some());
}

#[test]
fn quoted_private_exponent() {
    let cfg = CryptoConfig::from_ini_str(SAMPLE).unwrap();
    assert_eq!(
        cfg.signing_private_exponent.as_deref(),
        Some(&[0x01, 0x00, 0x01][..])
    );
}

#[test]
fn sample_values_are_decoded() {
    let cfg = CryptoConfig::from_ini_str(SAMPLE).unwrap();
    assert_eq!(cfg.encryption_key, Some(vec![0x00, 0x01, 0x02]));
    assert_eq!(cfg.signing_modulus, Some(vec![0x01, 0x00, 0x01]));
}

#[test]
fn empty_text_gives_empty_config() {
    let cfg = CryptoConfig::from_ini_str("").unwrap();
    assert_eq!(cfg.encryption_key, None);
    assert_eq!(cfg.signing_public_exponent, None);
    assert_eq!(cfg.signing_modulus, None);
    assert_eq!(cfg.signing_private_exponent, None);
}

#[test]
fn lines_without_equals_and_unknown_keys_are_ignored() {
    let text = "[CoreCrypto]\nOther=!!!not base64!!!\n; SigningModulus\nSigningModulus=AQI=\n";
    let cfg = CryptoConfig::from_ini_str(text).unwrap();
    assert_eq!(cfg.signing_modulus, Some(vec![0x01, 0x02]));
    assert_eq!(cfg.encryption_key, None);
}

#[test]
fn whitespace_crlf_and_quotes_are_trimmed() {
    let text = "  SigningModulus \t=  \"\"AQI=\"\"  \r\n\u{a0}SigningPublicExponent\u{3000}= AQAB\u{2003}\r\n";
    let cfg = CryptoConfig::from_ini_str(text).unwrap();
    assert_eq!(cfg.signing_modulus, Some(vec![0x01, 0x02]));
    assert_eq!(cfg.signing_public_exponent, Some(vec![0x01, 0x00, 0x01]));
}

#[test]
fn later_line_replaces_earlier_and_empty_value_clears() {
    let text = "EncryptionKey=AQI=\nEncryptionKey=AAEC\nSigningModulus=AQAB\nSigningModulus=\"\"\n";
    let cfg = CryptoConfig::from_ini_str(text).unwrap();
    assert_eq!(cfg.encryption_key, Some(vec![0x00, 0x01, 0x02]));
    assert_eq!(cfg.signing_modulus, None);
}

#[test]
fn key_is_text_before_first_equals() {
    let text = "SigningModulus=AQ==\nSigningPublicExponent==AQAB\n";
    let result = CryptoConfig::from_ini_str(text);
    assert!(matches!(result, Err(Error::Base64(DecodeError::InvalidByte(0, b'=')))));
}

#[test]
fn invalid_base64_is_an_error() {
    let text = "SigningModulus=AQ*B\n";
    let result = CryptoConfig::from_ini_str(text);
    assert!(matches!(result, Err(Error::Base64(DecodeError::InvalidByte(2, b'*')))));
}

#[test]
fn invalid_length_and_padding_errors() {
    let result = CryptoConfig::from_ini_str("EncryptionKey=A\n");
    assert!(matches!(result, Err(Error::Base64(DecodeError::InvalidLength(1)))));
    let result = CryptoConfig::from_ini_str("EncryptionKey=AQ\n");
    assert!(matches!(result, Err(Error::Base64(DecodeError::InvalidPadding))));
    let result = CryptoConfig::from_ini_str("EncryptionKey=AR==\n");
    assert!(matches!(result, Err(Error::Base64(DecodeError::InvalidLastSymbol(1, b'R')))));
}

#[test]
fn first_bad_value_stops_reading() {
    let text = "SigningModulus=AQ*B\nEncryptionKey=%%%%\n";
    let result = CryptoConfig::from_ini_str(text);
    assert!(matches!(result, Err(Error::Base64(DecodeError::InvalidByte(2, b'*')))));
}

#[test]
fn bad_value_under_other_key_is_not_an_error() {
    let cfg = CryptoConfig::from_ini_str("Foo=@@@\nno equals sign here\n").unwrap();
    assert_eq!(cfg.encryption_key, None);
    assert_eq!(cfg.signing_modulus, None);
}
