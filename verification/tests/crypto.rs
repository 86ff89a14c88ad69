use aes_gcm_siv::aead::{Aead, KeyInit};
use base64::Engine;
use sha2::Digest;

use perp_arb::config::crypto::{is_maskable, mask_api_key, CryptoContext};
use perp_arb::config::model::EncryptedValue;
use perp_arb::error::AppError;

fn configured() -> CryptoContext {
    CryptoContext::from_value("PERP_ARB_MASTER_KEY", Some("a secret"))
}

fn crypto_message<T>(result: Result<T, AppError>) -> String {
    match result {
        Err(AppError::Crypto(message)) => message,
        Err(_) => panic!("another kind of error"),
        Ok(_) => panic!("no error"),
    }
}

#[test]
fn a_key_needs_a_value_that_is_not_blank() {
    assert!(configured().is_configured());
    assert!(!CryptoContext::from_value("KEY", None).is_configured());
    assert!(!CryptoContext::from_value("KEY", Some("  \t")).is_configured());
}

#[test]
fn nothing_is_sealed_or_opened_without_a_key() {
    let context = CryptoContext::from_value("PERP_ARB_MASTER_KEY", None);
    let expected =
        "set PERP_ARB_MASTER_KEY before creating or loading exchange credentials".to_owned();
    assert_eq!(crypto_message(context.encrypt_string("text")), expected);
    assert_eq!(crypto_message(context.encrypt_with_nonce("text", &[0; 12])), expected);
    let sealed = configured().encrypt_with_nonce("text", &[0; 12]).unwrap();
    assert!(context.nonce_fits(&sealed));
    assert_eq!(crypto_message(context.decrypt_string(&sealed)), expected);
}

#[test]
fn what_was_sealed_is_opened() {
    let context = configured();
    for text in ["", "key", "a longer secret with 汉字", "0123456789abcdef0123456789abcdef"] {
        let sealed = context.encrypt_string(text).unwrap();
        assert_eq!(sealed.algorithm, "aes-256-gcm-siv");
        assert_ne!(sealed.ciphertext_b64, text);
        assert!(context.nonce_fits(&sealed));
        assert_eq!(context.decrypt_string(&sealed).unwrap(), text);
    }
}

#[test]
fn a_nonce_decides_the_sealed_text() {
    let context = configured();
    let once = context.encrypt_with_nonce("key", &[7; 12]).unwrap();
    let again = context.encrypt_with_nonce("key", &[7; 12]).unwrap();
    let other = context.encrypt_with_nonce("key", &[8; 12]).unwrap();
    assert_eq!(once.nonce_b64, "BwcHBwcHBwcHBwcH");
    assert_eq!(once.ciphertext_b64, again.ciphertext_b64);
    assert_ne!(once.ciphertext_b64, other.ciphertext_b64);
    assert_eq!(context.decrypt_string(&other).unwrap(), "key");
}

#[test]
fn the_value_of_the_variable_is_trimmed() {
    let sealed = configured().encrypt_string("key").unwrap();
    let padded = CryptoContext::from_value("OTHER", Some("  a secret\n"));
    assert_eq!(padded.decrypt_string(&sealed).unwrap(), "key");
}

#[test]
fn the_key_is_the_digest_of_the_value() {
    let sealed = configured().encrypt_with_nonce("key", &[1; 12]).unwrap();
    let digest = sha2::Sha256::digest("a secret".as_bytes());
    let cipher = aes_gcm_siv::Aes256GcmSiv::new_from_slice(digest.as_slice()).unwrap();
    let nonce = aes_gcm_siv::Nonce::from_slice(&[1; 12]);
    let cipher_text = cipher.encrypt(nonce, "key".as_bytes()).unwrap();
    let expected = base64::engine::general_purpose::STANDARD.encode(cipher_text);
    assert_eq!(sealed.ciphertext_b64, expected);
}

#[test]
fn another_key_does_not_open() {
    let sealed = configured().encrypt_string("key").unwrap();
    let other = CryptoContext::from_value("KEY", Some("another secret"));
    assert_eq!(crypto_message(other.decrypt_string(&sealed)), "decrypt failed: Error");
}

#[test]
fn what_is_not_base64_is_refused() {
    let context = configured();
    let good = context.encrypt_with_nonce("key", &[0; 12]).unwrap();
    let bad_nonce = EncryptedValue {
        algorithm: good.algorithm.clone(),
        nonce_b64: "*".to_owned(),
        ciphertext_b64: good.ciphertext_b64.clone(),
    };
    assert!(context.nonce_fits(&bad_nonce));
    let message = crypto_message(context.decrypt_string(&bad_nonce));
    assert!(message.starts_with("nonce decode failed: "));
    let bad_text = EncryptedValue {
        algorithm: good.algorithm.clone(),
        nonce_b64: good.nonce_b64.clone(),
        ciphertext_b64: "*".to_owned(),
    };
    let message = crypto_message(context.decrypt_string(&bad_text));
    assert!(message.starts_with("ciphertext decode failed: "));
}

#[test]
fn a_nonce_of_another_length_does_not_fit() {
    let context = configured();
    let good = context.encrypt_with_nonce("key", &[0; 12]).unwrap();
    let short = EncryptedValue {
        algorithm: good.algorithm.clone(),
        nonce_b64: "AAAA".to_owned(),
        ciphertext_b64: good.ciphertext_b64.clone(),
    };
    assert!(!context.nonce_fits(&short));
    let unconfigured = CryptoContext::from_value("KEY", None);
    assert!(unconfigured.nonce_fits(&short));
}

#[test]
fn what_is_sealed_but_not_text_is_refused() {
    let digest = sha2::Sha256::digest("a secret".as_bytes());
    let cipher = aes_gcm_siv::Aes256GcmSiv::new_from_slice(digest.as_slice()).unwrap();
    let nonce = aes_gcm_siv::Nonce::from_slice(&[1; 12]);
    let bytes: [u8; 2] = [0xff, 0xfe];
    let cipher_text = cipher.encrypt(nonce, bytes.as_slice()).unwrap();
    let standard = base64::engine::general_purpose::STANDARD;
    let value = EncryptedValue {
        algorithm: "aes-256-gcm-siv".to_owned(),
        nonce_b64: standard.encode([1; 12]),
        ciphertext_b64: standard.encode(cipher_text),
    };
    let message = crypto_message(configured().decrypt_string(&value));
    assert!(message.starts_with("plaintext is not valid UTF-8: "));
}

#[test]
fn keys_are_masked() {
    assert_eq!(mask_api_key(""), "***");
    assert_eq!(mask_api_key("123456"), "***");
    assert_eq!(mask_api_key("1234567"), "123***67");
    assert_eq!(mask_api_key("abcdefghijklmnop"), "abc***op");
    assert_eq!(mask_api_key("汉字x-é"), "汉***é");
}

#[test]
fn some_texts_cannot_be_masked() {
    assert!(is_maskable("汉字"));
    assert!(is_maskable("abcdefg"));
    assert!(!is_maskable("ab汉字cd"));
    assert!(!is_maskable("abc字字"));
}
