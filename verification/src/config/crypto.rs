//! Secrets at rest: texts are sealed with AES-256-GCM-SIV under a key that is the SHA-256 digest of a
//! master secret, and stored as base64.

use aes_gcm_siv::aead::{Aead, KeyInit};
use base64::Engine;
use rand::RngCore;
use sha2::Digest;
use vstd::prelude::*;
use vstd::utf8::{
    decode_utf8, encode_utf8, encode_utf8_decode_utf8, encode_utf8_valid_utf8, is_char_boundary,
    valid_utf8,
};

use crate::config::model::EncryptedValueModel;
use crate::error::{outcome, AppError, AppErrorModel, AppResult};
use crate::text::{lemma_trimmed_between, trim, trimmed, white};

pub use crate::config::model::EncryptedValue;

verus! {

/// The longest text that can be sealed, in bytes.
pub const MAX_PLAIN_BYTES: u64 = 0x10_0000_0000;

/// The character of a sextet in the standard base64 alphabet.
pub open spec fn sextet_char(n: int) -> char {
    if n < 26 {
        (65 + n) as char
    } else if n < 52 {
        (71 + n) as char
    } else if n < 62 {
        (n - 4) as char
    } else if n == 62 {
        '+'
    } else {
        '/'
    }
}

/// Bytes in base64: four characters for each three bytes, with padding.
pub open spec fn base64_text(b: Seq<u8>) -> Seq<char>
    decreases b.len(),
{
    if b.len() == 0 {
        Seq::empty()
    } else if b.len() == 1 {
        seq![sextet_char((b[0] / 4) as int), sextet_char((b[0] % 4) * 16), '=', '=']
    } else if b.len() == 2 {
        seq![
            sextet_char((b[0] / 4) as int),
            sextet_char((b[0] % 4) * 16 + b[1] / 16),
            sextet_char((b[1] % 16) * 4),
            '=',
        ]
    } else {
        seq![
            sextet_char((b[0] / 4) as int),
            sextet_char((b[0] % 4) * 16 + b[1] / 16),
            sextet_char((b[1] % 16) * 4 + b[2] / 64),
            sextet_char((b[2] % 64) as int),
        ] + base64_text(b.skip(3))
    }
}

/// What is said of a text that is not base64.
pub uninterp spec fn base64_fault(s: Seq<char>) -> Seq<char>;

/// `base64`'s `Engine::encode` with the engine `STANDARD` writes bytes in the standard alphabet with
/// padding.
#[verifier::external_body]
fn base64_encode(bytes: &[u8]) -> (r: String)
    ensures
        r@ == base64_text(bytes@),
{
    base64::engine::general_purpose::STANDARD.encode(bytes)
}

/// `base64`'s `Engine::decode` with the engine `STANDARD` reads exactly the texts that encoding
/// gives: other characters, missing padding and bits left over are refused. The error is given as its
/// text, which is a function of what was read.
#[verifier::external_body]
fn base64_decode(text: &str) -> (r: Result<Vec<u8>, String>)
    ensures
        match r {
            Ok(bytes) => base64_text(bytes@) == text@,
            Err(why) => why@ == base64_fault(text@) && forall|b: Seq<u8>|
                #[trigger] base64_text(b) != text@,
        },
{
    base64::engine::general_purpose::STANDARD.decode(text).map_err(|error| error.to_string())
}

/// The SHA-256 digest of bytes.
pub uninterp spec fn sha256(bytes: Seq<u8>) -> Seq<u8>;

/// `sha2::Sha256::digest` gives the SHA-256 digest, which is a function of the bytes.
#[verifier::external_body]
fn sha256_digest(bytes: &[u8]) -> (r: [u8; 32])
    ensures
        r@ == sha256(bytes@),
{
    sha2::Sha256::digest(bytes).into()
}

/// `rand`'s `OsRng::fill_bytes` fills bytes from the operating system's source of randomness; nothing
/// is claimed of them. Where the system has no randomness to give, it panics.
#[verifier::external_body]
fn random_nonce() -> (r: [u8; 12]) {
    let mut nonce = [0_u8; 12];
    rand::rngs::OsRng.fill_bytes(&mut nonce);
    nonce
}

/// The error of a cipher.
#[verifier::external_type_specification]
#[verifier::external_body]
pub struct ExAeadError(aes_gcm_siv::Error);

/// Bytes sealed with AES-256-GCM-SIV.
pub uninterp spec fn sealed(key: Seq<u8>, nonce: Seq<u8>, plain: Seq<u8>) -> Seq<u8>;

/// Sealed bytes opened with AES-256-GCM-SIV; nothing where they were not sealed with the key and the
/// nonce.
pub uninterp spec fn opened(key: Seq<u8>, nonce: Seq<u8>, cipher: Seq<u8>) -> Option<Seq<u8>>;

/// `aes_gcm_siv`'s `Aead::encrypt` with `Aes256GcmSiv` seals bytes; what it gives is a function of
/// key, nonce and bytes. It fails exactly on more than 2^36 bytes. What it has sealed, opening with
/// the same key and nonce gives back.
#[verifier::external_body]
fn seal(key: &[u8; 32], nonce: &[u8; 12], plain: &[u8]) -> (r: Result<
    Vec<u8>,
    aes_gcm_siv::Error,
>)
    ensures
        r is Ok <==> plain@.len() <= MAX_PLAIN_BYTES,
        r is Ok ==> r->Ok_0@ == sealed(key@, nonce@, plain@),
        r is Ok ==> opened(key@, nonce@, r->Ok_0@) == Some(plain@),
{
    let key = aes_gcm_siv::Key::<aes_gcm_siv::Aes256GcmSiv>::from_slice(key);
    let cipher = aes_gcm_siv::Aes256GcmSiv::new(key);
    cipher.encrypt(aes_gcm_siv::Nonce::from_slice(nonce), plain)
}

/// `aes_gcm_siv`'s `Aead::decrypt` with `Aes256GcmSiv` opens sealed bytes; what it gives is a function
/// of key, nonce and bytes. A nonce has twelve bytes; any other number makes it panic.
#[verifier::external_body]
fn open(key: &[u8; 32], nonce: &[u8], cipher: &[u8]) -> (r: Result<Vec<u8>, aes_gcm_siv::Error>)
    requires
        nonce@.len() == 12,
    ensures
        match r {
            Ok(plain) => opened(key@, nonce@, cipher@) == Some(plain@),
            Err(_) => opened(key@, nonce@, cipher@) is None,
        },
{
    let key = aes_gcm_siv::Key::<aes_gcm_siv::Aes256GcmSiv>::from_slice(key);
    let aead = aes_gcm_siv::Aes256GcmSiv::new(key);
    aead.decrypt(aes_gcm_siv::Nonce::from_slice(nonce), cipher)
}

/// What is said of bytes that are not UTF-8.
pub uninterp spec fn utf8_fault(bytes: Seq<u8>) -> Seq<char>;

/// `String::from_utf8` reads bytes as UTF-8. The error is given as its text, which is a function of
/// the bytes.
#[verifier::external_body]
fn text_from_utf8(bytes: Vec<u8>) -> (r: Result<String, String>)
    ensures
        match r {
            Ok(text) => valid_utf8(bytes@) && text@ == decode_utf8(bytes@),
            Err(why) => !valid_utf8(bytes@) && why@ == utf8_fault(bytes@),
        },
{
    String::from_utf8(bytes).map_err(|error| error.to_string())
}

/// What a [`CryptoContext`] holds.
#[verifier::ext_equal]
pub struct CryptoModel {
    /// The name of the environment variable that holds the master secret.
    pub env_var_name: Seq<char>,
    pub key: Option<Seq<u8>>,
}

/// The key that secrets are sealed with, if there is one.
#[derive(Debug)]
pub struct CryptoContext {
    env_var_name: String,
    key_bytes: Option<[u8; 32]>,
}

impl View for CryptoContext {
    type V = CryptoModel;

    closed spec fn view(&self) -> CryptoModel {
        CryptoModel {
            env_var_name: self.env_var_name@,
            key: match self.key_bytes {
                Some(key) => Some(key@),
                None => None,
            },
        }
    }
}

impl Clone for CryptoContext {
    fn clone(&self) -> (r: Self)
        ensures
            r@ == self@,
    {
        CryptoContext { env_var_name: self.env_var_name.clone(), key_bytes: self.key_bytes }
    }
}

/// Whether a text is base64.
pub open spec fn is_base64(text: Seq<char>) -> bool {
    exists|b: Seq<u8>| #[trigger] base64_text(b) == text
}

/// The bytes that a base64 text stands for.
pub open spec fn base64_bytes(text: Seq<char>) -> Seq<u8> {
    choose|b: Seq<u8>| #[trigger] base64_text(b) == text
}

impl CryptoModel {
    /// The key that a master secret gives: none where it is missing or blank.
    pub open spec fn key_from(value: Option<Seq<char>>) -> Option<Seq<u8>> {
        match value {
            Some(secret) => if trimmed(secret).len() == 0 {
                None
            } else {
                Some(sha256(encode_utf8(trimmed(secret))))
            },
            None => None,
        }
    }

    /// What is said where there is no key.
    pub open spec fn missing_key(self) -> AppErrorModel {
        AppErrorModel::Crypto(
            "set "@ + self.env_var_name + " before creating or loading exchange credentials"@,
        )
    }

    /// A text sealed with a nonce.
    pub open spec fn encrypted(
        self,
        plain: Seq<char>,
        nonce: Seq<u8>,
    ) -> Result<EncryptedValueModel, AppErrorModel> {
        match self.key {
            None => Err(self.missing_key()),
            Some(key) => if encode_utf8(plain).len() > MAX_PLAIN_BYTES {
                Err(AppErrorModel::Crypto("encrypt failed: Error"@))
            } else {
                Ok(
                    EncryptedValueModel {
                        algorithm: "aes-256-gcm-siv"@,
                        nonce_b64: base64_text(nonce),
                        ciphertext_b64: base64_text(sealed(key, nonce, encode_utf8(plain))),
                    },
                )
            },
        }
    }

    /// Whether the stored nonce, if it is looked at, has twelve bytes.
    pub open spec fn nonce_fits(self, value: EncryptedValueModel) -> bool {
        self.key is Some && is_base64(value.nonce_b64) && is_base64(value.ciphertext_b64)
            ==> base64_bytes(value.nonce_b64).len() == 12
    }

    /// A sealed text opened.
    pub open spec fn decrypted(self, value: EncryptedValueModel) -> Result<
        Seq<char>,
        AppErrorModel,
    > {
        match self.key {
            None => Err(self.missing_key()),
            Some(key) => if !is_base64(value.nonce_b64) {
                Err(
                    AppErrorModel::Crypto(
                        "nonce decode failed: "@ + base64_fault(value.nonce_b64),
                    ),
                )
            } else if !is_base64(value.ciphertext_b64) {
                Err(
                    AppErrorModel::Crypto(
                        "ciphertext decode failed: "@ + base64_fault(value.ciphertext_b64),
                    ),
                )
            } else {
                match opened(
                    key,
                    base64_bytes(value.nonce_b64),
                    base64_bytes(value.ciphertext_b64),
                ) {
                    None => Err(AppErrorModel::Crypto("decrypt failed: Error"@)),
                    Some(plain) => if valid_utf8(plain) {
                        Ok(decode_utf8(plain))
                    } else {
                        Err(
                            AppErrorModel::Crypto(
                                "plaintext is not valid UTF-8: "@ + utf8_fault(plain),
                            ),
                        )
                    },
                }
            },
        }
    }
}

/// Whether `value` is a text sealed under a context with some nonce, and can be opened again.
pub open spec fn seals(context: CryptoModel, plain: Seq<char>, value: EncryptedValueModel) -> bool {
    exists|nonce: Seq<u8>| #[trigger] seals_with(context, plain, nonce, value)
}

/// Whether `value` is a text sealed under a context with a nonce, and can be opened again.
pub open spec fn seals_with(
    context: CryptoModel,
    plain: Seq<char>,
    nonce: Seq<u8>,
    value: EncryptedValueModel,
) -> bool {
    &&& nonce.len() == 12
    &&& context.encrypted(plain, nonce) == Ok::<EncryptedValueModel, AppErrorModel>(value)
    &&& opened(context.key->0, nonce, sealed(context.key->0, nonce, encode_utf8(plain))) == Some(
        encode_utf8(plain),
    )
}

proof fn lemma_sextets(a: int, b: int)
    requires
        0 <= a < 64,
        0 <= b < 64,
    ensures
        sextet_char(a) == sextet_char(b) ==> a == b,
        sextet_char(a) != '=',
{
}

proof fn lemma_three_bytes(a0: u8, a1: u8, a2: u8, b0: u8, b1: u8, b2: u8)
    requires
        a0 / 4 == b0 / 4,
        (a0 % 4) * 16 + a1 / 16 == (b0 % 4) * 16 + b1 / 16,
        (a1 % 16) * 4 + a2 / 64 == (b1 % 16) * 4 + b2 / 64,
        a2 % 64 == b2 % 64,
    ensures
        a0 == b0,
        a1 == b1,
        a2 == b2,
{
}

/// Different bytes have different base64 texts.
pub proof fn base64_tells_apart(a: Seq<u8>, b: Seq<u8>)
    requires
        base64_text(a) == base64_text(b),
    ensures
        a == b,
    decreases a.len(),
{
    let x = base64_text(a);
    let y = base64_text(b);
    lemma_base64_length(a);
    lemma_base64_length(b);
    if a.len() == 0 || b.len() == 0 {
        assert(a =~= b);
    } else {
        lemma_sextets((a[0] / 4) as int, (b[0] / 4) as int);
        assert(x[0] == y[0] && x[1] == y[1] && x[2] == y[2] && x[3] == y[3]);
        if a.len() == 1 {
            if b.len() == 1 {
                lemma_sextets((a[0] % 4) * 16, (b[0] % 4) * 16);
                assert(a =~= b);
            } else if b.len() == 2 {
                lemma_sextets((b[1] % 16) * 4, 0);
            } else {
                lemma_sextets((b[1] % 16) * 4 + b[2] / 64, 0);
            }
        } else if a.len() == 2 {
            if b.len() == 1 {
                lemma_sextets((a[1] % 16) * 4, 0);
            } else if b.len() == 2 {
                lemma_sextets((a[0] % 4) * 16 + a[1] / 16, (b[0] % 4) * 16 + b[1] / 16);
                lemma_sextets((a[1] % 16) * 4, (b[1] % 16) * 4);
                assert(a =~= b);
            } else {
                lemma_sextets((b[2] % 64) as int, 0);
            }
        } else {
            if b.len() == 1 {
                lemma_sextets((a[1] % 16) * 4 + a[2] / 64, 0);
            } else if b.len() == 2 {
                lemma_sextets((a[2] % 64) as int, 0);
            } else {
                lemma_sextets((a[0] % 4) * 16 + a[1] / 16, (b[0] % 4) * 16 + b[1] / 16);
                lemma_sextets((a[1] % 16) * 4 + a[2] / 64, (b[1] % 16) * 4 + b[2] / 64);
                lemma_sextets((a[2] % 64) as int, (b[2] % 64) as int);
                assert(x.skip(4) =~= base64_text(a.skip(3)));
                assert(y.skip(4) =~= base64_text(b.skip(3)));
                base64_tells_apart(a.skip(3), b.skip(3));
                assert(x[0] == sextet_char((a[0] / 4) as int));
                assert(y[0] == sextet_char((b[0] / 4) as int));
                assert(x[1] == sextet_char((a[0] % 4) * 16 + a[1] / 16));
                assert(y[1] == sextet_char((b[0] % 4) * 16 + b[1] / 16));
                assert(x[2] == sextet_char((a[1] % 16) * 4 + a[2] / 64));
                assert(y[2] == sextet_char((b[1] % 16) * 4 + b[2] / 64));
                assert(x[3] == sextet_char((a[2] % 64) as int));
                assert(y[3] == sextet_char((b[2] % 64) as int));
                lemma_three_bytes(a[0], a[1], a[2], b[0], b[1], b[2]);
                assert(a =~= seq![a[0], a[1], a[2]] + a.skip(3));
                assert(b =~= seq![b[0], b[1], b[2]] + b.skip(3));
            }
        }
    }
}

proof fn lemma_base64_length(b: Seq<u8>)
    ensures
        b.len() == 0 <==> base64_text(b).len() == 0,
        b.len() > 0 ==> base64_text(b).len() >= 4,
{
}

/// The bytes of a base64 text are those that it was made of.
pub proof fn base64_reads_back(b: Seq<u8>)
    ensures
        is_base64(base64_text(b)),
        base64_bytes(base64_text(b)) == b,
{
    base64_tells_apart(base64_bytes(base64_text(b)), b);
}

/// Opening a sealed text under the same context gives the text back.
pub proof fn decryption_undoes_encryption(
    context: CryptoModel,
    plain: Seq<char>,
    value: EncryptedValueModel,
)
    requires
        seals(context, plain, value),
    ensures
        context.nonce_fits(value),
        context.decrypted(value) == Ok::<Seq<char>, AppErrorModel>(plain),
{
    let nonce = choose|nonce: Seq<u8>| #[trigger] seals_with(context, plain, nonce, value);
    base64_reads_back(nonce);
    base64_reads_back(sealed(context.key->0, nonce, encode_utf8(plain)));
    encode_utf8_valid_utf8(plain);
    encode_utf8_decode_utf8(plain);
}

impl CryptoContext {
    /// The context for a master secret read from an environment variable.
    pub fn from_value(env_var_name: &str, value: Option<&str>) -> (r: Self)
        ensures
            r@.env_var_name == env_var_name@,
            r@.key == CryptoModel::key_from(
                match value {
                    Some(secret) => Some(secret@),
                    None => None,
                },
            ),
    {
        let mut key_bytes: Option<[u8; 32]> = None;
        if let Some(secret) = value {
            let secret = trim(secret);
            if !secret.as_str().is_empty() {
                key_bytes = Some(sha256_digest(secret.as_str().as_bytes()));
            }
        }
        CryptoContext { env_var_name: env_var_name.to_owned(), key_bytes }
    }

    pub fn is_configured(&self) -> (r: bool)
        ensures
            r == self@.key is Some,
    {
        self.key_bytes.is_some()
    }

    fn missing_key(&self) -> (r: AppError)
        ensures
            r@ == self@.missing_key(),
    {
        let mut message = "set ".to_owned();
        message.append(self.env_var_name.as_str());
        message.append(" before creating or loading exchange credentials");
        AppError::Crypto(message)
    }

    /// Seals a text with a nonce of chance.
    pub fn encrypt_string(&self, plain_text: &str) -> (r: AppResult<EncryptedValue>)
        ensures
            match outcome(r) {
                Ok(value) => seals(self@, plain_text@, value),
                Err(why) => forall|nonce: Seq<u8>| #[trigger]
                    self@.encrypted(plain_text@, nonce) == Err::<EncryptedValueModel, AppErrorModel>(
                        why,
                    ),
            },
    {
        let nonce = random_nonce();
        let r = self.encrypt_with_nonce(plain_text, &nonce);
        proof {
            if let Ok(value) = outcome(r) {
                assert(seals_with(self@, plain_text@, nonce@, value));
            }
        }
        r
    }

    /// Seals a text with a nonce.
    pub fn encrypt_with_nonce(&self, plain_text: &str, nonce: &[u8; 12]) -> (r: AppResult<
        EncryptedValue,
    >)
        ensures
            outcome(r) == self@.encrypted(plain_text@, nonce@),
            outcome(r) matches Ok(value) ==> seals_with(self@, plain_text@, nonce@, value),
    {
        let key = match &self.key_bytes {
            Some(key) => key,
            None => return Err(self.missing_key()),
        };
        match seal(key, nonce, plain_text.as_bytes()) {
            Ok(cipher_text) => Ok(
                EncryptedValue {
                    algorithm: "aes-256-gcm-siv".to_owned(),
                    nonce_b64: base64_encode(nonce.as_slice()),
                    ciphertext_b64: base64_encode(cipher_text.as_slice()),
                },
            ),
            Err(_) => Err(AppError::Crypto("encrypt failed: Error".to_owned())),
        }
    }

    /// Whether a stored nonce, if it is looked at, has twelve bytes.
    pub fn nonce_fits(&self, encrypted: &EncryptedValue) -> (r: bool)
        ensures
            r == self@.nonce_fits(encrypted@),
    {
        if self.key_bytes.is_none() {
            return true;
        }
        let nonce = match base64_decode(encrypted.nonce_b64.as_str()) {
            Ok(nonce) => nonce,
            Err(_) => return true,
        };
        proof {
            base64_reads_back(nonce@);
        }
        match base64_decode(encrypted.ciphertext_b64.as_str()) {
            Ok(cipher_text) => {
                proof {
                    base64_reads_back(cipher_text@);
                }
                nonce.len() == 12
            },
            Err(_) => true,
        }
    }

    /// Opens a sealed text.
    pub fn decrypt_string(&self, encrypted: &EncryptedValue) -> (r: AppResult<String>)
        requires
            self@.nonce_fits(encrypted@),
        ensures
            outcome(r) == self@.decrypted(encrypted@),
    {
        let key = match &self.key_bytes {
            Some(key) => key,
            None => return Err(self.missing_key()),
        };
        let nonce = match base64_decode(encrypted.nonce_b64.as_str()) {
            Ok(nonce) => nonce,
            Err(why) => {
                let mut message = "nonce decode failed: ".to_owned();
                message.append(why.as_str());
                return Err(AppError::Crypto(message));
            },
        };
        proof {
            base64_reads_back(nonce@);
        }
        let cipher_text = match base64_decode(encrypted.ciphertext_b64.as_str()) {
            Ok(cipher_text) => cipher_text,
            Err(why) => {
                let mut message = "ciphertext decode failed: ".to_owned();
                message.append(why.as_str());
                return Err(AppError::Crypto(message));
            },
        };
        proof {
            base64_reads_back(cipher_text@);
        }
        let plain_text = match open(key, nonce.as_slice(), cipher_text.as_slice()) {
            Ok(plain_text) => plain_text,
            Err(_) => return Err(AppError::Crypto("decrypt failed: Error".to_owned())),
        };
        match text_from_utf8(plain_text) {
            Ok(text) => Ok(text),
            Err(why) => {
                let mut message = "plaintext is not valid UTF-8: ".to_owned();
                message.append(why.as_str());
                Err(AppError::Crypto(message))
            },
        }
    }
}

/// Whether a text can be cut three bytes behind its start and two bytes before its end, or is so
/// short that it is not cut.
pub open spec fn maskable(value: Seq<char>) -> bool {
    let bytes = encode_utf8(value);
    bytes.len() <= 6 || (is_char_boundary(bytes, 3) && is_char_boundary(bytes, bytes.len() - 2))
}

/// A text of which only the first three and the last two bytes are shown, and nothing if it has at
/// most six.
pub open spec fn masked(value: Seq<char>) -> Seq<char> {
    let bytes = encode_utf8(value);
    if bytes.len() <= 6 {
        "***"@
    } else {
        decode_utf8(bytes.take(3)) + "***"@ + decode_utf8(bytes.skip(bytes.len() - 2))
    }
}

/// Whether a text can be masked.
pub fn is_maskable(value: &str) -> (r: bool)
    ensures
        r == maskable(value@),
{
    let length: usize = value.as_bytes().len();
    length <= 6 || (value.is_char_boundary(3) && value.is_char_boundary(length - 2))
}

pub fn mask_api_key(value: &str) -> (r: String)
    requires
        maskable(value@),
    ensures
        r@ == masked(value@),
{
    let length: usize = value.as_bytes().len();
    if length <= 6 {
        return "***".to_owned();
    }
    let (head, _) = value.split_at(3);
    let (_, tail) = value.split_at(length - 2);
    proof {
        let bytes = encode_utf8(value@);
        encode_utf8_decode_utf8(head@);
        encode_utf8_decode_utf8(tail@);
        assert(bytes.take(3) =~= encode_utf8(head@));
        assert(bytes.skip(bytes.len() - 2) =~= encode_utf8(tail@));
    }
    let mut out = head.to_owned();
    out.append("***");
    out.append(tail);
    out
}

/// A master secret gives no key exactly if it is missing or nothing but white space. White space around
/// it does not matter: the key is the digest of what stands between.
pub proof fn secrets_give_keys(before: Seq<char>, secret: Seq<char>, after: Seq<char>)
    requires
        forall|i: int| 0 <= i < before.len() ==> white(#[trigger] before[i]),
        forall|i: int| 0 <= i < after.len() ==> white(#[trigger] after[i]),
        secret.len() > 0 ==> !white(secret.first()) && !white(secret.last()),
    ensures
        CryptoModel::key_from(None) is None,
        secret.len() == 0 ==> CryptoModel::key_from(Some(before + secret + after)) is None,
        secret.len() > 0 ==> CryptoModel::key_from(Some(before + secret + after)) == Some(
            sha256(encode_utf8(secret)),
        ),
{
    lemma_trimmed_between(before, secret, after);
}

/// A text is sealed exactly if there is a key and it has at most 2^36 bytes. What is stored names the
/// algorithm, and gives the nonce and the sealed bytes in base64. Without a key, the variable that is to
/// hold the master secret is named.
pub proof fn texts_are_sealed(context: CryptoModel, plain: Seq<char>, nonce: Seq<u8>)
    ensures
        ({
            let r = context.encrypted(plain, nonce);
            let bytes = encode_utf8(plain);
            &&& r is Ok <==> context.key is Some && bytes.len() <= 68719476736
            &&& r is Ok ==> r->Ok_0.algorithm == "aes-256-gcm-siv"@ && base64_bytes(
                r->Ok_0.nonce_b64,
            ) == nonce && base64_bytes(r->Ok_0.ciphertext_b64) == sealed(
                context.key->0,
                nonce,
                bytes,
            ) && is_base64(r->Ok_0.nonce_b64) && is_base64(r->Ok_0.ciphertext_b64)
            &&& context.key is None ==> r == Err::<EncryptedValueModel, AppErrorModel>(
                AppErrorModel::Crypto(
                    "set "@ + context.env_var_name
                        + " before creating or loading exchange credentials"@,
                ),
            )
            &&& context.key is Some && r is Err ==> r->Err_0 == AppErrorModel::Crypto(
                "encrypt failed: Error"@,
            )
        }),
{
    base64_reads_back(nonce);
    if context.key is Some {
        base64_reads_back(sealed(context.key->0, nonce, encode_utf8(plain)));
    }
}

/// A stored text is opened with the key and the stored nonce, and read as UTF-8. The first thing that
/// fails, of finding the key, reading the nonce, reading the sealed bytes, opening them, and reading the
/// text, is what is said.
pub proof fn texts_are_opened(
    context: CryptoModel,
    nonce: Seq<u8>,
    cipher: Seq<u8>,
    value: EncryptedValueModel,
)
    ensures
        context.key is None ==> context.decrypted(value) == Err::<Seq<char>, AppErrorModel>(
            AppErrorModel::Crypto(
                "set "@ + context.env_var_name
                    + " before creating or loading exchange credentials"@,
            ),
        ),
        context.key is Some && !is_base64(value.nonce_b64) ==> context.decrypted(value) == Err::<
            Seq<char>,
            AppErrorModel,
        >(AppErrorModel::Crypto("nonce decode failed: "@ + base64_fault(value.nonce_b64))),
        context.key is Some && is_base64(value.nonce_b64) && !is_base64(value.ciphertext_b64)
            ==> context.decrypted(value) == Err::<Seq<char>, AppErrorModel>(
            AppErrorModel::Crypto(
                "ciphertext decode failed: "@ + base64_fault(value.ciphertext_b64),
            ),
        ),
        context.key is Some && value.nonce_b64 == base64_text(nonce) && value.ciphertext_b64
            == base64_text(cipher) ==> {
            let r = context.decrypted(value);
            match opened(context.key->0, nonce, cipher) {
                None => r == Err::<Seq<char>, AppErrorModel>(
                    AppErrorModel::Crypto("decrypt failed: Error"@),
                ),
                Some(plain) => if valid_utf8(plain) {
                    r == Ok::<Seq<char>, AppErrorModel>(decode_utf8(plain))
                } else {
                    r == Err::<Seq<char>, AppErrorModel>(
                        AppErrorModel::Crypto("plaintext is not valid UTF-8: "@ + utf8_fault(plain)),
                    )
                },
            }
        },
        context.nonce_fits(value) <==> (context.key is Some && is_base64(value.nonce_b64)
            && is_base64(value.ciphertext_b64) ==> base64_bytes(value.nonce_b64).len() == 12),
{
    base64_reads_back(nonce);
    base64_reads_back(cipher);
}

} // verus!
