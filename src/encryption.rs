//! Authenticated encryption of text fields with AES-256-GCM.
//!
//! An encrypted value is the lowercase hex of a fresh nonce, a colon, and the
//! lowercase hex of the sealed bytes (ciphertext followed by its tag).
use aes_gcm::aead::Aead;
use aes_gcm::{Aes256Gcm, Key, KeyInit, Nonce};
use vstd::prelude::*;
use vstd::slice::slice_subrange;
use vstd::string::StrSliceExecFns;
use vstd::utf8::{
    decode_utf8, decode_utf8_encode_utf8, encode_utf8, encode_utf8_decode_utf8,
    encode_utf8_valid_utf8, is_ascii_chars, is_ascii_chars_encode_utf8, valid_utf8,
};

use crate::random::random_bytes;
use crate::hex_text::{
    decode_hex, encode_hex, hex_decoded, hex_encoded, is_hex_text, lemma_hex_round_trip,
};

verus! {

/// Length of an AES-256 key in bytes.
pub const KEY_LEN: usize = 32;

/// Length of a GCM nonce in bytes.
pub const NONCE_LEN: usize = 12;

/// The longest plaintext, in bytes, that the cipher seals.
pub const MAX_PLAINTEXT_LEN: u64 = 68719476736;

/// The configuration variable that holds the key.
pub const KEY_VAR: &'static str = "ENCRYPTION_KEY";

/// The byte that separates the two hex segments of an encrypted value.
pub const SEPARATOR: u8 = 0x3a;

/// Why an encryption or a decryption failed.
#[derive(Debug, Clone, Copy, PartialEq, Eq, Structural)]
pub enum EncryptionError {
    /// The key is not configured, or is not of the cipher's key length.
    Configuration,
    /// The cipher refused: a wrong nonce length, a failed authentication, or
    /// a plaintext over the cipher's limit.
    Crypto,
    /// The value is not two hex segments joined by one colon.
    Format,
    /// The decrypted bytes are not UTF-8 text.
    Encoding,
}

/// The AES-256-GCM construction for a key, a nonce and a plaintext with no
/// associated data: the counter-mode ciphertext followed by its tag. It is
/// what `Aes256Gcm::encrypt` returns for a plaintext within the cipher's limit,
/// and what `Aes256Gcm::decrypt` checks a ciphertext against.
pub uninterp spec fn gcm_seal(key: Seq<u8>, nonce: Seq<u8>, plaintext: Seq<u8>) -> Seq<u8>;

/// The text of an encrypted value made of a nonce and sealed bytes.
pub open spec fn encrypted_value(nonce: Seq<u8>, sealed: Seq<u8>) -> Seq<char> {
    hex_encoded(nonce) + seq![':'] + hex_encoded(sealed)
}

/// `i` is the position of the one separator in `b`.
pub open spec fn is_only_separator(b: Seq<u8>, i: int) -> bool {
    &&& 0 <= i < b.len()
    &&& b[i] == SEPARATOR
    &&& forall|j: int| 0 <= j < b.len() && j != i ==> b[j] != SEPARATOR
}

/// `b` splits into exactly two segments at a separator.
pub open spec fn has_two_segments(b: Seq<u8>) -> bool {
    exists|i: int| is_only_separator(b, i)
}

/// Position of the separator, where there is exactly one.
pub open spec fn separator_index(b: Seq<u8>) -> int {
    choose|i: int| is_only_separator(b, i)
}

/// The bytes before the separator.
pub open spec fn first_segment(b: Seq<u8>) -> Seq<u8> {
    b.subrange(0, separator_index(b))
}

/// The bytes after the separator.
pub open spec fn second_segment(b: Seq<u8>) -> Seq<u8> {
    b.subrange(separator_index(b) + 1, b.len() as int)
}

/// The bytes of a value read as an encrypted value: two hex segments around one colon.
pub open spec fn is_well_formed(b: Seq<u8>) -> bool {
    &&& has_two_segments(b)
    &&& is_hex_text(first_segment(b))
    &&& is_hex_text(second_segment(b))
}

/// The nonce that a well-formed value carries.
pub open spec fn value_nonce(b: Seq<u8>) -> Seq<u8> {
    hex_decoded(first_segment(b))
}

/// The sealed bytes that a well-formed value carries.
pub open spec fn value_sealed(b: Seq<u8>) -> Seq<u8> {
    hex_decoded(second_segment(b))
}

/// Under `key`, the value with bytes `b` is the sealing of `plaintext`.
pub open spec fn opens_to(key: Seq<u8>, b: Seq<u8>, plaintext: Seq<u8>) -> bool {
    &&& key.len() == KEY_LEN
    &&& is_well_formed(b)
    &&& value_nonce(b).len() == NONCE_LEN
    &&& gcm_seal(key, value_nonce(b), plaintext) == value_sealed(b)
}

/// Relies on aes-gcm's `Aes256Gcm::encrypt` (after `Key::from_slice` and
/// `Nonce::from_slice`, which take exactly these lengths): it refuses only a
/// plaintext over the cipher's limit, and otherwise returns the sealed bytes.
#[verifier::external_body]
fn gcm_encrypt(key: &[u8], nonce: &[u8], plaintext: &[u8]) -> (r: Option<Vec<u8>>)
    requires
        key@.len() == KEY_LEN,
        nonce@.len() == NONCE_LEN,
    ensures
        r is Some <==> plaintext@.len() <= MAX_PLAINTEXT_LEN,
        r matches Some(c) ==> c@ == gcm_seal(key@, nonce@, plaintext@),
        r matches Some(c) ==> c@.len() == plaintext@.len() + 16,
{
    let cipher = Aes256Gcm::new(Key::<Aes256Gcm>::from_slice(key));
    cipher.encrypt(Nonce::from_slice(nonce), plaintext).ok()
}

/// Relies on aes-gcm's `Aes256Gcm::decrypt`: it returns a plaintext only when
/// the tag authenticates the bytes, and then the one whose sealing they are;
/// and it returns that plaintext whenever the bytes are the sealing of one
/// within the cipher's limit.
#[verifier::external_body]
fn gcm_decrypt(key: &[u8], nonce: &[u8], sealed: &[u8]) -> (r: Option<Vec<u8>>)
    requires
        key@.len() == KEY_LEN,
        nonce@.len() == NONCE_LEN,
    ensures
        r matches Some(p) ==> gcm_seal(key@, nonce@, p@) == sealed@,
        r is None ==> forall|p: Seq<u8>|
            p.len() <= MAX_PLAINTEXT_LEN ==> #[trigger] gcm_seal(key@, nonce@, p) != sealed@,
        r matches Some(q) ==> forall|p: Seq<u8>|
            p.len() <= MAX_PLAINTEXT_LEN && #[trigger] gcm_seal(key@, nonce@, p) == sealed@ ==> p
                == q@,
{
    let cipher = Aes256Gcm::new(Key::<Aes256Gcm>::from_slice(key));
    cipher.decrypt(Nonce::from_slice(nonce), sealed).ok()
}

/// Relies on `dotenvy::var`: the value of a configuration variable, from the
/// environment or the `.env` file, where it is set.
#[verifier::external_body]
fn config_var(name: &str) -> (r: Option<String>) {
    dotenvy::var(name).ok()
}

/// Relies on `String::from_utf8`: it accepts exactly valid UTF-8 and keeps the
/// characters that the bytes encode.
#[verifier::external_body]
fn text_from_utf8(bytes: Vec<u8>) -> (r: Option<String>)
    ensures
        r is Some <==> valid_utf8(bytes@),
        r matches Some(s) ==> s@ == decode_utf8(bytes@),
{
    String::from_utf8(bytes).ok()
}

/// The bytes of an encrypted value read back as the nonce and sealed bytes it was made of.
pub proof fn lemma_encrypted_value_parts(nonce: Seq<u8>, sealed: Seq<u8>)
    ensures
        is_well_formed(encode_utf8(encrypted_value(nonce, sealed))),
        value_nonce(encode_utf8(encrypted_value(nonce, sealed))) == nonce,
        value_sealed(encode_utf8(encrypted_value(nonce, sealed))) == sealed,
{
    let hn = hex_encoded(nonce);
    let hs = hex_encoded(sealed);
    let c = encrypted_value(nonce, sealed);
    lemma_hex_round_trip(nonce);
    lemma_hex_round_trip(sealed);
    let a = hn.map_values(|x: char| x as u8);
    let z = hs.map_values(|x: char| x as u8);
    assert forall|i: int| 0 <= i < c.len() implies '\0' <= #[trigger] c[i] <= '\u{7f}' by {
        if i < hn.len() {
            assert(c[i] == hn[i]);
        } else if i > hn.len() {
            assert(c[i] == hs[i - hn.len() - 1]);
        }
    }
    assert(is_ascii_chars(c));
    is_ascii_chars_encode_utf8(c);
    let b = encode_utf8(c);
    let k = hn.len() as int;
    assert(b =~= a + seq![SEPARATOR] + z) by {
        assert forall|i: int| 0 <= i < b.len() implies b[i] == (a + seq![SEPARATOR] + z)[i] by {
            assert(c[i] as u8 == b[i]);
            if i < k {
                assert(c[i] == hn[i]);
            } else if i > k {
                assert(c[i] == hs[i - k - 1]);
            }
        }
    }
    assert(is_only_separator(b, k)) by {
        assert forall|j: int| 0 <= j < b.len() && j != k implies b[j] != SEPARATOR by {
            if j < k {
                assert(b[j] == a[j]);
            } else {
                assert(b[j] == z[j - k - 1]);
            }
        }
    }
    let m = separator_index(b);
    assert(m == k) by {
        assert(is_only_separator(b, m));
    }
    assert(first_segment(b) =~= a);
    assert(second_segment(b) =~= z);
}

/// Splits an encrypted value into the nonce and the sealed bytes it carries.
pub fn parse_encrypted(value: &str) -> (r: Option<(Vec<u8>, Vec<u8>)>)
    ensures
        r is Some <==> is_well_formed(encode_utf8(value@)),
        r matches Some((n, c)) ==> n@ == value_nonce(encode_utf8(value@)) && c@ == value_sealed(
            encode_utf8(value@),
        ),
{
    let bytes = value.as_bytes_vec();
    let ghost b = bytes@;
    let len = bytes.len();
    let mut i: usize = 0;
    while i < len && bytes[i] != SEPARATOR
        invariant
            i <= len,
            len == b.len(),
            bytes@ == b,
            forall|j: int| 0 <= j < i ==> b[j] != SEPARATOR,
        decreases len - i,
    {
        i = i + 1;
    }
    if i == len {
        proof {
            if has_two_segments(b) {
                let m = separator_index(b);
                assert(is_only_separator(b, m));
            }
        }
        return None;
    }
    let mut k: usize = i + 1;
    while k < len && bytes[k] != SEPARATOR
        invariant
            i < k <= len,
            len == b.len(),
            bytes@ == b,
            b[i as int] == SEPARATOR,
            forall|j: int| 0 <= j < i ==> b[j] != SEPARATOR,
            forall|j: int| i < j < k ==> b[j] != SEPARATOR,
        decreases len - k,
    {
        k = k + 1;
    }
    if k < len {
        proof {
            if has_two_segments(b) {
                let m = separator_index(b);
                assert(is_only_separator(b, m));
                assert(m == i as int);
                assert(b[k as int] != SEPARATOR);
            }
        }
        return None;
    }
    proof {
        assert(is_only_separator(b, i as int));
        let m = separator_index(b);
        assert(is_only_separator(b, m));
        assert(m == i as int);
    }
    let first = slice_subrange(bytes.as_slice(), 0, i);
    let second = slice_subrange(bytes.as_slice(), i + 1, len);
    let nonce = match decode_hex(first) {
        Some(n) => n,
        None => {
            return None;
        },
    };
    let sealed = match decode_hex(second) {
        Some(c) => c,
        None => {
            return None;
        },
    };
    Some((nonce, sealed))
}

/// Seals `text` under `key` with the nonce given, and writes the encrypted value.
/// The nonce must be fresh: `encrypt` draws one for each call.
pub fn encrypt_with_key(key: &[u8], nonce: &[u8], text: &str) -> (r: Result<String, EncryptionError>)
    ensures
        r == Err::<String, EncryptionError>(EncryptionError::Configuration) <==> key@.len() != KEY_LEN,
        r == Err::<String, EncryptionError>(EncryptionError::Crypto) <==> key@.len() == KEY_LEN && (
        nonce@.len() != NONCE_LEN || encode_utf8(text@).len() > MAX_PLAINTEXT_LEN),
        r is Ok <==> key@.len() == KEY_LEN && nonce@.len() == NONCE_LEN && encode_utf8(text@).len()
            <= MAX_PLAINTEXT_LEN,
        r matches Ok(v) ==> v@ == encrypted_value(
            nonce@,
            gcm_seal(key@, nonce@, encode_utf8(text@)),
        ),
        r is Ok ==> gcm_seal(key@, nonce@, encode_utf8(text@)).len() == encode_utf8(text@).len()
            + 16,
{
    if key.len() != KEY_LEN {
        return Err(EncryptionError::Configuration);
    }
    if nonce.len() != NONCE_LEN {
        return Err(EncryptionError::Crypto);
    }
    let plain = text.as_bytes_vec();
    let sealed = match gcm_encrypt(key, nonce, plain.as_slice()) {
        Some(c) => c,
        None => {
            return Err(EncryptionError::Crypto);
        },
    };
    let mut out = encode_hex(nonce);
    let tail = encode_hex(sealed.as_slice());
    proof {
        reveal_strlit(":");
    }
    out.append(":");
    out.append(tail.as_str());
    Ok(out)
}

/// Opens sealed bytes under a key of the right length, as text.
fn open_sealed(key: &[u8], nonce: &[u8], sealed: &[u8]) -> (r: Result<String, EncryptionError>)
    requires
        key@.len() == KEY_LEN,
    ensures
        r matches Ok(p) ==> nonce@.len() == NONCE_LEN && gcm_seal(key@, nonce@, encode_utf8(p@))
            == sealed@,
        forall|t: Seq<char>|
            nonce@.len() == NONCE_LEN && encode_utf8(t).len() <= MAX_PLAINTEXT_LEN
                && #[trigger] gcm_seal(key@, nonce@, encode_utf8(t)) == sealed@ ==> (r matches Ok(
                p,
            ) && p@ == t),
        r == Err::<String, EncryptionError>(EncryptionError::Crypto) ==> nonce@.len() != NONCE_LEN
            || forall|b: Seq<u8>|
            b.len() <= MAX_PLAINTEXT_LEN ==> #[trigger] gcm_seal(key@, nonce@, b) != sealed@,
        r == Err::<String, EncryptionError>(EncryptionError::Encoding) ==> nonce@.len() == NONCE_LEN
            && exists|b: Seq<u8>| #[trigger] gcm_seal(key@, nonce@, b) == sealed@ && !valid_utf8(b),
        nonce@.len() == NONCE_LEN && (exists|b: Seq<u8>|
            b.len() <= MAX_PLAINTEXT_LEN && #[trigger] gcm_seal(key@, nonce@, b) == sealed@
                && !valid_utf8(b)) ==> r == Err::<String, EncryptionError>(
            EncryptionError::Encoding,
        ),
        r != Err::<String, EncryptionError>(EncryptionError::Format),
        r != Err::<String, EncryptionError>(EncryptionError::Configuration),
{
    if nonce.len() != NONCE_LEN {
        return Err(EncryptionError::Crypto);
    }
    let plain = match gcm_decrypt(key, nonce, sealed) {
        Some(p) => p,
        None => {
            return Err(EncryptionError::Crypto);
        },
    };
    let ghost pb = plain@;
    match text_from_utf8(plain) {
        Some(s) => {
            proof {
                decode_utf8_encode_utf8(pb);
                assert forall|t: Seq<char>|
                    encode_utf8(t).len() <= MAX_PLAINTEXT_LEN && #[trigger] gcm_seal(
                        key@,
                        nonce@,
                        encode_utf8(t),
                    ) == sealed@ implies s@ == t by {
                    encode_utf8_decode_utf8(t);
                }
                assert forall|b: Seq<u8>|
                    b.len() <= MAX_PLAINTEXT_LEN && #[trigger] gcm_seal(key@, nonce@, b) == sealed@
                        implies valid_utf8(b) by {
                    assert(b == pb);
                }
            }
            Ok(s)
        },
        None => {
            proof {
                assert forall|t: Seq<char>|
                    encode_utf8(t).len() <= MAX_PLAINTEXT_LEN && #[trigger] gcm_seal(
                        key@,
                        nonce@,
                        encode_utf8(t),
                    ) == sealed@ implies false by {
                    encode_utf8_valid_utf8(t);
                }
            }
            Err(EncryptionError::Encoding)
        },
    }
}

/// Decrypts an encrypted value under `key`.
pub fn decrypt_with_key(key: &[u8], value: &str) -> (r: Result<String, EncryptionError>)
    ensures
        r == Err::<String, EncryptionError>(EncryptionError::Configuration) <==> key@.len() != KEY_LEN,
        r == Err::<String, EncryptionError>(EncryptionError::Format) <==> key@.len() == KEY_LEN
            && !is_well_formed(encode_utf8(value@)),
        r matches Ok(p) ==> opens_to(key@, encode_utf8(value@), encode_utf8(p@)),
        forall|t: Seq<char>|
            encode_utf8(t).len() <= MAX_PLAINTEXT_LEN && #[trigger] opens_to(
                key@,
                encode_utf8(value@),
                encode_utf8(t),
            ) ==> (r matches Ok(p) && p@ == t),
        r == Err::<String, EncryptionError>(EncryptionError::Crypto) ==> forall|b: Seq<u8>|
            b.len() <= MAX_PLAINTEXT_LEN ==> !#[trigger] opens_to(key@, encode_utf8(value@), b),
        r == Err::<String, EncryptionError>(EncryptionError::Encoding) ==> exists|b: Seq<u8>|
            #[trigger] opens_to(key@, encode_utf8(value@), b) && !valid_utf8(b),
        (exists|b: Seq<u8>|
            b.len() <= MAX_PLAINTEXT_LEN && #[trigger] opens_to(key@, encode_utf8(value@), b)
                && !valid_utf8(b)) ==> r == Err::<String, EncryptionError>(
            EncryptionError::Encoding,
        ),
{
    if key.len() != KEY_LEN {
        return Err(EncryptionError::Configuration);
    }
    let (nonce, sealed) = match parse_encrypted(value) {
        Some(parts) => parts,
        None => {
            return Err(EncryptionError::Format);
        },
    };
    let r = open_sealed(key, nonce.as_slice(), sealed.as_slice());
    proof {
        let b = encode_utf8(value@);
        if r == Err::<String, EncryptionError>(EncryptionError::Encoding) {
            let w = choose|w: Seq<u8>| gcm_seal(key@, nonce@, w) == sealed@ && !valid_utf8(w);
            assert(opens_to(key@, b, w));
        }
        if exists|w: Seq<u8>|
            w.len() <= MAX_PLAINTEXT_LEN && #[trigger] opens_to(key@, b, w) && !valid_utf8(w) {
            let w = choose|w: Seq<u8>|
                w.len() <= MAX_PLAINTEXT_LEN && #[trigger] opens_to(key@, b, w) && !valid_utf8(w);
            assert(gcm_seal(key@, nonce@, w) == sealed@);
        }
    }
    r
}

/// Encrypts `text` under `key` with a fresh nonce. Crypto also stands for a
/// failure of the system's generator to give a nonce.
pub fn encrypt_under(key: &[u8], text: &str) -> (r: Result<String, EncryptionError>)
    ensures
        r == Err::<String, EncryptionError>(EncryptionError::Configuration) <==> key@.len() != KEY_LEN,
        key@.len() == KEY_LEN && encode_utf8(text@).len() > MAX_PLAINTEXT_LEN ==> r == Err::<
            String,
            EncryptionError,
        >(EncryptionError::Crypto),
        r is Ok ==> encode_utf8(text@).len() <= MAX_PLAINTEXT_LEN,
        r != Err::<String, EncryptionError>(EncryptionError::Format),
        r != Err::<String, EncryptionError>(EncryptionError::Encoding),
        r matches Ok(v) ==> exists|n: Seq<u8>|
            n.len() == NONCE_LEN && v@ == #[trigger] encrypted_value(
                n,
                gcm_seal(key@, n, encode_utf8(text@)),
            ) && gcm_seal(key@, n, encode_utf8(text@)).len() == encode_utf8(text@).len() + 16,
        r matches Ok(v) ==> opens_to(key@, encode_utf8(v@), encode_utf8(text@)),
{
    if key.len() != KEY_LEN {
        return Err(EncryptionError::Configuration);
    }
    let nonce = match random_bytes(NONCE_LEN) {
        Some(n) => n,
        None => {
            return Err(EncryptionError::Crypto);
        },
    };
    let r = encrypt_with_key(key, nonce.as_slice(), text);
    proof {
        if r is Ok {
            lemma_round_trip(key@, nonce@, text@);
            assert(r->Ok_0@ == encrypted_value(nonce@, gcm_seal(key@, nonce@, encode_utf8(text@))));
        }
    }
    r
}

/// Encrypts `text` under the configured key with a fresh nonce.
pub fn encrypt(text: &String) -> (r: Result<String, EncryptionError>)
    ensures
        r matches Ok(v) ==> exists|k: Seq<u8>|
            k.len() == KEY_LEN && #[trigger] opens_to(k, encode_utf8(v@), encode_utf8(text@)),
        r matches Ok(v) ==> exists|k: Seq<u8>, n: Seq<u8>|
            k.len() == KEY_LEN && n.len() == NONCE_LEN && v@ == #[trigger] encrypted_value(
                n,
                gcm_seal(k, n, encode_utf8(text@)),
            ) && gcm_seal(k, n, encode_utf8(text@)).len() == encode_utf8(text@).len() + 16,
        r != Err::<String, EncryptionError>(EncryptionError::Format),
        r != Err::<String, EncryptionError>(EncryptionError::Encoding),
{
    let configured = match config_var(KEY_VAR) {
        Some(k) => k,
        None => {
            return Err(EncryptionError::Configuration);
        },
    };
    let key = configured.as_str().as_bytes_vec();
    let r = encrypt_under(key.as_slice(), text.as_str());
    proof {
        if r is Ok {
            assert(opens_to(key@, encode_utf8(r->Ok_0@), encode_utf8(text@)));
            let n = choose|n: Seq<u8>|
                n.len() == NONCE_LEN && r->Ok_0@ == #[trigger] encrypted_value(
                    n,
                    gcm_seal(key@, n, encode_utf8(text@)),
                ) && gcm_seal(key@, n, encode_utf8(text@)).len() == encode_utf8(text@).len() + 16;
            assert(r->Ok_0@ == encrypted_value(n, gcm_seal(key@, n, encode_utf8(text@))));
        }
    }
    r
}

/// Decrypts an encrypted value under the configured key. The key is read
/// first: without it every value fails with Configuration.
pub fn decrypt(value: &String) -> (r: Result<String, EncryptionError>)
    ensures
        r == Err::<String, EncryptionError>(EncryptionError::Format) ==> !is_well_formed(
            encode_utf8(value@),
        ),
        r != Err::<String, EncryptionError>(EncryptionError::Configuration) ==> (r == Err::<
            String,
            EncryptionError,
        >(EncryptionError::Format) <==> !is_well_formed(encode_utf8(value@))),
        r matches Ok(p) ==> exists|k: Seq<u8>| #[trigger]
            opens_to(k, encode_utf8(value@), encode_utf8(p@)),
        r == Err::<String, EncryptionError>(EncryptionError::Crypto) ==> exists|k: Seq<u8>|
            k.len() == KEY_LEN && forall|b: Seq<u8>|
                b.len() <= MAX_PLAINTEXT_LEN ==> !#[trigger] opens_to(k, encode_utf8(value@), b),
        r == Err::<String, EncryptionError>(EncryptionError::Encoding) ==> exists|k: Seq<u8>, b: Seq<u8>|
            #[trigger] opens_to(k, encode_utf8(value@), b) && !valid_utf8(b),
{
    let configured = match config_var(KEY_VAR) {
        Some(k) => k,
        None => {
            return Err(EncryptionError::Configuration);
        },
    };
    let key = configured.as_str().as_bytes_vec();
    let r = decrypt_with_key(key.as_slice(), value.as_str());
    proof {
        if r is Ok {
            assert(opens_to(key@, encode_utf8(value@), encode_utf8(r->Ok_0@)));
        }
        if r == Err::<String, EncryptionError>(EncryptionError::Encoding) {
            let w = choose|w: Seq<u8>| opens_to(key@, encode_utf8(value@), w) && !valid_utf8(w);
            assert(opens_to(key@, encode_utf8(value@), w));
        }
    }
    r
}

/// Decryption undoes encryption: under a key of the cipher's length, the
/// value that sealing a text with any nonce of the cipher's size produces
/// opens to that text.
pub proof fn lemma_round_trip(key: Seq<u8>, nonce: Seq<u8>, text: Seq<char>)
    requires
        key.len() == KEY_LEN,
        nonce.len() == NONCE_LEN,
    ensures
        opens_to(
            key,
            encode_utf8(encrypted_value(nonce, gcm_seal(key, nonce, encode_utf8(text)))),
            encode_utf8(text),
        ),
{
    lemma_encrypted_value_parts(nonce, gcm_seal(key, nonce, encode_utf8(text)));
}

/// A value whose sealed bytes were altered never opens to the text that was
/// sealed: decryption cannot hand back the original text for a tampered value.
pub proof fn lemma_tampered_never_opens(
    key: Seq<u8>,
    nonce: Seq<u8>,
    text: Seq<char>,
    tampered: Seq<u8>,
)
    requires
        tampered != gcm_seal(key, nonce, encode_utf8(text)),
    ensures
        !opens_to(key, encode_utf8(encrypted_value(nonce, tampered)), encode_utf8(text)),
{
    lemma_encrypted_value_parts(nonce, tampered);
}

} // verus!
