//! The stored Gemini API key: sealed with AES-256-GCM under a key derived
//! from the user's passphrase (PBKDF2-HMAC-SHA512), kept as hexadecimal text,
//! and opened again with the same passphrase.
use vstd::prelude::*;
use aes_gcm::aead::Aead;
use aes_gcm::KeyInit;
use rand::RngCore;
use zeroize::Zeroize;
use crate::corpus::{hex_encode, hex_text, hex_digit};
use crate::text::{ascii_lower, push_all, push_str, string_from_chars, chars_of, utf8_encode, text_bytes};

verus! {

/// PBKDF2 rounds used to derive the sealing key.
pub const PBKDF2_ITERATIONS: u32 = 600000;

pub const SALT_SIZE: usize = 16;

pub const NONCE_SIZE: usize = 12;

pub const KEY_SIZE: usize = 32;

/// A sealed API key: ciphertext, nonce and salt, each in hexadecimal.
#[derive(Debug, Clone)]
pub struct EncryptedPayload {
    pub ciphertext: String,
    pub nonce: String,
    pub salt: String,
}

// ---------------------------------------------------------------------------
// Bytes of text
// ---------------------------------------------------------------------------

/// Calls `String::from_utf8`. The contract states that the UTF-8 encoding
/// of a text reads back as that text; on other bytes the result (an error
/// with its description) is not stated.
#[verifier::external_body]
fn text_from_bytes(bytes: Vec<u8>) -> (r: Result<String, String>)
    ensures
        forall|s: Seq<char>| bytes@ == utf8_encode(s) ==> r is Ok && r->Ok_0@ == s,
{
    String::from_utf8(bytes).map_err(|e| e.to_string())
}

// ---------------------------------------------------------------------------
// Hexadecimal text
// ---------------------------------------------------------------------------

pub open spec fn is_hex_digit_char(c: char) -> bool {
    ('0' <= c && c <= '9') || ('a' <= c && c <= 'f') || ('A' <= c && c <= 'F')
}

/// Text that `hex::decode` accepts: an even number of hexadecimal digits.
pub open spec fn hex_decodable(s: Seq<char>) -> bool {
    s.len() % 2 == 0 && forall|i: int| 0 <= i < s.len() ==> is_hex_digit_char(#[trigger] s[i])
}

/// Calls `hex::decode`. It accepts exactly an even number of hexadecimal
/// digits in either case and gives the bytes they write, so the lower-case
/// encoding of the result is the input in lower case; the error's text is
/// not stated.
#[verifier::external_body]
fn hex_decode(s: &str) -> (r: Result<Vec<u8>, String>)
    ensures
        r is Ok <==> hex_decodable(s@),
        r is Ok ==> hex_text(r->Ok_0@) == ascii_lower(s@),
{
    hex::decode(s).map_err(|e| e.to_string())
}

proof fn lemma_hex_digit_range(n: int)
    requires
        0 <= n < 16,
    ensures
        is_hex_digit_char(hex_digit(n)),
        ('a' <= hex_digit(n) && hex_digit(n) <= 'z') || ('0' <= hex_digit(n) && hex_digit(n) <= '9'),
        n < 10 ==> hex_digit(n) as int == 48 + n,
        n >= 10 ==> hex_digit(n) as int == 87 + n,
{
}

proof fn lemma_hex_text_lower(b: Seq<u8>)
    ensures
        ascii_lower(hex_text(b)) == hex_text(b),
        hex_decodable(hex_text(b)),
        hex_text(b).len() == 2 * b.len(),
    decreases b.len(),
{
    if b.len() > 0 {
        lemma_hex_text_lower(b.drop_last());
        let hi = b.last() as int / 16;
        let lo = b.last() as int % 16;
        lemma_hex_digit_range(hi);
        lemma_hex_digit_range(lo);
        let t = hex_text(b);
        assert(ascii_lower(t) =~= t) by {
            assert forall|i: int| 0 <= i < t.len() implies ascii_lower(t)[i] == t[i] by {
                if i < t.len() - 2 {
                    assert(t[i] == hex_text(b.drop_last())[i]);
                    assert(ascii_lower(hex_text(b.drop_last()))[i] == hex_text(b.drop_last())[i]);
                }
            }
        }
        assert forall|i: int| 0 <= i < t.len() implies is_hex_digit_char(#[trigger] t[i]) by {
            if i < t.len() - 2 {
                assert(t[i] == hex_text(b.drop_last())[i]);
            }
        }
    }
}

proof fn lemma_hex_text_injective(a: Seq<u8>, b: Seq<u8>)
    requires
        hex_text(a) == hex_text(b),
    ensures
        a == b,
    decreases a.len(),
{
    lemma_hex_text_lower(a);
    lemma_hex_text_lower(b);
    if a.len() > 0 {
        let ta = hex_text(a);
        let n = ta.len();
        let (ha, la) = (a.last() as int / 16, a.last() as int % 16);
        let (hb, lb) = (b.last() as int / 16, b.last() as int % 16);
        lemma_hex_digit_range(ha);
        lemma_hex_digit_range(la);
        lemma_hex_digit_range(hb);
        lemma_hex_digit_range(lb);
        assert(ta[n - 2] == hex_digit(ha) && ta[n - 1] == hex_digit(la));
        assert(hex_text(b)[n - 2] == hex_digit(hb) && hex_text(b)[n - 1] == hex_digit(lb));
        assert(ha == hb && la == lb);
        assert(a.last() == b.last());
        assert(hex_text(a.drop_last()) =~= ta.subrange(0, n - 2));
        assert(hex_text(b.drop_last()) =~= hex_text(b).subrange(0, n - 2));
        lemma_hex_text_injective(a.drop_last(), b.drop_last());
        assert(a =~= a.drop_last().push(a.last()));
        assert(b =~= b.drop_last().push(b.last()));
    }
}

// ---------------------------------------------------------------------------
// The cryptographic calls
// ---------------------------------------------------------------------------

/// Calls `OsRng::fill_bytes` on `n` bytes: random bytes, of which the
/// contract states only the number.
#[verifier::external_body]
fn random_bytes(n: usize) -> (r: Vec<u8>)
    ensures
        r@.len() == n,
{
    let mut v = vec![0u8; n];
    rand::rngs::OsRng.fill_bytes(&mut v);
    v
}

/// The key that PBKDF2-HMAC-SHA512 derives, 32 bytes long.
pub uninterp spec fn pbkdf2_sha512_key_of(password: Seq<u8>, salt: Seq<u8>, rounds: u32) -> Seq<u8>;

/// Calls `pbkdf2::pbkdf2_hmac::<Sha512>` to fill a 32-byte key.
#[verifier::external_body]
fn pbkdf2_sha512_key(password: &[u8], salt: &[u8], rounds: u32) -> (r: [u8; 32])
    ensures
        r@ == pbkdf2_sha512_key_of(password@, salt@, rounds),
{
    let mut key = [0u8; 32];
    pbkdf2::pbkdf2_hmac::<sha2::Sha512>(password, salt, rounds, &mut key);
    key
}

/// Calls `Zeroize::zeroize` on a key, which sets every byte to 0.
#[verifier::external_body]
fn wipe_key(key: &mut [u8; 32])
    ensures
        forall|i: int| 0 <= i < 32 ==> final(key)@[i] == 0,
{
    key.zeroize();
}

/// What AES-256-GCM sealing (ciphertext followed by the tag) gives.
pub uninterp spec fn aes_gcm_seal_of(key: Seq<u8>, nonce: Seq<u8>, plaintext: Seq<u8>) -> Seq<u8>;

/// Calls `Aes256Gcm::new_from_slice` and `encrypt`. The contract names the
/// sealed text and states, as the crate's source shows, that a plaintext
/// is sealed exactly when it has at most 2^36 bytes; the error's text is not
/// stated.
#[verifier::external_body]
fn aes_gcm_seal(key: &[u8; 32], nonce: &[u8], plaintext: &[u8]) -> (r: Result<Vec<u8>, String>)
    requires
        nonce@.len() == 12,
    ensures
        r is Ok ==> r->Ok_0@ == aes_gcm_seal_of(key@, nonce@, plaintext@),
        r is Ok <==> plaintext@.len() <= 0x10_0000_0000,
{
    let cipher = aes_gcm::Aes256Gcm::new_from_slice(key).map_err(|e| e.to_string())?;
    cipher.encrypt(aes_gcm::Nonce::from_slice(nonce), plaintext).map_err(|e| e.to_string())
}

/// Calls `Aes256Gcm::new_from_slice` and `decrypt`. The contract states the
/// property of authenticated encryption that opening, with the same key and
/// nonce, what was sealed gives the plaintext back, for a plaintext of at
/// most 2^36 bytes (the longest that `encrypt` seals and `decrypt` opens);
/// what other inputs give is not stated.
#[verifier::external_body]
fn aes_gcm_open(key: &[u8; 32], nonce: &[u8], sealed: &[u8]) -> (r: Result<Vec<u8>, String>)
    requires
        nonce@.len() == 12,
    ensures
        forall|p: Seq<u8>|
            p.len() <= 0x10_0000_0000 && sealed@ == aes_gcm_seal_of(key@, nonce@, p) ==> r is Ok
                && r->Ok_0@ == p,
{
    let cipher = aes_gcm::Aes256Gcm::new_from_slice(key).map_err(|e| e.to_string())?;
    cipher.decrypt(aes_gcm::Nonce::from_slice(nonce), sealed).map_err(|e| e.to_string())
}

// ---------------------------------------------------------------------------
// Sealing and opening
// ---------------------------------------------------------------------------

/// The key derived from a passphrase and a salt.
pub open spec fn derived_key(passphrase: Seq<char>, salt: Seq<u8>) -> Seq<u8> {
    pbkdf2_sha512_key_of(utf8_encode(passphrase), salt, PBKDF2_ITERATIONS)
}

/// `p` is `api_key` (at most 2^36 bytes of UTF-8) sealed under `passphrase`
/// with some 16-byte salt and some 12-byte nonce.
pub open spec fn seals(p: (Seq<char>, Seq<char>, Seq<char>), passphrase: Seq<char>, api_key: Seq<char>) -> bool {
    exists|salt: Seq<u8>, nonce: Seq<u8>|
        #![trigger hex_text(salt), hex_text(nonce)]
        utf8_encode(api_key).len() <= 0x10_0000_0000 && salt.len() == SALT_SIZE && nonce.len() == NONCE_SIZE
            && p.2 == hex_text(salt) && p.1 == hex_text(nonce) && p.0
            == hex_text(aes_gcm_seal_of(derived_key(passphrase, salt), nonce, utf8_encode(api_key)))
}

/// Every part of a sealed payload is decodable hexadecimal text.
proof fn lemma_sealed_parts_decodable(p: (Seq<char>, Seq<char>, Seq<char>), passphrase: Seq<char>, k: Seq<char>)
    requires
        seals(p, passphrase, k),
    ensures
        hex_decodable(p.0),
        hex_decodable(p.1),
        hex_decodable(p.2),
{
    let (s, n) = choose|s: Seq<u8>, n: Seq<u8>|
        #![trigger hex_text(s), hex_text(n)]
        n.len() == NONCE_SIZE && p.2 == hex_text(s) && p.1 == hex_text(n) && p.0
            == hex_text(aes_gcm_seal_of(derived_key(passphrase, s), n, utf8_encode(k)));
    lemma_hex_text_lower(s);
    lemma_hex_text_lower(n);
    lemma_hex_text_lower(aes_gcm_seal_of(derived_key(passphrase, s), n, utf8_encode(k)));
}

pub open spec fn payload_view(p: EncryptedPayload) -> (Seq<char>, Seq<char>, Seq<char>) {
    (p.ciphertext@, p.nonce@, p.salt@)
}

fn encryption_error(e: String) -> (m: String)
    ensures
        m@ == "Encryption failed: "@ + e@,
{
    let mut v: Vec<char> = Vec::new();
    push_str(&mut v, "Encryption failed: ");
    push_all(&mut v, chars_of(e.as_str()).as_slice());
    string_from_chars(v.as_slice())
}

/// Seals an API key under a passphrase, with a fresh random salt (16 bytes)
/// and nonce (12 bytes). A key of at most 2^36 bytes is always sealed.
pub fn encrypt_api_key(passphrase: &str, api_key: &str) -> (r: Result<EncryptedPayload, String>)
    ensures
        r is Ok ==> seals(payload_view(r->Ok_0), passphrase@, api_key@),
        utf8_encode(api_key@).len() <= 0x10_0000_0000 ==> r is Ok,
{
    let salt = random_bytes(SALT_SIZE);
    let pass = text_bytes(passphrase);
    let mut key = pbkdf2_sha512_key(pass.as_slice(), salt.as_slice(), PBKDF2_ITERATIONS);
    let nonce = random_bytes(NONCE_SIZE);
    let plain = text_bytes(api_key);
    let sealed = aes_gcm_seal(&key, nonce.as_slice(), plain.as_slice());
    wipe_key(&mut key);
    match sealed {
        Err(e) => Err(encryption_error(e)),
        Ok(ct) => {
            let p = EncryptedPayload {
                ciphertext: hex_encode(ct.as_slice()),
                nonce: hex_encode(nonce.as_slice()),
                salt: hex_encode(salt.as_slice()),
            };
            proof {
                assert(salt@.len() == SALT_SIZE && nonce@.len() == NONCE_SIZE && p.salt@ == hex_text(salt@) && p.nonce@
                    == hex_text(nonce@));
            }
            Ok(p)
        },
    }
}

fn prefixed(prefix: &str, e: String) -> (m: String)
    ensures
        m@ == prefix@ + e@,
{
    let mut v: Vec<char> = Vec::new();
    push_str(&mut v, prefix);
    push_all(&mut v, chars_of(e.as_str()).as_slice());
    string_from_chars(v.as_slice())
}

/// When the three parts of a payload decode, the nonce gives 12 bytes (the
/// cipher takes no other length).
pub open spec fn nonce_text_ok(p: (Seq<char>, Seq<char>, Seq<char>)) -> bool {
    hex_decodable(p.0) && hex_decodable(p.1) && hex_decodable(p.2) ==> p.1.len() == 2 * NONCE_SIZE
}

fn is_hex_text(s: &str) -> (b: bool)
    ensures
        b == hex_decodable(s@),
{
    let cs = chars_of(s);
    if cs.len() % 2 != 0 {
        return false;
    }
    let mut i: usize = 0;
    while i < cs.len()
        invariant
            i <= cs@.len(),
            cs@ == s@,
            forall|j: int| 0 <= j < i ==> is_hex_digit_char(#[trigger] cs@[j]),
        decreases cs@.len() - i,
    {
        let c = cs[i];
        if !(('0' <= c && c <= '9') || ('a' <= c && c <= 'f') || ('A' <= c && c <= 'F')) {
            assert(!is_hex_digit_char(s@[i as int]));
            return false;
        }
        i = i + 1;
    }
    true
}

/// Whether a payload meets `decrypt_api_key`'s condition: when its three
/// parts decode as hexadecimal, the nonce is 24 digits (12 bytes).
pub fn nonce_text_ok_exec(p: &EncryptedPayload) -> (b: bool)
    ensures
        b == nonce_text_ok(payload_view(*p)),
{
    let all = is_hex_text(p.ciphertext.as_str()) && is_hex_text(p.nonce.as_str()) && is_hex_text(p.salt.as_str());
    !all || chars_of(p.nonce.as_str()).len() == 2 * NONCE_SIZE
}

/// Opens a sealed API key with a passphrase. What was sealed under the same
/// passphrase opens to the sealed key.
pub fn decrypt_api_key(passphrase: &str, payload: &EncryptedPayload) -> (r: Result<String, String>)
    requires
        nonce_text_ok(payload_view(*payload)),
    ensures
        forall|k: Seq<char>| seals(payload_view(*payload), passphrase@, k) ==> r is Ok && r->Ok_0@ == k,
        !hex_decodable(payload.salt@) ==> r is Err,
        !hex_decodable(payload.nonce@) ==> r is Err,
        !hex_decodable(payload.ciphertext@) ==> r is Err,
{
    let salt = match hex_decode(payload.salt.as_str()) {
        Ok(v) => v,
        Err(e) => {
            proof {
                assert forall|k: Seq<char>| !seals(payload_view(*payload), passphrase@, k) by {
                    if seals(payload_view(*payload), passphrase@, k) {
                        lemma_sealed_parts_decodable(payload_view(*payload), passphrase@, k);
                    }
                }
            }
            return Err(prefixed("Invalid salt encoding: ", e));
        },
    };
    let nonce = match hex_decode(payload.nonce.as_str()) {
        Ok(v) => v,
        Err(e) => {
            proof {
                assert forall|k: Seq<char>| !seals(payload_view(*payload), passphrase@, k) by {
                    if seals(payload_view(*payload), passphrase@, k) {
                        lemma_sealed_parts_decodable(payload_view(*payload), passphrase@, k);
                    }
                }
            }
            return Err(prefixed("Invalid nonce encoding: ", e));
        },
    };
    let ct = match hex_decode(payload.ciphertext.as_str()) {
        Ok(v) => v,
        Err(e) => {
            proof {
                assert forall|k: Seq<char>| !seals(payload_view(*payload), passphrase@, k) by {
                    if seals(payload_view(*payload), passphrase@, k) {
                        lemma_sealed_parts_decodable(payload_view(*payload), passphrase@, k);
                    }
                }
            }
            return Err(prefixed("Invalid ciphertext encoding: ", e));
        },
    };
    proof {
        lemma_hex_text_lower(nonce@);
    }
    let pass = text_bytes(passphrase);
    let mut key = pbkdf2_sha512_key(pass.as_slice(), salt.as_slice(), PBKDF2_ITERATIONS);
    let opened = aes_gcm_open(&key, nonce.as_slice(), ct.as_slice());
    let ghost key_view = key@;
    wipe_key(&mut key);
    proof {
        assert forall|k: Seq<char>| seals(payload_view(*payload), passphrase@, k) implies opened is Ok
            && opened->Ok_0@ == utf8_encode(k) by {
            let (s, n) = choose|s: Seq<u8>, n: Seq<u8>|
                #![trigger hex_text(s), hex_text(n)]
                n.len() == NONCE_SIZE && payload.salt@ == hex_text(s) && payload.nonce@ == hex_text(n)
                    && payload.ciphertext@ == hex_text(
                    aes_gcm_seal_of(derived_key(passphrase@, s), n, utf8_encode(k)),
                );
            let c = aes_gcm_seal_of(derived_key(passphrase@, s), n, utf8_encode(k));
            lemma_hex_text_lower(s);
            lemma_hex_text_lower(n);
            lemma_hex_text_lower(c);
            lemma_hex_text_injective(salt@, s);
            lemma_hex_text_injective(nonce@, n);
            lemma_hex_text_injective(ct@, c);
        }
    }
    match opened {
        Err(e) => Err(prefixed("Decryption failed (possibly incorrect passphrase): ", e)),
        Ok(bytes) => match text_from_bytes(bytes) {
            Ok(s) => Ok(s),
            Err(e) => Err(prefixed("Invalid UTF-8 content in decrypted key: ", e)),
        },
    }
}

} // verus!
