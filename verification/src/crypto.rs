//! Key derivation (Argon2id) and record encryption (AES-256-GCM).
//!
//! A record is stored as the base64 text of `nonce || ciphertext`, where the
//! 12-byte nonce is fresh for every encryption.

use vstd::prelude::*;
use vstd::utf8::encode_utf8;
use crate::base64::{
    b64_bytes, b64_decode, b64_decode_spec, b64_encode, b64_text, b64_unpadded_text, lemma_ascii_text,
    lemma_b64_round_trip,
};
use crate::text::{concat_text, decimal_text, has_prefix, lemma_has_prefix_concat};
use aes_gcm::aead::generic_array::GenericArray;
use aes_gcm::aead::{Aead, KeyInit, OsRng};
use aes_gcm::{Aes256Gcm, Nonce};
use argon2::password_hash::rand_core::RngCore;
use argon2::password_hash::{PasswordHasher, PasswordVerifier, SaltString};
use argon2::{Algorithm, Argon2, Params, Version};

verus! {

/// Largest plaintext, in bytes, that AES-GCM encrypts (2^36).
pub open spec fn aes_gcm_max_plaintext() -> int {
    0x10_0000_0000
}

/// Argon2 accepts passwords of at most 2^32 - 1 bytes (UTF-8).
pub open spec fn password_fits(password: Seq<char>) -> bool {
    encode_utf8(password).len() <= 0xFFFF_FFFF
}

/// Whether a password is short enough for Argon2.
pub fn password_fits_exec(password: &str) -> (r: bool)
    ensures
        r == password_fits(password@),
{
    password.as_bytes().len() <= 0xFFFF_FFFF
}

/// The memory cost of key derivation and password hashing, in KiB.
pub open spec fn kdf_memory() -> u32 {
    8192
}

/// The number of passes of key derivation and password hashing.
pub open spec fn kdf_passes() -> u32 {
    1
}

/// The number of lanes of key derivation and password hashing.
pub open spec fn kdf_lanes() -> u32 {
    1
}

/// The cost parameters that `argon2::Params::new` accepts: at least 8 KiB
/// and 8 KiB per lane, at least one pass, between 1 and 2^24 - 1 lanes.
pub open spec fn argon2_params_ok(m_cost: u32, t_cost: u32, p_cost: u32) -> bool {
    8 <= m_cost && 8 * p_cost <= m_cost && 1 <= t_cost && 1 <= p_cost <= 0xFF_FFFF
}

/// The cost parameters of the vault: memory, passes, lanes.
pub fn kdf_params() -> (r: (u32, u32, u32))
    ensures
        r == (kdf_memory(), kdf_passes(), kdf_lanes()),
        argon2_params_ok(r.0, r.1, r.2),
{
    (8192, 1, 1)
}

/// The 32 bytes that `Argon2::hash_password_into` (Argon2id, version 0x13,
/// the given memory, passes and lanes) writes for a password (its UTF-8
/// bytes) and a salt.
pub uninterp spec fn argon2id_raw_key(m_cost: u32, t_cost: u32, p_cost: u32, password: Seq<char>, salt: Seq<u8>) -> Seq<u8>;

/// The PHC string of Argon2id, version 19, with the given costs, for a
/// password and a salt: the algorithm, version and costs (see
/// [`phc_prefix`]), then the salt and the 32-byte output of
/// [`argon2id_raw_key`], each in base64 without padding, separated by `$`.
pub open spec fn argon2id_phc_text(m_cost: u32, t_cost: u32, p_cost: u32, password: Seq<char>, salt: Seq<u8>) -> Seq<char> {
    phc_prefix(m_cost, t_cost, p_cost) + b64_unpadded_text(salt) + "$"@ + b64_unpadded_text(
        argon2id_raw_key(m_cost, t_cost, p_cost, password, salt),
    )
}

/// Whether `Argon2::verify_password`, on an instance with the given costs,
/// accepts a password against a PHC string.
pub uninterp spec fn argon2id_accepts(m_cost: u32, t_cost: u32, p_cost: u32, password: Seq<char>, hash: Seq<char>) -> bool;

/// The key derived from a password and a salt with the vault's costs.
pub open spec fn argon2id_key(password: Seq<char>, salt: Seq<u8>) -> Seq<u8> {
    argon2id_raw_key(kdf_memory(), kdf_passes(), kdf_lanes(), password, salt)
}

/// The PHC hash of a password and a salt with the vault's costs.
pub open spec fn argon2id_phc(password: Seq<char>, salt: Seq<u8>) -> Seq<char> {
    argon2id_phc_text(kdf_memory(), kdf_passes(), kdf_lanes(), password, salt)
}

/// Whether a password checks against a PHC hash (the vault's costs on the
/// checker): a hash with a p-cost of 2^24 or more never does.
pub open spec fn argon2id_check(password: Seq<char>, hash: Seq<char>) -> bool {
    p_costs_small(hash) && argon2id_accepts(kdf_memory(), kdf_passes(), kdf_lanes(), password, hash)
}

/// The start of a PHC string of Argon2id, version 19, with the given
/// costs: `$argon2id$v=19$m=<m>,t=<t>,p=<p>$` (salt and hash follow).
pub open spec fn phc_prefix(m_cost: u32, t_cost: u32, p_cost: u32) -> Seq<char> {
    "$argon2id$v=19$m="@ + decimal_text(m_cost as nat) + ",t="@ + decimal_text(t_cost as nat) + ",p="@
        + decimal_text(p_cost as nat) + "$"@
}

/// The ciphertext (with its 16-byte tag appended) that `Aes256Gcm::encrypt` gives.
pub uninterp spec fn aes256gcm_seal(key: Seq<u8>, nonce: Seq<u8>, plaintext: Seq<u8>) -> Seq<u8>;

/// What `Aes256Gcm::decrypt` gives back: `None` when the tag does not authenticate.
pub uninterp spec fn aes256gcm_open(key: Seq<u8>, nonce: Seq<u8>, ciphertext: Seq<u8>) -> Option<Seq<u8>>;

/// `Params::new` with the given costs and `Argon2::hash_password_into` with
/// Argon2id and version 0x13: the 32-byte output for the password's UTF-8
/// bytes and the salt. The crate refuses costs outside
/// [`argon2_params_ok`], salts under 8 bytes or over 2^32 - 1 bytes and
/// passwords over 2^32 - 1 bytes, which `requires` leaves out.
#[verifier::external_body]
fn argon2id_hash_into(m_cost: u32, t_cost: u32, p_cost: u32, password: &str, salt: &[u8]) -> (key: [u8; 32])
    requires
        argon2_params_ok(m_cost, t_cost, p_cost),
        8 <= salt@.len() <= 0xFFFF_FFFF,
        password_fits(password@),
    ensures
        key@ == argon2id_raw_key(m_cost, t_cost, p_cost, password@, salt@),
{
    let params = Params::new(m_cost, t_cost, p_cost, None).expect("argon2 params");
    let mut key = [0u8; 32];
    Argon2::new(Algorithm::Argon2id, Version::V0x13, params)
        .hash_password_into(password.as_bytes(), salt, &mut key)
        .expect("key derivation failed");
    key
}

/// `SaltString::encode_b64` and `Argon2::hash_password` (Argon2id, version
/// 0x13, the given costs), rendered as a PHC string: the algorithm, the
/// version and the costs (see [`phc_prefix`]), then the salt and the
/// output of `hash_password_into` on the same instance (32 bytes, the
/// default output length), each in unpadded B64 (see
/// [`argon2id_phc_text`]). B64 holds no `=`, so the one `p=` in the string
/// is the p-cost, under 2^24. The salt's B64 form
/// must fit the crate's 64 characters and the raw salt must hold at least 8
/// bytes, which `requires` states with the costs the crate accepts.
#[verifier::external_body]
fn argon2id_phc_string(m_cost: u32, t_cost: u32, p_cost: u32, password: &str, salt: &[u8]) -> (h: String)
    requires
        argon2_params_ok(m_cost, t_cost, p_cost),
        8 <= salt@.len() <= 48,
        password_fits(password@),
    ensures
        h@ == argon2id_phc_text(m_cost, t_cost, p_cost, password@, salt@),
        p_costs_small(h@),
{
    let params = Params::new(m_cost, t_cost, p_cost, None).expect("argon2 params");
    let salt_string = SaltString::encode_b64(salt).expect("salt encode failed");
    Argon2::new(Algorithm::Argon2id, Version::V0x13, params)
        .hash_password(password.as_bytes(), &salt_string)
        .expect("hash failed")
        .to_string()
}

/// The largest p-cost (lanes) plus one that `argon2::Params` takes: 2^24.
pub open spec fn p_cost_cap() -> nat {
    0x100_0000
}

/// An ASCII decimal digit.
pub open spec fn is_ascii_digit(c: char) -> bool {
    48 <= (c as u32) && (c as u32) <= 57
}

/// The number written by the decimal digits at the start of `s`, read on
/// from `acc` and counted no higher than [`p_cost_cap`].
pub open spec fn capped_number(s: Seq<char>, acc: nat) -> nat
    decreases s.len(),
{
    if s.len() == 0 || !is_ascii_digit(s[0]) {
        acc
    } else {
        let v = acc * 10 + ((s[0] as u32) - 48);
        capped_number(s.drop_first(), if v >= p_cost_cap() { p_cost_cap() } else { v as nat })
    }
}

/// Every `p=` in a hash text is followed by a number under 2^24 (or by no
/// digit). A PHC text whose p-cost is 2^24 or more never verifies, and
/// `argon2::Params::new` computes `8 * p_cost` in `u32` before it checks that
/// bound, which overflows from 2^29 on.
pub open spec fn p_costs_small(hash: Seq<char>) -> bool {
    forall|i: int|
        0 <= i && i + 1 < hash.len() && #[trigger] hash[i] == 'p' && hash[i + 1] == '='
            ==> capped_number(hash.skip(i + 2), 0) < p_cost_cap()
}

fn capped_number_at(text: &str, start: usize) -> (r: u32)
    requires
        start <= text@.len(),
    ensures
        r as nat == capped_number(text@.skip(start as int), 0),
        r <= p_cost_cap(),
{
    let n = text.unicode_len();
    let mut acc: u32 = 0;
    let mut j: usize = start;
    assert(text@.skip(start as int) =~= text@.skip(j as int));
    while j < n
        invariant
            n == text@.len(),
            start <= j <= n,
            acc <= p_cost_cap(),
            capped_number(text@.skip(start as int), 0) == capped_number(text@.skip(j as int), acc as nat),
        decreases n - j,
    {
        let c = text.get_char(j);
        assert(text@.skip(j as int)[0] == c);
        if !((c as u32) >= 48 && (c as u32) <= 57) {
            return acc;
        }
        let v: u32 = acc * 10 + ((c as u32) - 48);
        acc = if v >= 0x100_0000 { 0x100_0000 } else { v };
        assert(text@.skip(j as int).drop_first() =~= text@.skip(j + 1));
        j = j + 1;
    }
    assert(text@.skip(j as int).len() == 0);
    acc
}

/// Whether every `p=` in a hash text is followed by a number under 2^24.
pub fn p_costs_small_exec(hash: &str) -> (r: bool)
    ensures
        r == p_costs_small(hash@),
{
    let n = hash.unicode_len();
    let mut i: usize = 0;
    while i < n
        invariant
            n == hash@.len(),
            i <= n,
            forall|k: int|
                0 <= k < i && k + 1 < hash@.len() && #[trigger] hash@[k] == 'p' && hash@[k + 1] == '='
                    ==> capped_number(hash@.skip(k + 2), 0) < p_cost_cap(),
        decreases n - i,
    {
        if i + 1 < n && hash.get_char(i) == 'p' && hash.get_char(i + 1) == '=' {
            if capped_number_at(hash, i + 2) >= 0x100_0000 {
                return false;
            }
        }
        i = i + 1;
    }
    true
}

/// `PasswordHash::new` then `Argon2::verify_password` on an instance with
/// the given costs: false when the text does not parse (an empty text, or
/// one that does not start with `$`, never does). Verification reads the
/// costs from the text and hands them to `Params::new`, which computes
/// `8 * p_cost` in `u32` before it bounds `p_cost`; `requires` keeps every
/// p-cost in the text under 2^24 (see [`p_costs_small`]). The memory and
/// the passes the text asks for are spent as given; whether the machine has
/// them is left unsaid. The last clause is the crate's round trip: a PHC
/// string that `hash_password` made for a password with these costs
/// verifies for that password.
#[verifier::external_body]
fn argon2id_verify(m_cost: u32, t_cost: u32, p_cost: u32, password: &str, hash: &str) -> (ok: bool)
    requires
        argon2_params_ok(m_cost, t_cost, p_cost),
        p_costs_small(hash@),
    ensures
        ok == argon2id_accepts(m_cost, t_cost, p_cost, password@, hash@),
        hash@.len() == 0 || hash@[0] != '$' ==> !ok,
        forall|salt: Seq<u8>|
            8 <= salt.len() <= 48 && password_fits(password@) && hash@ == #[trigger] argon2id_phc_text(
                m_cost,
                t_cost,
                p_cost,
                password@,
                salt,
            ) ==> ok,
{
    let params = Params::new(m_cost, t_cost, p_cost, None).expect("argon2 params");
    match argon2::PasswordHash::new(hash) {
        Ok(parsed) => Argon2::new(Algorithm::Argon2id, Version::V0x13, params)
            .verify_password(password.as_bytes(), &parsed)
            .is_ok(),
        Err(_) => false,
    }
}

/// `OsRng::fill_bytes` on 12 bytes. The bytes are random: nothing is stated of them.
#[verifier::external_body]
fn random_nonce() -> (n: [u8; 12]) {
    let mut n = [0u8; 12];
    OsRng.fill_bytes(&mut n);
    n
}

/// `OsRng::fill_bytes` on 16 bytes. The bytes are random: nothing is stated of them.
#[verifier::external_body]
fn random_salt() -> (s: [u8; 16]) {
    let mut s = [0u8; 16];
    OsRng.fill_bytes(&mut s);
    s
}

/// `Aes256Gcm::encrypt` with a 12-byte nonce and no associated data: the
/// ciphertext with its 16-byte tag, or the crate's error (rendered as text)
/// when the plaintext exceeds 2^36 bytes. As for any AEAD cipher, decrypting
/// the ciphertext under the same key and nonce gives the plaintext back.
#[verifier::external_body]
fn aes256gcm_encrypt(key: &[u8; 32], nonce: &[u8; 12], plaintext: &[u8]) -> (r: Result<Vec<u8>, String>)
    ensures
        r is Ok <==> plaintext@.len() <= aes_gcm_max_plaintext(),
        r is Ok ==> r->Ok_0@ == aes256gcm_seal(key@, nonce@, plaintext@) && r->Ok_0@.len()
            == plaintext@.len() + 16,
        r is Ok ==> aes256gcm_open(key@, nonce@, r->Ok_0@) == Some(plaintext@),
{
    let cipher = Aes256Gcm::new(GenericArray::from_slice(key));
    cipher.encrypt(Nonce::from_slice(nonce), plaintext).map_err(|e| e.to_string())
}

/// `Aes256Gcm::decrypt` with a 12-byte nonce and no associated data. A
/// ciphertext shorter than its 16-byte tag fails. The last clause is
/// AES-GCM's correctness: what `encrypt` sealed under a key and nonce (it
/// seals plaintexts of at most 2^36 bytes) opens under them to the same plaintext.
#[verifier::external_body]
fn aes256gcm_decrypt(key: &[u8; 32], nonce: &[u8], ciphertext: &[u8]) -> (r: Result<Vec<u8>, ()>)
    requires
        nonce@.len() == 12,
    ensures
        r is Ok ==> aes256gcm_open(key@, nonce@, ciphertext@) == Some(r->Ok_0@),
        r is Err ==> aes256gcm_open(key@, nonce@, ciphertext@) is None,
        ciphertext@.len() < 16 ==> r is Err,
        forall|p: Seq<u8>|
            p.len() <= aes_gcm_max_plaintext() && #[trigger] aes256gcm_seal(key@, nonce@, p)
                == ciphertext@ ==> r is Ok && r->Ok_0@ == p,
{
    let cipher = Aes256Gcm::new(GenericArray::from_slice(key));
    cipher.decrypt(Nonce::from_slice(nonce), ciphertext).map_err(|_| ())
}

/// The 256-bit key held in memory while the vault is unlocked.
pub struct CryptoKey {
    pub key: [u8; 32],
}

impl CryptoKey {
    /// Derives the key from the master password and salt (Argon2id).
    pub fn derive(password: &str, salt: &[u8]) -> (k: CryptoKey)
        requires
            8 <= salt@.len() <= 0xFFFF_FFFF,
            password_fits(password@),
        ensures
            k.key@ == argon2id_key(password@, salt@),
    {
        let (m, t, p) = kdf_params();
        CryptoKey { key: argon2id_hash_into(m, t, p, password, salt) }
    }

    /// A copy of the key.
    pub fn duplicate(&self) -> (k: CryptoKey)
        ensures
            k.key@ == self.key@,
    {
        CryptoKey { key: self.key }
    }
}

/// A fresh random 16-byte salt.
pub fn generate_salt() -> (s: Vec<u8>)
    ensures
        s@.len() == 16,
{
    let raw = random_salt();
    let mut s: Vec<u8> = Vec::new();
    let mut i: usize = 0;
    while i < 16
        invariant
            i <= 16,
            s@.len() == i,
        decreases 16 - i,
    {
        s.push(raw[i]);
        i = i + 1;
    }
    s
}

/// The PHC hash of the master password, stored to check it later.
pub fn hash_password(password: &str, salt: &[u8]) -> (h: String)
    requires
        8 <= salt@.len() <= 48,
        password_fits(password@),
    ensures
        h@ == argon2id_phc(password@, salt@),
        has_prefix(h@, phc_prefix(kdf_memory(), kdf_passes(), kdf_lanes())),
        p_costs_small(h@),
{
    let (m, t, p) = kdf_params();
    let h = argon2id_phc_string(m, t, p, password, salt);
    proof {
        let a = phc_prefix(m, t, p);
        let rest = b64_unpadded_text(salt@) + "$"@ + b64_unpadded_text(argon2id_raw_key(m, t, p, password@, salt@));
        assert(h@ =~= a + rest);
        lemma_has_prefix_concat(a, rest);
    }
    h
}

/// Checks a password against a stored PHC hash. A hash made by
/// [`hash_password`] from a password accepts that password. A hash with a
/// p-cost of 2^24 or more is refused before Argon2 reads it.
pub fn verify_password(password: &str, hash: &str) -> (ok: bool)
    ensures
        ok == argon2id_check(password@, hash@),
        hash@.len() == 0 || hash@[0] != '$' ==> !ok,
        forall|salt: Seq<u8>|
            8 <= salt.len() <= 48 && password_fits(password@) && p_costs_small(hash@) && hash@
                == #[trigger] argon2id_phc(password@, salt) ==> ok,
{
    if !p_costs_small_exec(hash) {
        return false;
    }
    let (m, t, p) = kdf_params();
    argon2id_verify(m, t, p, password, hash)
}

/// The stored text of a plaintext encrypted under a key with a given nonce:
/// base64 of `nonce || ciphertext`.
pub open spec fn sealed_payload(key: Seq<u8>, nonce: Seq<u8>, plaintext: Seq<u8>) -> Seq<char> {
    b64_text(nonce + aes256gcm_seal(key, nonce, plaintext))
}

/// The bytes a stored text holds, if it is base64 text.
pub open spec fn payload_bytes(payload: Seq<char>) -> Option<Seq<u8>> {
    b64_decode_spec(encode_utf8(payload))
}

/// What a stored text decrypts to under a key, if anything.
pub open spec fn opened_payload(key: Seq<u8>, payload: Seq<char>) -> Option<Seq<u8>> {
    match payload_bytes(payload) {
        None => None,
        Some(c) => if c.len() < 12 {
            None
        } else {
            aes256gcm_open(key, c.take(12), c.skip(12))
        },
    }
}

/// The message of a failed decryption (wrong master password or damaged data).
pub open spec fn decrypt_failed_msg() -> Seq<char> {
    "解密失败（主密码错误或数据损坏）"@
}

/// The message of a stored text too short to hold a nonce.
pub open spec fn malformed_payload_msg() -> Seq<char> {
    "数据格式错误"@
}

/// The message of a stored text that is no base64 text.
pub open spec fn not_base64_msg() -> Seq<char> {
    "解码失败: "@ + "不是有效的 base64 文本"@
}

/// What a failed decryption says: a text that is no base64, a text too
/// short to hold a nonce, or a failed authentication.
pub open spec fn decrypt_error(payload: Seq<char>, msg: Seq<char>) -> bool {
    &&& payload_bytes(payload) is None ==> has_prefix(msg, "解码失败: "@) && msg == not_base64_msg()
    &&& (payload_bytes(payload) matches Some(c) && c.len() < 12) ==> msg == malformed_payload_msg()
    &&& (payload_bytes(payload) matches Some(c) && c.len() >= 12) ==> msg == decrypt_failed_msg()
}

/// Encrypts a plaintext under a fresh random nonce; the result is the
/// base64 text of `nonce || ciphertext`.
pub fn encrypt(key: &[u8; 32], plaintext: &[u8]) -> (r: Result<String, String>)
    ensures
        r is Ok <==> plaintext@.len() <= aes_gcm_max_plaintext(),
        r is Ok ==> exists|n: Seq<u8>|
            n.len() == 12 && r->Ok_0@ == #[trigger] sealed_payload(key@, n, plaintext@),
        r is Ok ==> opened_payload(key@, r->Ok_0@) == Some(plaintext@),
        r is Ok ==> (payload_bytes(r->Ok_0@) matches Some(c) && c.len() == 12 + plaintext@.len() + 16),
        r is Err ==> has_prefix(r->Err_0@, "加密失败: "@),
{
    let nonce = random_nonce();
    match aes256gcm_encrypt(key, &nonce, plaintext) {
        Err(e) => {
            let msg = concat_text("加密失败: ", &e);
            proof {
                lemma_has_prefix_concat("加密失败: "@, e@);
            }
            Err(msg)
        },
        Ok(ct) => {
            let mut combined: Vec<u8> = Vec::new();
            let mut i: usize = 0;
            while i < 12
                invariant
                    i <= 12,
                    combined@ =~= nonce@.take(i as int),
                decreases 12 - i,
            {
                combined.push(nonce[i]);
                i = i + 1;
            }
            let mut j: usize = 0;
            while j < ct.len()
                invariant
                    j <= ct@.len(),
                    combined@ =~= nonce@ + ct@.take(j as int),
                decreases ct@.len() - j,
            {
                combined.push(ct[j]);
                j = j + 1;
            }
            assert(ct@.take(ct@.len() as int) =~= ct@);
            let s = b64_encode(combined.as_slice());
            assert(s@ == sealed_payload(key@, nonce@, plaintext@));
            proof {
                lemma_sealed_payload_opens(key@, nonce@, plaintext@);
            }
            Ok(s)
        },
    }
}

proof fn lemma_sealed_payload_opens(key: Seq<u8>, n: Seq<u8>, pt: Seq<u8>)
    requires
        n.len() == 12,
    ensures
        payload_bytes(sealed_payload(key, n, pt)) == Some(n + aes256gcm_seal(key, n, pt)),
        (n + aes256gcm_seal(key, n, pt)).take(12) == n,
        (n + aes256gcm_seal(key, n, pt)).skip(12) == aes256gcm_seal(key, n, pt),
{
    let c = n + aes256gcm_seal(key, n, pt);
    lemma_b64_round_trip(c);
    lemma_ascii_text(b64_bytes(c));
    assert((n + aes256gcm_seal(key, n, pt)).take(12) =~= n);
    assert((n + aes256gcm_seal(key, n, pt)).skip(12) =~= aes256gcm_seal(key, n, pt));
}

/// Decrypts a stored text. A text made by [`encrypt`] under the same key
/// decrypts to the plaintext that was encrypted.
pub fn decrypt(key: &[u8; 32], payload: &str) -> (r: Result<Vec<u8>, String>)
    ensures
        match opened_payload(key@, payload@) {
            Some(p) => r is Ok && r->Ok_0@ == p,
            None => r is Err,
        },
        payload_bytes(payload@) is None ==> r is Err && r->Err_0@ == not_base64_msg() && has_prefix(
            r->Err_0@,
            "解码失败: "@,
        ),
        (payload_bytes(payload@) matches Some(c) && c.len() < 12) ==> r is Err && r->Err_0@
            == malformed_payload_msg(),
        (payload_bytes(payload@) matches Some(c) && c.len() >= 12 && aes256gcm_open(
            key@,
            c.take(12),
            c.skip(12),
        ) is None) ==> r is Err && r->Err_0@ == decrypt_failed_msg(),
        forall|n: Seq<u8>, pt: Seq<u8>|
            n.len() == 12 && pt.len() <= aes_gcm_max_plaintext() && payload@ == #[trigger] sealed_payload(key@, n, pt)
                ==> r is Ok && r->Ok_0@ == pt,
        (payload_bytes(payload@) matches Some(c) && c.len() < 28) ==> r is Err,
        r is Err ==> decrypt_error(payload@, r->Err_0@),
{
    let r = match b64_decode(payload) {
        None => {
            proof {
                lemma_has_prefix_concat("解码失败: "@, "不是有效的 base64 文本"@);
            }
            Err(concat_text("解码失败: ", "不是有效的 base64 文本"))
        },
        Some(combined) => {
            if combined.len() < 12 {
                Err(String::from_str("数据格式错误"))
            } else {
                let (nonce, ct) = combined.as_slice().split_at(12);
                assert(nonce@ == combined@.take(12));
                assert(ct@ == combined@.skip(12));
                match aes256gcm_decrypt(key, nonce, ct) {
                    Ok(p) => Ok(p),
                    Err(_) => Err(String::from_str("解密失败（主密码错误或数据损坏）")),
                }
            }
        },
    };
    assert forall|n: Seq<u8>, pt: Seq<u8>|
        n.len() == 12 && pt.len() <= aes_gcm_max_plaintext() && payload@ == #[trigger] sealed_payload(key@, n, pt) implies r is Ok
        && r->Ok_0@ == pt by {
        lemma_sealed_payload_opens(key@, n, pt);
    }
    r
}

} // verus!
