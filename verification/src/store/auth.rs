//! Master keys and auth-blob encryption.
//!
//! Auth blobs are AES-256-GCM ciphertexts of opaque cookie and storage
//! state under a 32-byte master key local to the host. A key is found in
//! the OS keyring under (`vibesurfer`, `default`) as 64 hex digits, or
//! else in a 32-byte key file.

use ring::aead::{Aad, LessSafeKey, Nonce, UnboundKey, AES_256_GCM};
use ring::rand::{SecureRandom, SystemRandom};

use vstd::prelude::*;

use super::error::StoreError;

verus! {

/// Service name used for the OS keyring.
pub const KEYRING_SERVICE: &'static str = "vibesurfer";

/// Account name used for the OS keyring.
pub const KEYRING_ACCOUNT: &'static str = "default";

/// Length of an AES-256 key in bytes.
pub const KEY_LEN: usize = 32;

/// Length of a GCM nonce in bytes.
pub const NONCE_LEN: usize = 12;

/// A 32-byte AES-256 master key. It has no `Debug` or `Display`, so its
/// bytes are never printed.
#[derive(Clone)]
pub struct MasterKey([u8; 32]);

impl View for MasterKey {
    type V = Seq<u8>;

    /// The key bytes.
    closed spec fn view(&self) -> Seq<u8> {
        self.0@
    }
}

/// True for an ASCII hexadecimal digit of either case.
pub open spec fn is_hex_digit(c: char) -> bool {
    ('0' <= c <= '9') || ('a' <= c <= 'f') || ('A' <= c <= 'F')
}

/// The value of a hexadecimal digit of either case.
pub open spec fn hex_digit_value(c: char) -> int {
    if '0' <= c <= '9' {
        c as int - '0' as int
    } else if 'a' <= c <= 'f' {
        c as int - 'a' as int + 10
    } else {
        c as int - 'A' as int + 10
    }
}

/// True for the keyring form of a key: exactly 64 hexadecimal digits.
pub open spec fn key_hex_shape(s: Seq<char>) -> bool {
    s.len() == 2 * KEY_LEN && forall|i: int| 0 <= i < s.len() ==> is_hex_digit(#[trigger] s[i])
}

/// The bytes spelled by the digit pairs of a keyring entry, most
/// significant digit first.
pub open spec fn key_hex_bytes(s: Seq<char>) -> Seq<u8> {
    Seq::new(
        KEY_LEN as nat,
        |i: int| (hex_digit_value(s[2 * i]) * 16 + hex_digit_value(s[2 * i + 1])) as u8,
    )
}

/// The lower-case hexadecimal digit of a value below 16.
pub open spec fn lower_hex_digit(n: int) -> char {
    if n < 10 {
        ('0' as int + n) as char
    } else {
        ('a' as int + n - 10) as char
    }
}

/// The keyring text of 32 key bytes: two lower-case hexadecimal digits
/// per byte, high nibble first.
pub open spec fn key_hex_text(k: Seq<u8>) -> Seq<char> {
    Seq::new(
        (2 * KEY_LEN) as nat,
        |i: int| if i % 2 == 0 { lower_hex_digit((k[i / 2] / 16) as int) } else { lower_hex_digit((k[i / 2] % 16) as int) },
    )
}

/// A key written in its keyring form reads back as the same key: the
/// text has the keyring shape and spells the key's bytes.
pub proof fn lemma_keyring_text_round_trip(k: Seq<u8>)
    requires
        k.len() == KEY_LEN,
    ensures
        key_hex_shape(key_hex_text(k)),
        key_hex_bytes(key_hex_text(k)) == k,
{
    let t = key_hex_text(k);
    assert forall|i: int| 0 <= i < t.len() implies is_hex_digit(#[trigger] t[i]) by {
        let n: int = if i % 2 == 0 { (k[i / 2] / 16) as int } else { (k[i / 2] % 16) as int };
        assert(0 <= n < 16);
    }
    assert forall|j: int| 0 <= j < KEY_LEN implies #[trigger] key_hex_bytes(t)[j] == k[j] by {
        assert((2 * j) % 2 == 0);
        assert((2 * j + 1) % 2 == 1);
        assert((2 * j) / 2 == j);
        assert((2 * j + 1) / 2 == j);
        let hi: int = (k[j] / 16) as int;
        let lo: int = (k[j] % 16) as int;
        assert(hex_digit_value(lower_hex_digit(hi)) == hi);
        assert(hex_digit_value(lower_hex_digit(lo)) == lo);
        assert(hi * 16 + lo == k[j]);
    }
    assert(key_hex_bytes(t) =~= k);
}

fn lower_hex_digit_exec(n: u8) -> (c: char)
    requires
        n < 16,
    ensures
        c == lower_hex_digit(n as int),
{
    if n < 10 {
        (48 + n) as char
    } else {
        (87 + n) as char
    }
}

fn is_hex_digit_exec(c: char) -> (b: bool)
    ensures
        b == is_hex_digit(c),
{
    ('0' <= c && c <= '9') || ('a' <= c && c <= 'f') || ('A' <= c && c <= 'F')
}

fn hex_digit_value_exec(c: char) -> (v: u8)
    requires
        is_hex_digit(c),
    ensures
        v == hex_digit_value(c),
        v < 16,
{
    let u = c as u32;
    if 48 <= u && u <= 57 {
        (u - 48) as u8
    } else if 97 <= u && u <= 102 {
        (u - 87) as u8
    } else {
        (u - 55) as u8
    }
}

impl MasterKey {
    /// A key holding exactly `bytes`.
    pub fn from_bytes(bytes: [u8; 32]) -> (k: MasterKey)
        ensures
            k@ == bytes@,
    {
        MasterKey(bytes)
    }

    /// The key held in a key file's contents: exactly 32 bytes, else
    /// `KeyFileSize` with the size found.
    pub fn from_key_file_bytes(bytes: &[u8]) -> (r: Result<MasterKey, StoreError>)
        ensures
            bytes@.len() == KEY_LEN ==> (r matches Ok(k) && k@ == bytes@),
            bytes@.len() != KEY_LEN ==> (r matches Err(StoreError::KeyFileSize(n)) && n == bytes@.len()),
    {
        if bytes.len() != KEY_LEN {
            return Err(StoreError::KeyFileSize(bytes.len()));
        }
        let mut buf = [0u8; 32];
        let mut i: usize = 0;
        while i < KEY_LEN
            invariant
                i <= KEY_LEN,
                bytes@.len() == KEY_LEN,
                forall|j: int| 0 <= j < i ==> #[trigger] buf@[j] == bytes@[j],
            decreases KEY_LEN - i,
        {
            buf[i] = bytes[i];
            i += 1;
        }
        assert(buf@ =~= bytes@);
        Ok(MasterKey(buf))
    }

    /// A fresh key from the system random source; `Crypto("rng")` when
    /// the source fails. The bytes are random, so nothing more is
    /// claimed of them.
    pub fn generate() -> (r: Result<MasterKey, StoreError>)
        ensures
            r matches Err(e) ==> (e matches StoreError::Crypto(m) && m@ == "rng"@),
    {
        match random_array::<32>() {
            Some(buf) => Ok(MasterKey(buf)),
            None => Err(StoreError::Crypto("rng")),
        }
    }

    /// The text the key is kept as in the OS keyring: two lower-case
    /// hexadecimal digits per byte, most significant digit first (see
    /// [`key_hex_text`]).
    pub fn keyring_secret(&self) -> (s: String)
        ensures
            s@ == key_hex_text(self@),
    {
        let mut out: Vec<char> = Vec::new();
        let mut i: usize = 0;
        while i < KEY_LEN
            invariant
                i <= KEY_LEN,
                self.0@.len() == KEY_LEN,
                out@ =~= key_hex_text(self.0@).take(2 * i as int),
            decreases KEY_LEN - i,
        {
            let b = self.0[i];
            out.push(lower_hex_digit_exec(b / 16));
            out.push(lower_hex_digit_exec(b % 16));
            assert(out@ =~= key_hex_text(self.0@).take(2 * i as int + 2));
            i += 1;
        }
        assert(key_hex_text(self.0@).take(64) =~= key_hex_text(self.0@));
        crate::text::string_of(&out)
    }

    /// The key bytes.
    pub fn raw(&self) -> (b: &[u8; 32])
        ensures
            b@ == self@,
    {
        &self.0
    }
}

/// The key a keyring entry spells: 64 hexadecimal digits of either case,
/// two per byte; anything else is `Crypto("hex key shape")`.
pub fn decode_hex_key(s: &str) -> (r: Result<MasterKey, StoreError>)
    ensures
        key_hex_shape(s@) ==> (r matches Ok(k) && k@ == key_hex_bytes(s@)),
        !key_hex_shape(s@) ==> (r matches Err(StoreError::Crypto(m)) && m@ == "hex key shape"@),
{
    let v = crate::text::chars_of(s);
    if v.len() != 2 * KEY_LEN {
        return Err(StoreError::Crypto("hex key shape"));
    }
    let mut k: usize = 0;
    while k < v.len()
        invariant
            k <= v@.len(),
            v@ == s@,
            forall|j: int| 0 <= j < k ==> is_hex_digit(#[trigger] v@[j]),
        decreases v@.len() - k,
    {
        if !is_hex_digit_exec(v[k]) {
            return Err(StoreError::Crypto("hex key shape"));
        }
        k += 1;
    }
    let mut buf = [0u8; 32];
    let mut i: usize = 0;
    while i < KEY_LEN
        invariant
            i <= KEY_LEN,
            v@ == s@,
            key_hex_shape(v@),
            forall|j: int| 0 <= j < i ==> #[trigger] buf@[j] == key_hex_bytes(v@)[j],
        decreases KEY_LEN - i,
    {
        let hi = hex_digit_value_exec(v[2 * i]);
        let lo = hex_digit_value_exec(v[2 * i + 1]);
        buf[i] = hi * 16 + lo;
        i += 1;
    }
    assert(buf@ =~= key_hex_bytes(s@));
    Ok(MasterKey::from_bytes(buf))
}

/// One ciphertext (with its authentication tag) and its 12-byte nonce.
#[derive(Debug, Clone, PartialEq, Eq)]
pub struct EncryptedBlob {
    pub ciphertext: Vec<u8>,
    pub nonce: [u8; 12],
}

/// Names the AES-256-GCM sealing of `plaintext` under `key` and `nonce`
/// with empty associated data: the ciphertext with its tag appended.
pub uninterp spec fn aes_gcm_sealed(key: Seq<u8>, nonce: Seq<u8>, plaintext: Seq<u8>) -> Seq<u8>;

/// Names the AES-256-GCM opening of `ciphertext` under `key` and `nonce`
/// with empty associated data: the plaintext, or `None` when the tag
/// does not authenticate.
pub uninterp spec fn aes_gcm_opened(key: Seq<u8>, nonce: Seq<u8>, ciphertext: Seq<u8>) -> Option<Seq<u8>>;

/// `N` bytes from `ring`'s `SystemRandom::fill`; `None` when it fails.
/// The bytes are random, so nothing is claimed of them.
#[verifier::external_body]
fn random_array<const N: usize>() -> Option<[u8; N]> {
    let mut n = [0u8; N];
    SystemRandom::new().fill(&mut n).ok()?;
    Some(n)
}

/// `ring`'s AES-256-GCM `seal_in_place_append_tag` with empty associated
/// data. Claims that a result is the named sealing, the plaintext's length
/// plus the 16-byte tag, and that opening it with the same key and nonce
/// gives the plaintext back (AEAD correctness); `None` (ring refusing the
/// input) is left open.
#[verifier::external_body]
fn seal(key: &[u8; 32], nonce: [u8; 12], plaintext: &[u8]) -> (r: Option<Vec<u8>>)
    ensures
        r matches Some(c) ==> c@ == aes_gcm_sealed(key@, nonce@, plaintext@)
            && c@.len() == plaintext@.len() + 16
            && aes_gcm_opened(key@, nonce@, c@) == Some(plaintext@),
{
    let k = LessSafeKey::new(UnboundKey::new(&AES_256_GCM, key).ok()?);
    let mut buf = plaintext.to_vec();
    k.seal_in_place_append_tag(Nonce::assume_unique_for_key(nonce), Aad::empty(), &mut buf).ok()?;
    Some(buf)
}

/// `ring`'s AES-256-GCM `open_in_place` with empty associated data: the
/// named opening of the ciphertext.
#[verifier::external_body]
fn open(key: &[u8; 32], nonce: [u8; 12], ciphertext: &[u8]) -> (r: Option<Vec<u8>>)
    ensures
        match r {
            Some(p) => aes_gcm_opened(key@, nonce@, ciphertext@) == Some(p@),
            None => aes_gcm_opened(key@, nonce@, ciphertext@) == None::<Seq<u8>>,
        },
{
    let k = LessSafeKey::new(UnboundKey::new(&AES_256_GCM, key).ok()?);
    let mut buf = ciphertext.to_vec();
    let p = k.open_in_place(Nonce::assume_unique_for_key(nonce), Aad::empty(), &mut buf).ok()?;
    Some(p.to_vec())
}

/// Encrypt `plaintext` under `key` with a fresh random nonce. The
/// ciphertext is the plaintext's length plus the 16-byte tag, and the blob
/// opens under the same key to the plaintext.
pub fn encrypt(key: &MasterKey, plaintext: &[u8]) -> (r: Result<EncryptedBlob, StoreError>)
    ensures
        match r {
            Ok(b) => {
                &&& b.ciphertext@ == aes_gcm_sealed(key@, b.nonce@, plaintext@)
                &&& b.ciphertext@.len() == plaintext@.len() + 16
                &&& aes_gcm_opened(key@, b.nonce@, b.ciphertext@) == Some(plaintext@)
            },
            Err(e) => e matches StoreError::Crypto(m) && (m@ == "rng"@ || m@ == "seal"@),
        },
{
    let nonce = match random_array::<12>() {
        Some(n) => n,
        None => return Err(StoreError::Crypto("rng")),
    };
    match seal(key.raw(), nonce, plaintext) {
        Some(c) => Ok(EncryptedBlob { ciphertext: c, nonce }),
        None => Err(StoreError::Crypto("seal")),
    }
}

/// Decrypt a blob made by [`encrypt`]: the plaintext when the blob
/// authenticates under `key`, else a crypto error.
pub fn decrypt(key: &MasterKey, blob: &EncryptedBlob) -> (r: Result<Vec<u8>, StoreError>)
    ensures
        match r {
            Ok(p) => aes_gcm_opened(key@, blob.nonce@, blob.ciphertext@) == Some(p@),
            Err(e) => {
                &&& aes_gcm_opened(key@, blob.nonce@, blob.ciphertext@) == None::<Seq<u8>>
                &&& e matches StoreError::Crypto(m) && m@ == "open (likely wrong key or tampered blob)"@
            },
        },
{
    match open(key.raw(), blob.nonce, blob.ciphertext.as_slice()) {
        Some(p) => Ok(p),
        None => Err(StoreError::Crypto("open (likely wrong key or tampered blob)")),
    }
}

} // verus!
