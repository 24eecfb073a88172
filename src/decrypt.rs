//! The AES-128-CBC decryption engine: a fixed key and IV, and a decrypt
//! operation that starts a fresh cipher context on every call.
use vstd::prelude::*;
use crate::text::chars_of;

verus! {

/// Length in bytes of the key, of the IV and of one cipher block.
pub const BLOCK_SIZE: usize = 16;

/// Longest key text handed to the base64 decoder: at up to four bytes a
/// character, its bytes stay within `c_int::MAX`.
pub const MAX_KEY_TEXT: usize = 536870911;

pub open spec fn is_hex_digit(c: char) -> bool {
    ('0' <= c <= '9') || ('a' <= c <= 'f') || ('A' <= c <= 'F')
}

pub open spec fn hex_value(c: char) -> int {
    if 'A' <= c <= 'F' {
        c as u32 - 'A' as u32 + 10
    } else if 'a' <= c <= 'f' {
        c as u32 - 'a' as u32 + 10
    } else {
        c as u32 - '0' as u32
    }
}

/// The 16 bytes that 32 hexadecimal digits stand for, two digits per byte
/// with the high half first; `None` for any other text.
pub open spec fn hex_block(s: Seq<char>) -> Option<Seq<u8>> {
    if s.len() == 2 * BLOCK_SIZE && forall|i: int| 0 <= i < s.len() ==> is_hex_digit(#[trigger] s[i]) {
        Some(Seq::new(BLOCK_SIZE as nat, |i: int| (hex_value(s[2 * i]) * 16 + hex_value(s[2 * i + 1])) as u8))
    } else {
        None
    }
}

/// What OpenSSL's block decoder makes of a base64 text, if it accepts it.
pub uninterp spec fn base64_block(s: Seq<char>) -> Option<Seq<u8>>;

/// The bytes that one AES-128-CBC decryption pass without padding removal
/// yields for this key, IV and ciphertext.
pub uninterp spec fn aes_128_cbc_decrypt(key: Seq<u8>, iv: Seq<u8>, data: Seq<u8>) -> Seq<u8>;

/// Whether `key` is the base64 text of exactly 16 bytes.
pub open spec fn key_ok(key: Seq<char>) -> bool {
    &&& key.len() <= MAX_KEY_TEXT
    &&& base64_block(key) is Some
    &&& base64_block(key)->0.len() == BLOCK_SIZE
}

/// Relies on `openssl::base64::decode_block`, which decodes a whole base64
/// block; its only panic is on a text longer than `c_int::MAX` bytes.
#[verifier::external_body]
fn decode_base64(s: &str) -> (r: Option<Vec<u8>>)
    requires
        s@.len() <= MAX_KEY_TEXT,
    ensures
        r matches Some(v) ==> base64_block(s@) == Some(v@),
        r is None ==> base64_block(s@) is None,
{
    openssl::base64::decode_block(s).ok()
}

/// Relies on `hex::FromHex` for `[u8; 16]`: it accepts exactly 32 bytes that
/// are all hexadecimal digits of either case, and pairs them high half first.
#[verifier::external_body]
fn decode_hex_block(s: &str) -> (r: Option<[u8; 16]>)
    ensures
        r matches Some(b) ==> hex_block(s@) == Some(b@),
        r is None ==> hex_block(s@) is None,
{
    <[u8; 16] as hex::FromHex>::from_hex(s).ok()
}

/// Relies on `openssl::symm::Crypter` with AES-128-CBC in decrypt mode and
/// padding off: one `update` over the whole input, kept up to the length it
/// reports. `update` panics on an input over `c_int::MAX` bytes, or on an
/// output buffer shorter than the input and one block.
#[verifier::external_body]
fn cbc_decrypt(key: &[u8; 16], iv: &[u8; 16], input: &[u8]) -> (r: Option<Vec<u8>>)
    requires
        input@.len() + BLOCK_SIZE <= i32::MAX,
    ensures
        r matches Some(v) ==> v@ == aes_128_cbc_decrypt(key@, iv@, input@),
{
    let cipher = openssl::symm::Cipher::aes_128_cbc();
    let mode = openssl::symm::Mode::Decrypt;
    let mut crypter = openssl::symm::Crypter::new(cipher, mode, key, Some(iv)).ok()?;
    crypter.pad(false);
    let mut out = vec![0; input.len() + BLOCK_SIZE];
    let len = crypter.update(input, &mut out).ok()?;
    out.truncate(len);
    Some(out)
}

/// Why key or IV material was refused.
#[derive(Clone, Copy, Debug, PartialEq, Eq, Structural)]
pub enum KeyError {
    /// The key is not the base64 text of 16 bytes.
    Key,
    /// The IV is not 32 hexadecimal digits.
    Iv,
}

/// A fixed AES-128 key and IV.
#[derive(Clone, Copy)]
pub struct Decrypter {
    key: [u8; 16],
    iv: [u8; 16],
}

impl Decrypter {
    pub closed spec fn key(&self) -> Seq<u8> {
        self.key@
    }

    pub closed spec fn iv(&self) -> Seq<u8> {
        self.iv@
    }

    /// Builds the engine from a base64 key and a hexadecimal IV.
    pub fn new(key: &str, iv: &str) -> (r: Result<Decrypter, KeyError>)
        ensures
            r is Ok <==> key_ok(key@) && hex_block(iv@) is Some,
            r matches Ok(d) ==> Some(d.key()) == base64_block(key@) && Some(d.iv()) == hex_block(
                iv@,
            ),
            r == Err::<Decrypter, KeyError>(KeyError::Key) <==> !key_ok(key@),
            r == Err::<Decrypter, KeyError>(KeyError::Iv) <==> key_ok(key@) && hex_block(iv@) is None,
    {
        let key_chars = chars_of(key);
        if key_chars.len() > MAX_KEY_TEXT {
            return Err(KeyError::Key);
        }
        let key_vec = match decode_base64(key) {
            Some(v) => v,
            None => return Err(KeyError::Key),
        };
        if key_vec.len() != BLOCK_SIZE {
            return Err(KeyError::Key);
        }
        let iv = match decode_hex_block(iv) {
            Some(b) => b,
            None => return Err(KeyError::Iv),
        };
        let mut key = [0u8; 16];
        let mut i: usize = 0;
        while i < BLOCK_SIZE
            invariant
                0 <= i <= BLOCK_SIZE,
                key_vec.len() == BLOCK_SIZE,
                key@.len() == BLOCK_SIZE,
                forall|j: int| 0 <= j < i ==> key@[j] == key_vec@[j],
            decreases BLOCK_SIZE - i,
        {
            key[i] = key_vec[i];
            i += 1;
        }
        assert(key@ =~= key_vec@);
        Ok(Decrypter { key, iv })
    }

    /// Decrypts one buffer with a fresh cipher context; `None` when the
    /// cipher library fails.
    pub fn decrypt(&self, input: &[u8]) -> (r: Option<Vec<u8>>)
        requires
            input@.len() + BLOCK_SIZE <= i32::MAX,
        ensures
            r matches Some(v) ==> v@ == aes_128_cbc_decrypt(self.key(), self.iv(), input@),
    {
        cbc_decrypt(&self.key, &self.iv, input)
    }
}

} // verus!
