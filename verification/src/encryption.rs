//! The encryption layer: wraps and unwraps a serialized save with a key
//! derived from a user passphrase.
//!
//! The passphrase is padded with '0' bytes to the cipher's 32-byte key
//! length, or cut to it, and every wrap uses one fixed seed, so equal
//! passphrases and equal plaintexts give equal ciphertexts. That keeps old
//! encrypted saves readable; it also means the scheme leaks equality of
//! saves, a weakness kept for compatibility.
use vstd::prelude::*;

use crate::error_states::HappyChartError;
use crate::improved_daystat::ImprovedDayStat;
use crate::save_codec::{decode_entries, spec_parse_save};
use crate::{MAX_ENCRYPT_KEY_LENGTH, MIN_ENCRYPT_KEY_LENGTH};
use vstd::string::StrSliceExecFns;
use vstd::utf8::{decode_utf8, encode_utf8, valid_utf8};

verus! {

/// Why an encryption or decryption call failed.
#[derive(Debug, Clone, Copy, PartialEq, Eq, Structural)]
pub enum CryptoErrorKind {
    /// Integrity check or cipher failure: wrong key or corrupted data.
    Cryptography,
    /// The container's format marker is not recognized.
    UnrecognizedFormat,
    /// The container is shorter than its header promises.
    TooShort,
    /// The container is too large for this architecture.
    TooLarge,
    /// An input/output failure inside the cipher library.
    Io,
}

/// The ciphertext that the cipher, under its fixed seed, produces from a
/// 32-byte key and a plaintext.
pub uninterp spec fn spec_cipher_of(key: Seq<u8>, plain: Seq<u8>) -> Seq<u8>;

/// Big-endian value of a byte run.
pub open spec fn spec_be_u64(b: Seq<u8>) -> int
    decreases b.len(),
{
    if b.len() == 0 {
        0int
    } else {
        spec_be_u64(b.drop_last()) * 256 + b.last()
    }
}

/// True when a container's declared body length cannot overrun it: either
/// there are too few bytes to hold a header at all, or the length field
/// (bytes 12..20, big-endian) is at most the container's own length. Every
/// container the cipher produces satisfies this; a forged one need not.
pub open spec fn spec_container_len_ok(data: Seq<u8>) -> bool {
    data.len() < 36 || spec_be_u64(data.subrange(12, 20)) <= data.len()
}

/// Relies on cocoon's MiniCocoon::from_key and wrap: with a fixed seed the
/// drawn nonce is fixed, so the container is a function of key and data
/// alone. The container is a 36-byte prefix (12-byte nonce, the body length
/// big-endian at bytes 12..20, a 16-byte tag) followed by the encrypted
/// body; the stream cipher refuses only bodies of 2^32 - 1 blocks of 64
/// bytes or more, so anything shorter wraps successfully.
#[verifier::external_body]
fn cocoon_wrap(key: &Vec<u8>, data: &Vec<u8>) -> (r: Result<Vec<u8>, CryptoErrorKind>)
    requires
        key@.len() == 32,
    ensures
        r matches Ok(c) ==> c@ == spec_cipher_of(key@, data@) && c@.len() == data@.len() + 36
            && spec_be_u64(c@.subrange(12, 20)) == data@.len(),
        data@.len() < 0x3fffffffc0 ==> r is Ok,
{
    let mut cocoon = cocoon::MiniCocoon::from_key(&key[..], &[0; 32]);
    match cocoon.wrap(&data[..]) {
        Ok(c) => Ok(c),
        Err(cocoon::Error::Cryptography) => Err(CryptoErrorKind::Cryptography),
        Err(cocoon::Error::UnrecognizedFormat) => Err(CryptoErrorKind::UnrecognizedFormat),
        Err(cocoon::Error::TooShort) => Err(CryptoErrorKind::TooShort),
        Err(cocoon::Error::TooLarge) => Err(CryptoErrorKind::TooLarge),
        Err(cocoon::Error::Io(_)) => Err(CryptoErrorKind::Io),
    }
}

/// Relies on cocoon's MiniCocoon::unwrap: a container that wrap produced
/// under the same key and seed unwraps to exactly the bytes that were
/// wrapped, and the length field plus the keystream make wrapping
/// injective per key. The bound on the length field is required because
/// unwrap sizes a buffer from it before any integrity check: a container
/// claiming a body longer than itself would abort instead of returning.
#[verifier::external_body]
fn cocoon_unwrap(key: &Vec<u8>, data: &Vec<u8>) -> (r: Result<Vec<u8>, CryptoErrorKind>)
    requires
        key@.len() == 32,
        spec_container_len_ok(data@),
    ensures
        r is Ok <== exists|p: Seq<u8>| data@ == #[trigger] spec_cipher_of(key@, p),
        r matches Ok(q) ==> forall|p: Seq<u8>|
            data@ == #[trigger] spec_cipher_of(key@, p) ==> q@ == p,
{
    let cocoon = cocoon::MiniCocoon::from_key(&key[..], &[0; 32]);
    match cocoon.unwrap(&data[..]) {
        Ok(p) => Ok(p),
        Err(cocoon::Error::Cryptography) => Err(CryptoErrorKind::Cryptography),
        Err(cocoon::Error::UnrecognizedFormat) => Err(CryptoErrorKind::UnrecognizedFormat),
        Err(cocoon::Error::TooShort) => Err(CryptoErrorKind::TooShort),
        Err(cocoon::Error::TooLarge) => Err(CryptoErrorKind::TooLarge),
        Err(cocoon::Error::Io(_)) => Err(CryptoErrorKind::Io),
    }
}

/// The 32-byte cipher key a passphrase normalizes to: its UTF-8 bytes padded
/// with '0' bytes up to 32, or cut to the first 32.
pub open spec fn spec_normalized_key(key_bytes: Seq<u8>) -> Seq<u8> {
    (key_bytes + seq![48u8; 32]).take(32)
}

/// Builds the 32-byte cipher key of a passphrase.
fn normalized_key(key: &str) -> (r: Vec<u8>)
    ensures
        r@ == spec_normalized_key(encode_utf8(key@)),
        r@.len() == 32,
{
    let bytes = key.as_bytes_vec();
    let mut out: Vec<u8> = Vec::new();
    let mut i: usize = 0;
    while i < 32 && i < bytes.len()
        invariant
            bytes@ == encode_utf8(key@),
            i <= 32,
            i <= bytes@.len(),
            out@ == (bytes@ + seq![48u8; 32]).take(32).take(i as int),
        decreases 32 - i,
    {
        out.push(bytes[i]);
        proof {
            assert(out@ =~= (bytes@ + seq![48u8; 32]).take(32).take(i + 1));
        }
        i = i + 1;
    }
    while i < 32
        invariant
            bytes@ == encode_utf8(key@),
            i <= 32,
            i >= bytes@.len() || i == 32,
            out@ == (bytes@ + seq![48u8; 32]).take(32).take(i as int),
        decreases 32 - i,
    {
        out.push(48u8);
        proof {
            assert(out@ =~= (bytes@ + seq![48u8; 32]).take(32).take(i + 1));
        }
        i = i + 1;
    }
    proof {
        assert((bytes@ + seq![48u8; 32]).take(32).take(32) =~= spec_normalized_key(bytes@));
    }
    out
}

/// Encrypts a serialized save under a passphrase. A success is exactly the
/// cipher's output for the normalized key and these bytes, and every input
/// short of the cipher's length limit succeeds.
pub fn encrypt_bytes(key: &str, data: &Vec<u8>) -> (r: Result<Vec<u8>, CryptoErrorKind>)
    ensures
        r matches Ok(c) ==> c@ == spec_cipher_of(
            spec_normalized_key(encode_utf8(key@)),
            data@,
        ) && spec_container_len_ok(c@),
        data@.len() < 0x3fffffffc0 ==> r is Ok,
{
    let k = normalized_key(key);
    cocoon_wrap(&k, data)
}

/// Decrypts a save under a passphrase. Whenever the input is a ciphertext
/// that `encrypt_bytes` produced under the same passphrase, the call
/// succeeds and returns exactly the bytes that were encrypted; a container
/// whose header claims a body longer than the container is refused before
/// the cipher sees it.
pub fn decrypt_bytes(key: &str, data: &Vec<u8>) -> (r: Result<Vec<u8>, CryptoErrorKind>)
    ensures
        ((exists|p: Seq<u8>|
            data@ == #[trigger] spec_cipher_of(spec_normalized_key(encode_utf8(key@)), p))
            && spec_container_len_ok(data@)) ==> (r is Ok),
        r matches Ok(q) ==> forall|p: Seq<u8>|
            data@ == #[trigger] spec_cipher_of(spec_normalized_key(encode_utf8(key@)), p) ==> q@
                == p,
{
    if data.len() >= 36 {
        let declared = read_declared_length(data);
        if declared > data.len() as u64 {
            return Err(CryptoErrorKind::TooShort);
        }
    }
    let k = normalized_key(key);
    cocoon_unwrap(&k, data)
}

/// Reads a container's declared body length: bytes 12..20, big-endian.
fn read_declared_length(data: &Vec<u8>) -> (r: u64)
    requires
        data@.len() >= 20,
    ensures
        r as int == spec_be_u64(data@.subrange(12, 20)),
{
    let b0 = data[12] as u64;
    let b1 = data[13] as u64;
    let b2 = data[14] as u64;
    let b3 = data[15] as u64;
    let b4 = data[16] as u64;
    let b5 = data[17] as u64;
    let b6 = data[18] as u64;
    let b7 = data[19] as u64;
    let r = ((((((b0 * 256 + b1) * 256 + b2) * 256 + b3) * 256 + b4) * 256 + b5) * 256 + b6) * 256
        + b7;
    proof {
        let s = data@;
        assert(s.subrange(12, 13).drop_last() =~= s.subrange(12, 12));
        assert(s.subrange(12, 14).drop_last() =~= s.subrange(12, 13));
        assert(s.subrange(12, 15).drop_last() =~= s.subrange(12, 14));
        assert(s.subrange(12, 16).drop_last() =~= s.subrange(12, 15));
        assert(s.subrange(12, 17).drop_last() =~= s.subrange(12, 16));
        assert(s.subrange(12, 18).drop_last() =~= s.subrange(12, 17));
        assert(s.subrange(12, 19).drop_last() =~= s.subrange(12, 18));
        assert(s.subrange(12, 20).drop_last() =~= s.subrange(12, 19));
        assert(s.subrange(12, 13).last() == s[12]);
        assert(s.subrange(12, 14).last() == s[13]);
        assert(s.subrange(12, 15).last() == s[14]);
        assert(s.subrange(12, 16).last() == s[15]);
        assert(s.subrange(12, 17).last() == s[16]);
        assert(s.subrange(12, 18).last() == s[17]);
        assert(s.subrange(12, 19).last() == s[18]);
        assert(s.subrange(12, 20).last() == s[19]);
        assert(spec_be_u64(s.subrange(12, 12)) == 0);
        assert(spec_be_u64(s.subrange(12, 13)) == s[12]);
        assert(spec_be_u64(s.subrange(12, 14)) == spec_be_u64(s.subrange(12, 13)) * 256 + s[13]);
        assert(spec_be_u64(s.subrange(12, 15)) == spec_be_u64(s.subrange(12, 14)) * 256 + s[14]);
        assert(spec_be_u64(s.subrange(12, 16)) == spec_be_u64(s.subrange(12, 15)) * 256 + s[15]);
        assert(spec_be_u64(s.subrange(12, 17)) == spec_be_u64(s.subrange(12, 16)) * 256 + s[16]);
        assert(spec_be_u64(s.subrange(12, 18)) == spec_be_u64(s.subrange(12, 17)) * 256 + s[17]);
        assert(spec_be_u64(s.subrange(12, 19)) == spec_be_u64(s.subrange(12, 18)) * 256 + s[18]);
        assert(spec_be_u64(s.subrange(12, 20)) == spec_be_u64(s.subrange(12, 19)) * 256 + s[19]);
    }
    r
}

/// Round trip of the encryption layer: decrypting what was just encrypted
/// under the same passphrase gives the original bytes back; it never fails
/// on an input short of the cipher's length limit.
pub fn encrypt_then_decrypt(key: &str, data: &Vec<u8>) -> (r: Option<Vec<u8>>)
    ensures
        r matches Some(v) ==> v@ == data@,
        data@.len() < 0x3fffffffc0 ==> r is Some,
{
    match encrypt_bytes(key, data) {
        Err(_) => None,
        Ok(c) => {
            proof {
                assert(spec_container_len_ok(c@));
            }
            match decrypt_bytes(key, &c) {
                Ok(v) => Some(v),
                Err(_) => {
                    proof {
                        assert(false);
                    }
                    None
                },
            }
        },
    }
}

/// Checks the configured passphrase and its confirmation copy before any
/// encryption is attempted: they must match, and both must lie within the
/// accepted length range (in bytes).
pub fn encryption_save_file_checks(key: &str, second_check: &str) -> (r: Result<
    (),
    HappyChartError,
>)
    ensures
        ({
            let b1 = encode_utf8(key@);
            let b2 = encode_utf8(second_check@);
            if b1 != b2 {
                r == Err::<(), HappyChartError>(HappyChartError::EncryptionKeysDontMatch)
            } else if b1.len() < MIN_ENCRYPT_KEY_LENGTH as int && b2.len()
                < MIN_ENCRYPT_KEY_LENGTH as int {
                r == Err::<(), HappyChartError>(
                    HappyChartError::EncryptKeyTooShort {
                        primary_key_problem: b1.len() < MIN_ENCRYPT_KEY_LENGTH as int,
                        secondary_key_problem: b2.len() < MIN_ENCRYPT_KEY_LENGTH as int,
                    },
                )
            } else if b1.len() > MAX_ENCRYPT_KEY_LENGTH as int && b2.len()
                > MAX_ENCRYPT_KEY_LENGTH as int {
                r == Err::<(), HappyChartError>(
                    HappyChartError::EncryptKeyTooLong {
                        primary_key_problem: b1.len() > MAX_ENCRYPT_KEY_LENGTH as int,
                        secondary_key_problem: b2.len() > MAX_ENCRYPT_KEY_LENGTH as int,
                    },
                )
            } else {
                r == Ok::<(), HappyChartError>(())
            }
        }),
{
    let b1 = key.as_bytes_vec();
    let b2 = second_check.as_bytes_vec();
    if !bytes_eq(&b1, &b2) {
        return Err(HappyChartError::EncryptionKeysDontMatch);
    }
    if b1.len() < MIN_ENCRYPT_KEY_LENGTH && b2.len() < MIN_ENCRYPT_KEY_LENGTH {
        return Err(
            HappyChartError::EncryptKeyTooShort {
                primary_key_problem: true,
                secondary_key_problem: true,
            },
        );
    }
    if b1.len() > MAX_ENCRYPT_KEY_LENGTH && b2.len() > MAX_ENCRYPT_KEY_LENGTH {
        return Err(
            HappyChartError::EncryptKeyTooLong {
                primary_key_problem: true,
                secondary_key_problem: true,
            },
        );
    }
    Ok(())
}

/// Byte-vector equality.
fn bytes_eq(a: &Vec<u8>, b: &Vec<u8>) -> (r: bool)
    ensures
        r == (a@ == b@),
{
    if a.len() != b.len() {
        return false;
    }
    let mut i: usize = 0;
    while i < a.len()
        invariant
            a@.len() == b@.len(),
            i <= a@.len(),
            forall|j: int| 0 <= j < i ==> a@[j] == b@[j],
        decreases a@.len() - i,
    {
        if a[i] != b[i] {
            return false;
        }
        i = i + 1;
    }
    proof {
        assert(a@ =~= b@);
    }
    true
}

/// Decrypts an encrypted save file and parses the plaintext in the current
/// layout. Whenever the input was produced by encrypting a printed entry
/// list under the same passphrase, the entries come back exactly.
pub fn decrypt_save_file(key: &str, encrypted_data: &Vec<u8>) -> (r: Result<
    Vec<ImprovedDayStat>,
    HappyChartError,
>)
    ensures
        forall|p: Seq<u8>|
            (encrypted_data@ == #[trigger] spec_cipher_of(
                spec_normalized_key(encode_utf8(key@)),
                p,
            ) && spec_container_len_ok(encrypted_data@)) ==> if valid_utf8(p) && spec_parse_save(
                decode_utf8(p),
            ) is Some {
                r matches Ok(v) && Some(v@.map_values(|d: ImprovedDayStat| d@))
                    == spec_parse_save(decode_utf8(p))
            } else {
                r == Err::<Vec<ImprovedDayStat>, HappyChartError>(
                    HappyChartError::Deserialization,
                )
            },
{
    match decrypt_bytes(key, encrypted_data) {
        Err(k) => Err(HappyChartError::DecryptionError(k)),
        Ok(plain) => {
            match crate::save::utf8_to_string(&plain) {
                None => Err(HappyChartError::Deserialization),
                Some(text) => {
                    proof {
                        vstd::utf8::encode_utf8_decode_utf8(text@);
                    }
                    match decode_entries(text.as_str()) {
                        None => Err(HappyChartError::Deserialization),
                        Some(v) => Ok(v),
                    }
                },
            }
        },
    }
}

} // verus!
