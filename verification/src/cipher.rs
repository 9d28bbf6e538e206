//! AES decryption without padding, in CBC and in ECB mode, and key normalisation.

use aes::cipher::block_padding::NoPadding;
use aes::cipher::{BlockDecryptMut, KeyInit, KeyIvInit};
use vstd::prelude::*;

use crate::error::{outcome, DecryptError, ErrorView};

verus! {

/// The length of an AES block, and of an initialisation vector.
pub const AES_BLOCK_SIZE: usize = 16;

/// What `aes::Aes128` makes of one block of ciphertext under a 16-byte key.
pub uninterp spec fn aes128_block(key: Seq<u8>, block: Seq<u8>) -> Seq<u8>;

/// What `aes::Aes192` makes of one block of ciphertext under a 24-byte key.
pub uninterp spec fn aes192_block(key: Seq<u8>, block: Seq<u8>) -> Seq<u8>;

/// What `aes::Aes256` makes of one block of ciphertext under a 32-byte key.
pub uninterp spec fn aes256_block(key: Seq<u8>, block: Seq<u8>) -> Seq<u8>;

/// The block of `data` that holds the byte at `i`.
pub open spec fn block_around(data: Seq<u8>, i: int) -> Seq<u8> {
    data.subrange(i / 16 * 16, i / 16 * 16 + 16)
}

/// What CBC mode adds to the byte at `i` after the block cipher: the byte one block earlier, which
/// for the first block is the initialisation vector's.
pub open spec fn cbc_mask(iv: Seq<u8>, ciphertext: Seq<u8>, i: int) -> u8 {
    if i < 16 {
        iv[i]
    } else {
        ciphertext[i - 16]
    }
}

/// Calls `cbc::Decryptor::<aes::Aes128>` with `NoPadding`. Trusted: it refuses a key or a vector
/// that is not 16 bytes long and a ciphertext that does not consist of whole blocks, and nothing
/// else; each plaintext block is the block cipher's result added to the previous ciphertext block.
#[verifier::external_body]
fn aes128_cbc(key: &[u8], iv: &[u8], ciphertext: &[u8]) -> (result: Option<Vec<u8>>)
    ensures
        result is Some == (key@.len() == 16 && iv@.len() == 16 && ciphertext@.len() % 16 == 0),
        result matches Some(plaintext) ==> plaintext@.len() == ciphertext@.len(),
        result matches Some(plaintext) ==> forall|i: int|
            0 <= i < plaintext@.len() ==> #[trigger] plaintext@[i] == aes128_block(
                key@,
                block_around(ciphertext@, i),
            )[i % 16] ^ cbc_mask(iv@, ciphertext@, i),
{
    let mut plaintext = vec![0u8; ciphertext.len()];
    cbc::Decryptor::<aes::Aes128>::new_from_slices(key, iv).ok()?
        .decrypt_padded_b2b_mut::<NoPadding>(ciphertext, &mut plaintext).ok()?;
    Some(plaintext)
}

/// Calls `cbc::Decryptor::<aes::Aes192>` with `NoPadding`. Trusted: as for [`aes128_cbc`], with a
/// key of 24 bytes.
#[verifier::external_body]
fn aes192_cbc(key: &[u8], iv: &[u8], ciphertext: &[u8]) -> (result: Option<Vec<u8>>)
    ensures
        result is Some == (key@.len() == 24 && iv@.len() == 16 && ciphertext@.len() % 16 == 0),
        result matches Some(plaintext) ==> plaintext@.len() == ciphertext@.len(),
        result matches Some(plaintext) ==> forall|i: int|
            0 <= i < plaintext@.len() ==> #[trigger] plaintext@[i] == aes192_block(
                key@,
                block_around(ciphertext@, i),
            )[i % 16] ^ cbc_mask(iv@, ciphertext@, i),
{
    let mut plaintext = vec![0u8; ciphertext.len()];
    cbc::Decryptor::<aes::Aes192>::new_from_slices(key, iv).ok()?
        .decrypt_padded_b2b_mut::<NoPadding>(ciphertext, &mut plaintext).ok()?;
    Some(plaintext)
}

/// Calls `cbc::Decryptor::<aes::Aes256>` with `NoPadding`. Trusted: as for [`aes128_cbc`], with a
/// key of 32 bytes.
#[verifier::external_body]
fn aes256_cbc(key: &[u8], iv: &[u8], ciphertext: &[u8]) -> (result: Option<Vec<u8>>)
    ensures
        result is Some == (key@.len() == 32 && iv@.len() == 16 && ciphertext@.len() % 16 == 0),
        result matches Some(plaintext) ==> plaintext@.len() == ciphertext@.len(),
        result matches Some(plaintext) ==> forall|i: int|
            0 <= i < plaintext@.len() ==> #[trigger] plaintext@[i] == aes256_block(
                key@,
                block_around(ciphertext@, i),
            )[i % 16] ^ cbc_mask(iv@, ciphertext@, i),
{
    let mut plaintext = vec![0u8; ciphertext.len()];
    cbc::Decryptor::<aes::Aes256>::new_from_slices(key, iv).ok()?
        .decrypt_padded_b2b_mut::<NoPadding>(ciphertext, &mut plaintext).ok()?;
    Some(plaintext)
}

/// Calls `ecb::Decryptor::<aes::Aes128>` with `NoPadding`. Trusted: it refuses a key that is not
/// 16 bytes long and a ciphertext that does not consist of whole blocks, and nothing else; each
/// plaintext block is the block cipher's result.
#[verifier::external_body]
fn aes128_ecb(key: &[u8], ciphertext: &[u8]) -> (result: Option<Vec<u8>>)
    ensures
        result is Some == (key@.len() == 16 && ciphertext@.len() % 16 == 0),
        result matches Some(plaintext) ==> plaintext@.len() == ciphertext@.len(),
        result matches Some(plaintext) ==> forall|i: int|
            0 <= i < plaintext@.len() ==> #[trigger] plaintext@[i] == aes128_block(
                key@,
                block_around(ciphertext@, i),
            )[i % 16],
{
    let mut plaintext = vec![0u8; ciphertext.len()];
    ecb::Decryptor::<aes::Aes128>::new_from_slice(key).ok()?
        .decrypt_padded_b2b_mut::<NoPadding>(ciphertext, &mut plaintext).ok()?;
    Some(plaintext)
}

/// Calls `ecb::Decryptor::<aes::Aes192>` with `NoPadding`. Trusted: as for [`aes128_ecb`], with a
/// key of 24 bytes.
#[verifier::external_body]
fn aes192_ecb(key: &[u8], ciphertext: &[u8]) -> (result: Option<Vec<u8>>)
    ensures
        result is Some == (key@.len() == 24 && ciphertext@.len() % 16 == 0),
        result matches Some(plaintext) ==> plaintext@.len() == ciphertext@.len(),
        result matches Some(plaintext) ==> forall|i: int|
            0 <= i < plaintext@.len() ==> #[trigger] plaintext@[i] == aes192_block(
                key@,
                block_around(ciphertext@, i),
            )[i % 16],
{
    let mut plaintext = vec![0u8; ciphertext.len()];
    ecb::Decryptor::<aes::Aes192>::new_from_slice(key).ok()?
        .decrypt_padded_b2b_mut::<NoPadding>(ciphertext, &mut plaintext).ok()?;
    Some(plaintext)
}

/// Calls `ecb::Decryptor::<aes::Aes256>` with `NoPadding`. Trusted: as for [`aes128_ecb`], with a
/// key of 32 bytes.
#[verifier::external_body]
fn aes256_ecb(key: &[u8], ciphertext: &[u8]) -> (result: Option<Vec<u8>>)
    ensures
        result is Some == (key@.len() == 32 && ciphertext@.len() % 16 == 0),
        result matches Some(plaintext) ==> plaintext@.len() == ciphertext@.len(),
        result matches Some(plaintext) ==> forall|i: int|
            0 <= i < plaintext@.len() ==> #[trigger] plaintext@[i] == aes256_block(
                key@,
                block_around(ciphertext@, i),
            )[i % 16],
{
    let mut plaintext = vec![0u8; ciphertext.len()];
    ecb::Decryptor::<aes::Aes256>::new_from_slice(key).ok()?
        .decrypt_padded_b2b_mut::<NoPadding>(ciphertext, &mut plaintext).ok()?;
    Some(plaintext)
}

/// Whether AES has keys of this length.
pub open spec fn aes_key_len(len: nat) -> bool {
    len == 16 || len == 24 || len == 32
}

/// One block of plaintext from one block of ciphertext, under the AES variant that the key's
/// length selects.
pub open spec fn aes_block(key: Seq<u8>, block: Seq<u8>) -> Seq<u8> {
    if key.len() == 16 {
        aes128_block(key, block)
    } else if key.len() == 24 {
        aes192_block(key, block)
    } else {
        aes256_block(key, block)
    }
}

/// The plaintext of `ciphertext` in CBC mode.
pub open spec fn cbc_plaintext(key: Seq<u8>, iv: Seq<u8>, ciphertext: Seq<u8>) -> Seq<u8> {
    Seq::new(
        ciphertext.len(),
        |i: int| aes_block(key, block_around(ciphertext, i))[i % 16] ^ cbc_mask(iv, ciphertext, i),
    )
}

/// The plaintext of `ciphertext` in ECB mode.
pub open spec fn ecb_plaintext(key: Seq<u8>, ciphertext: Seq<u8>) -> Seq<u8> {
    Seq::new(
        ciphertext.len(),
        |i: int| aes_block(key, block_around(ciphertext, i))[i % 16],
    )
}

/// What CBC decryption returns: the plaintext if all three lengths fit AES, else an error.
pub open spec fn cbc_decrypted(key: Seq<u8>, iv: Seq<u8>, ciphertext: Seq<u8>) -> Result<
    Seq<u8>,
    ErrorView,
> {
    if aes_key_len(key.len()) && iv.len() == 16 && ciphertext.len() % 16 == 0 {
        Ok(cbc_plaintext(key, iv, ciphertext))
    } else {
        Err(ErrorView::InvalidStructure)
    }
}

/// What ECB decryption returns: the plaintext if both lengths fit AES, else an error.
pub open spec fn ecb_decrypted(key: Seq<u8>, ciphertext: Seq<u8>) -> Result<Seq<u8>, ErrorView> {
    if aes_key_len(key.len()) && ciphertext.len() % 16 == 0 {
        Ok(ecb_plaintext(key, ciphertext))
    } else {
        Err(ErrorView::InvalidStructure)
    }
}

/// AES-CBC-decrypts `ciphertext` without padding. The key's length selects the AES variant.
pub fn aes_cbc_decrypt(key: &[u8], iv: &[u8], ciphertext: &[u8]) -> (result: Result<
    Vec<u8>,
    DecryptError,
>)
    ensures
        outcome(result) == cbc_decrypted(key@, iv@, ciphertext@),
{
    if ciphertext.len() % AES_BLOCK_SIZE != 0 {
        return Err(DecryptError::InvalidStructure);
    }
    let plaintext = match key.len() {
        16 => aes128_cbc(key, iv, ciphertext),
        24 => aes192_cbc(key, iv, ciphertext),
        32 => aes256_cbc(key, iv, ciphertext),
        _ => None,
    };
    match plaintext {
        Some(plaintext) => {
            assert(plaintext@ =~= cbc_plaintext(key@, iv@, ciphertext@));
            Ok(plaintext)
        },
        None => Err(DecryptError::InvalidStructure),
    }
}

/// AES-ECB-decrypts `ciphertext` without padding. The key's length selects the AES variant.
pub fn aes_ecb_decrypt(key: &[u8], ciphertext: &[u8]) -> (result: Result<Vec<u8>, DecryptError>)
    ensures
        outcome(result) == ecb_decrypted(key@, ciphertext@),
{
    if ciphertext.len() % AES_BLOCK_SIZE != 0 {
        return Err(DecryptError::InvalidStructure);
    }
    let plaintext = match key.len() {
        16 => aes128_ecb(key, ciphertext),
        24 => aes192_ecb(key, ciphertext),
        32 => aes256_ecb(key, ciphertext),
        _ => None,
    };
    match plaintext {
        Some(plaintext) => {
            assert(plaintext@ =~= ecb_plaintext(key@, ciphertext@));
            Ok(plaintext)
        },
        None => Err(DecryptError::InvalidStructure),
    }
}

/// `bytes` cut off at `len`, or filled up to `len` with 0x36.
pub open spec fn normalized(bytes: Seq<u8>, len: nat) -> Seq<u8> {
    Seq::new(
        len,
        |i: int|
            if i < bytes.len() {
                bytes[i]
            } else {
                0x36u8
            },
    )
}

/// Truncates `bytes` or pads them with 0x36 to `len`.
pub fn normalize_key(bytes: Vec<u8>, len: usize) -> (key: Vec<u8>)
    ensures
        key@ == normalized(bytes@, len as nat),
{
    let mut key: Vec<u8> = bytes;
    key.resize(len, 0x36);
    assert(key@ =~= normalized(bytes@, len as nat));
    key
}

} // verus!
