//! What holds of the library as a whole: what encryption writes, decryption reads.
//!
//! The library holds no encryption. Where a law speaks of an encrypted document, it speaks of any
//! function that encrypts single blocks so that AES decrypts them, and builds the modes of
//! operation and the formats upon it.

use vstd::prelude::*;

use crate::cipher::{
    aes128_block, aes192_block, aes256_block, aes_block, block_around, cbc_decrypted, cbc_mask,
    cbc_plaintext, ecb_decrypted, ecb_plaintext, normalized,
};
use crate::error::ErrorView;

verus! {

/// Whether `encrypt` is a block encryption that AES decryption undoes, under keys of 16, 24 and 32
/// bytes.
pub open spec fn inverts_aes(encrypt: spec_fn(Seq<u8>, Seq<u8>) -> Seq<u8>) -> bool {
    forall|key: Seq<u8>, block: Seq<u8>|
        block.len() == 16 && (key.len() == 16 || key.len() == 24 || key.len() == 32) ==> {
            let encrypted = #[trigger] encrypt(key, block);
            &&& encrypted.len() == 16
            &&& key.len() == 16 ==> aes128_block(key, encrypted) == block
            &&& key.len() == 24 ==> aes192_block(key, encrypted) == block
            &&& key.len() == 32 ==> aes256_block(key, encrypted) == block
        }
}

/// The exclusive or of two blocks.
pub open spec fn xor_blocks(a: Seq<u8>, b: Seq<u8>) -> Seq<u8> {
    Seq::new(16, |i: int| a[i] ^ b[i])
}

/// The block before the end of `ciphertext`, or the initialisation vector if there is none.
pub open spec fn chained(iv: Seq<u8>, ciphertext: Seq<u8>) -> Seq<u8> {
    if ciphertext.len() < 16 {
        iv
    } else {
        ciphertext.skip(ciphertext.len() - 16)
    }
}

/// The encryption of whole blocks in CBC mode.
pub open spec fn cbc_encrypted(
    encrypt: spec_fn(Seq<u8>, Seq<u8>) -> Seq<u8>,
    key: Seq<u8>,
    iv: Seq<u8>,
    plaintext: Seq<u8>,
) -> Seq<u8>
    decreases plaintext.len(),
{
    if plaintext.len() < 16 {
        seq![]
    } else {
        let before = cbc_encrypted(encrypt, key, iv, plaintext.take(plaintext.len() - 16));
        before + encrypt(
            key,
            xor_blocks(plaintext.skip(plaintext.len() - 16), chained(iv, before)),
        )
    }
}

/// The encryption of whole blocks in ECB mode.
pub open spec fn ecb_encrypted(
    encrypt: spec_fn(Seq<u8>, Seq<u8>) -> Seq<u8>,
    key: Seq<u8>,
    plaintext: Seq<u8>,
) -> Seq<u8>
    decreases plaintext.len(),
{
    if plaintext.len() < 16 {
        seq![]
    } else {
        ecb_encrypted(encrypt, key, plaintext.take(plaintext.len() - 16)) + encrypt(
            key,
            plaintext.skip(plaintext.len() - 16),
        )
    }
}

/// CBC decryption undoes CBC encryption.
pub proof fn law_cbc_reads_back(
    encrypt: spec_fn(Seq<u8>, Seq<u8>) -> Seq<u8>,
    key: Seq<u8>,
    iv: Seq<u8>,
    plaintext: Seq<u8>,
)
    requires
        inverts_aes(encrypt),
        key.len() == 16 || key.len() == 24 || key.len() == 32,
        iv.len() == 16,
        plaintext.len() % 16 == 0,
    ensures
        cbc_encrypted(encrypt, key, iv, plaintext).len() == plaintext.len(),
        cbc_decrypted(key, iv, cbc_encrypted(encrypt, key, iv, plaintext)) == Ok::<
            Seq<u8>,
            ErrorView,
        >(plaintext),
    decreases plaintext.len(),
{
    let ciphertext = cbc_encrypted(encrypt, key, iv, plaintext);
    if plaintext.len() >= 16 {
        let n = plaintext.len() - 16;
        let before = cbc_encrypted(encrypt, key, iv, plaintext.take(n));
        let mixed = xor_blocks(plaintext.skip(n), chained(iv, before));
        let last = encrypt(key, mixed);
        law_cbc_reads_back(encrypt, key, iv, plaintext.take(n));
        assert(ciphertext =~= before + last);
        assert(aes_block(key, last) == mixed);
        let decrypted = cbc_plaintext(key, iv, ciphertext);
        assert forall|i: int| 0 <= i < plaintext.len() implies decrypted[i] == plaintext[i] by {
            if i < n {
                assert(block_around(ciphertext, i) =~= block_around(before, i));
                assert(cbc_plaintext(key, iv, before)[i] == plaintext.take(n)[i]);
            } else {
                assert(i / 16 * 16 == n);
                assert(block_around(ciphertext, i) =~= last);
                let p = plaintext[i];
                let m = cbc_mask(iv, ciphertext, i);
                assert(chained(iv, before)[i - n] == m);
                assert(plaintext.skip(n)[i - n] == p);
                assert(mixed[i % 16] == p ^ m);
                assert((p ^ m) ^ m == p) by (bit_vector);
            }
        }
        assert(decrypted =~= plaintext);
    } else {
        assert(cbc_plaintext(key, iv, ciphertext) =~= plaintext);
    }
}

/// ECB decryption undoes ECB encryption.
pub proof fn law_ecb_reads_back(
    encrypt: spec_fn(Seq<u8>, Seq<u8>) -> Seq<u8>,
    key: Seq<u8>,
    plaintext: Seq<u8>,
)
    requires
        inverts_aes(encrypt),
        key.len() == 16 || key.len() == 24 || key.len() == 32,
        plaintext.len() % 16 == 0,
    ensures
        ecb_encrypted(encrypt, key, plaintext).len() == plaintext.len(),
        ecb_decrypted(key, ecb_encrypted(encrypt, key, plaintext)) == Ok::<Seq<u8>, ErrorView>(
            plaintext,
        ),
    decreases plaintext.len(),
{
    let ciphertext = ecb_encrypted(encrypt, key, plaintext);
    let decrypted = ecb_plaintext(key, ciphertext);
    if plaintext.len() >= 16 {
        let n = plaintext.len() - 16;
        let before = ecb_encrypted(encrypt, key, plaintext.take(n));
        let last = encrypt(key, plaintext.skip(n));
        law_ecb_reads_back(encrypt, key, plaintext.take(n));
        assert(ciphertext =~= before + last);
        assert(aes_block(key, last) == plaintext.skip(n));
        assert forall|i: int| 0 <= i < plaintext.len() implies decrypted[i] == plaintext[i] by {
            if i < n {
                assert(block_around(ciphertext, i) =~= block_around(before, i));
                assert(ecb_plaintext(key, before)[i] == plaintext.take(n)[i]);
            } else {
                assert(i / 16 * 16 == n);
                assert(block_around(ciphertext, i) =~= last);
                assert(plaintext.skip(n)[i - n] == plaintext[i]);
            }
        }
    }
    assert(decrypted =~= plaintext);
}

/// Whether `key` is `bytes` brought to the length `len`: it begins as the bytes do, and where they
/// end it goes on with 0x36.
pub open spec fn is_filled(key: Seq<u8>, bytes: Seq<u8>, len: nat) -> bool {
    &&& key.len() == len
    &&& forall|i: int|
        0 <= i < len ==> #[trigger] key[i] == (if i < bytes.len() {
            bytes[i]
        } else {
            0x36u8
        })
}

/// There is exactly one way to bring bytes to a length, and normalising does it. A normalised key
/// is not changed by normalising it again, and bytes that have the length already are not changed
/// at all.
pub proof fn law_normalized(bytes: Seq<u8>, len: nat, key: Seq<u8>)
    ensures
        normalized(bytes, len) == key <==> is_filled(key, bytes, len),
        len <= bytes.len() ==> normalized(bytes, len) == bytes.take(len as int),
        len >= bytes.len() ==> normalized(bytes, len).take(bytes.len() as int) == bytes,
        normalized(normalized(bytes, len), len) == normalized(bytes, len),
        len == bytes.len() ==> normalized(bytes, len) == bytes,
{
    let filled = normalized(bytes, len);
    if is_filled(key, bytes, len) {
        assert(filled =~= key);
    }
    if len <= bytes.len() {
        assert(filled =~= bytes.take(len as int));
    }
    if len >= bytes.len() {
        assert(filled.take(bytes.len() as int) =~= bytes);
    }
    if len == bytes.len() {
        assert(filled =~= bytes);
    }
    assert(normalized(filled, len) =~= filled);
}

/// The block with the number `k`.
pub open spec fn block_at(data: Seq<u8>, k: int) -> Seq<u8> {
    data.subrange(16 * k, 16 * k + 16)
}

/// In CBC mode each block of plaintext is what AES makes of the block of ciphertext, under the
/// variant for the key's length, combined with the block of ciphertext before it, or for the first
/// block with the initialisation vector.
pub proof fn law_cbc_blocks(key: Seq<u8>, iv: Seq<u8>, ciphertext: Seq<u8>, k: int)
    requires
        iv.len() == 16,
        ciphertext.len() % 16 == 0,
        0 <= k < ciphertext.len() / 16,
    ensures
        cbc_decrypted(key, iv, ciphertext) matches Ok(plaintext) ==> {
            let before = if k == 0 {
                iv
            } else {
                block_at(ciphertext, k - 1)
            };
            let block = block_at(ciphertext, k);
            &&& plaintext.len() == ciphertext.len()
            &&& key.len() == 16 ==> block_at(plaintext, k) == xor_blocks(
                aes128_block(key, block),
                before,
            )
            &&& key.len() == 24 ==> block_at(plaintext, k) == xor_blocks(
                aes192_block(key, block),
                before,
            )
            &&& key.len() == 32 ==> block_at(plaintext, k) == xor_blocks(
                aes256_block(key, block),
                before,
            )
        },
{
    if let Ok(plaintext) = cbc_decrypted(key, iv, ciphertext) {
        let before = if k == 0 {
            iv
        } else {
            block_at(ciphertext, k - 1)
        };
        let block = block_at(ciphertext, k);
        let opened = aes_block(key, block);
        assert forall|j: int| 0 <= j < 16 implies block_at(plaintext, k)[j] == opened[j]
            ^ before[j] by {
            let i = 16 * k + j;
            assert(i / 16 == k && i % 16 == j);
            assert(block_around(ciphertext, i) =~= block);
        }
        assert(block_at(plaintext, k) =~= xor_blocks(opened, before));
    }
}

/// In ECB mode each block of plaintext is what AES makes of the block of ciphertext, under the
/// variant for the key's length.
pub proof fn law_ecb_blocks(key: Seq<u8>, ciphertext: Seq<u8>, k: int, j: int)
    requires
        ciphertext.len() % 16 == 0,
        0 <= k < ciphertext.len() / 16,
        0 <= j < 16,
    ensures
        ecb_decrypted(key, ciphertext) matches Ok(plaintext) ==> {
            let block = block_at(ciphertext, k);
            &&& plaintext.len() == ciphertext.len()
            &&& key.len() == 16 ==> plaintext[16 * k + j] == aes128_block(key, block)[j]
            &&& key.len() == 24 ==> plaintext[16 * k + j] == aes192_block(key, block)[j]
            &&& key.len() == 32 ==> plaintext[16 * k + j] == aes256_block(key, block)[j]
        },
{
    let i = 16 * k + j;
    assert(i / 16 == k && i % 16 == j);
    assert(block_around(ciphertext, i) =~= block_at(ciphertext, k));
}

/// The cipher takes keys of 16, 24 and 32 bytes, vectors of 16 bytes and whole blocks, also none
/// at all, and refuses everything else with the same error.
pub proof fn law_cipher_refuses(key: Seq<u8>, iv: Seq<u8>, ciphertext: Seq<u8>)
    ensures
        cbc_decrypted(key, iv, ciphertext) is Ok <==> (key.len() == 16 || key.len() == 24
            || key.len() == 32) && iv.len() == 16 && ciphertext.len() % 16 == 0,
        cbc_decrypted(key, iv, ciphertext) matches Ok(plaintext) ==> plaintext.len()
            == ciphertext.len(),
        cbc_decrypted(key, iv, ciphertext) matches Err(error) ==> error is InvalidStructure,
        ecb_decrypted(key, ciphertext) is Ok <==> (key.len() == 16 || key.len() == 24 || key.len()
            == 32) && ciphertext.len() % 16 == 0,
        ecb_decrypted(key, ciphertext) matches Ok(plaintext) ==> plaintext.len()
            == ciphertext.len(),
        ecb_decrypted(key, ciphertext) matches Err(error) ==> error is InvalidStructure,
{
}

} // verus!
