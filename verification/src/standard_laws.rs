//! What holds of standard encryption as a whole.

use vstd::prelude::*;

use crate::bytes::{
    is_le4, law_cut, law_le_u32_at_weighs, law_u32_bytes_read_back, law_u32_bytes_weigh,
    le_u32_at, le_u32_bytes,
};
use crate::cipher::{
    aes128_block, aes192_block, aes256_block, block_around, ecb_decrypted, ecb_plaintext,
};
use crate::error::ErrorView;
use crate::hash::{
    is_hash_chain, law_digests, law_iterated_hash_chain, sha1_digest, HashAlgorithm,
};
use crate::laws::{
    block_at, ecb_encrypted, inverts_aes, law_cipher_refuses, law_ecb_blocks, law_ecb_reads_back,
};
use crate::package::{standard_decrypted, standard_opened};
use crate::standard::{
    hash_compared, standard_fields, standard_info, standard_key, standard_package,
    standard_verified, verifier_start, xor_pad, StandardEncryptionInfo, StandardView,
};
use crate::utf16::{
    law_unit_bytes_read_back, law_utf16le_exact, law_utf16le_read_back, le_units, utf16_text,
    utf16_units, utf16le,
};

verus! {

/// Whether `bytes` write down numbers, four bytes for each.
pub open spec fn are_words(bytes: Seq<u8>, numbers: Seq<u32>) -> bool {
    &&& bytes.len() == 4 * numbers.len()
    &&& forall|k: int|
        0 <= k < numbers.len() ==> is_le4(
            bytes.subrange(4 * k, 4 * k + 4),
            #[trigger] numbers[k] as int,
        )
}

proof fn lemma_word(stream: Seq<u8>, at: int, bytes: Seq<u8>, numbers: Seq<u32>, k: int)
    requires
        0 <= at,
        at + bytes.len() <= stream.len(),
        stream.subrange(at, at + bytes.len()) == bytes,
        are_words(bytes, numbers),
        0 <= k < numbers.len(),
    ensures
        le_u32_at(stream, at + 4 * k) == numbers[k],
{
    let word = bytes.subrange(4 * k, 4 * k + 4);
    assert(is_le4(word, numbers[k] as int));
    assert(stream.subrange(at + 4 * k, at + 4 * k + 4) =~= word);
    law_u32_bytes_weigh(numbers[k], word);
    law_u32_bytes_read_back(numbers[k]);
}

/// Whether `stream` is an `EncryptionInfo` stream that writes down `info`: eight bytes of version
/// and flags, the header's size and its eight numbers, the provider's name in UTF-16, the salt with
/// its size, the verifier, the hash's size and the encrypted hash, and anything behind that.
pub open spec fn is_info_stream(
    stream: Seq<u8>,
    info: StandardView,
    prefix: Seq<u8>,
    header: Seq<u8>,
    name: Seq<u8>,
    salt_size: Seq<u8>,
    hash_size: Seq<u8>,
    rest: Seq<u8>,
) -> bool {
    &&& prefix.len() == 8
    &&& name.len() % 2 == 0
    &&& utf16_text(le_units(name)) == Some(info.csp_name)
    &&& 32 + name.len() < 0x1_0000_0000
    &&& are_words(
        header,
        seq![
            (32 + name.len()) as u32,
            info.flags,
            info.size_extra,
            info.alg_id,
            info.alg_id_hash,
            info.key_size,
            info.provider_type,
            info.reserved1,
            info.reserved2,
        ],
    )
    &&& are_words(salt_size, seq![info.salt_size])
    &&& are_words(hash_size, seq![info.verifier_hash_size])
    &&& stream == prefix + header + name + salt_size + info.salt + info.encrypted_verifier
        + hash_size + info.encrypted_verifier_hash + rest
}

/// Whether the algorithm is AES and the verifier's fields have their lengths.
pub open spec fn is_aes_info(info: StandardView) -> bool {
    &&& info.alg_id / 0x100 % 0x100 == 0x66
    &&& info.salt.len() == 16
    &&& info.encrypted_verifier.len() == 16
    &&& info.encrypted_verifier_hash.len() == 32
}

proof fn lemma_alg_id(alg_id: u32)
    ensures
        alg_id & 0xFF00 == 0x6600 <==> alg_id / 0x100 % 0x100 == 0x66,
{
    assert(alg_id & 0xFF00 == 0x6600 <==> alg_id / 0x100 % 0x100 == 0x66) by (bit_vector);
}

/// The header and the verifier of a document, written out, read back as the same values, whatever
/// the eight bytes in front of them and the bytes behind them are.
#[verifier::spinoff_prover]
#[verifier::rlimit(40)]
pub proof fn law_standard_info_reads_back(
    stream: Seq<u8>,
    info: StandardView,
    prefix: Seq<u8>,
    header: Seq<u8>,
    name: Seq<u8>,
    salt_size: Seq<u8>,
    hash_size: Seq<u8>,
    rest: Seq<u8>,
)
    requires
        is_aes_info(info),
        is_info_stream(stream, info, prefix, header, name, salt_size, hash_size, rest),
    ensures
        standard_info(stream) == Ok::<StandardView, ErrorView>(info),
{
    let numbers = seq![
        (32 + name.len()) as u32,
        info.flags,
        info.size_extra,
        info.alg_id,
        info.alg_id_hash,
        info.key_size,
        info.provider_type,
        info.reserved1,
        info.reserved2,
    ];
    assert(stream.subrange(8, 44) =~= header);
    lemma_word(stream, 8, header, numbers, 0);
    lemma_word(stream, 8, header, numbers, 1);
    lemma_word(stream, 8, header, numbers, 2);
    lemma_word(stream, 8, header, numbers, 3);
    lemma_word(stream, 8, header, numbers, 4);
    lemma_word(stream, 8, header, numbers, 5);
    lemma_word(stream, 8, header, numbers, 6);
    lemma_word(stream, 8, header, numbers, 7);
    lemma_word(stream, 8, header, numbers, 8);
    lemma_alg_id(info.alg_id);
    let end = 44 + name.len() as int;
    assert(verifier_start(stream) == end);
    assert(stream.subrange(44, end) =~= name);
    assert(stream.subrange(end, end + 4) =~= salt_size);
    lemma_word(stream, end, salt_size, seq![info.salt_size], 0);
    assert(stream.subrange(end + 36, end + 40) =~= hash_size);
    lemma_word(stream, end + 36, hash_size, seq![info.verifier_hash_size], 0);
    let fields = standard_fields(stream, info.csp_name);
    assert(fields.salt =~= info.salt);
    assert(fields.encrypted_verifier =~= info.encrypted_verifier);
    assert(fields.encrypted_verifier_hash =~= info.encrypted_verifier_hash);
    assert(fields =~= info);
}

/// The number in the four bytes at `at`.
pub open spec fn word_at(stream: Seq<u8>, at: int) -> int {
    stream[at] + 0x100 * stream[at + 1] + 0x1_0000 * stream[at + 2] + 0x100_0000 * stream[at + 3]
}

/// Where each field stands in any stream that is read, and which streams are read: those that hold
/// a header of at least 32 bytes with a name in UTF-16, AES as the algorithm, and 72 bytes of
/// verifier. Another algorithm is reported as RC4, but not before the header and the name are found
/// in order.
#[verifier::spinoff_prover]
#[verifier::rlimit(40)]
pub proof fn law_standard_info_fields(stream: Seq<u8>)
    ensures
        standard_info(stream) matches Ok(info) ==> {
            let end = 12 + word_at(stream, 8);
            &&& is_aes_info(info)
            &&& info.flags == word_at(stream, 12)
            &&& info.size_extra == word_at(stream, 16)
            &&& info.alg_id == word_at(stream, 20)
            &&& info.alg_id_hash == word_at(stream, 24)
            &&& info.key_size == word_at(stream, 28)
            &&& info.provider_type == word_at(stream, 32)
            &&& info.reserved1 == word_at(stream, 36)
            &&& info.reserved2 == word_at(stream, 40)
            &&& utf16_text(le_units(stream.subrange(44, end))) == Some(info.csp_name)
            &&& info.salt_size == word_at(stream, end)
            &&& info.salt == stream.subrange(end + 4, end + 20)
            &&& info.encrypted_verifier == stream.subrange(end + 20, end + 36)
            &&& info.verifier_hash_size == word_at(stream, end + 36)
            &&& info.encrypted_verifier_hash == stream.subrange(end + 40, end + 72)
        },
        ({
            let end = 12 + word_at(stream, 8);
            let header = stream.len() >= 12 && 44 <= end <= stream.len() && utf16_text(
                le_units(stream.subrange(44, end)),
            ) is Some;
            let aes = stream[21] == 0x66;
            &&& standard_info(stream) is Ok <==> header && aes && end + 72 <= stream.len()
            &&& standard_info(stream) == Err::<StandardView, ErrorView>(
                ErrorView::Unimplemented("RC4"@),
            ) <==> header && !aes
            &&& standard_info(stream) == Err::<StandardView, ErrorView>(
                ErrorView::InvalidStructure,
            ) <==> !header || (aes && end + 72 > stream.len())
        }),
{
    if stream.len() >= 12 {
        law_le_u32_at_weighs(stream, 8);
        let end = verifier_start(stream);
        if 44 <= end <= stream.len() {
            law_le_u32_at_weighs(stream, 12);
            law_le_u32_at_weighs(stream, 16);
            law_le_u32_at_weighs(stream, 20);
            law_le_u32_at_weighs(stream, 24);
            law_le_u32_at_weighs(stream, 28);
            law_le_u32_at_weighs(stream, 32);
            law_le_u32_at_weighs(stream, 36);
            law_le_u32_at_weighs(stream, 40);
            lemma_alg_id(le_u32_at(stream, 20));
            assert(word_at(stream, 20) / 0x100 % 0x100 == stream[21]);
            if end + 72 <= stream.len() {
                law_le_u32_at_weighs(stream, end);
                law_le_u32_at_weighs(stream, end + 36);
            }
        }
    }
}

/// Whether `pad` is 64 bytes of `fill`, combined with the bytes of a digest as far as it goes.
pub open spec fn is_pad(pad: Seq<u8>, digest: Seq<u8>, fill: u8) -> bool {
    &&& pad.len() == 64
    &&& forall|i: int|
        0 <= i < 64 ==> #[trigger] pad[i] == (if i < digest.len() {
            fill ^ digest[i]
        } else {
            fill
        })
}

/// Filling up a digest gives the one such pad.
pub proof fn law_pad(pad: Seq<u8>, digest: Seq<u8>, fill: u8)
    ensures
        xor_pad(digest, fill) == pad <==> is_pad(pad, digest, fill),
{
    if is_pad(pad, digest, fill) {
        assert(xor_pad(digest, fill) =~= pad);
    }
}

/// Whether `key` is the key that a password gives: `bytes` are all bytes of the password in UTF-16,
/// `hashes` is their chain of SHA-1 hashes behind the salt, of 50000 rounds, and the key is the
/// beginning of the SHA-1 digests of the two pads made with the digest of the last hash and four
/// zeros.
pub open spec fn is_standard_key(
    info: StandardView,
    password: Seq<char>,
    bytes: Seq<u8>,
    hashes: Seq<Seq<u8>>,
    first_pad: Seq<u8>,
    second_pad: Seq<u8>,
    key: Seq<u8>,
) -> bool {
    let last = sha1_digest(hashes[50000] + seq![0u8, 0, 0, 0]);
    &&& bytes.len() % 2 == 0
    &&& utf16_text(le_units(bytes)) == Some(password)
    &&& is_hash_chain(HashAlgorithm::Sha1, info.salt, bytes, hashes)
    &&& hashes.len() == 50001
    &&& is_pad(first_pad, last, 0x36)
    &&& is_pad(second_pad, last, 0x5c)
    &&& key == (sha1_digest(first_pad) + sha1_digest(second_pad)).take(info.key_size as int / 8)
}

/// The key that a password gives is made by those steps.
pub proof fn law_standard_key(
    info: StandardView,
    password: Seq<char>,
    bytes: Seq<u8>,
    hashes: Seq<Seq<u8>>,
    first_pad: Seq<u8>,
    second_pad: Seq<u8>,
    key: Seq<u8>,
)
    requires
        is_standard_key(info, password, bytes, hashes, first_pad, second_pad, key),
    ensures
        standard_key(info, password) == key,
{
    let last = sha1_digest(hashes[50000] + seq![0u8, 0, 0, 0]);
    law_utf16le_exact(bytes, password);
    law_iterated_hash_chain(HashAlgorithm::Sha1, info.salt, bytes, hashes, 50000);
    law_digests(hashes[50000] + seq![0u8, 0, 0, 0]);
    law_pad(first_pad, last, 0x36);
    law_pad(second_pad, last, 0x5c);
}

/// A key is accepted exactly if the decrypted verifier hash and the SHA-1 digest of the decrypted
/// verifier agree on as many bytes as the document says, whatever the key's length. Where they
/// differ in one of them it is rejected, and a number that exceeds either is an error.
pub proof fn law_standard_verifies(
    info: StandardView,
    key: Seq<u8>,
    verifier: Seq<u8>,
    stored: Seq<u8>,
)
    requires
        ecb_decrypted(key, info.encrypted_verifier) == Ok::<Seq<u8>, ErrorView>(verifier),
        ecb_decrypted(key, info.encrypted_verifier_hash) == Ok::<Seq<u8>, ErrorView>(stored),
    ensures
        info.verifier_hash_size > 20 || info.verifier_hash_size > stored.len()
            <==> standard_verified(info, key) == Err::<bool, ErrorView>(
            ErrorView::InvalidStructure,
        ),
        info.verifier_hash_size <= 20 && info.verifier_hash_size <= stored.len()
            <==> standard_verified(info, key) is Ok,
        standard_verified(info, key) == Ok::<bool, ErrorView>(true) ==> stored.take(
            info.verifier_hash_size as int,
        ) == sha1_digest(verifier).take(info.verifier_hash_size as int),
        sha1_digest(verifier).len() == 20 ==> forall|i: int|
            0 <= i < info.verifier_hash_size <= 20 && info.verifier_hash_size <= stored.len()
                && #[trigger] stored[i] != sha1_digest(verifier)[i] ==> standard_verified(info, key)
                == Ok::<bool, ErrorView>(false),
        info.verifier_hash_size <= 20 && info.verifier_hash_size <= stored.len() && sha1_digest(
            verifier,
        ).len() == 20 && (forall|i: int|
            0 <= i < info.verifier_hash_size ==> #[trigger] stored[i] == sha1_digest(verifier)[i])
            ==> standard_verified(info, key) == Ok::<bool, ErrorView>(true),
{
    let size = info.verifier_hash_size as int;
    let digest = sha1_digest(verifier);
    law_digests(verifier);
    if digest.len() == 20 && size <= 20 && size <= stored.len() {
        assert forall|i: int| 0 <= i < size && #[trigger] stored[i] != digest[i] implies stored.take(
            size,
        ) != digest.take(size) by {
            assert(stored.take(size)[i] == stored[i]);
            assert(digest.take(size)[i] == digest[i]);
        }
        if forall|i: int| 0 <= i < size ==> #[trigger] stored[i] == digest[i] {
            assert(stored.take(size) =~= digest.take(size));
        }
    }
}

/// Keys of other lengths than those of AES, and a verifier that is not made of whole blocks, are
/// errors.
pub proof fn law_standard_verifier_errors(info: StandardView, key: Seq<u8>)
    ensures
        ecb_decrypted(key, info.encrypted_verifier) is Err || ecb_decrypted(
            key,
            info.encrypted_verifier_hash,
        ) is Err ==> standard_verified(info, key) == Err::<bool, ErrorView>(
            ErrorView::InvalidStructure,
        ),
{
}

/// Decrypting a package that was filled up to whole blocks and encrypted gives the package back,
/// whatever its length and whatever it was filled up with. `header` holds the package's size in
/// four bytes, behind which four bytes are not read, and `blocks` the package and what it was
/// filled up with.
pub proof fn law_standard_package_reads_back(
    encrypt: spec_fn(Seq<u8>, Seq<u8>) -> Seq<u8>,
    key: Seq<u8>,
    size: int,
    header: Seq<u8>,
    unread: Seq<u8>,
    blocks: Seq<u8>,
)
    requires
        inverts_aes(encrypt),
        key.len() == 16 || key.len() == 24 || key.len() == 32,
        is_le4(header, size),
        unread.len() == 4,
        blocks.len() % 16 == 0,
        size <= blocks.len(),
    ensures
        standard_package(key, header + unread + ecb_encrypted(encrypt, key, blocks)) == Ok::<
            Seq<u8>,
            ErrorView,
        >(blocks.take(size)),
{
    let stream = header + unread + ecb_encrypted(encrypt, key, blocks);
    assert(stream.subrange(0, 4) =~= header);
    law_le_u32_at_weighs(stream, 0);
    assert(forall|i: int| 0 <= i < 4 ==> stream[i] == header[i]);
    assert(stream.skip(8) =~= ecb_encrypted(encrypt, key, blocks));
    law_ecb_reads_back(encrypt, key, blocks);
}

/// Every byte of a decrypted package is what AES makes of the block of ciphertext around it, under
/// the variant for the key's length.
pub proof fn law_standard_package_bytes(key: Seq<u8>, stream: Seq<u8>, i: int)
    requires
        0 <= i < stream.len() - 8,
    ensures
        standard_package(key, stream) matches Ok(package) ==> i < package.len() ==> {
            let block = block_at(stream.skip(8), i / 16);
            &&& key.len() == 16 ==> package[i] == aes128_block(key, block)[i % 16]
            &&& key.len() == 24 ==> package[i] == aes192_block(key, block)[i % 16]
            &&& key.len() == 32 ==> package[i] == aes256_block(key, block)[i % 16]
        },
{
    let ciphertext = stream.skip(8);
    if let Ok(package) = standard_package(key, stream) {
        law_ecb_blocks(key, ciphertext, i / 16, i % 16);
    }
}

/// A package is decrypted exactly if its stream holds a size that the ciphertext reaches, the
/// ciphertext is made of whole blocks, and the key has a length of AES. It has the size that its
/// stream states.
#[verifier::spinoff_prover]
pub proof fn law_standard_package_size(key: Seq<u8>, stream: Seq<u8>)
    ensures
        standard_package(key, stream) is Ok <==> stream.len() >= 8 && stream.len() % 16 == 8 && (
        key.len() == 16 || key.len() == 24 || key.len() == 32) && word_at(stream, 0)
            <= stream.len() - 8,
        standard_package(key, stream) matches Ok(package) ==> package.len() == word_at(stream, 0),
        standard_package(key, stream) matches Ok(package) ==> package.len() == le_u32_at(stream, 0),
        standard_package(key, stream) matches Err(error) ==> error is InvalidStructure,
{
    if stream.len() >= 8 {
        let ciphertext = stream.skip(8);
        law_le_u32_at_weighs(stream, 0);
        assert(ciphertext.len() == stream.len() - 8);
        assert(ciphertext.len() % 16 == 0 <==> stream.len() % 16 == 8);
        law_cipher_refuses(key, seq![], ciphertext);
        law_cut(ecb_plaintext(key, ciphertext), le_u32_at(stream, 0) as nat);
    }
}

/// A document that was encrypted under a password opens under that password, and its two streams
/// give back the package that was encrypted. The key is made of the password by the steps of
/// `is_standard_key`; `verifier` is the verifier, and `stored` begins with as much of its SHA-1
/// digest as the document says; `blocks` is the package, of `size` bytes, filled up to whole
/// blocks. That two digests hold as many bytes as a key needs is what
/// `StandardEncryptionInfo::key_from_password` ensures.
#[verifier::spinoff_prover]
#[verifier::rlimit(40)]
pub proof fn law_standard_document_reads_back(
    encrypt: spec_fn(Seq<u8>, Seq<u8>) -> Seq<u8>,
    info: StandardView,
    password: Seq<char>,
    bytes: Seq<u8>,
    hashes: Seq<Seq<u8>>,
    first_pad: Seq<u8>,
    second_pad: Seq<u8>,
    key: Seq<u8>,
    verifier: Seq<u8>,
    stored: Seq<u8>,
    size: int,
    size_bytes: Seq<u8>,
    unread: Seq<u8>,
    blocks: Seq<u8>,
    stream: Seq<u8>,
    prefix: Seq<u8>,
    header: Seq<u8>,
    name: Seq<u8>,
    salt_size: Seq<u8>,
    hash_size: Seq<u8>,
    rest: Seq<u8>,
)
    requires
        inverts_aes(encrypt),
        is_aes_info(info),
        is_info_stream(stream, info, prefix, header, name, salt_size, hash_size, rest),
        info.key_size == 128 || info.key_size == 192 || info.key_size == 256,
        is_standard_key(info, password, bytes, hashes, first_pad, second_pad, key),
        key.len() == info.key_size / 8,
        info.verifier_hash_size <= 20,
        verifier.len() == 16,
        stored.len() == 32,
        sha1_digest(verifier).len() == 20,
        forall|i: int|
            0 <= i < info.verifier_hash_size ==> #[trigger] stored[i] == sha1_digest(verifier)[i],
        info.encrypted_verifier == ecb_encrypted(encrypt, key, verifier),
        info.encrypted_verifier_hash == ecb_encrypted(encrypt, key, stored),
        is_le4(size_bytes, size),
        unread.len() == 4,
        blocks.len() % 16 == 0,
        size <= blocks.len(),
    ensures
        standard_decrypted(
            stream,
            size_bytes + unread + ecb_encrypted(encrypt, key, blocks),
            password,
        ) == Ok::<Seq<u8>, ErrorView>(blocks.take(size)),
{
    law_standard_key(info, password, bytes, hashes, first_pad, second_pad, key);
    law_ecb_reads_back(encrypt, key, verifier);
    law_ecb_reads_back(encrypt, key, stored);
    law_standard_verifies(info, key, verifier, stored);
    law_standard_package_reads_back(encrypt, key, size, size_bytes, unread, blocks);
    law_standard_info_reads_back(
        stream,
        info,
        prefix,
        header,
        name,
        salt_size,
        hash_size,
        rest,
    );
}

/// A document is refused with `InvalidPassword` if the decrypted verifier hash differs from the
/// SHA-1 digest of the decrypted verifier in any byte that counts, whatever the key's length and
/// whatever the package holds.
pub proof fn law_standard_refuses_password(
    info: StandardView,
    password: Seq<char>,
    bytes: Seq<u8>,
    hashes: Seq<Seq<u8>>,
    first_pad: Seq<u8>,
    second_pad: Seq<u8>,
    key: Seq<u8>,
    verifier: Seq<u8>,
    stored: Seq<u8>,
    package: Seq<u8>,
    i: int,
)
    requires
        is_standard_key(info, password, bytes, hashes, first_pad, second_pad, key),
        info.key_size / 8 <= 40,
        ecb_decrypted(key, info.encrypted_verifier) == Ok::<Seq<u8>, ErrorView>(verifier),
        ecb_decrypted(key, info.encrypted_verifier_hash) == Ok::<Seq<u8>, ErrorView>(stored),
        0 <= i < info.verifier_hash_size <= 20,
        info.verifier_hash_size <= stored.len(),
        sha1_digest(verifier).len() == 20,
        stored[i] != sha1_digest(verifier)[i],
    ensures
        standard_opened(info, package, password) == Err::<Seq<u8>, ErrorView>(
            ErrorView::InvalidPassword,
        ),
{
    law_standard_key(info, password, bytes, hashes, first_pad, second_pad, key);
    law_standard_verifies(info, key, verifier, stored);
}

/// A document whose header or verifier cannot be read is refused with that error; one that asks for
/// a key of more than 40 bytes is refused; any other opens as the package under the key, unless the
/// verifier gives an error.
pub proof fn law_standard_document(
    encryption_info: Seq<u8>,
    package: Seq<u8>,
    password: Seq<char>,
)
    ensures
        standard_info(encryption_info) matches Err(error) ==> standard_decrypted(
            encryption_info,
            package,
            password,
        ) == Err::<Seq<u8>, ErrorView>(error),
        standard_info(encryption_info) matches Ok(info) ==> {
            let opened = standard_decrypted(encryption_info, package, password);
            let key = standard_key(info, password);
            &&& opened == standard_opened(info, package, password)
            &&& info.key_size >= 328 ==> opened == Err::<Seq<u8>, ErrorView>(
                ErrorView::InvalidStructure,
            )
            &&& info.key_size < 328 && standard_verified(info, key) == Ok::<bool, ErrorView>(true)
                ==> opened == standard_package(key, package)
            &&& info.key_size < 328 ==> (standard_verified(info, key) matches Err(error) ==> opened
                == Err::<Seq<u8>, ErrorView>(error))
        },
{
}

/// A document is refused for its password exactly when its key can be made and the verifier
/// rejects it, whatever the package holds; and it opens only if the verifier accepts the key.
pub proof fn law_standard_wrong_password(
    info: StandardView,
    package: Seq<u8>,
    password: Seq<char>,
)
    ensures
        standard_opened(info, package, password) == Err::<Seq<u8>, ErrorView>(
            ErrorView::InvalidPassword,
        ) <==> info.key_size / 8 <= 40 && standard_verified(info, standard_key(info, password))
            == Ok::<bool, ErrorView>(false),
        standard_opened(info, package, password) is Ok ==> standard_verified(
            info,
            standard_key(info, password),
        ) == Ok::<bool, ErrorView>(true),
{
}

/// Whole blocks behind the ciphertext of a package do not change the package.
pub proof fn law_standard_trailing_blocks(key: Seq<u8>, stream: Seq<u8>, extra: Seq<u8>)
    requires
        extra.len() % 16 == 0,
        standard_package(key, stream) is Ok,
    ensures
        standard_package(key, stream + extra) == standard_package(key, stream),
{
    let short = stream.skip(8);
    let long = (stream + extra).skip(8);
    let size = le_u32_at(stream, 0) as int;
    assert((stream + extra).subrange(0, 4) =~= stream.subrange(0, 4));
    assert(long =~= short + extra);
    let a = ecb_plaintext(key, short);
    let b = ecb_plaintext(key, long);
    assert forall|i: int| 0 <= i < short.len() implies a[i] == b[i] by {
        assert(block_around(short, i) =~= block_around(long, i));
    }
    assert(a.take(size) =~= b.take(size));
}

/// The view of a header and verifier holds every field as it is.
pub proof fn law_standard_view(info: StandardEncryptionInfo)
    ensures
        info@.flags == info.flags,
        info@.size_extra == info.size_extra,
        info@.alg_id == info.alg_id,
        info@.alg_id_hash == info.alg_id_hash,
        info@.key_size == info.key_size,
        info@.provider_type == info.provider_type,
        info@.reserved1 == info.reserved1,
        info@.reserved2 == info.reserved2,
        info@.csp_name == info.csp_name@,
        info@.salt_size == info.salt_size,
        info@.salt == info.salt@,
        info@.encrypted_verifier == info.encrypted_verifier@,
        info@.verifier_hash_size == info.verifier_hash_size,
        info@.encrypted_verifier_hash == info.encrypted_verifier_hash@,
{
}

/// Two hashes agree exactly if none of the first `size` bytes differs; a size beyond either is an
/// error.
pub proof fn law_hash_compared(stored: Seq<u8>, actual: Seq<u8>, size: int)
    requires
        0 <= size,
    ensures
        hash_compared(stored, actual, size) is Ok <==> size <= stored.len() && size <= actual.len(),
        size <= stored.len() && size <= actual.len() ==> (hash_compared(stored, actual, size) == Ok::<
            bool,
            ErrorView,
        >(true) <==> forall|i: int| 0 <= i < size ==> #[trigger] stored[i] == actual[i]),
        hash_compared(stored, actual, size) matches Err(error) ==> error is InvalidStructure,
{
    if size <= stored.len() && size <= actual.len() {
        if forall|i: int| 0 <= i < size ==> #[trigger] stored[i] == actual[i] {
            assert(stored.take(size) =~= actual.take(size));
        }
        if stored.take(size) == actual.take(size) {
            assert forall|i: int| 0 <= i < size implies #[trigger] stored[i] == actual[i] by {
                assert(stored.take(size)[i] == actual.take(size)[i]);
            }
        }
    }
}

/// In a blank value every number is zero and every other field is empty.
pub proof fn law_standard_blank()
    ensures
        ({
            let info = StandardView::blank();
            &&& info.flags == 0 && info.size_extra == 0 && info.alg_id == 0 && info.alg_id_hash == 0
            &&& info.key_size == 0 && info.provider_type == 0
            &&& info.reserved1 == 0 && info.reserved2 == 0
            &&& info.salt_size == 0 && info.verifier_hash_size == 0
            &&& info.csp_name.len() == 0 && info.salt.len() == 0
            &&& info.encrypted_verifier.len() == 0 && info.encrypted_verifier_hash.len() == 0
        }),
{
}

/// The bytes of numbers, four for each.
pub open spec fn words(numbers: Seq<u32>) -> Seq<u8> {
    Seq::new(4 * numbers.len(), |i: int| le_u32_bytes(numbers[i / 4])[i % 4])
}

proof fn lemma_words(numbers: Seq<u32>)
    ensures
        are_words(words(numbers), numbers),
{
    assert forall|k: int| 0 <= k < numbers.len() implies is_le4(
        words(numbers).subrange(4 * k, 4 * k + 4),
        #[trigger] numbers[k] as int,
    ) by {
        let word = words(numbers).subrange(4 * k, 4 * k + 4);
        assert forall|j: int| 0 <= j < 4 implies word[j] == le_u32_bytes(numbers[k])[j] by {
            assert((4 * k + j) / 4 == k);
            assert((4 * k + j) % 4 == j);
        }
        assert(word =~= le_u32_bytes(numbers[k]));
        law_u32_bytes_weigh(numbers[k], word);
    }
}

/// The header of an `EncryptionInfo` stream, without the provider's name, in front of which its
/// size stands.
pub open spec fn standard_header(info: StandardView) -> Seq<u8> {
    words(
        seq![
            (32 + utf16le(info.csp_name).len()) as u32,
            info.flags,
            info.size_extra,
            info.alg_id,
            info.alg_id_hash,
            info.key_size,
            info.provider_type,
            info.reserved1,
            info.reserved2,
        ],
    )
}

/// The verifier of an `EncryptionInfo` stream.
pub open spec fn standard_verifier(info: StandardView) -> Seq<u8> {
    words(seq![info.salt_size]) + info.salt + info.encrypted_verifier + words(
        seq![info.verifier_hash_size],
    ) + info.encrypted_verifier_hash
}

/// An `EncryptionInfo` stream that begins with `prefix` and ends with `rest`.
pub open spec fn standard_info_stream(prefix: Seq<u8>, info: StandardView, rest: Seq<u8>) -> Seq<
    u8,
> {
    prefix + standard_header(info) + utf16le(info.csp_name) + standard_verifier(info) + rest
}

proof fn lemma_regroup(
    front: Seq<u8>,
    a: Seq<u8>,
    b: Seq<u8>,
    c: Seq<u8>,
    d: Seq<u8>,
    e: Seq<u8>,
    rest: Seq<u8>,
)
    ensures
        front + (a + b + c + d + e) + rest == front + a + b + c + d + e + rest,
{
    assert(front + (a + b) =~= front + a + b);
    assert(front + (a + b + c) =~= front + (a + b) + c);
    assert(front + (a + b + c + d) =~= front + (a + b + c) + d);
    assert(front + (a + b + c + d + e) =~= front + (a + b + c + d) + e);
}

/// Every header and verifier with AES and a name that its size can count is written as a stream,
/// and that stream reads back.
#[verifier::spinoff_prover]
#[verifier::rlimit(40)]
pub proof fn law_standard_info_is_written(prefix: Seq<u8>, info: StandardView, rest: Seq<u8>)
    requires
        is_aes_info(info),
        prefix.len() == 8,
        32 + utf16le(info.csp_name).len() <= u32::MAX,
    ensures
        is_info_stream(
            standard_info_stream(prefix, info, rest),
            info,
            prefix,
            standard_header(info),
            utf16le(info.csp_name),
            words(seq![info.salt_size]),
            words(seq![info.verifier_hash_size]),
            rest,
        ),
        standard_info(standard_info_stream(prefix, info, rest)) == Ok::<StandardView, ErrorView>(
            info,
        ),
{
    let stream = standard_info_stream(prefix, info, rest);
    let name = utf16le(info.csp_name);
    let salt_size = words(seq![info.salt_size]);
    let hash_size = words(seq![info.verifier_hash_size]);
    law_utf16le_read_back(info.csp_name);
    law_unit_bytes_read_back(utf16_units(info.csp_name));
    lemma_words(
        seq![
            (32 + name.len()) as u32,
            info.flags,
            info.size_extra,
            info.alg_id,
            info.alg_id_hash,
            info.key_size,
            info.provider_type,
            info.reserved1,
            info.reserved2,
        ],
    );
    lemma_words(seq![info.salt_size]);
    lemma_words(seq![info.verifier_hash_size]);
    lemma_regroup(
        prefix + standard_header(info) + name,
        salt_size,
        info.salt,
        info.encrypted_verifier,
        hash_size,
        info.encrypted_verifier_hash,
        rest,
    );
    law_standard_info_reads_back(
        stream,
        info,
        prefix,
        standard_header(info),
        name,
        salt_size,
        hash_size,
        rest,
    );
}

/// The `EncryptedPackage` stream of a package that is the first `size` bytes of `blocks`: the size
/// in four bytes, four bytes that are not read, then the ciphertext of the blocks.
pub open spec fn standard_package_stream(
    encrypt: spec_fn(Seq<u8>, Seq<u8>) -> Seq<u8>,
    key: Seq<u8>,
    size: u32,
    unread: Seq<u8>,
    blocks: Seq<u8>,
) -> Seq<u8> {
    le_u32_bytes(size) + unread + ecb_encrypted(encrypt, key, blocks)
}

/// Every package of whole blocks is written as a stream, and that stream gives it back.
pub proof fn law_standard_package_is_written(
    encrypt: spec_fn(Seq<u8>, Seq<u8>) -> Seq<u8>,
    key: Seq<u8>,
    size: u32,
    unread: Seq<u8>,
    blocks: Seq<u8>,
)
    requires
        inverts_aes(encrypt),
        key.len() == 16 || key.len() == 24 || key.len() == 32,
        unread.len() == 4,
        blocks.len() % 16 == 0,
        size <= blocks.len(),
    ensures
        standard_package(key, standard_package_stream(encrypt, key, size, unread, blocks)) == Ok::<
            Seq<u8>,
            ErrorView,
        >(blocks.take(size as int)),
{
    law_u32_bytes_weigh(size, le_u32_bytes(size));
    law_standard_package_reads_back(
        encrypt,
        key,
        size as int,
        le_u32_bytes(size),
        unread,
        blocks,
    );
}

} // verus!
