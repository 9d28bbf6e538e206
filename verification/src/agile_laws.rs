//! What holds of agile encryption as a whole.

use vstd::prelude::*;

use crate::agile::{
    agile_derived_key, agile_info, agile_package, agile_password_hash, agile_plaintext,
    agile_secret_key, agile_unwrapped, agile_verified, compared, password_iv, segment, segment_iv,
    AgileEncryptionInfo, AgileView, BLOCK_ENCRYPTED_KEY_VALUE, BLOCK_VERIFIER_HASH_INPUT,
    BLOCK_VERIFIER_HASH_VALUE, SEGMENT_LENGTH,
};
use crate::bytes::{
    is_le4, is_le8, law_cut, law_le_value_reads, law_u32_bytes_weigh, law_u64_bytes_read_back,
    le_u32_bytes, le_u64_bytes, le_value,
};
use crate::cipher::{
    aes128_block, aes192_block, aes256_block, block_around, cbc_decrypted, cbc_mask,
    cbc_plaintext, normalized,
};
use crate::error::ErrorView;
use crate::hash::{
    algorithm_named, digest_len, digest_of, is_hash_chain, iterated_hash_of,
    law_iterated_hash_chain, HashAlgorithm,
};
use crate::laws::{
    block_at, cbc_encrypted, inverts_aes, is_filled, law_cbc_reads_back, law_cipher_refuses,
    law_normalized,
};
use crate::package::{agile_decrypted, agile_opened};
use crate::utf16::{law_utf16le_exact, le_units, utf16_text, utf16le};

verus! {

/// Whether `bytes` are a password in UTF-16: whole code units that read as the password.
pub open spec fn is_password(bytes: Seq<u8>, password: Seq<char>) -> bool {
    bytes.len() % 2 == 0 && utf16_text(le_units(bytes)) == Some(password)
}

/// The hash of a password is the last of a chain of hashes that begins with the salt and all bytes
/// of the password and has as many rounds as the descriptor says.
pub proof fn law_agile_password_hash(
    info: AgileView,
    algorithm: HashAlgorithm,
    password: Seq<char>,
    bytes: Seq<u8>,
    hashes: Seq<Seq<u8>>,
)
    requires
        algorithm_named(info.password_hash_algorithm) == Ok::<HashAlgorithm, ErrorView>(algorithm),
        is_password(bytes, password),
        is_hash_chain(algorithm, info.password_salt, bytes, hashes),
        hashes.len() == info.spin_count + 1,
    ensures
        agile_password_hash(info, password) == Ok::<Seq<u8>, ErrorView>(
            hashes[info.spin_count as int],
        ),
{
    law_utf16le_exact(bytes, password);
    law_iterated_hash_chain(
        algorithm,
        info.password_salt,
        bytes,
        hashes,
        info.spin_count as nat,
    );
}

/// Whether `key` is the key for one purpose: the digest of the password's hash and of the block
/// that stands for the purpose, brought to the length of a password key.
pub open spec fn is_purpose_key(
    info: AgileView,
    algorithm: HashAlgorithm,
    password_hash: Seq<u8>,
    block: Seq<u8>,
    key: Seq<u8>,
) -> bool {
    is_filled(
        key,
        digest_of(algorithm, password_hash + block),
        (info.password_key_bits / 8) as nat,
    )
}

/// The key for a purpose is derived exactly so, and a field is decrypted under it with the salt,
/// brought to 16 bytes, as the initialisation vector.
pub proof fn law_agile_field(
    info: AgileView,
    algorithm: HashAlgorithm,
    password_hash: Seq<u8>,
    block: Seq<u8>,
    key: Seq<u8>,
    iv: Seq<u8>,
    field: Seq<u8>,
)
    requires
        algorithm_named(info.password_hash_algorithm) == Ok::<HashAlgorithm, ErrorView>(algorithm),
        is_purpose_key(info, algorithm, password_hash, block, key),
        is_filled(iv, info.password_salt, 16),
    ensures
        agile_derived_key(info, password_hash, block) == Ok::<Seq<u8>, ErrorView>(key),
        agile_unwrapped(info, password_hash, block, field) == cbc_decrypted(key, iv, field),
{
    law_normalized(
        digest_of(algorithm, password_hash + block),
        (info.password_key_bits / 8) as nat,
        key,
    );
    law_normalized(info.password_salt, 16, iv);
}

/// The block that stands for the verifier's input.
pub open spec fn input_block() -> Seq<u8> {
    seq![0xFEu8, 0xA7, 0xD2, 0x76, 0x3B, 0x4B, 0x9E, 0x79]
}

/// The block that stands for the verifier's hash value.
pub open spec fn value_block() -> Seq<u8> {
    seq![0xD7u8, 0xAA, 0x0F, 0x6D, 0x30, 0x61, 0x34, 0x4E]
}

/// The block that stands for the package's key.
pub open spec fn key_block() -> Seq<u8> {
    seq![0x14u8, 0x6E, 0x0B, 0xE7, 0xAB, 0xAC, 0xD0, 0xD6]
}

proof fn lemma_blocks()
    ensures
        BLOCK_VERIFIER_HASH_INPUT@ == input_block(),
        BLOCK_VERIFIER_HASH_VALUE@ == value_block(),
        BLOCK_ENCRYPTED_KEY_VALUE@ == key_block(),
{
    assert(BLOCK_VERIFIER_HASH_INPUT@ =~= input_block());
    assert(BLOCK_VERIFIER_HASH_VALUE@ =~= value_block());
    assert(BLOCK_ENCRYPTED_KEY_VALUE@ =~= key_block());
}

/// A password's hash is accepted exactly if the decrypted hash value begins with the digest, under
/// the descriptor's own algorithm, of the decrypted input. Where they differ in any byte of the
/// digest it is rejected, and a hash value shorter than a digest is an error.
#[verifier::spinoff_prover]
#[verifier::rlimit(40)]
pub proof fn law_agile_verifies(
    info: AgileView,
    algorithm: HashAlgorithm,
    password_hash: Seq<u8>,
    input_key: Seq<u8>,
    value_key: Seq<u8>,
    iv: Seq<u8>,
    input: Seq<u8>,
    stored: Seq<u8>,
)
    requires
        algorithm_named(info.password_hash_algorithm) == Ok::<HashAlgorithm, ErrorView>(algorithm),
        is_purpose_key(info, algorithm, password_hash, input_block(), input_key),
        is_purpose_key(info, algorithm, password_hash, value_block(), value_key),
        is_filled(iv, info.password_salt, 16),
        cbc_decrypted(input_key, iv, info.encrypted_verifier_hash_input) == Ok::<
            Seq<u8>,
            ErrorView,
        >(input),
        cbc_decrypted(value_key, iv, info.encrypted_verifier_hash_value) == Ok::<
            Seq<u8>,
            ErrorView,
        >(stored),
    ensures
        stored.len() < digest_len(algorithm) ==> agile_verified(info, password_hash) == Err::<
            bool,
            ErrorView,
        >(ErrorView::InvalidStructure),
        stored.len() >= digest_len(algorithm) ==> agile_verified(info, password_hash) is Ok,
        agile_verified(info, password_hash) == Ok::<bool, ErrorView>(true) ==> digest_of(
            algorithm,
            input,
        ).is_prefix_of(stored),
        stored.len() >= digest_len(algorithm) && digest_of(algorithm, input).len() == digest_len(
            algorithm,
        ) && digest_of(algorithm, input).is_prefix_of(stored) ==> agile_verified(
            info,
            password_hash,
        ) == Ok::<bool, ErrorView>(true),
        forall|i: int|
            0 <= i < digest_len(algorithm) <= stored.len() && #[trigger] stored[i] != digest_of(
                algorithm,
                input,
            )[i] ==> agile_verified(info, password_hash) == Ok::<bool, ErrorView>(false),
{
    lemma_blocks();
    let digest = digest_of(algorithm, input);
    let n = digest_len(algorithm) as int;
    law_agile_field(
        info,
        algorithm,
        password_hash,
        input_block(),
        input_key,
        iv,
        info.encrypted_verifier_hash_input,
    );
    law_agile_field(
        info,
        algorithm,
        password_hash,
        value_block(),
        value_key,
        iv,
        info.encrypted_verifier_hash_value,
    );
    if stored.len() >= n {
        if stored.take(n) == digest {
            assert(digest.len() == n);
            assert(digest =~= stored.subrange(0, digest.len() as int));
            assert forall|i: int| 0 <= i < n implies stored[i] == digest[i] by {
                assert(stored.take(n)[i] == digest[i]);
            }
        }
        if digest.len() == n && digest.is_prefix_of(stored) {
            assert(stored.take(n) =~= digest);
        }
    }
}

/// Fields of the verifier that are not made of whole blocks, and keys of other lengths than those
/// of AES, are errors, and the first one is reported.
pub proof fn law_agile_verifier_errors(
    info: AgileView,
    algorithm: HashAlgorithm,
    password_hash: Seq<u8>,
    input_key: Seq<u8>,
    value_key: Seq<u8>,
    iv: Seq<u8>,
)
    requires
        algorithm_named(info.password_hash_algorithm) == Ok::<HashAlgorithm, ErrorView>(algorithm),
        is_purpose_key(info, algorithm, password_hash, input_block(), input_key),
        is_purpose_key(info, algorithm, password_hash, value_block(), value_key),
        is_filled(iv, info.password_salt, 16),
    ensures
        cbc_decrypted(input_key, iv, info.encrypted_verifier_hash_input) is Err || cbc_decrypted(
            value_key,
            iv,
            info.encrypted_verifier_hash_value,
        ) is Err ==> agile_verified(info, password_hash) == Err::<bool, ErrorView>(
            ErrorView::InvalidStructure,
        ),
{
    lemma_blocks();
    law_agile_field(
        info,
        algorithm,
        password_hash,
        input_block(),
        input_key,
        iv,
        info.encrypted_verifier_hash_input,
    );
    law_agile_field(
        info,
        algorithm,
        password_hash,
        value_block(),
        value_key,
        iv,
        info.encrypted_verifier_hash_value,
    );
    law_cipher_refuses(input_key, iv, info.encrypted_verifier_hash_input);
    law_cipher_refuses(value_key, iv, info.encrypted_verifier_hash_value);
}

/// The package's key is the decrypted key value, brought to the length that the descriptor states
/// for it.
pub proof fn law_agile_secret_key(
    info: AgileView,
    algorithm: HashAlgorithm,
    password_hash: Seq<u8>,
    field_key: Seq<u8>,
    iv: Seq<u8>,
    key: Seq<u8>,
)
    requires
        algorithm_named(info.password_hash_algorithm) == Ok::<HashAlgorithm, ErrorView>(algorithm),
        is_purpose_key(info, algorithm, password_hash, key_block(), field_key),
        is_filled(iv, info.password_salt, 16),
    ensures
        cbc_decrypted(field_key, iv, info.encrypted_key_value) matches Ok(opened) ==> (
        agile_secret_key(info, password_hash) == Ok::<Seq<u8>, ErrorView>(key) <==> is_filled(
            key,
            opened,
            (info.key_data_key_bits / 8) as nat,
        )),
        cbc_decrypted(field_key, iv, info.encrypted_key_value) matches Ok(opened)
            ==> agile_secret_key(info, password_hash) is Ok,
        cbc_decrypted(field_key, iv, info.encrypted_key_value) is Err ==> agile_secret_key(
            info,
            password_hash,
        ) == Err::<Seq<u8>, ErrorView>(ErrorView::InvalidStructure),
{
    lemma_blocks();
    law_agile_field(
        info,
        algorithm,
        password_hash,
        key_block(),
        field_key,
        iv,
        info.encrypted_key_value,
    );
    law_cipher_refuses(field_key, iv, info.encrypted_key_value);
    if let Ok(opened) = cbc_decrypted(field_key, iv, info.encrypted_key_value) {
        law_normalized(opened, (info.key_data_key_bits / 8) as nat, key);
    }
}

/// A hash algorithm that is not implemented is reported by its name, wherever it is needed.
pub proof fn law_agile_unknown_hash(
    info: AgileView,
    password: Seq<char>,
    password_hash: Seq<u8>,
    block: Seq<u8>,
    key: Seq<u8>,
    stream: Seq<u8>,
)
    ensures
        algorithm_named(info.password_hash_algorithm) is Err ==> {
            let error = ErrorView::Unimplemented(info.password_hash_algorithm);
            &&& agile_password_hash(info, password) == Err::<Seq<u8>, ErrorView>(error)
            &&& agile_derived_key(info, password_hash, block) == Err::<Seq<u8>, ErrorView>(error)
            &&& agile_verified(info, password_hash) == Err::<bool, ErrorView>(error)
            &&& agile_secret_key(info, password_hash) == Err::<Seq<u8>, ErrorView>(error)
        },
        algorithm_named(info.key_data_hash_algorithm) is Err ==> agile_package(info, key, stream)
            == Err::<Seq<u8>, ErrorView>(ErrorView::Unimplemented(info.key_data_hash_algorithm)),
{
}

/// Whether `iv` is the initialisation vector of the segment with the number `n`: the digest of the
/// salt and of four bytes that write down the number, brought to the length `len`. Numbers are
/// counted modulo 2^32.
pub open spec fn is_segment_vector(
    algorithm: HashAlgorithm,
    salt: Seq<u8>,
    n: int,
    len: nat,
    iv: Seq<u8>,
) -> bool {
    forall|number: Seq<u8>| #[trigger]
        is_le4(number, n % 0x1_0000_0000) ==> is_filled(
            iv,
            digest_of(algorithm, salt + number),
            len,
        )
}

/// The vector of each segment is made of the digest of the salt and of the four bytes that write
/// down the segment's own number, and no two of the first 2^32 segments put the same bytes behind
/// the salt.
pub proof fn law_segment_vectors(
    info: AgileView,
    algorithm: HashAlgorithm,
    m: int,
    n: int,
    a: Seq<u8>,
    b: Seq<u8>,
)
    requires
        0 <= n < 0x1_0000_0000,
        is_le4(a, m),
        is_le4(b, n),
    ensures
        is_filled(
            segment_iv(info, algorithm, n),
            digest_of(algorithm, info.key_data_salt + b),
            info.key_data_block_size as nat,
        ),
        m != n ==> info.key_data_salt + a != info.key_data_salt + b,
{
    lemma_segment_vector(info, algorithm, n, segment_iv(info, algorithm, n));
    assert(n % 0x1_0000_0000 == n);
    if m != n {
        assert((info.key_data_salt + a).skip(info.key_data_salt.len() as int) =~= a);
        assert((info.key_data_salt + b).skip(info.key_data_salt.len() as int) =~= b);
    }
}

proof fn lemma_segment_vector(
    info: AgileView,
    algorithm: HashAlgorithm,
    n: int,
    iv: Seq<u8>,
)
    requires
        0 <= n,
    ensures
        is_segment_vector(
            algorithm,
            info.key_data_salt,
            n,
            info.key_data_block_size as nat,
            iv,
        ) <==> segment_iv(info, algorithm, n) == iv,
{
    let lowest = n % 0x1_0000_0000;
    let written = le_u32_bytes(lowest as u32);
    let len = info.key_data_block_size as nat;
    let digest = digest_of(algorithm, info.key_data_salt + written);
    law_u32_bytes_weigh(lowest as u32, written);
    assert(is_le4(written, lowest));
    law_normalized(digest, len, iv);
    assert forall|number: Seq<u8>| #[trigger] is_le4(number, lowest) implies number == written by {
        law_u32_bytes_weigh(lowest as u32, number);
    }
}

/// The part of `data` that belongs to the segment with the number `n`: 4096 bytes, or what is left.
pub open spec fn piece(data: Seq<u8>, n: int) -> Seq<u8> {
    data.subrange(
        4096 * n,
        if 4096 * n + 4096 <= data.len() {
            4096 * n + 4096
        } else {
            data.len() as int
        },
    )
}

/// Whether `ciphertext` is `plaintext` encrypted in segments of 4096 bytes, each in CBC mode under
/// the initialisation vector for its number.
pub open spec fn is_agile_ciphertext(
    encrypt: spec_fn(Seq<u8>, Seq<u8>) -> Seq<u8>,
    algorithm: HashAlgorithm,
    salt: Seq<u8>,
    key: Seq<u8>,
    ivs: Seq<Seq<u8>>,
    plaintext: Seq<u8>,
    ciphertext: Seq<u8>,
) -> bool {
    &&& ciphertext.len() == plaintext.len()
    &&& ivs.len() == (plaintext.len() + 4095) / 4096
    &&& forall|n: int|
        0 <= n < ivs.len() ==> is_segment_vector(algorithm, salt, n, 16, #[trigger] ivs[n])
    &&& forall|n: int|
        0 <= n < ivs.len() ==> #[trigger] piece(ciphertext, n) == cbc_encrypted(
            encrypt,
            key,
            ivs[n],
            piece(plaintext, n),
        )
}

proof fn lemma_piece(data: Seq<u8>, i: int)
    requires
        0 <= i < data.len(),
    ensures
        piece(data, i / 4096) == segment(data, i / 4096),
        i % 4096 < piece(data, i / 4096).len(),
        piece(data, i / 4096)[i % 4096] == data[i],
        i / 4096 * 4096 + i % 4096 == i,
        0 <= i / 4096 < (data.len() + 4095) / 4096,
        data.len() % 16 == 0 ==> piece(data, i / 4096).len() % 16 == 0,
{
    assert(piece(data, i / 4096) =~= segment(data, i / 4096));
}

proof fn lemma_segments_read_back(
    encrypt: spec_fn(Seq<u8>, Seq<u8>) -> Seq<u8>,
    info: AgileView,
    algorithm: HashAlgorithm,
    key: Seq<u8>,
    ivs: Seq<Seq<u8>>,
    plaintext: Seq<u8>,
    ciphertext: Seq<u8>,
)
    requires
        inverts_aes(encrypt),
        info.key_data_block_size == 16,
        key.len() == 16 || key.len() == 24 || key.len() == 32,
        plaintext.len() % 16 == 0,
        is_agile_ciphertext(
            encrypt,
            algorithm,
            info.key_data_salt,
            key,
            ivs,
            plaintext,
            ciphertext,
        ),
    ensures
        agile_plaintext(info, algorithm, key, ciphertext) == plaintext,
{
    let decrypted = agile_plaintext(info, algorithm, key, ciphertext);
    assert forall|i: int| 0 <= i < plaintext.len() implies decrypted[i] == plaintext[i] by {
        let n = i / 4096;
        lemma_piece(plaintext, i);
        lemma_piece(ciphertext, i);
        assert(is_segment_vector(algorithm, info.key_data_salt, n, 16, ivs[n]));
        lemma_segment_vector(info, algorithm, n, ivs[n]);
        assert(segment_iv(info, algorithm, n).len() == 16);
        law_cbc_reads_back(encrypt, key, ivs[n], piece(plaintext, n));
        assert(piece(ciphertext, n) == cbc_encrypted(encrypt, key, ivs[n], piece(plaintext, n)));
        assert(cbc_plaintext(key, ivs[n], piece(ciphertext, n)) == piece(plaintext, n));
    }
    assert(decrypted =~= plaintext);
}

/// Decrypting a package that was filled up to whole blocks and encrypted segment by segment gives
/// the package back, whatever its length and whatever it was filled up with. `header` holds the
/// package's size in eight bytes, and `blocks` the package and what it was filled up with.
pub proof fn law_agile_package_reads_back(
    encrypt: spec_fn(Seq<u8>, Seq<u8>) -> Seq<u8>,
    info: AgileView,
    algorithm: HashAlgorithm,
    key: Seq<u8>,
    ivs: Seq<Seq<u8>>,
    size: int,
    header: Seq<u8>,
    blocks: Seq<u8>,
    ciphertext: Seq<u8>,
)
    requires
        inverts_aes(encrypt),
        info.key_data_block_size == 16,
        algorithm_named(info.key_data_hash_algorithm) == Ok::<HashAlgorithm, ErrorView>(algorithm),
        key.len() == 16 || key.len() == 24 || key.len() == 32,
        blocks.len() % 16 == 0,
        0 <= size <= blocks.len(),
        is_le8(header, size),
        is_agile_ciphertext(
            encrypt,
            algorithm,
            info.key_data_salt,
            key,
            ivs,
            blocks,
            ciphertext,
        ),
    ensures
        agile_package(info, key, header + ciphertext) == Ok::<Seq<u8>, ErrorView>(
            blocks.take(size),
        ),
{
    let stream = header + ciphertext;
    law_le_value_reads(header);
    assert(stream.take(8) =~= header);
    assert(stream.skip(8) =~= ciphertext);
    lemma_segments_read_back(encrypt, info, algorithm, key, ivs, blocks, ciphertext);
}

/// Every byte of a decrypted package: what AES makes of the block of ciphertext around it, under
/// the variant for the key's length, combined with the ciphertext 16 bytes before it, or in the
/// first block of each segment of 4096 bytes with the segment's own initialisation vector.
#[verifier::spinoff_prover]
#[verifier::rlimit(40)]
pub proof fn law_agile_package_bytes(
    info: AgileView,
    algorithm: HashAlgorithm,
    key: Seq<u8>,
    stream: Seq<u8>,
    iv: Seq<u8>,
    i: int,
)
    requires
        algorithm_named(info.key_data_hash_algorithm) == Ok::<HashAlgorithm, ErrorView>(algorithm),
        0 <= i < stream.len() - 8,
        is_segment_vector(
            algorithm,
            info.key_data_salt,
            i / 4096,
            info.key_data_block_size as nat,
            iv,
        ),
    ensures
        agile_package(info, key, stream) matches Ok(package) ==> i < package.len() ==> {
            let ciphertext = stream.skip(8);
            let block = block_at(ciphertext, i / 16);
            let mask = if i % 4096 < 16 {
                iv[i % 4096]
            } else {
                ciphertext[i - 16]
            };
            &&& key.len() == 16 ==> package[i] == aes128_block(key, block)[i % 16] ^ mask
            &&& key.len() == 24 ==> package[i] == aes192_block(key, block)[i % 16] ^ mask
            &&& key.len() == 32 ==> package[i] == aes256_block(key, block)[i % 16] ^ mask
        },
{
    if let Ok(package) = agile_package(info, key, stream) {
        if i < package.len() {
            let ciphertext = stream.skip(8);
            let k = i % 4096;
            let part = segment(ciphertext, i / 4096);
            lemma_piece(ciphertext, i);
            lemma_segment_vector(info, algorithm, i / 4096, iv);
            assert(k / 16 * 16 + i / 4096 * 4096 == i / 16 * 16);
            assert(k % 16 == i % 16);
            assert(block_around(part, k) =~= block_at(ciphertext, i / 16));
            assert(package[i] == agile_plaintext(info, algorithm, key, ciphertext)[i]);
        }
    }
}

/// A package is decrypted exactly if its hash algorithm is known, its stream states a size that the
/// ciphertext reaches, and the ciphertext is empty or can be decrypted: whole blocks, under a key
/// and vectors of the lengths of AES. It has the size that its stream states.
pub proof fn law_agile_package_size(info: AgileView, key: Seq<u8>, stream: Seq<u8>)
    ensures
        agile_package(info, key, stream) is Ok <==> algorithm_named(
            info.key_data_hash_algorithm,
        ) is Ok && stream.len() >= 8 && le_value(stream.take(8))
            <= stream.len() - 8 && (stream.len() == 8 || ((key.len() == 16 || key.len() == 24
            || key.len() == 32) && info.key_data_block_size == 16 && stream.len() % 16 == 8)),
        agile_package(info, key, stream) matches Ok(package) ==> is_le8(
            stream.take(8),
            package.len() as int,
        ),
        agile_package(info, key, stream) matches Ok(package) ==> package.len() == le_value(
            stream.take(8),
        ),
        algorithm_named(info.key_data_hash_algorithm) is Ok ==> (agile_package(
            info,
            key,
            stream,
        ) matches Err(error) ==> error is InvalidStructure),
{
    let algorithm = algorithm_named(info.key_data_hash_algorithm)->Ok_0;
    if stream.len() >= 8 {
        law_le_value_reads(stream.take(8));
        law_cut(
            agile_plaintext(info, algorithm, key, stream.skip(8)),
            le_value(stream.take(8)),
        );
    }
}

/// A document that was encrypted under a password opens under that password, and gives back the
/// package that was encrypted. `bytes` are the password in UTF-16 and `hashes` its chain of hashes;
/// `input` is the verifier's input, `stored` its digest filled up to whole blocks, `opened` the
/// package's key filled up to whole blocks, and `blocks` the package, of `size` bytes, filled up to
/// whole blocks; `encryption_info` is any stream that is read as the descriptor.
#[verifier::spinoff_prover]
#[verifier::rlimit(40)]
pub proof fn law_agile_document_reads_back(
    encrypt: spec_fn(Seq<u8>, Seq<u8>) -> Seq<u8>,
    info: AgileView,
    algorithm: HashAlgorithm,
    package_algorithm: HashAlgorithm,
    password: Seq<char>,
    bytes: Seq<u8>,
    hashes: Seq<Seq<u8>>,
    iv: Seq<u8>,
    input_key: Seq<u8>,
    input: Seq<u8>,
    value_key: Seq<u8>,
    stored: Seq<u8>,
    field_key: Seq<u8>,
    opened: Seq<u8>,
    ivs: Seq<Seq<u8>>,
    size: int,
    header: Seq<u8>,
    blocks: Seq<u8>,
    ciphertext: Seq<u8>,
    encryption_info: Seq<u8>,
)
    requires
        inverts_aes(encrypt),
        info.key_data_block_size == 16,
        info.key_data_key_bits == 128 || info.key_data_key_bits == 192 || info.key_data_key_bits
            == 256,
        info.password_key_bits == 128 || info.password_key_bits == 192 || info.password_key_bits
            == 256,
        algorithm_named(info.password_hash_algorithm) == Ok::<HashAlgorithm, ErrorView>(algorithm),
        algorithm_named(info.key_data_hash_algorithm) == Ok::<HashAlgorithm, ErrorView>(
            package_algorithm,
        ),
        is_password(bytes, password),
        is_hash_chain(algorithm, info.password_salt, bytes, hashes),
        hashes.len() == info.spin_count + 1,
        is_filled(iv, info.password_salt, 16),
        is_purpose_key(
            info,
            algorithm,
            hashes[info.spin_count as int],
            input_block(),
            input_key,
        ),
        is_purpose_key(
            info,
            algorithm,
            hashes[info.spin_count as int],
            value_block(),
            value_key,
        ),
        is_purpose_key(info, algorithm, hashes[info.spin_count as int], key_block(), field_key),
        input.len() % 16 == 0,
        info.encrypted_verifier_hash_input == cbc_encrypted(encrypt, input_key, iv, input),
        stored.len() % 16 == 0,
        digest_of(algorithm, input).len() == digest_len(algorithm),
        digest_of(algorithm, input).is_prefix_of(stored),
        info.encrypted_verifier_hash_value == cbc_encrypted(encrypt, value_key, iv, stored),
        opened.len() % 16 == 0,
        opened.len() >= info.key_data_key_bits / 8,
        info.encrypted_key_value == cbc_encrypted(encrypt, field_key, iv, opened),
        blocks.len() % 16 == 0,
        0 <= size <= blocks.len(),
        is_le8(header, size),
        is_agile_ciphertext(
            encrypt,
            package_algorithm,
            info.key_data_salt,
            opened.take(info.key_data_key_bits as int / 8),
            ivs,
            blocks,
            ciphertext,
        ),
    ensures
        agile_opened(info, header + ciphertext, password) == Ok::<Seq<u8>, ErrorView>(
            blocks.take(size),
        ),
        agile_info(encryption_info) == Ok::<AgileView, ErrorView>(info) ==> agile_decrypted(
            encryption_info,
            header + ciphertext,
            password,
        ) == Ok::<Seq<u8>, ErrorView>(blocks.take(size)),
{
    let key_len = (info.key_data_key_bits / 8) as nat;
    let key = opened.take(key_len as int);
    let hash = hashes[info.spin_count as int];
    law_agile_password_hash(info, algorithm, password, bytes, hashes);
    law_cbc_reads_back(encrypt, input_key, iv, input);
    law_cbc_reads_back(encrypt, value_key, iv, stored);
    law_cbc_reads_back(encrypt, field_key, iv, opened);
    assert(stored.len() >= digest_len(algorithm));
    law_agile_verifies(info, algorithm, hash, input_key, value_key, iv, input, stored);
    law_agile_secret_key(info, algorithm, hash, field_key, iv, key);
    assert(is_filled(key, opened, key_len));
    law_agile_package_reads_back(
        encrypt,
        info,
        package_algorithm,
        key,
        ivs,
        size,
        header,
        blocks,
        ciphertext,
    );
}

/// A document is refused with `InvalidPassword` if the decrypted hash value differs in any byte
/// from the digest of the decrypted input, whatever its package holds.
pub proof fn law_agile_refuses_password(
    info: AgileView,
    algorithm: HashAlgorithm,
    password: Seq<char>,
    bytes: Seq<u8>,
    hashes: Seq<Seq<u8>>,
    iv: Seq<u8>,
    input_key: Seq<u8>,
    input: Seq<u8>,
    value_key: Seq<u8>,
    stored: Seq<u8>,
    package: Seq<u8>,
    i: int,
)
    requires
        algorithm_named(info.password_hash_algorithm) == Ok::<HashAlgorithm, ErrorView>(algorithm),
        is_password(bytes, password),
        is_hash_chain(algorithm, info.password_salt, bytes, hashes),
        hashes.len() == info.spin_count + 1,
        is_filled(iv, info.password_salt, 16),
        is_purpose_key(
            info,
            algorithm,
            hashes[info.spin_count as int],
            input_block(),
            input_key,
        ),
        is_purpose_key(
            info,
            algorithm,
            hashes[info.spin_count as int],
            value_block(),
            value_key,
        ),
        cbc_decrypted(input_key, iv, info.encrypted_verifier_hash_input) == Ok::<
            Seq<u8>,
            ErrorView,
        >(input),
        cbc_decrypted(value_key, iv, info.encrypted_verifier_hash_value) == Ok::<
            Seq<u8>,
            ErrorView,
        >(stored),
        0 <= i < digest_len(algorithm) <= stored.len(),
        stored[i] != digest_of(algorithm, input)[i],
    ensures
        agile_opened(info, package, password) == Err::<Seq<u8>, ErrorView>(
            ErrorView::InvalidPassword,
        ),
{
    law_agile_password_hash(info, algorithm, password, bytes, hashes);
    law_agile_verifies(
        info,
        algorithm,
        hashes[info.spin_count as int],
        input_key,
        value_key,
        iv,
        input,
        stored,
    );
}

/// A document is refused for its password exactly when the verifier rejects the password's hash,
/// whatever the package holds; it opens only if the verifier accepts the hash, and then as the
/// package under its key; and the first error on the way is the one that is reported.
pub proof fn law_agile_wrong_password(info: AgileView, package: Seq<u8>, password: Seq<char>)
    ensures
        agile_opened(info, package, password) == Err::<Seq<u8>, ErrorView>(
            ErrorView::InvalidPassword,
        ) <==> (agile_password_hash(info, password) matches Ok(hash) && agile_verified(info, hash)
            == Ok::<bool, ErrorView>(false)),
        agile_opened(info, package, password) is Ok ==> (agile_password_hash(
            info,
            password,
        ) matches Ok(hash) && agile_verified(info, hash) == Ok::<bool, ErrorView>(true)),
        agile_password_hash(info, password) matches Ok(hash) ==> agile_verified(info, hash) == Ok::<
            bool,
            ErrorView,
        >(true) ==> (agile_secret_key(info, hash) matches Ok(key) ==> agile_opened(
            info,
            package,
            password,
        ) == agile_package(info, key, package)),
        agile_password_hash(info, password) matches Ok(hash) ==> agile_verified(info, hash) == Ok::<
            bool,
            ErrorView,
        >(true) ==> (agile_secret_key(info, hash) matches Err(error) ==> agile_opened(
            info,
            package,
            password,
        ) == Err::<Seq<u8>, ErrorView>(error)),
        agile_password_hash(info, password) matches Ok(hash) ==> (agile_verified(
            info,
            hash,
        ) matches Err(error) ==> agile_opened(info, package, password) == Err::<
            Seq<u8>,
            ErrorView,
        >(error)),
        agile_password_hash(info, password) matches Err(error) ==> agile_opened(
            info,
            package,
            password,
        ) == Err::<Seq<u8>, ErrorView>(error),
{
}

/// A document whose descriptor cannot be read is refused with that error; any other opens as its
/// descriptor says.
pub proof fn law_agile_document(
    encryption_info: Seq<u8>,
    package: Seq<u8>,
    password: Seq<char>,
)
    ensures
        agile_info(encryption_info) matches Err(error) ==> agile_decrypted(
            encryption_info,
            package,
            password,
        ) == Err::<Seq<u8>, ErrorView>(error),
        agile_info(encryption_info) matches Ok(info) ==> agile_decrypted(
            encryption_info,
            package,
            password,
        ) == agile_opened(info, package, password),
{
}

/// Under the descriptor of a document, every key and every initialisation vector has a length that
/// AES takes: the cipher refuses nothing but ciphertext that is not made of whole blocks.
pub proof fn law_agile_key_lengths(
    info: AgileView,
    password_hash: Seq<u8>,
    block: Seq<u8>,
    algorithm: HashAlgorithm,
    index: int,
)
    requires
        info.well_formed(),
    ensures
        agile_derived_key(info, password_hash, block) matches Ok(key) ==> key.len()
            == info.password_key_bits / 8 && (key.len() == 16 || key.len() == 24 || key.len()
            == 32),
        agile_secret_key(info, password_hash) matches Ok(key) ==> key.len()
            == info.key_data_key_bits / 8 && (key.len() == 16 || key.len() == 24 || key.len()
            == 32),
        password_iv(info).len() == 16,
        segment_iv(info, algorithm, index).len() == 16,
{
}

/// Whole blocks behind the ciphertext of a package do not change the package.
pub proof fn law_agile_trailing_blocks(
    info: AgileView,
    key: Seq<u8>,
    stream: Seq<u8>,
    extra: Seq<u8>,
)
    requires
        info.key_data_block_size == 16,
        key.len() == 16 || key.len() == 24 || key.len() == 32,
        extra.len() % 16 == 0,
        agile_package(info, key, stream) is Ok,
    ensures
        agile_package(info, key, stream + extra) == agile_package(info, key, stream),
{
    let algorithm = algorithm_named(info.key_data_hash_algorithm)->Ok_0;
    let size = le_value(stream.take(8)) as int;
    let short = stream.skip(8);
    let long = (stream + extra).skip(8);
    assert((stream + extra).take(8) =~= stream.take(8));
    assert(long =~= short + extra);
    let a = agile_plaintext(info, algorithm, key, short);
    let b = agile_plaintext(info, algorithm, key, long);
    assert forall|i: int| 0 <= i < short.len() implies a[i] == b[i] by {
        let k = i % 4096;
        let iv = segment_iv(info, algorithm, i / 4096);
        let s = segment(short, i / 4096);
        let l = segment(long, i / 4096);
        lemma_piece(short, i);
        lemma_piece(long, i);
        assert(l.take(s.len() as int) =~= s);
        lemma_cbc_prefix(key, iv, s, l, k);
    }
    assert(a.take(size) =~= b.take(size));
}

proof fn lemma_cbc_prefix(key: Seq<u8>, iv: Seq<u8>, short: Seq<u8>, long: Seq<u8>, i: int)
    requires
        short.len() <= long.len(),
        short.len() % 16 == 0,
        long.take(short.len() as int) == short,
        0 <= i < short.len(),
    ensures
        cbc_plaintext(key, iv, short)[i] == cbc_plaintext(key, iv, long)[i],
{
    assert(forall|j: int| 0 <= j < short.len() ==> long[j] == long.take(short.len() as int)[j]);
    assert(block_around(short, i) =~= block_around(long, i));
    assert(cbc_mask(iv, short, i) == cbc_mask(iv, long, i));
}

/// The view of a descriptor holds every field as it is.
pub proof fn law_agile_view(info: AgileEncryptionInfo)
    ensures
        info@.key_data_salt == info.key_data_salt@,
        info@.key_data_hash_algorithm == info.key_data_hash_algorithm@,
        info@.key_data_block_size == info.key_data_block_size,
        info@.key_data_key_bits == info.key_data_key_bits,
        info@.encrypted_hmac_key == info.encrypted_hmac_key@,
        info@.encrypted_hmac_value == info.encrypted_hmac_value@,
        info@.encrypted_verifier_hash_input == info.encrypted_verifier_hash_input@,
        info@.encrypted_verifier_hash_value == info.encrypted_verifier_hash_value@,
        info@.encrypted_key_value == info.encrypted_key_value@,
        info@.spin_count == info.spin_count,
        info@.password_salt == info.password_salt@,
        info@.password_hash_algorithm == info.password_hash_algorithm@,
        info@.password_key_bits == info.password_key_bits,
{
}

/// A stored hash value agrees with a digest exactly if the digest is a beginning of it; one that is
/// shorter than the digest is an error.
pub proof fn law_compared(expected: Seq<u8>, actual: Seq<u8>)
    ensures
        compared(expected, actual) == Ok::<bool, ErrorView>(true) <==> actual.is_prefix_of(expected),
        compared(expected, actual) is Ok <==> actual.len() <= expected.len(),
        compared(expected, actual) matches Err(error) ==> error is InvalidStructure,
{
    if actual.len() <= expected.len() {
        assert(expected.take(actual.len() as int) =~= expected.subrange(0, actual.len() as int));
    }
}

/// The ciphertext of a package of whole blocks: each segment in CBC mode under its own
/// initialisation vector.
pub open spec fn agile_ciphertext(
    encrypt: spec_fn(Seq<u8>, Seq<u8>) -> Seq<u8>,
    info: AgileView,
    algorithm: HashAlgorithm,
    key: Seq<u8>,
    plaintext: Seq<u8>,
) -> Seq<u8> {
    Seq::new(
        plaintext.len(),
        |i: int|
            cbc_encrypted(
                encrypt,
                key,
                segment_iv(info, algorithm, i / SEGMENT_LENGTH as int),
                segment(plaintext, i / SEGMENT_LENGTH as int),
            )[i % SEGMENT_LENGTH as int],
    )
}

/// The `EncryptedPackage` stream of a package that is the first `size` bytes of `blocks`: the size
/// in eight bytes, then the ciphertext of the blocks.
pub open spec fn agile_package_stream(
    encrypt: spec_fn(Seq<u8>, Seq<u8>) -> Seq<u8>,
    info: AgileView,
    algorithm: HashAlgorithm,
    key: Seq<u8>,
    size: u64,
    blocks: Seq<u8>,
) -> Seq<u8> {
    le_u64_bytes(size) + agile_ciphertext(encrypt, info, algorithm, key, blocks)
}

/// A field of the descriptor as encryption under a password writes it: `data` in CBC mode, under
/// the key for the purpose that `block` stands for.
pub open spec fn agile_field(
    encrypt: spec_fn(Seq<u8>, Seq<u8>) -> Seq<u8>,
    info: AgileView,
    algorithm: HashAlgorithm,
    password: Seq<char>,
    block: Seq<u8>,
    data: Seq<u8>,
) -> Seq<u8> {
    let password_hash = iterated_hash_of(
        algorithm,
        info.password_salt,
        utf16le(password),
        info.spin_count as nat,
    );
    let key = normalized(
        digest_of(algorithm, password_hash + block),
        (info.password_key_bits / 8) as nat,
    );
    cbc_encrypted(encrypt, key, password_iv(info), data)
}

/// A field that encryption under a password writes is the data in CBC mode under the key for its
/// purpose, which is made of the password's chain of hashes, and the salt as the vector.
pub proof fn law_agile_field_is_written(
    encrypt: spec_fn(Seq<u8>, Seq<u8>) -> Seq<u8>,
    info: AgileView,
    algorithm: HashAlgorithm,
    password: Seq<char>,
    bytes: Seq<u8>,
    hashes: Seq<Seq<u8>>,
    block: Seq<u8>,
    key: Seq<u8>,
    iv: Seq<u8>,
    data: Seq<u8>,
)
    requires
        is_password(bytes, password),
        is_hash_chain(algorithm, info.password_salt, bytes, hashes),
        hashes.len() == info.spin_count + 1,
        is_purpose_key(info, algorithm, hashes[info.spin_count as int], block, key),
        is_filled(iv, info.password_salt, 16),
    ensures
        agile_field(encrypt, info, algorithm, password, block, data) == cbc_encrypted(
            encrypt,
            key,
            iv,
            data,
        ),
{
    let n = info.spin_count as nat;
    law_utf16le_exact(bytes, password);
    law_iterated_hash_chain(algorithm, info.password_salt, bytes, hashes, n);
    law_normalized(
        digest_of(algorithm, hashes[n as int] + block),
        (info.password_key_bits / 8) as nat,
        key,
    );
    law_normalized(info.password_salt, 16, iv);
}

/// Every package of whole blocks can be encrypted so that each segment stands under its own
/// vector, and its stream gives the package back.
#[verifier::spinoff_prover]
#[verifier::rlimit(40)]
pub proof fn law_agile_package_is_written(
    encrypt: spec_fn(Seq<u8>, Seq<u8>) -> Seq<u8>,
    info: AgileView,
    algorithm: HashAlgorithm,
    key: Seq<u8>,
    size: u64,
    blocks: Seq<u8>,
)
    requires
        inverts_aes(encrypt),
        info.key_data_block_size == 16,
        algorithm_named(info.key_data_hash_algorithm) == Ok::<HashAlgorithm, ErrorView>(algorithm),
        key.len() == 16 || key.len() == 24 || key.len() == 32,
        blocks.len() % 16 == 0,
        size <= blocks.len(),
    ensures
        is_agile_ciphertext(
            encrypt,
            algorithm,
            info.key_data_salt,
            key,
            Seq::new((blocks.len() + 4095) / 4096, |n: int| segment_iv(info, algorithm, n)),
            blocks,
            agile_ciphertext(encrypt, info, algorithm, key, blocks),
        ),
        agile_package(
            info,
            key,
            agile_package_stream(encrypt, info, algorithm, key, size, blocks),
        ) == Ok::<Seq<u8>, ErrorView>(blocks.take(size as int)),
{
    let ciphertext = agile_ciphertext(encrypt, info, algorithm, key, blocks);
    let ivs = Seq::new((blocks.len() + 4095) / 4096, |n: int| segment_iv(info, algorithm, n));
    assert forall|n: int| 0 <= n < ivs.len() implies is_segment_vector(
        algorithm,
        info.key_data_salt,
        n,
        16,
        #[trigger] ivs[n],
    ) by {
        lemma_segment_vector(info, algorithm, n, ivs[n]);
    }
    assert forall|n: int| 0 <= n < ivs.len() implies #[trigger] piece(ciphertext, n)
        == cbc_encrypted(encrypt, key, ivs[n], piece(blocks, n)) by {
        lemma_piece(blocks, 4096 * n);
        assert(4096 * n / 4096 == n);
        law_cbc_reads_back(encrypt, key, ivs[n], piece(blocks, n));
        let encrypted = cbc_encrypted(encrypt, key, ivs[n], piece(blocks, n));
        assert forall|k: int| 0 <= k < encrypted.len() implies piece(ciphertext, n)[k]
            == encrypted[k] by {
            let j = 4096 * n + k;
            assert(j / 4096 == n);
            assert(j % 4096 == k);
            assert(ciphertext[j] == encrypted[k]);
        }
        assert(piece(ciphertext, n) =~= encrypted);
    }
    law_u64_bytes_read_back(size);
    law_le_value_reads(le_u64_bytes(size));
    law_agile_package_reads_back(
        encrypt,
        info,
        algorithm,
        key,
        ivs,
        size as int,
        le_u64_bytes(size),
        blocks,
        ciphertext,
    );
}

} // verus!
