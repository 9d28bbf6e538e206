//! Standard encryption.

use vstd::prelude::*;

use crate::bytes::{bytes_equal, cut, cut_to_size, join_bytes, le_u32_at, slice_copy, u32_at};
use crate::cipher::{aes_ecb_decrypt, ecb_decrypted};
use crate::error::{outcome, DecryptError, ErrorView};
use crate::hash::{digest_of, iterated_hash_of, HashAlgorithm};
use crate::ole::OleStream;
use crate::utf16::{le_units, text_from_utf16le, utf16_text, utf16le, utf16le_bytes};

verus! {

/// The number of rounds of the password hash.
pub const STANDARD_ITER_COUNT: u32 = 50000;

/// What the header and the verifier of a document with standard encryption say.
#[derive(Debug)]
pub struct StandardEncryptionInfo {
    pub flags: u32,
    pub size_extra: u32,
    pub alg_id: u32,
    pub alg_id_hash: u32,
    pub key_size: u32,
    pub provider_type: u32,
    pub reserved1: u32,
    pub reserved2: u32,
    pub csp_name: String,
    pub salt_size: u32,
    pub salt: Vec<u8>,
    pub encrypted_verifier: Vec<u8>,
    pub verifier_hash_size: u32,
    pub encrypted_verifier_hash: Vec<u8>,
}

/// The contents of a [`StandardEncryptionInfo`], as a mathematical value.
#[verifier::ext_equal]
pub struct StandardView {
    pub flags: u32,
    pub size_extra: u32,
    pub alg_id: u32,
    pub alg_id_hash: u32,
    pub key_size: u32,
    pub provider_type: u32,
    pub reserved1: u32,
    pub reserved2: u32,
    pub csp_name: Seq<char>,
    pub salt_size: u32,
    pub salt: Seq<u8>,
    pub encrypted_verifier: Seq<u8>,
    pub verifier_hash_size: u32,
    pub encrypted_verifier_hash: Seq<u8>,
}

impl View for StandardEncryptionInfo {
    type V = StandardView;

    open spec fn view(&self) -> StandardView {
        StandardView {
            flags: self.flags,
            size_extra: self.size_extra,
            alg_id: self.alg_id,
            alg_id_hash: self.alg_id_hash,
            key_size: self.key_size,
            provider_type: self.provider_type,
            reserved1: self.reserved1,
            reserved2: self.reserved2,
            csp_name: self.csp_name@,
            salt_size: self.salt_size,
            salt: self.salt@,
            encrypted_verifier: self.encrypted_verifier@,
            verifier_hash_size: self.verifier_hash_size,
            encrypted_verifier_hash: self.encrypted_verifier_hash@,
        }
    }
}

impl StandardView {
    /// The value in which nothing has been set.
    pub open spec fn blank() -> StandardView {
        StandardView {
            flags: 0,
            size_extra: 0,
            alg_id: 0,
            alg_id_hash: 0,
            key_size: 0,
            provider_type: 0,
            reserved1: 0,
            reserved2: 0,
            csp_name: seq![],
            salt_size: 0,
            salt: seq![],
            encrypted_verifier: seq![],
            verifier_hash_size: 0,
            encrypted_verifier_hash: seq![],
        }
    }

    /// What holds of every value that was read from a document: the algorithm is AES, and the
    /// fields of the verifier have their fixed lengths.
    pub open spec fn well_formed(self) -> bool {
        &&& self.alg_id & 0xFF00 == 0x6600
        &&& self.salt.len() == 16
        &&& self.encrypted_verifier.len() == 16
        &&& self.encrypted_verifier_hash.len() == 32
    }
}

impl Default for StandardEncryptionInfo {
    fn default() -> (info: Self)
        ensures
            info@ == StandardView::blank(),
    {
        let info = StandardEncryptionInfo {
            flags: 0,
            size_extra: 0,
            alg_id: 0,
            alg_id_hash: 0,
            key_size: 0,
            provider_type: 0,
            reserved1: 0,
            reserved2: 0,
            csp_name: String::new(),
            salt_size: 0,
            salt: Vec::new(),
            encrypted_verifier: Vec::new(),
            verifier_hash_size: 0,
            encrypted_verifier_hash: Vec::new(),
        };
        assert(info@ =~= StandardView::blank());
        info
    }
}

/// Where the verifier begins: behind eight bytes of version and flags, the header's size and the
/// header.
pub open spec fn verifier_start(stream: Seq<u8>) -> int {
    12 + le_u32_at(stream, 8)
}

/// The fields of an `EncryptionInfo` stream, with the name of the provider already decoded.
pub open spec fn standard_fields(stream: Seq<u8>, csp_name: Seq<char>) -> StandardView {
    let verifier = verifier_start(stream);
    StandardView {
        flags: le_u32_at(stream, 12),
        size_extra: le_u32_at(stream, 16),
        alg_id: le_u32_at(stream, 20),
        alg_id_hash: le_u32_at(stream, 24),
        key_size: le_u32_at(stream, 28),
        provider_type: le_u32_at(stream, 32),
        reserved1: le_u32_at(stream, 36),
        reserved2: le_u32_at(stream, 40),
        csp_name,
        salt_size: le_u32_at(stream, verifier),
        salt: stream.subrange(verifier + 4, verifier + 20),
        encrypted_verifier: stream.subrange(verifier + 20, verifier + 36),
        verifier_hash_size: le_u32_at(stream, verifier + 36),
        encrypted_verifier_hash: stream.subrange(verifier + 40, verifier + 72),
    }
}

/// What an `EncryptionInfo` stream says: the stream is long enough for a header of at least 32
/// bytes and a verifier of 72, the provider's name is UTF-16, and the algorithm is AES.
pub open spec fn standard_info(stream: Seq<u8>) -> Result<StandardView, ErrorView> {
    if stream.len() < 12 || le_u32_at(stream, 8) < 32 || stream.len() < verifier_start(stream) {
        Err(ErrorView::InvalidStructure)
    } else {
        match utf16_text(le_units(stream.subrange(44, verifier_start(stream)))) {
            Some(csp_name) => if le_u32_at(stream, 20) & 0xFF00 != 0x6600 {
                Err(ErrorView::Unimplemented("RC4"@))
            } else if stream.len() < verifier_start(stream) + 72 {
                Err(ErrorView::InvalidStructure)
            } else {
                Ok(standard_fields(stream, csp_name))
            },
            None => Err(ErrorView::InvalidStructure),
        }
    }
}

/// 64 bytes of `fill`, the first of them combined with the bytes of a digest by exclusive or.
pub open spec fn xor_pad(digest: Seq<u8>, fill: u8) -> Seq<u8> {
    Seq::new(
        64,
        |i: int|
            if i < digest.len() {
                fill ^ digest[i]
            } else {
                fill
            },
    )
}

/// The digest from which the key is made: that of the iterated hash and a block number of zero.
pub open spec fn standard_final_hash(info: StandardView, password: Seq<char>) -> Seq<u8> {
    digest_of(
        HashAlgorithm::Sha1,
        iterated_hash_of(
            HashAlgorithm::Sha1,
            info.salt,
            utf16le(password),
            STANDARD_ITER_COUNT as nat,
        ) + seq![0u8, 0, 0, 0],
    )
}

/// The key that a password gives.
pub open spec fn standard_key(info: StandardView, password: Seq<char>) -> Seq<u8> {
    let hash = standard_final_hash(info, password);
    let x1 = digest_of(HashAlgorithm::Sha1, xor_pad(hash, 0x36));
    let x2 = digest_of(HashAlgorithm::Sha1, xor_pad(hash, 0x5c));
    (x1 + x2).take(info.key_size as int / 8)
}

/// Whether a key belongs to the document: the verifier, decrypted, and the verifier's hash,
/// decrypted, agree on as many bytes of the digest as the document says.
pub open spec fn standard_verified(info: StandardView, key: Seq<u8>) -> Result<bool, ErrorView> {
    let size = info.verifier_hash_size as int;
    match ecb_decrypted(key, info.encrypted_verifier) {
        Ok(verifier) => match ecb_decrypted(key, info.encrypted_verifier_hash) {
            Ok(verifier_hash) => if size > 20 || size > verifier_hash.len() {
                Err(ErrorView::InvalidStructure)
            } else {
                Ok(
                    verifier_hash.take(size) == digest_of(HashAlgorithm::Sha1, verifier).take(
                        size,
                    ),
                )
            },
            Err(error) => Err(error),
        },
        Err(error) => Err(error),
    }
}

/// The package that an `EncryptedPackage` stream holds: eight bytes of which the first four are
/// the package's size, then its ciphertext, which can be longer than the package.
pub open spec fn standard_package(key: Seq<u8>, stream: Seq<u8>) -> Result<Seq<u8>, ErrorView> {
    if stream.len() < 8 {
        Err(ErrorView::InvalidStructure)
    } else {
        match ecb_decrypted(key, stream.skip(8)) {
            Ok(plaintext) => cut(plaintext, le_u32_at(stream, 0) as nat),
            Err(error) => Err(error),
        }
    }
}

/// 64 bytes of `fill`, the first of them combined with the bytes of `digest` by exclusive or.
pub fn fill_with(digest: &[u8], fill: u8) -> (buffer: Vec<u8>)
    ensures
        buffer@ == xor_pad(digest@, fill),
{
    let mut buffer: Vec<u8> = Vec::new();
    let mut i: usize = 0;
    while i < 64
        invariant
            i <= 64,
            buffer@ == xor_pad(digest@, fill).take(i as int),
        decreases 64 - i,
    {
        if i < digest.len() {
            buffer.push(fill ^ digest[i]);
        } else {
            buffer.push(fill);
        }
        i += 1;
        assert(buffer@ =~= xor_pad(digest@, fill).take(i as int));
    }
    assert(buffer@ =~= xor_pad(digest@, fill));
    buffer
}

/// The first `key_length` bytes of two digests.
pub fn key_from_digests(x1: &[u8], x2: &[u8], key_length: usize) -> (key: Vec<u8>)
    requires
        key_length <= x1@.len() + x2@.len(),
    ensures
        key@ == (x1@ + x2@).take(key_length as int),
{
    let mut key: Vec<u8> = join_bytes(x1, x2);
    key.truncate(key_length);
    assert(key@ =~= (x1@ + x2@).take(key_length as int));
    key
}

/// Whether the first `size` bytes of both are the same; both must be as long.
pub open spec fn hash_compared(verifier_hash: Seq<u8>, actual_hash: Seq<u8>, size: int) -> Result<
    bool,
    ErrorView,
> {
    if size > actual_hash.len() || size > verifier_hash.len() {
        Err(ErrorView::InvalidStructure)
    } else {
        Ok(verifier_hash.take(size) == actual_hash.take(size))
    }
}

/// Compares as many bytes of a verifier's digest with the stored one as the document says.
pub fn compare_verifier_hash(verifier_hash: &[u8], actual_hash: &[u8], hash_size: usize) -> (result:
    Result<bool, DecryptError>)
    ensures
        outcome(result) == hash_compared(verifier_hash@, actual_hash@, hash_size as int),
{
    if hash_size > actual_hash.len() || verifier_hash.len() < hash_size {
        return Err(DecryptError::InvalidStructure);
    }
    assert(verifier_hash@.subrange(0, hash_size as int) =~= verifier_hash@.take(hash_size as int));
    assert(actual_hash@.subrange(0, hash_size as int) =~= actual_hash@.take(hash_size as int));
    Ok(bytes_equal(&verifier_hash[0..hash_size], &actual_hash[0..hash_size]))
}

impl StandardEncryptionInfo {
    /// Reads the header and the verifier of an `EncryptionInfo` stream.
    pub fn new(encryption_info: &OleStream) -> (result: Result<Self, DecryptError>)
        ensures
            outcome(result) == standard_info(encryption_info@),
            result matches Ok(info) ==> info@.well_formed(),
    {
        let stream: &[u8] = encryption_info.stream.as_slice();
        if stream.len() < 12 {
            return Err(DecryptError::InvalidStructure);
        }
        let header_size: u32 = u32_at(stream, 8);
        let header_end: usize = match (header_size as usize).checked_add(12) {
            Some(end) => end,
            None => {
                return Err(DecryptError::InvalidStructure);
            },
        };
        if header_size < 32 || stream.len() < header_end {
            return Err(DecryptError::InvalidStructure);
        }
        let alg_id: u32 = u32_at(stream, 20);
        let csp_name: String = match text_from_utf16le(&stream[44..header_end]) {
            Some(name) => name,
            None => {
                return Err(DecryptError::InvalidStructure);
            },
        };
        // AES; anything else is RC4.
        if alg_id & 0xFF00 != 0x6600 {
            return Err(DecryptError::Unimplemented("RC4".to_owned()));
        }
        if stream.len() - header_end < 72 {
            return Err(DecryptError::InvalidStructure);
        }
        Ok(
            StandardEncryptionInfo {
                flags: u32_at(stream, 12),
                size_extra: u32_at(stream, 16),
                alg_id,
                alg_id_hash: u32_at(stream, 24),
                key_size: u32_at(stream, 28),
                provider_type: u32_at(stream, 32),
                reserved1: u32_at(stream, 36),
                reserved2: u32_at(stream, 40),
                csp_name,
                salt_size: u32_at(stream, header_end),
                salt: slice_copy(stream, header_end + 4, header_end + 20),
                encrypted_verifier: slice_copy(stream, header_end + 20, header_end + 36),
                verifier_hash_size: u32_at(stream, header_end + 36),
                encrypted_verifier_hash: slice_copy(stream, header_end + 40, header_end + 72),
            },
        )
    }

    /// Derives the key from `password`. The derivation yields 40 bytes, so
    /// a longer key cannot be asked for.
    pub fn key_from_password(&self, password: &str) -> (result: Result<Vec<u8>, DecryptError>)
        requires
            self.key_size / 8 <= 40,
        ensures
            outcome(result) == Ok::<Seq<u8>, ErrorView>(standard_key(self@, password@)),
            result matches Ok(key) ==> key@.len() == self.key_size / 8,
    {
        let sha1: HashAlgorithm = HashAlgorithm::Sha1;
        let iterated: Vec<u8> = sha1.iterated_hash(
            self.salt.as_slice(),
            utf16le_bytes(password).as_slice(),
            STANDARD_ITER_COUNT,
        );
        let block_bytes: [u8; 4] = [0, 0, 0, 0];
        assert(block_bytes@ =~= seq![0u8, 0, 0, 0]);
        let hash: Vec<u8> = sha1.digest(
            join_bytes(iterated.as_slice(), block_bytes.as_slice()).as_slice(),
        );
        let x1: Vec<u8> = sha1.digest(fill_with(hash.as_slice(), 0x36).as_slice());
        let x2: Vec<u8> = sha1.digest(fill_with(hash.as_slice(), 0x5c).as_slice());
        Ok(key_from_digests(x1.as_slice(), x2.as_slice(), (self.key_size / 8) as usize))
    }

    /// Checks a key against the verifier.
    pub fn verify_password(&self, key: &[u8]) -> (result: Result<bool, DecryptError>)
        ensures
            outcome(result) == standard_verified(self@, key@),
    {
        let verifier = match aes_ecb_decrypt(key, self.encrypted_verifier.as_slice()) {
            Ok(verifier) => verifier,
            Err(error) => {
                return Err(error);
            },
        };
        let verifier_hash = match aes_ecb_decrypt(key, self.encrypted_verifier_hash.as_slice()) {
            Ok(verifier_hash) => verifier_hash,
            Err(error) => {
                return Err(error);
            },
        };
        let actual_hash: Vec<u8> = HashAlgorithm::Sha1.digest(verifier.as_slice());
        compare_verifier_hash(
            verifier_hash.as_slice(),
            actual_hash.as_slice(),
            self.verifier_hash_size as usize,
        )
    }

    /// Decrypts an `EncryptedPackage` stream.
    pub fn decrypt(&self, key: &[u8], encrypted_stream: &OleStream) -> (result: Result<
        Vec<u8>,
        DecryptError,
    >)
        ensures
            outcome(result) == standard_package(key@, encrypted_stream@),
    {
        let stream: &[u8] = encrypted_stream.stream.as_slice();
        if stream.len() < 8 {
            return Err(DecryptError::InvalidStructure);
        }
        let total_size: u32 = u32_at(stream, 0);
        let ciphertext: &[u8] = &stream[8..stream.len()];
        assert(ciphertext@ =~= stream@.skip(8));
        match aes_ecb_decrypt(key, ciphertext) {
            Ok(decrypted) => cut_to_size(decrypted, total_size as u64),
            Err(error) => Err(error),
        }
    }
}

} // verus!
