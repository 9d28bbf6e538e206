//! The hash algorithms of encrypted documents and the iterated password hash.

use sha1::Digest;
use vstd::prelude::*;

use crate::bytes::{
    is_le4, join_bytes, law_u32_bytes_weigh, le_u32_bytes, text_equal, u32_le_bytes,
};
use crate::error::{outcome, DecryptError, ErrorView};

verus! {

/// The SHA-1 digest of `data`, as the `sha1` crate computes it.
pub uninterp spec fn sha1_digest(data: Seq<u8>) -> Seq<u8>;

/// The SHA-256 digest of `data`, as the `sha2` crate computes it.
pub uninterp spec fn sha256_digest(data: Seq<u8>) -> Seq<u8>;

/// The SHA-384 digest of `data`, as the `sha2` crate computes it.
pub uninterp spec fn sha384_digest(data: Seq<u8>) -> Seq<u8>;

/// The SHA-512 digest of `data`, as the `sha2` crate computes it.
pub uninterp spec fn sha512_digest(data: Seq<u8>) -> Seq<u8>;

/// Calls `sha1::Sha1::digest`. Trusted: the result depends on `data` alone, and has 20 bytes.
#[verifier::external_body]
fn sha1(data: &[u8]) -> (digest: Vec<u8>)
    ensures
        digest@ == sha1_digest(data@),
        digest@.len() == 20,
{
    sha1::Sha1::digest(data).to_vec()
}

/// Calls `sha2::Sha256::digest`. Trusted: the result depends on `data` alone, and has 32 bytes.
#[verifier::external_body]
fn sha256(data: &[u8]) -> (digest: Vec<u8>)
    ensures
        digest@ == sha256_digest(data@),
        digest@.len() == 32,
{
    sha2::Sha256::digest(data).to_vec()
}

/// Calls `sha2::Sha384::digest`. Trusted: the result depends on `data` alone, and has 48 bytes.
#[verifier::external_body]
fn sha384(data: &[u8]) -> (digest: Vec<u8>)
    ensures
        digest@ == sha384_digest(data@),
        digest@.len() == 48,
{
    sha2::Sha384::digest(data).to_vec()
}

/// Calls `sha2::Sha512::digest`. Trusted: the result depends on `data` alone, and has 64 bytes.
#[verifier::external_body]
fn sha512(data: &[u8]) -> (digest: Vec<u8>)
    ensures
        digest@ == sha512_digest(data@),
        digest@.len() == 64,
{
    sha2::Sha512::digest(data).to_vec()
}

/// A hash algorithm that an encrypted document can name.
#[derive(Clone, Copy, Debug, PartialEq, Eq, Structural)]
pub enum HashAlgorithm {
    Sha1,
    Sha256,
    Sha384,
    Sha512,
}

impl View for HashAlgorithm {
    type V = HashAlgorithm;

    open spec fn view(&self) -> HashAlgorithm {
        *self
    }
}

/// The algorithm that `name` stands for. Both spellings of each name are known.
pub open spec fn algorithm_named(name: Seq<char>) -> Result<HashAlgorithm, ErrorView> {
    if name == "SHA1"@ || name == "SHA-1"@ {
        Ok(HashAlgorithm::Sha1)
    } else if name == "SHA256"@ || name == "SHA-256"@ {
        Ok(HashAlgorithm::Sha256)
    } else if name == "SHA384"@ || name == "SHA-384"@ {
        Ok(HashAlgorithm::Sha384)
    } else if name == "SHA512"@ || name == "SHA-512"@ {
        Ok(HashAlgorithm::Sha512)
    } else {
        Err(ErrorView::Unimplemented(name))
    }
}

/// The digest of `data` under `algorithm`.
pub open spec fn digest_of(algorithm: HashAlgorithm, data: Seq<u8>) -> Seq<u8> {
    match algorithm {
        HashAlgorithm::Sha1 => sha1_digest(data),
        HashAlgorithm::Sha256 => sha256_digest(data),
        HashAlgorithm::Sha384 => sha384_digest(data),
        HashAlgorithm::Sha512 => sha512_digest(data),
    }
}

/// How many bytes a digest under `algorithm` has.
pub open spec fn digest_len(algorithm: HashAlgorithm) -> nat {
    match algorithm {
        HashAlgorithm::Sha1 => 20,
        HashAlgorithm::Sha256 => 32,
        HashAlgorithm::Sha384 => 48,
        HashAlgorithm::Sha512 => 64,
    }
}

/// The iterated password hash: `H_0 = H(salt + password)`, then
/// `H_i = H(i + H_{i-1})`, where the rounds are counted from zero and the round number is
/// written in four bytes.
pub open spec fn iterated_hash_of(
    algorithm: HashAlgorithm,
    salt: Seq<u8>,
    password: Seq<u8>,
    rounds: nat,
) -> Seq<u8>
    decreases rounds,
{
    if rounds == 0 {
        digest_of(algorithm, salt + password)
    } else {
        let round = (rounds - 1) as nat;
        digest_of(
            algorithm,
            le_u32_bytes(round as u32) + iterated_hash_of(algorithm, salt, password, round),
        )
    }
}

impl HashAlgorithm {
    /// The algorithm that a document names.
    pub fn parse(name: &str) -> (result: Result<Self, DecryptError>)
        ensures
            outcome(result) == algorithm_named(name@),
    {
        if text_equal(name, "SHA1") || text_equal(name, "SHA-1") {
            Ok(HashAlgorithm::Sha1)
        } else if text_equal(name, "SHA256") || text_equal(name, "SHA-256") {
            Ok(HashAlgorithm::Sha256)
        } else if text_equal(name, "SHA384") || text_equal(name, "SHA-384") {
            Ok(HashAlgorithm::Sha384)
        } else if text_equal(name, "SHA512") || text_equal(name, "SHA-512") {
            Ok(HashAlgorithm::Sha512)
        } else {
            Err(DecryptError::Unimplemented(name.to_owned()))
        }
    }

    /// The digest of `data`.
    pub fn digest(&self, data: &[u8]) -> (digest: Vec<u8>)
        ensures
            digest@ == digest_of(*self, data@),
            digest@.len() == digest_len(*self),
    {
        match self {
            HashAlgorithm::Sha1 => sha1(data),
            HashAlgorithm::Sha256 => sha256(data),
            HashAlgorithm::Sha384 => sha384(data),
            HashAlgorithm::Sha512 => sha512(data),
        }
    }

    /// The iterated password hash after `spin_count` rounds.
    pub fn iterated_hash(&self, salt: &[u8], password: &[u8], spin_count: u32) -> (hash: Vec<u8>)
        ensures
            hash@ == iterated_hash_of(*self, salt@, password@, spin_count as nat),
            hash@.len() == digest_len(*self),
    {
        let mut hash: Vec<u8> = self.digest(join_bytes(salt, password).as_slice());
        let mut i: u32 = 0;
        while i < spin_count
            invariant
                i <= spin_count,
                hash@ == iterated_hash_of(*self, salt@, password@, i as nat),
                hash@.len() == digest_len(*self),
            decreases spin_count - i,
        {
            let round: [u8; 4] = u32_le_bytes(i);
            hash = self.digest(join_bytes(round.as_slice(), hash.as_slice()).as_slice());
            i += 1;
        }
        hash
    }
}

/// Each algorithm computes the digest that it is named after, for data of any length, and states
/// that digest's length.
pub proof fn law_digests(data: Seq<u8>)
    ensures
        digest_of(HashAlgorithm::Sha1, data) == sha1_digest(data),
        digest_of(HashAlgorithm::Sha256, data) == sha256_digest(data),
        digest_of(HashAlgorithm::Sha384, data) == sha384_digest(data),
        digest_of(HashAlgorithm::Sha512, data) == sha512_digest(data),
        digest_len(HashAlgorithm::Sha1) * 8 == 160,
        digest_len(HashAlgorithm::Sha256) * 8 == 256,
        digest_len(HashAlgorithm::Sha384) * 8 == 384,
        digest_len(HashAlgorithm::Sha512) * 8 == 512,
{
}

/// A name stands for an algorithm exactly in its two spellings; every other name is reported as it
/// stands.
pub proof fn law_algorithm_names(name: Seq<char>)
    ensures
        algorithm_named(name) == Ok::<HashAlgorithm, ErrorView>(HashAlgorithm::Sha1) <==> name
            == "SHA1"@ || name == "SHA-1"@,
        algorithm_named(name) == Ok::<HashAlgorithm, ErrorView>(HashAlgorithm::Sha256) <==> name
            == "SHA256"@ || name == "SHA-256"@,
        algorithm_named(name) == Ok::<HashAlgorithm, ErrorView>(HashAlgorithm::Sha384) <==> name
            == "SHA384"@ || name == "SHA-384"@,
        algorithm_named(name) == Ok::<HashAlgorithm, ErrorView>(HashAlgorithm::Sha512) <==> name
            == "SHA512"@ || name == "SHA-512"@,
        algorithm_named(name) matches Err(error) ==> error == ErrorView::Unimplemented(name),
{
    reveal_strlit("SHA1");
    reveal_strlit("SHA-1");
    reveal_strlit("SHA256");
    reveal_strlit("SHA-256");
    reveal_strlit("SHA384");
    reveal_strlit("SHA-384");
    reveal_strlit("SHA512");
    reveal_strlit("SHA-512");
    assert("SHA1"@.len() == 4 && "SHA-1"@.len() == 5);
    assert("SHA256"@.len() == 6 && "SHA384"@.len() == 6 && "SHA512"@.len() == 6);
    assert("SHA-256"@.len() == 7 && "SHA-384"@.len() == 7 && "SHA-512"@.len() == 7);
    assert("SHA256"@[3] == '2' && "SHA384"@[3] == '3' && "SHA512"@[3] == '5');
    assert("SHA-256"@[4] == '2' && "SHA-384"@[4] == '3' && "SHA-512"@[4] == '5');
    assert(name =~= "SHA256"@ ==> name == "SHA256"@);
    assert(name =~= "SHA-256"@ ==> name == "SHA-256"@);
    assert(name =~= "SHA384"@ ==> name == "SHA384"@);
    assert(name =~= "SHA-384"@ ==> name == "SHA-384"@);
    assert(name =~= "SHA512"@ ==> name == "SHA512"@);
    assert(name =~= "SHA-512"@ ==> name == "SHA-512"@);
}

/// Before the first round the iterated hash is the digest of the salt and all bytes of the
/// password; each further round is the digest of the round's number in four bytes and of the hash
/// before it.
pub proof fn law_iterated_hash_rounds(
    algorithm: HashAlgorithm,
    salt: Seq<u8>,
    password: Seq<u8>,
    number: Seq<u8>,
    n: nat,
)
    requires
        is_le4(number, n as int),
    ensures
        iterated_hash_of(algorithm, salt, password, 0) == digest_of(algorithm, salt + password),
        iterated_hash_of(algorithm, salt, password, n + 1) == digest_of(
            algorithm,
            number + iterated_hash_of(algorithm, salt, password, n),
        ),
{
    law_u32_bytes_weigh(n as u32, number);
}

/// Whether `hashes` are the successive hashes of a salt and a password: the digest of both, then
/// each the digest of its number, counted from zero and written in four bytes, and of the one
/// before it.
pub open spec fn is_hash_chain(
    algorithm: HashAlgorithm,
    salt: Seq<u8>,
    password: Seq<u8>,
    hashes: Seq<Seq<u8>>,
) -> bool {
    &&& hashes.len() > 0
    &&& hashes[0] == digest_of(algorithm, salt + password)
    &&& forall|i: int, number: Seq<u8>|
        0 <= i < hashes.len() - 1 && #[trigger] is_le4(number, i) ==> hashes[i + 1] == digest_of(
            algorithm,
            number + hashes[i],
        )
}

/// The iterated hash after any number of rounds is that link of the chain of hashes.
pub proof fn law_iterated_hash_chain(
    algorithm: HashAlgorithm,
    salt: Seq<u8>,
    password: Seq<u8>,
    hashes: Seq<Seq<u8>>,
    n: nat,
)
    requires
        is_hash_chain(algorithm, salt, password, hashes),
        n < hashes.len(),
        n <= u32::MAX,
    ensures
        iterated_hash_of(algorithm, salt, password, n) == hashes[n as int],
    decreases n,
{
    if n > 0 {
        let before = (n - 1) as nat;
        let number = le_u32_bytes(before as u32);
        law_u32_bytes_weigh(before as u32, number);
        law_iterated_hash_chain(algorithm, salt, password, hashes, before);
        law_iterated_hash_rounds(algorithm, salt, password, number, before);
        assert(is_le4(number, n - 1));
    }
}

} // verus!
