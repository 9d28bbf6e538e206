//! Opening a document with a password: verification first, then decryption.

use vstd::prelude::*;

use crate::agile::{
    agile_info, agile_package, agile_password_hash, agile_secret_key, agile_verified,
    AgileEncryptionInfo, AgileView,
};
use crate::error::{outcome, DecryptError, ErrorView};
use crate::ole::OleStream;
use crate::standard::{
    standard_info, standard_key, standard_package, standard_verified, StandardEncryptionInfo,
    StandardView,
};

verus! {

/// The package of an agile-encrypted document, once its descriptor is read.
pub open spec fn agile_opened(info: AgileView, package: Seq<u8>, password: Seq<char>) -> Result<
    Seq<u8>,
    ErrorView,
> {
    match agile_password_hash(info, password) {
        Ok(hash) => match agile_verified(info, hash) {
            Ok(true) => match agile_secret_key(info, hash) {
                Ok(key) => agile_package(info, key, package),
                Err(error) => Err(error),
            },
            Ok(false) => Err(ErrorView::InvalidPassword),
            Err(error) => Err(error),
        },
        Err(error) => Err(error),
    }
}

/// The package of a document with standard encryption, once its header and verifier are read. A
/// key longer than the 40 bytes that a password gives cannot be had.
pub open spec fn standard_opened(
    info: StandardView,
    package: Seq<u8>,
    password: Seq<char>,
) -> Result<Seq<u8>, ErrorView> {
    if info.key_size / 8 > 40 {
        Err(ErrorView::InvalidStructure)
    } else {
        let key = standard_key(info, password);
        match standard_verified(info, key) {
            Ok(true) => standard_package(key, package),
            Ok(false) => Err(ErrorView::InvalidPassword),
            Err(error) => Err(error),
        }
    }
}

/// What opening an agile-encrypted document gives, from its two streams.
pub open spec fn agile_decrypted(
    encryption_info: Seq<u8>,
    encrypted_package: Seq<u8>,
    password: Seq<char>,
) -> Result<Seq<u8>, ErrorView> {
    match agile_info(encryption_info) {
        Ok(info) => agile_opened(info, encrypted_package, password),
        Err(error) => Err(error),
    }
}

/// What opening a document with standard encryption gives, from its two streams.
pub open spec fn standard_decrypted(
    encryption_info: Seq<u8>,
    encrypted_package: Seq<u8>,
    password: Seq<char>,
) -> Result<Seq<u8>, ErrorView> {
    match standard_info(encryption_info) {
        Ok(info) => standard_opened(info, encrypted_package, password),
        Err(error) => Err(error),
    }
}

/// Decrypts a document with agile encryption, given its `EncryptionInfo` and `EncryptedPackage`
/// streams.
pub fn decrypt_agile(
    encryption_info: &OleStream,
    encrypted_package: &OleStream,
    password: &str,
) -> (result: Result<Vec<u8>, DecryptError>)
    ensures
        outcome(result) == agile_decrypted(encryption_info@, encrypted_package@, password@),
{
    let info = match AgileEncryptionInfo::new(encryption_info) {
        Ok(info) => info,
        Err(error) => {
            return Err(error);
        },
    };
    let hash = match info.password_hash(password) {
        Ok(hash) => hash,
        Err(error) => {
            return Err(error);
        },
    };
    match info.verify_password(hash.as_slice()) {
        Ok(true) => {},
        Ok(false) => {
            return Err(DecryptError::InvalidPassword);
        },
        Err(error) => {
            return Err(error);
        },
    }
    match info.secret_key(hash.as_slice()) {
        Ok(key) => info.decrypt(key.as_slice(), encrypted_package),
        Err(error) => Err(error),
    }
}

/// Decrypts a document with standard encryption, given its `EncryptionInfo` and
/// `EncryptedPackage` streams.
pub fn decrypt_standard(
    encryption_info: &OleStream,
    encrypted_package: &OleStream,
    password: &str,
) -> (result: Result<Vec<u8>, DecryptError>)
    ensures
        outcome(result) == standard_decrypted(encryption_info@, encrypted_package@, password@),
{
    let info = match StandardEncryptionInfo::new(encryption_info) {
        Ok(info) => info,
        Err(error) => {
            return Err(error);
        },
    };
    if info.key_size / 8 > 40 {
        return Err(DecryptError::InvalidStructure);
    }
    let key = match info.key_from_password(password) {
        Ok(key) => key,
        Err(error) => {
            return Err(error);
        },
    };
    match info.verify_password(key.as_slice()) {
        Ok(true) => info.decrypt(key.as_slice(), encrypted_package),
        Ok(false) => Err(DecryptError::InvalidPassword),
        Err(error) => Err(error),
    }
}

} // verus!
