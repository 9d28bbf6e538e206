//! Whole documents: encrypted here, wrapped in a compound file, and decrypted by the library.

use std::io::{Cursor, Read, Write};

use aes::cipher::{block_padding::NoPadding, BlockEncryptMut, KeyIvInit};
use base64::engine::general_purpose::STANDARD as B64;
use base64::Engine;
use hmac::{Hmac, Mac};
use office_crypto::error::DecryptError;
use office_crypto::ole::OleStream;
use office_crypto::package::{decrypt_agile, decrypt_standard};
use sha1::Sha1;
use sha2::{Digest, Sha256, Sha384, Sha512};

const BLOCK_VERIFIER_HASH_INPUT: [u8; 8] = [0xFE, 0xA7, 0xD2, 0x76, 0x3B, 0x4B, 0x9E, 0x79];
const BLOCK_VERIFIER_HASH_VALUE: [u8; 8] = [0xD7, 0xAA, 0x0F, 0x6D, 0x30, 0x61, 0x34, 0x4E];
const BLOCK_ENCRYPTED_KEY_VALUE: [u8; 8] = [0x14, 0x6E, 0x0B, 0xE7, 0xAB, 0xAC, 0xD0, 0xD6];
const BLOCK_DATA_INTEGRITY_1: [u8; 8] = [0x5F, 0xB2, 0xAD, 0x01, 0x0C, 0xB9, 0xE1, 0xF6];
const BLOCK_DATA_INTEGRITY_2: [u8; 8] = [0xA0, 0x67, 0x7F, 0x02, 0xB2, 0x2C, 0x84, 0x33];

const SEGMENT_LENGTH: usize = 4096;
const AES_BLOCK_SIZE: usize = 16;

/// Wraps the two encryption streams in a compound file.
fn build_ole(encryption_info: &[u8], encrypted_package: &[u8]) -> Vec<u8> {
    let mut comp = cfb::CompoundFile::create(Cursor::new(Vec::new())).unwrap();
    comp.create_stream("EncryptionInfo")
        .unwrap()
        .write_all(encryption_info)
        .unwrap();
    comp.create_stream("EncryptedPackage")
        .unwrap()
        .write_all(encrypted_package)
        .unwrap();
    comp.flush().unwrap();
    comp.into_inner().into_inner()
}

/// The `EncryptionInfo` and `EncryptedPackage` streams of a compound file.
fn read_ole_streams(raw: Vec<u8>) -> (Vec<u8>, Vec<u8>) {
    let mut comp = cfb::CompoundFile::open(Cursor::new(raw)).unwrap();
    let mut encryption_info = Vec::new();
    comp.open_stream("EncryptionInfo")
        .unwrap()
        .read_to_end(&mut encryption_info)
        .unwrap();
    let mut encrypted_package = Vec::new();
    comp.open_stream("EncryptedPackage")
        .unwrap()
        .read_to_end(&mut encrypted_package)
        .unwrap();

    (encryption_info, encrypted_package)
}

/// Decrypts a compound file. Version 4.4 stands for agile encryption, minor version 2 for
/// standard encryption.
fn decrypt_from_bytes(raw: Vec<u8>, password: &str) -> Result<Vec<u8>, DecryptError> {
    let (info, package) = read_ole_streams(raw);
    let minor = info[2];
    let info = OleStream { stream: info };
    let package = OleStream { stream: package };
    match minor {
        4 => decrypt_agile(&info, &package, password),
        2 => decrypt_standard(&info, &package, password),
        _ => panic!("unknown version"),
    }
}

struct AgileParams {
    hash: &'static str,
    key_bits: usize,
    spin_count: u32,
}

fn digest(hash: &str, data: &[u8]) -> Vec<u8> {
    match hash {
        "SHA1" => Sha1::digest(data).to_vec(),
        "SHA256" => Sha256::digest(data).to_vec(),
        "SHA384" => Sha384::digest(data).to_vec(),
        "SHA512" => Sha512::digest(data).to_vec(),
        _ => panic!("unsupported hash {hash}"),
    }
}

fn hmac_digest(hash: &str, key: &[u8], data: &[u8]) -> Vec<u8> {
    match hash {
        "SHA1" => {
            let mut h = Hmac::<Sha1>::new_from_slice(key).unwrap();
            h.update(data);
            h.finalize().into_bytes().to_vec()
        }
        "SHA256" => {
            let mut h = Hmac::<Sha256>::new_from_slice(key).unwrap();
            h.update(data);
            h.finalize().into_bytes().to_vec()
        }
        "SHA384" => {
            let mut h = Hmac::<Sha384>::new_from_slice(key).unwrap();
            h.update(data);
            h.finalize().into_bytes().to_vec()
        }
        "SHA512" => {
            let mut h = Hmac::<Sha512>::new_from_slice(key).unwrap();
            h.update(data);
            h.finalize().into_bytes().to_vec()
        }
        _ => panic!("unsupported hash {hash}"),
    }
}

/// Truncates or pads with 0x36 to `len`.
fn normalize_key(mut bytes: Vec<u8>, len: usize) -> Vec<u8> {
    bytes.resize(len, 0x36);
    bytes
}

/// Zero-pads to a multiple of the AES block size.
fn pad_to_block(mut bytes: Vec<u8>) -> Vec<u8> {
    bytes.resize(bytes.len().div_ceil(AES_BLOCK_SIZE) * AES_BLOCK_SIZE, 0);
    bytes
}

fn aes_cbc_encrypt(key: &[u8], iv: &[u8], plaintext: &[u8]) -> Vec<u8> {
    assert_eq!(plaintext.len() % AES_BLOCK_SIZE, 0);
    let mut ciphertext = vec![0u8; plaintext.len()];
    match key.len() {
        16 => cbc::Encryptor::<aes::Aes128>::new_from_slices(key, iv)
            .unwrap()
            .encrypt_padded_b2b_mut::<NoPadding>(plaintext, &mut ciphertext),
        24 => cbc::Encryptor::<aes::Aes192>::new_from_slices(key, iv)
            .unwrap()
            .encrypt_padded_b2b_mut::<NoPadding>(plaintext, &mut ciphertext),
        32 => cbc::Encryptor::<aes::Aes256>::new_from_slices(key, iv)
            .unwrap()
            .encrypt_padded_b2b_mut::<NoPadding>(plaintext, &mut ciphertext),
        _ => panic!("bad key length {}", key.len()),
    }
    .unwrap();
    ciphertext
}

fn aes_ecb_encrypt(key: &[u8], plaintext: &[u8]) -> Vec<u8> {
    assert_eq!(plaintext.len() % AES_BLOCK_SIZE, 0);
    let mut ciphertext = vec![0u8; plaintext.len()];
    match key.len() {
        16 => <ecb::Encryptor<aes::Aes128> as aes::cipher::KeyInit>::new_from_slice(key)
            .unwrap()
            .encrypt_padded_b2b_mut::<NoPadding>(plaintext, &mut ciphertext),
        24 => <ecb::Encryptor<aes::Aes192> as aes::cipher::KeyInit>::new_from_slice(key)
            .unwrap()
            .encrypt_padded_b2b_mut::<NoPadding>(plaintext, &mut ciphertext),
        32 => <ecb::Encryptor<aes::Aes256> as aes::cipher::KeyInit>::new_from_slice(key)
            .unwrap()
            .encrypt_padded_b2b_mut::<NoPadding>(plaintext, &mut ciphertext),
        _ => panic!("bad key length {}", key.len()),
    }
    .unwrap();
    ciphertext
}

/// Deterministic pseudo-random bytes, so that documents are reproducible.
fn test_bytes(label: &str, params: &AgileParams, len: usize) -> Vec<u8> {
    let seed = format!(
        "{label}:{}:{}:{}",
        params.hash, params.key_bits, params.spin_count
    );
    let mut out = Vec::with_capacity(len);
    let mut counter = 0u32;
    while out.len() < len {
        out.extend_from_slice(&Sha256::digest(
            [seed.as_bytes(), &counter.to_le_bytes()].concat(),
        ));
        counter += 1;
    }
    out.truncate(len);
    out
}

fn encrypt_agile(plaintext: &[u8], password: &str, params: &AgileParams) -> Vec<u8> {
    let hash = params.hash;
    let key_len = params.key_bits / 8;
    let hash_size = digest(hash, b"").len();

    // Salts are exactly one AES block, so they can be used directly as the password-path IV.
    let password_salt = test_bytes("password-salt", params, AES_BLOCK_SIZE);
    let key_data_salt = test_bytes("key-data-salt", params, AES_BLOCK_SIZE);

    // Iterated password hash.
    let pass_utf16: Vec<u8> = password
        .encode_utf16()
        .flat_map(u16::to_le_bytes)
        .collect();
    let mut h = digest(hash, &[password_salt.as_slice(), &pass_utf16].concat());
    for i in 0u32..params.spin_count {
        h = digest(hash, &[&i.to_le_bytes(), h.as_slice()].concat());
    }
    let derived_key =
        |block: &[u8]| normalize_key(digest(hash, &[h.as_slice(), block].concat()), key_len);

    // Verifier blocks.
    let verifier_input = test_bytes("verifier-input", params, 16);
    let encrypted_verifier_hash_input = aes_cbc_encrypt(
        &derived_key(&BLOCK_VERIFIER_HASH_INPUT),
        &password_salt,
        &verifier_input,
    );
    let verifier_hash = pad_to_block(digest(hash, &verifier_input));
    let encrypted_verifier_hash_value = aes_cbc_encrypt(
        &derived_key(&BLOCK_VERIFIER_HASH_VALUE),
        &password_salt,
        &verifier_hash,
    );

    // Intermediate (package) key, encrypted under the password-derived key.
    let secret_key = test_bytes("secret-key", params, key_len);
    let encrypted_key_value = aes_cbc_encrypt(
        &derived_key(&BLOCK_ENCRYPTED_KEY_VALUE),
        &password_salt,
        &pad_to_block(secret_key.clone()),
    );

    // Encrypted package: 8-byte plaintext size header, then 4096-byte segments each encrypted
    // with IV = hash(keyDataSalt + segmentIndex).
    let mut package = (plaintext.len() as u64).to_le_bytes().to_vec();
    for (i, segment) in plaintext.chunks(SEGMENT_LENGTH).enumerate() {
        let iv = normalize_key(
            digest(
                hash,
                &[key_data_salt.as_slice(), &(i as u32).to_le_bytes()].concat(),
            ),
            AES_BLOCK_SIZE,
        );
        package.extend_from_slice(&aes_cbc_encrypt(
            &secret_key,
            &iv,
            &pad_to_block(segment.to_vec()),
        ));
    }

    // Data integrity (HMAC over the whole EncryptedPackage stream).
    let hmac_key = test_bytes("hmac-key", params, hash_size);
    let iv1 = normalize_key(
        digest(
            hash,
            &[key_data_salt.as_slice(), &BLOCK_DATA_INTEGRITY_1].concat(),
        ),
        AES_BLOCK_SIZE,
    );
    let iv2 = normalize_key(
        digest(
            hash,
            &[key_data_salt.as_slice(), &BLOCK_DATA_INTEGRITY_2].concat(),
        ),
        AES_BLOCK_SIZE,
    );
    let encrypted_hmac_key = aes_cbc_encrypt(&secret_key, &iv1, &pad_to_block(hmac_key.clone()));
    let hmac_value = hmac_digest(hash, &hmac_key, &package);
    let encrypted_hmac_value = aes_cbc_encrypt(&secret_key, &iv2, &pad_to_block(hmac_value));

    let xml = format!(
        r#"<?xml version="1.0" encoding="UTF-8" standalone="yes"?>
<encryption xmlns="http://schemas.microsoft.com/office/2006/encryption" xmlns:p="http://schemas.microsoft.com/office/2006/keyEncryptor/password" xmlns:c="http://schemas.microsoft.com/office/2006/keyEncryptor/certificate">
    <keyData saltSize="16" blockSize="16" keyBits="{key_bits}" hashSize="{hash_size}" cipherAlgorithm="AES" cipherChaining="ChainingModeCBC" hashAlgorithm="{hash}" saltValue="{key_data_salt}" />
    <dataIntegrity encryptedHmacKey="{encrypted_hmac_key}" encryptedHmacValue="{encrypted_hmac_value}" />
    <keyEncryptors>
        <keyEncryptor uri="http://schemas.microsoft.com/office/2006/keyEncryptor/password">
            <p:encryptedKey spinCount="{spin_count}" saltSize="16" blockSize="16" keyBits="{key_bits}" hashSize="{hash_size}" cipherAlgorithm="AES" cipherChaining="ChainingModeCBC" hashAlgorithm="{hash}" saltValue="{password_salt}" encryptedVerifierHashInput="{encrypted_verifier_hash_input}" encryptedVerifierHashValue="{encrypted_verifier_hash_value}" encryptedKeyValue="{encrypted_key_value}" />
        </keyEncryptor>
    </keyEncryptors>
</encryption>"#,
        key_bits = params.key_bits,
        spin_count = params.spin_count,
        key_data_salt = B64.encode(&key_data_salt),
        encrypted_hmac_key = B64.encode(&encrypted_hmac_key),
        encrypted_hmac_value = B64.encode(&encrypted_hmac_value),
        password_salt = B64.encode(&password_salt),
        encrypted_verifier_hash_input = B64.encode(&encrypted_verifier_hash_input),
        encrypted_verifier_hash_value = B64.encode(&encrypted_verifier_hash_value),
        encrypted_key_value = B64.encode(&encrypted_key_value),
    );

    // EncryptionInfo stream: version 4.4, flags 0x40, then the XML descriptor.
    let mut encryption_info = vec![4, 0, 4, 0, 0x40, 0, 0, 0];
    encryption_info.extend_from_slice(xml.as_bytes());

    build_ole(&encryption_info, &package)
}

/// The key that standard encryption makes of a password.
fn standard_key(password: &str, salt: &[u8], key_len: usize) -> Vec<u8> {
    let pass_utf16: Vec<u8> = password
        .encode_utf16()
        .flat_map(u16::to_le_bytes)
        .collect();
    let mut h = digest("SHA1", &[salt, &pass_utf16].concat());
    for i in 0u32..50000 {
        h = digest("SHA1", &[&i.to_le_bytes(), h.as_slice()].concat());
    }
    h = digest("SHA1", &[h.as_slice(), &[0, 0, 0, 0]].concat());
    let mut key = Vec::new();
    for fill in [0x36u8, 0x5c] {
        let mut buffer = [fill; 64];
        for (a, b) in buffer.iter_mut().zip(h.iter()) {
            *a ^= *b;
        }
        key.extend_from_slice(&digest("SHA1", &buffer));
    }
    key.truncate(key_len);
    key
}

/// A document with standard encryption, as version 3.2 with AES.
fn encrypt_standard(plaintext: &[u8], password: &str, key_bits: u32) -> Vec<u8> {
    let salt: Vec<u8> = (0..16u8).map(|i| i * 7 + 3).collect();
    let key = standard_key(password, &salt, key_bits as usize / 8);
    let name: Vec<u8> = "Microsoft Enhanced RSA and AES Cryptographic Provider\0"
        .encode_utf16()
        .flat_map(u16::to_le_bytes)
        .collect();
    let alg_id: u32 = match key_bits {
        128 => 0x660E,
        192 => 0x660F,
        _ => 0x6610,
    };

    let mut info = vec![3, 0, 2, 0, 0x24, 0, 0, 0];
    info.extend_from_slice(&(32 + name.len() as u32).to_le_bytes());
    for word in [0x24, 0, alg_id, 0x8004, key_bits, 0x18, 0, 0] {
        info.extend_from_slice(&u32::to_le_bytes(word));
    }
    info.extend_from_slice(&name);

    let verifier: Vec<u8> = (0..16u8).map(|i| i * 11 + 1).collect();
    let mut verifier_hash = digest("SHA1", &verifier);
    verifier_hash.resize(32, 0);
    info.extend_from_slice(&16u32.to_le_bytes());
    info.extend_from_slice(&salt);
    info.extend_from_slice(&aes_ecb_encrypt(&key, &verifier));
    info.extend_from_slice(&20u32.to_le_bytes());
    info.extend_from_slice(&aes_ecb_encrypt(&key, &verifier_hash));

    let mut package = (plaintext.len() as u64).to_le_bytes().to_vec();
    package.extend_from_slice(&aes_ecb_encrypt(&key, &pad_to_block(plaintext.to_vec())));

    build_ole(&info, &package)
}

/// The contents of the documents below.
fn sample(len: usize) -> Vec<u8> {
    (0..len).map(|i| (i * i / 7 + i) as u8).collect()
}

// Hash algorithms and key sizes that Office rarely emits, but other tools do.
const AGILE_FIXTURES: &[AgileParams] = &[
    AgileParams {
        hash: "SHA1",
        key_bits: 128,
        spin_count: 100000,
    },
    AgileParams {
        hash: "SHA256",
        key_bits: 256,
        spin_count: 100000,
    },
    AgileParams {
        hash: "SHA384",
        key_bits: 192,
        spin_count: 100000,
    },
];

#[test]
fn agile_other_hash_algorithms() {
    let expected = sample(9_001);
    for params in AGILE_FIXTURES {
        let encrypted = encrypt_agile(&expected, "testPassword", params);
        let decrypted = decrypt_from_bytes(encrypted, "testPassword").unwrap();
        assert!(
            decrypted == expected,
            "document with {} did not round-trip",
            params.hash
        );
    }
}

#[test]
fn agile_sha512_generated() {
    let expected = sample(12_345);
    let params = AgileParams {
        hash: "SHA512",
        key_bits: 256,
        spin_count: 100000,
    };
    let encrypted = encrypt_agile(&expected, "testPassword", &params);
    assert!(decrypt_from_bytes(encrypted, "testPassword").unwrap() == expected);
}

#[test]
fn agile_roundtrip_multi_segment() {
    // > 1 segment (4096) with a non-block-aligned tail, to exercise segment IVs and truncation.
    let plaintext: Vec<u8> = (0..10_000u32).flat_map(u32::to_le_bytes).collect();
    let plaintext = &plaintext[..39_999];
    let params = AgileParams {
        hash: "SHA256",
        key_bits: 128,
        spin_count: 1000,
    };
    let encrypted = encrypt_agile(plaintext, "pw", &params);
    let decrypted = decrypt_from_bytes(encrypted, "pw").unwrap();
    assert!(decrypted == plaintext);
}

#[test]
fn agile_round_trips_at_every_boundary() {
    let params = AgileParams {
        hash: "SHA1",
        key_bits: 192,
        spin_count: 3,
    };
    for len in [0, 1, 15, 16, 17, 4095, 4096, 4097, 8192] {
        let plaintext = sample(len);
        let encrypted = encrypt_agile(&plaintext, "pässwörd \u{1F512}", &params);
        assert_eq!(
            decrypt_from_bytes(encrypted, "pässwörd \u{1F512}"),
            Ok(plaintext)
        );
    }
}

#[test]
fn agile_wrong_password() {
    // A SHA512 file and a SHA1 file both report InvalidPassword.
    let sha512 = AgileParams {
        hash: "SHA512",
        key_bits: 256,
        spin_count: 100000,
    };
    for params in [&sha512, &AGILE_FIXTURES[0]] {
        let encrypted = encrypt_agile(&sample(100), "testPassword", params);
        let result = decrypt_from_bytes(encrypted, "wrongPassword");
        assert!(
            matches!(result, Err(DecryptError::InvalidPassword)),
            "expected InvalidPassword for {}, got {result:?}",
            params.hash
        );
    }
}

#[test]
fn agile_rejects_non_aes_block_size() {
    let (info, package) = read_ole_streams(encrypt_agile(
        &sample(100),
        "testPassword",
        &AGILE_FIXTURES[0],
    ));
    let xml = String::from_utf8(info[8..].to_vec()).unwrap();
    // Rewrite keyData/@blockSize only; p:encryptedKey carries a blockSize of its own.
    let (key_data, rest) = xml.split_once("<dataIntegrity").unwrap();
    let key_data = key_data.replace(r#"blockSize="16""#, r#"blockSize="2000000000""#);
    let mut info = info[..8].to_vec();
    info.extend_from_slice(format!("{key_data}<dataIntegrity{rest}").as_bytes());

    // A wrong password, so this fails if blockSize is only rejected later by the cipher: the
    // verifier would reach InvalidPassword first, and nothing would bound the IV allocation.
    let result = decrypt_from_bytes(build_ole(&info, &package), "wrongPassword");
    assert!(
        matches!(result, Err(DecryptError::InvalidStructure)),
        "expected InvalidStructure, got {result:?}"
    );
}

#[test]
fn agile_unknown_hash_is_unimplemented() {
    let params = AgileParams {
        hash: "SHA1",
        key_bits: 128,
        spin_count: 1,
    };
    let (info, package) = read_ole_streams(encrypt_agile(&sample(100), "pw", &params));
    let xml = String::from_utf8(info[8..].to_vec()).unwrap();
    let xml = xml.replace(r#"hashAlgorithm="SHA1""#, r#"hashAlgorithm="MD5""#);
    let mut info = info[..8].to_vec();
    info.extend_from_slice(xml.as_bytes());
    assert_eq!(
        decrypt_from_bytes(build_ole(&info, &package), "pw"),
        Err(DecryptError::Unimplemented(String::from("MD5")))
    );
}

#[test]
fn agile_both_spellings_of_a_hash_name() {
    let params = AgileParams {
        hash: "SHA384",
        key_bits: 256,
        spin_count: 5,
    };
    let plaintext = sample(5000);
    let (info, package) = read_ole_streams(encrypt_agile(&plaintext, "pw", &params));
    let xml = String::from_utf8(info[8..].to_vec()).unwrap();
    let xml = xml.replace("\"SHA384\"", "\"SHA-384\"");
    let mut info = info[..8].to_vec();
    info.extend_from_slice(xml.as_bytes());
    assert_eq!(
        decrypt_from_bytes(build_ole(&info, &package), "pw"),
        Ok(plaintext)
    );
}

#[test]
fn agile_package_stream_is_checked() {
    let params = AgileParams {
        hash: "SHA256",
        key_bits: 128,
        spin_count: 2,
    };
    let plaintext = sample(40);
    let (info, package) = read_ole_streams(encrypt_agile(&plaintext, "pw", &params));
    let open = |package: &[u8]| decrypt_from_bytes(build_ole(&info, package), "pw");

    // Too short for the size; a size beyond the ciphertext; a part of a block.
    assert_eq!(open(&[1, 2, 3]), Err(DecryptError::InvalidStructure));
    let mut oversized = package.clone();
    oversized[0] = 49;
    assert_eq!(open(&oversized), Err(DecryptError::InvalidStructure));
    let mut ragged = package.clone();
    ragged.push(0);
    assert_eq!(open(&ragged), Err(DecryptError::InvalidStructure));
    oversized[0] = 48;
    assert_eq!(open(&oversized).unwrap()[..40], plaintext[..]);

    // Further whole blocks change nothing.
    let mut longer = package.clone();
    longer.extend_from_slice(&[0xAB; 32]);
    assert_eq!(open(&longer), Ok(plaintext));
}

#[test]
fn standard_round_trips() {
    for key_bits in [128, 192, 256] {
        for len in [0, 1, 16, 4097] {
            let plaintext = sample(len);
            let encrypted = encrypt_standard(&plaintext, "Password1234_", key_bits);
            assert_eq!(
                decrypt_from_bytes(encrypted, "Password1234_"),
                Ok(plaintext)
            );
        }
    }
}

#[test]
fn standard_wrong_password() {
    let encrypted = encrypt_standard(&sample(1000), "Password1234_", 128);
    let result = decrypt_from_bytes(encrypted, "wrongPassword");
    assert!(matches!(result, Err(DecryptError::InvalidPassword)));
}

#[test]
fn standard_truncated_package() {
    let encrypted = encrypt_standard(&sample(1000), "Password1234_", 128);
    let (info, _) = read_ole_streams(encrypted);
    let result = decrypt_from_bytes(build_ole(&info, &[1, 2, 3]), "Password1234_");
    assert!(
        matches!(result, Err(DecryptError::InvalidStructure)),
        "expected InvalidStructure, got {result:?}"
    );
}

#[test]
fn standard_package_stream_is_checked() {
    let plaintext = sample(40);
    let (info, package) = read_ole_streams(encrypt_standard(&plaintext, "pw", 128));
    let open = |package: &[u8]| decrypt_from_bytes(build_ole(&info, package), "pw");

    let mut oversized = package.clone();
    oversized[0] = 49;
    assert_eq!(open(&oversized), Err(DecryptError::InvalidStructure));
    let mut ragged = package.clone();
    ragged.push(0);
    assert_eq!(open(&ragged), Err(DecryptError::InvalidStructure));

    // The upper half of the size is not read, and further whole blocks change nothing.
    let mut longer = package.clone();
    longer[4] = 1;
    longer.extend_from_slice(&[0xAB; 16]);
    assert_eq!(open(&longer), Ok(plaintext));
}

#[test]
fn standard_oversized_key_is_invalid() {
    let (mut info, package) = read_ole_streams(encrypt_standard(&sample(40), "pw", 128));
    info[28..32].copy_from_slice(&u32::to_le_bytes(328));
    assert_eq!(
        decrypt_from_bytes(build_ole(&info, &package), "pw"),
        Err(DecryptError::InvalidStructure)
    );
}
