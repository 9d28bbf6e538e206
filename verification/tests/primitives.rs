//! Encodings, hashes and ciphers on known values.

use base64::engine::general_purpose::STANDARD;
use base64::Engine;
use office_crypto::bytes::{
    bytes_equal, copied, cut_to_size, join_bytes, slice_copy, text_equal, u32_at, u32_le_bytes, u64_at,
};
use office_crypto::cipher::{aes_cbc_decrypt, aes_ecb_decrypt, normalize_key};
use office_crypto::encoding::{b64_decode, parse_u32, utf8_decode};
use office_crypto::error::DecryptError;
use office_crypto::hash::HashAlgorithm;
use office_crypto::utf16::{text_from_utf16le, utf16le_bytes};

fn hex(text: &str) -> Vec<u8> {
    (0..text.len() / 2)
        .map(|i| u8::from_str_radix(&text[2 * i..2 * i + 2], 16).unwrap())
        .collect()
}

#[test]
fn numbers_are_little_endian() {
    assert_eq!(u32_le_bytes(0), [0, 0, 0, 0]);
    assert_eq!(u32_le_bytes(0x12345678), [0x78, 0x56, 0x34, 0x12]);
    assert_eq!(u32_le_bytes(u32::MAX), [0xFF; 4]);
    let bytes = [9, 1, 2, 3, 4, 5, 6, 7, 8, 9];
    assert_eq!(u32_at(&bytes, 1), 0x04030201);
    assert_eq!(u32_at(&bytes, 6), 0x09080706);
    assert_eq!(u64_at(&bytes, 1), 0x0807060504030201);
    assert_eq!(u64_at(&[0xFF; 8], 0), u64::MAX);
}

#[test]
fn numbers_read_back() {
    for x in [0, 1, 255, 256, 65535, 65536, 0xDEADBEEF, u32::MAX] {
        assert_eq!(u32_at(&u32_le_bytes(x), 0), x);
    }
    for x in [0, 1, u32::MAX as u64 + 1, 0x0123456789ABCDEF, u64::MAX] {
        assert_eq!(u64_at(&x.to_le_bytes(), 0), x);
    }
}

#[test]
fn bytes_are_compared_and_copied() {
    assert!(bytes_equal(&[], &[]));
    assert!(bytes_equal(&[1, 2], &[1, 2]));
    assert!(!bytes_equal(&[1, 2], &[1, 3]));
    assert!(!bytes_equal(&[1, 2], &[1]));
    assert!(text_equal("keyData", "keyData"));
    assert!(!text_equal("keyData", "keydata"));
    assert_eq!(join_bytes(&[1, 2], &[3]), [1, 2, 3]);
    assert_eq!(copied(&[4, 5]), [4, 5]);
    assert_eq!(slice_copy(&[1, 2, 3, 4], 1, 3), [2, 3]);
    assert_eq!(slice_copy(&[1, 2, 3, 4], 2, 2), []);
}

#[test]
fn keys_are_normalized() {
    assert_eq!(normalize_key(vec![1, 2, 3], 2), [1, 2]);
    assert_eq!(normalize_key(vec![1, 2, 3], 3), [1, 2, 3]);
    assert_eq!(normalize_key(vec![1, 2], 5), [1, 2, 0x36, 0x36, 0x36]);
    assert_eq!(normalize_key(vec![], 2), [0x36, 0x36]);
    let once = normalize_key(vec![7; 20], 32);
    assert_eq!(normalize_key(once.clone(), 32), once);
}

#[test]
fn passwords_are_utf16() {
    assert_eq!(utf16le_bytes(""), []);
    assert_eq!(utf16le_bytes("aZ"), [0x61, 0, 0x5A, 0]);
    assert_eq!(utf16le_bytes("é€"), [0xE9, 0, 0xAC, 0x20]);
    assert_eq!(utf16le_bytes("\u{FFFF}"), [0xFF, 0xFF]);
    assert_eq!(utf16le_bytes("\u{10000}"), [0x00, 0xD8, 0x00, 0xDC]);
    assert_eq!(utf16le_bytes("\u{1F512}"), [0x3D, 0xD8, 0x12, 0xDD]);
    assert_eq!(utf16le_bytes("\u{10FFFF}"), [0xFF, 0xDB, 0xFF, 0xDF]);
    let text = "Pässwörd \u{D7FF}\u{E000}\u{1F512}!";
    let expected: Vec<u8> = text.encode_utf16().flat_map(u16::to_le_bytes).collect();
    assert_eq!(utf16le_bytes(text), expected);
}

#[test]
fn utf16_reads_back() {
    for text in ["", "Microsoft", "é€\0", "\u{10000}x\u{10FFFF}", "\u{1F512}"] {
        assert_eq!(
            text_from_utf16le(&utf16le_bytes(text)),
            Some(String::from(text))
        );
    }
}

#[test]
fn utf16_keeps_every_code_unit() {
    for bytes in [
        vec![],
        vec![0x41, 0x00, 0xAC, 0x20],
        vec![0x00, 0x00, 0xFF, 0xD7, 0x00, 0xE0, 0xFF, 0xFF],
        vec![0x00, 0xD8, 0x00, 0xDC, 0xFF, 0xDB, 0xFF, 0xDF],
    ] {
        let text = text_from_utf16le(&bytes).unwrap();
        assert_eq!(utf16le_bytes(&text), bytes);
    }
    let text = text_from_utf16le(&[0x41, 0x00, 0x42]).unwrap();
    assert_eq!(utf16le_bytes(&text), [0x41, 0x00]);
}

#[test]
fn utf16_needs_whole_pairs() {
    // A leading half alone, a trailing half alone, the halves the wrong way round.
    assert_eq!(text_from_utf16le(&[0x3D, 0xD8]), None);
    assert_eq!(text_from_utf16le(&[0x12, 0xDD]), None);
    assert_eq!(text_from_utf16le(&[0x12, 0xDD, 0x3D, 0xD8]), None);
    assert_eq!(text_from_utf16le(&[0x3D, 0xD8, 0x41, 0x00]), None);
    // An odd byte at the end is ignored.
    assert_eq!(
        text_from_utf16le(&[0x41, 0x00, 0x42]),
        Some(String::from("A"))
    );
    assert_eq!(text_from_utf16le(&[0x41]), Some(String::new()));
}

#[test]
fn utf8_is_checked() {
    assert_eq!(utf8_decode(vec![]), Ok(String::new()));
    assert_eq!(
        utf8_decode("é€\u{1F512}".as_bytes().to_vec()),
        Ok(String::from("é€\u{1F512}"))
    );
    assert_eq!(
        utf8_decode(vec![0x41, 0xFF]),
        Err(DecryptError::InvalidStructure)
    );
    assert_eq!(
        utf8_decode(vec![0xED, 0xA0, 0x80]),
        Err(DecryptError::InvalidStructure)
    );
}

#[test]
fn base64_is_decoded() {
    assert_eq!(b64_decode(b""), Ok(vec![]));
    assert_eq!(b64_decode(b"Zg=="), Ok(b"f".to_vec()));
    assert_eq!(b64_decode(b"Zm8="), Ok(b"fo".to_vec()));
    assert_eq!(b64_decode(b"Zm9v"), Ok(b"foo".to_vec()));
    assert_eq!(b64_decode(b"Zm9vYmFy"), Ok(b"foobar".to_vec()));
    assert_eq!(b64_decode(b"+/+/"), Ok(vec![0xFB, 0xFF, 0xBF]));
    assert_eq!(b64_decode(b"AAAA////"), Ok(vec![0, 0, 0, 255, 255, 255]));
}

#[test]
fn base64_refuses_other_texts() {
    for text in [
        "Zg",
        "Zg=",
        "Zm8",
        "Z",
        "Zm9v=",
        "Zm9vY",
        "Zh==",
        "Zm9=",
        "Zm9v\n",
        " Zm9v",
        "Zm 9v",
        "-_-_",
        "====",
        "=",
        "Zg==Zg==",
        "Zm9v&amp;",
    ] {
        assert_eq!(
            b64_decode(text.as_bytes()),
            Err(DecryptError::Unknown),
            "{text:?}"
        );
    }
}

#[test]
fn base64_ends_at_its_padding() {
    // Wherever the padding stands in a long text, nothing may follow it.
    for groups in [0, 1, 254, 255, 256, 511, 512, 1000] {
        let text = format!("{}Zg==", "AAAA".repeat(groups));
        let mut data = vec![0; 3 * groups];
        data.push(b'f');
        assert_eq!(b64_decode(text.as_bytes()), Ok(data));
        for rest in ["AAAA", "A", "=", "Zg=="] {
            assert_eq!(
                b64_decode(format!("{text}{rest}").as_bytes()),
                Err(DecryptError::Unknown),
                "{groups} {rest}"
            );
        }
    }
}

#[test]
fn base64_reads_back() {
    for len in [0, 1, 2, 3, 4, 5, 16, 47, 48, 64, 1023, 1024, 1025, 5000] {
        let data: Vec<u8> = (0..len).map(|i| (i * 37 + i / 256) as u8).collect();
        let text = STANDARD.encode(&data);
        assert_eq!(b64_decode(text.as_bytes()), Ok(data));
    }
}

#[test]
fn numbers_are_parsed() {
    assert_eq!(parse_u32(b"0"), Ok(0));
    assert_eq!(parse_u32(b"100000"), Ok(100000));
    assert_eq!(parse_u32(b"+5"), Ok(5));
    assert_eq!(parse_u32(b"00000000000000016"), Ok(16));
    assert_eq!(parse_u32(b"4294967295"), Ok(u32::MAX));
    for text in [
        "",
        "+",
        "-",
        "-0",
        "-1",
        "++1",
        "4294967296",
        "99999999999999999999",
        " 1",
        "1 ",
        "0x10",
        "1_000",
        "12a",
        "\u{661}",
    ] {
        assert_eq!(
            parse_u32(text.as_bytes()),
            Err(DecryptError::InvalidStructure),
            "{text:?}"
        );
        assert!(text.parse::<u32>().is_err());
    }
    assert_eq!(
        parse_u32(&[0x31, 0xFF]),
        Err(DecryptError::InvalidStructure)
    );
}

#[test]
fn hash_names_are_known() {
    for (name, algorithm) in [
        ("SHA1", HashAlgorithm::Sha1),
        ("SHA-1", HashAlgorithm::Sha1),
        ("SHA256", HashAlgorithm::Sha256),
        ("SHA-256", HashAlgorithm::Sha256),
        ("SHA384", HashAlgorithm::Sha384),
        ("SHA-384", HashAlgorithm::Sha384),
        ("SHA512", HashAlgorithm::Sha512),
        ("SHA-512", HashAlgorithm::Sha512),
    ] {
        assert_eq!(HashAlgorithm::parse(name), Ok(algorithm));
    }
    for name in ["", "sha1", "SHA", "MD5", "SHA2", "SHA-512 ", "WHIRLPOOL"] {
        assert_eq!(
            HashAlgorithm::parse(name),
            Err(DecryptError::Unimplemented(String::from(name)))
        );
    }
}

#[test]
fn digests_of_known_texts() {
    assert_eq!(
        HashAlgorithm::Sha1.digest(b"abc"),
        hex("a9993e364706816aba3e25717850c26c9cd0d89d")
    );
    assert_eq!(
        HashAlgorithm::Sha1.digest(b""),
        hex("da39a3ee5e6b4b0d3255bfef95601890afd80709")
    );
    assert_eq!(
        HashAlgorithm::Sha256.digest(b"abc"),
        hex("ba7816bf8f01cfea414140de5dae2223b00361a396177a9cb410ff61f20015ad")
    );
    assert_eq!(
        HashAlgorithm::Sha384.digest(b"abc"),
        hex(&[
            "cb00753f45a35e8bb5a03d699ac65007272c32ab0eded163",
            "1a8b605a43ff5bed8086072ba1e7cc2358baeca134c825a7",
        ]
        .concat())
    );
    assert_eq!(
        HashAlgorithm::Sha512.digest(b"abc"),
        hex(&[
            "ddaf35a193617abacc417349ae20413112e6fa4e89a97ea20a9eeee64b55d39a",
            "2192992a274fc1a836ba3c23a3feebbd454d4423643ce80e2a9ac94fa54ca49f",
        ]
        .concat())
    );
}

#[test]
fn iterated_hash_counts_its_rounds() {
    let salt = [1u8, 2, 3];
    let password = [4u8, 5];
    for algorithm in [
        HashAlgorithm::Sha1,
        HashAlgorithm::Sha256,
        HashAlgorithm::Sha384,
        HashAlgorithm::Sha512,
    ] {
        let zero = algorithm.digest(&[1, 2, 3, 4, 5]);
        assert_eq!(algorithm.iterated_hash(&salt, &password, 0), zero);
        let one = algorithm.digest(&[&[0, 0, 0, 0], zero.as_slice()].concat());
        assert_eq!(algorithm.iterated_hash(&salt, &password, 1), one);
        let two = algorithm.digest(&[&[1, 0, 0, 0], one.as_slice()].concat());
        assert_eq!(algorithm.iterated_hash(&salt, &password, 2), two);
        let mut h = two;
        for i in 2..300u32 {
            h = algorithm.digest(&[&i.to_le_bytes(), h.as_slice()].concat());
        }
        assert_eq!(algorithm.iterated_hash(&salt, &password, 300), h);
    }
}

#[test]
fn aes_known_blocks() {
    // One known block for each length of the key.
    let plaintext = hex("00112233445566778899aabbccddeeff");
    for (key, ciphertext) in [
        (
            "000102030405060708090a0b0c0d0e0f",
            "69c4e0d86a7b0430d8cdb78070b4c55a",
        ),
        (
            "000102030405060708090a0b0c0d0e0f1011121314151617",
            "dda97ca4864cdfe06eaf70a0ec0d7191",
        ),
        (
            "000102030405060708090a0b0c0d0e0f101112131415161718191a1b1c1d1e1f",
            "8ea2b7ca516745bfeafc49904b496089",
        ),
    ] {
        let key = hex(key);
        let ciphertext = hex(ciphertext);
        assert_eq!(aes_ecb_decrypt(&key, &ciphertext), Ok(plaintext.clone()));
        assert_eq!(
            aes_ecb_decrypt(&key, &ciphertext.repeat(3)),
            Ok(plaintext.repeat(3))
        );
        assert_eq!(
            aes_cbc_decrypt(&key, &[0; 16], &ciphertext),
            Ok(plaintext.clone())
        );
        // In CBC mode the vector masks the first block, and each block masks the next.
        let iv: Vec<u8> = (0..16u8).collect();
        let masked: Vec<u8> = plaintext.iter().zip(&iv).map(|(a, b)| a ^ b).collect();
        let second: Vec<u8> = plaintext
            .iter()
            .zip(&ciphertext)
            .map(|(a, b)| a ^ b)
            .collect();
        assert_eq!(
            aes_cbc_decrypt(&key, &iv, &ciphertext.repeat(2)),
            Ok([masked, second].concat())
        );
    }
}

#[test]
fn aes_cbc_known_vector() {
    let key = hex("2b7e151628aed2a6abf7158809cf4f3c");
    let iv = hex("000102030405060708090a0b0c0d0e0f");
    let ciphertext = hex("7649abac8119b246cee98e9b12e9197d5086cb9b507219ee95db113a917678b2");
    let plaintext = hex("6bc1bee22e409f96e93d7e117393172aae2d8a571e03ac9c9eb76fac45af8e51");
    assert_eq!(aes_cbc_decrypt(&key, &iv, &ciphertext), Ok(plaintext));
}

#[test]
fn aes_refuses_other_lengths() {
    let invalid = Err(DecryptError::InvalidStructure);
    for len in [0, 8, 15, 17, 23, 25, 31, 33, 40] {
        assert_eq!(aes_cbc_decrypt(&vec![0; len], &[0; 16], &[0; 16]), invalid);
        assert_eq!(aes_ecb_decrypt(&vec![0; len], &[0; 16]), invalid);
        assert_eq!(aes_cbc_decrypt(&vec![0; len], &[0; 16], &[]), invalid);
    }
    for len in [16, 24, 32] {
        assert_eq!(aes_cbc_decrypt(&vec![0; len], &[0; 15], &[0; 16]), invalid);
        assert_eq!(aes_cbc_decrypt(&vec![0; len], &[0; 17], &[0; 16]), invalid);
        assert_eq!(aes_cbc_decrypt(&vec![0; len], &[0; 16], &[0; 17]), invalid);
        assert_eq!(aes_ecb_decrypt(&vec![0; len], &[0; 15]), invalid);
        assert_eq!(
            aes_cbc_decrypt(&vec![0; len], &[0; 16], &[]),
            Ok(Vec::new())
        );
        assert_eq!(aes_ecb_decrypt(&vec![0; len], &[]), Ok(Vec::new()));
    }
}

#[test]
fn packages_are_cut_to_their_size() {
    assert_eq!(cut_to_size(vec![1, 2, 3], 0), Ok(vec![]));
    assert_eq!(cut_to_size(vec![1, 2, 3], 2), Ok(vec![1, 2]));
    assert_eq!(cut_to_size(vec![1, 2, 3], 3), Ok(vec![1, 2, 3]));
    for size in [4, 1 << 32, u64::MAX] {
        assert_eq!(
            cut_to_size(vec![1, 2, 3], size),
            Err(DecryptError::InvalidStructure)
        );
    }
}
