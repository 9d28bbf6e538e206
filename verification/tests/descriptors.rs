//! Reading the descriptors of both kinds of encryption.

use office_crypto::agile::{compare_verifier, AgileEncryptionInfo};
use office_crypto::error::DecryptError;
use office_crypto::ole::OleStream;
use office_crypto::standard::{
    compare_verifier_hash, fill_with, key_from_digests, StandardEncryptionInfo,
};
use office_crypto::xml::{read_events, XmlAttribute, XmlEvent};

const KEY_DATA: &str = r#"<keyData saltSize="16" blockSize="16" keyBits="256" hashSize="64" cipherAlgorithm="AES" hashAlgorithm="SHA512" saltValue="AQID"/>"#;
const DATA_INTEGRITY: &str =
    r#"<dataIntegrity encryptedHmacKey="BAUG" encryptedHmacValue="BwgJ"/>"#;
const ENCRYPTED_KEY: &str = r#"<p:encryptedKey spinCount="100000" saltSize="16" blockSize="16" keyBits="128" hashAlgorithm="SHA1" saltValue="Cgs=" encryptedVerifierHashInput="DA==" encryptedVerifierHashValue="DQ4P" encryptedKeyValue="EBES"/>"#;

fn document(parts: &[&str]) -> String {
    format!(
        "<?xml version=\"1.0\" encoding=\"UTF-8\"?>\r\n<encryption>{}</encryption>",
        parts.concat()
    )
}

fn read(xml: &str) -> Result<AgileEncryptionInfo, DecryptError> {
    let mut stream = vec![4, 0, 4, 0, 0x40, 0, 0, 0];
    stream.extend_from_slice(xml.as_bytes());
    AgileEncryptionInfo::new(&OleStream { stream })
}

fn error(xml: &str) -> DecryptError {
    match read(xml) {
        Ok(info) => panic!("{info:?}"),
        Err(error) => error,
    }
}

#[test]
fn agile_descriptor_is_read() {
    let info = read(&document(&[KEY_DATA, DATA_INTEGRITY, ENCRYPTED_KEY])).unwrap();
    assert_eq!(info.key_data_salt, [1, 2, 3]);
    assert_eq!(info.key_data_hash_algorithm, "SHA512");
    assert_eq!(info.key_data_block_size, 16);
    assert_eq!(info.key_data_key_bits, 256);
    assert_eq!(info.encrypted_hmac_key, [4, 5, 6]);
    assert_eq!(info.encrypted_hmac_value, [7, 8, 9]);
    assert_eq!(info.encrypted_verifier_hash_input, [12]);
    assert_eq!(info.encrypted_verifier_hash_value, [13, 14, 15]);
    assert_eq!(info.encrypted_key_value, [16, 17, 18]);
    assert_eq!(info.spin_count, 100000);
    assert_eq!(info.password_salt, [10, 11]);
    assert_eq!(info.password_hash_algorithm, "SHA1");
    assert_eq!(info.password_key_bits, 128);
}

#[test]
fn agile_descriptor_is_read_from_events() {
    fn pair(key: &str, value: &str) -> XmlAttribute {
        XmlAttribute::Pair {
            key: key.as_bytes().to_vec(),
            value: value.as_bytes().to_vec(),
        }
    }
    let events = vec![
        XmlEvent::Other,
        XmlEvent::Empty {
            name: b"p:encryptedKey".to_vec(),
            attributes: vec![pair("keyBits", "192"), pair("spinCount", "10000000")],
        },
        XmlEvent::Empty {
            name: b"dataIntegrity".to_vec(),
            attributes: vec![],
        },
        XmlEvent::Empty {
            name: b"keyData".to_vec(),
            attributes: vec![
                pair("blockSize", "16"),
                pair("keyBits", "128"),
                pair("hashAlgorithm", "anything"),
            ],
        },
        XmlEvent::Eof,
        XmlEvent::Malformed,
    ];
    let info = AgileEncryptionInfo::from_events(&events).unwrap();
    assert_eq!(info.password_key_bits, 192);
    assert_eq!(info.spin_count, 10_000_000);
    assert_eq!(info.key_data_block_size, 16);
    assert_eq!(info.key_data_hash_algorithm, "anything");
    assert_eq!(info.password_hash_algorithm, "");
    assert_eq!(info.encrypted_key_value, []);

    assert!(matches!(
        AgileEncryptionInfo::from_events(&events[..3]),
        Err(DecryptError::InvalidStructure)
    ));
    assert!(matches!(
        AgileEncryptionInfo::from_events(&[XmlEvent::Malformed]),
        Err(DecryptError::InvalidStructure)
    ));
    assert!(matches!(
        AgileEncryptionInfo::from_events(&[]),
        Err(DecryptError::InvalidStructure)
    ));
    assert!(matches!(
        AgileEncryptionInfo::from_events(&[XmlEvent::Empty {
            name: b"keyData".to_vec(),
            attributes: vec![XmlAttribute::Malformed],
        }]),
        Err(DecryptError::InvalidStructure)
    ));
}

#[test]
fn xml_text_becomes_events() {
    let events = read_events("<?xml version=\"1.0\"?><a> <b x='1' y=\"&lt;\"/> text</a>");
    assert_eq!(events.len(), 6);
    assert!(matches!(events[0], XmlEvent::Other));
    assert!(matches!(events[1], XmlEvent::Other));
    match &events[2] {
        XmlEvent::Empty { name, attributes } => {
            assert_eq!(name, b"b");
            assert_eq!(attributes.len(), 2);
            match &attributes[1] {
                XmlAttribute::Pair { key, value } => {
                    assert_eq!(key, b"y");
                    assert_eq!(value, b"&lt;");
                }
                other => panic!("{other:?}"),
            }
        }
        other => panic!("{other:?}"),
    }
    assert!(matches!(events[3], XmlEvent::Other));
    assert!(matches!(events[4], XmlEvent::Other));
    assert!(matches!(events[5], XmlEvent::Eof));

    let events = read_events("<a></b>");
    assert!(matches!(events[events.len() - 1], XmlEvent::Malformed));
    let events = read_events("");
    assert_eq!(events.len(), 1);
    assert!(matches!(events[0], XmlEvent::Eof));
    let events = read_events("abc");
    assert_eq!(events.len(), 2);
    assert!(matches!(events[0], XmlEvent::Other));
    assert!(matches!(events[1], XmlEvent::Eof));
    // Nothing behind the first place that is not XML is looked at.
    let events = read_events("</b><c/>");
    assert_eq!(events.len(), 1);
    assert!(matches!(events[0], XmlEvent::Malformed));
    match &read_events("<b x=1 x='2'/>")[0] {
        XmlEvent::Empty { attributes, .. } => {
            assert!(matches!(attributes[0], XmlAttribute::Malformed));
        }
        other => panic!("{other:?}"),
    }
}

#[test]
fn only_the_first_element_of_a_name_counts() {
    let second = r#"<keyData blockSize="1" keyBits="1" saltValue="?"/>"#;
    let info = read(&document(&[
        KEY_DATA,
        second,
        DATA_INTEGRITY,
        r#"<dataIntegrity encryptedHmacKey="?"/>"#,
        ENCRYPTED_KEY,
        r#"<p:encryptedKey spinCount="-"/>"#,
    ]))
    .unwrap();
    assert_eq!(info.key_data_block_size, 16);
    assert_eq!(info.key_data_salt, [1, 2, 3]);
    assert_eq!(info.spin_count, 100000);
    // In front of the first element the same text is an error.
    assert_eq!(
        error(&document(&[
            second,
            KEY_DATA,
            DATA_INTEGRITY,
            ENCRYPTED_KEY
        ])),
        DecryptError::Unknown
    );
}

#[test]
fn other_elements_and_attributes_are_ignored() {
    let plain = read(&document(&[KEY_DATA, DATA_INTEGRITY, ENCRYPTED_KEY])).unwrap();
    let extended = KEY_DATA.replace("<keyData ", "<keyData spinCount=\"x\" SaltValue=\"?\" ");
    let info = read(&document(&[
        "<!-- comment --><other keyBits=\"x\"/><keyDataX saltValue=\"?\"/>",
        &extended,
        "text",
        DATA_INTEGRITY,
        "<keyEncryptors><keyEncryptor uri=\"u\">",
        ENCRYPTED_KEY,
        "</keyEncryptor></keyEncryptors><encryptedKey spinCount=\"x\"/>",
    ]))
    .unwrap();
    assert_eq!(format!("{info:?}"), format!("{plain:?}"));
}

#[test]
fn agile_elements_may_come_in_any_order() {
    let plain = read(&document(&[KEY_DATA, DATA_INTEGRITY, ENCRYPTED_KEY])).unwrap();
    let turned = read(&document(&[ENCRYPTED_KEY, KEY_DATA, DATA_INTEGRITY])).unwrap();
    assert_eq!(format!("{turned:?}"), format!("{plain:?}"));
}

#[test]
fn agile_attributes_may_come_in_any_order() {
    let plain = read(&document(&[KEY_DATA, DATA_INTEGRITY, ENCRYPTED_KEY])).unwrap();
    let turned = r#"<keyData saltValue="AQID" hashAlgorithm="SHA512" keyBits="256" blockSize="16"/>"#;
    let turned = read(&document(&[turned, DATA_INTEGRITY, ENCRYPTED_KEY])).unwrap();
    assert_eq!(format!("{turned:?}"), format!("{plain:?}"));
}

#[test]
fn the_first_error_is_reported() {
    // Bad base64 and a bad number are different errors: the one in front counts.
    for (attributes, expected) in [
        (r#"saltValue="?" keyBits="x""#, DecryptError::Unknown),
        (r#"keyBits="x" saltValue="?""#, DecryptError::InvalidStructure),
        (r#"saltValue="?" keyBits="128""#, DecryptError::Unknown),
        (r#"keyBits="128" saltValue="?""#, DecryptError::Unknown),
    ] {
        let key_data = format!("<keyData {attributes}/>");
        let text = document(&[&key_data, DATA_INTEGRITY, ENCRYPTED_KEY]);
        assert_eq!(error(&text), expected, "{attributes}");
    }
    let salt = r#"<keyData saltValue="?"/>"#;
    let rounds = r#"<p:encryptedKey spinCount="x"/>"#;
    assert_eq!(error(&document(&[salt, rounds])), DecryptError::Unknown);
    assert_eq!(
        error(&document(&[rounds, salt])),
        DecryptError::InvalidStructure
    );
}

#[test]
fn agile_elements_must_be_self_closing() {
    let open = KEY_DATA.replace("/>", "></keyData>");
    assert_eq!(
        error(&document(&[&open, DATA_INTEGRITY, ENCRYPTED_KEY])),
        DecryptError::InvalidStructure
    );
}

#[test]
fn agile_missing_elements_are_invalid() {
    for parts in [
        [KEY_DATA, DATA_INTEGRITY],
        [KEY_DATA, ENCRYPTED_KEY],
        [DATA_INTEGRITY, ENCRYPTED_KEY],
    ] {
        assert_eq!(error(&document(&parts)), DecryptError::InvalidStructure);
    }
}

#[test]
fn agile_malformed_text_is_invalid() {
    let whole = document(&[KEY_DATA, DATA_INTEGRITY, ENCRYPTED_KEY]);
    let broken = whole.replace("</encryption>", "</other>");
    assert_eq!(error(&broken), DecryptError::InvalidStructure);
    let duplicate = whole.replace("keyBits=\"256\"", "keyBits=\"256\" keyBits=\"256\"");
    assert_eq!(error(&duplicate), DecryptError::InvalidStructure);
    let unquoted = whole.replace("keyBits=\"256\"", "keyBits=256");
    assert_eq!(error(&unquoted), DecryptError::InvalidStructure);
    assert_eq!(error(""), DecryptError::InvalidStructure);
}

#[test]
fn agile_sizes_are_checked() {
    let with = |from: &str, to: &str| {
        read(&document(&[KEY_DATA, DATA_INTEGRITY, ENCRYPTED_KEY]).replace(from, to))
    };
    assert!(with("\"100000\"", "\"10000000\"").is_ok());
    assert!(with("\"100000\"", "\"0\"").is_ok());
    assert!(with("\"256\"", "\"+192\"").is_ok());
    for (from, to) in [
        ("\"100000\"", "\"10000001\""),
        ("\"100000\"", "\"4294967296\""),
        ("\"100000\"", "\"\""),
        ("keyBits=\"256\"", "keyBits=\"64\""),
        ("keyBits=\"256\"", ""),
        ("keyBits=\"128\"", "keyBits=\"129\""),
        ("keyBits=\"128\"", ""),
        ("<keyData saltSize=\"16\" blockSize=\"16\"", "<keyData blockSize=\"32\""),
        ("<keyData saltSize=\"16\" blockSize=\"16\"", "<keyData "),
    ] {
        assert!(
            matches!(with(from, to), Err(DecryptError::InvalidStructure)),
            "{to}"
        );
    }
}

#[test]
fn agile_bad_base64_is_unknown() {
    for (from, to) in [
        ("\"AQID\"", "\"AQI\""),
        ("\"BAUG\"", "\"BAUG=\""),
        ("\"BwgJ\"", "\"Bwg J\""),
        ("\"Cgs=\"", "\"Cgt=\""),
        ("\"DA==\"", "\"DA\""),
        ("\"DQ4P\"", "\"DQ4_\""),
        ("\"EBES\"", "\"E\""),
    ] {
        let text = document(&[KEY_DATA, DATA_INTEGRITY, ENCRYPTED_KEY]).replace(from, to);
        assert_eq!(error(&text), DecryptError::Unknown, "{to}");
    }
}

#[test]
fn agile_stream_is_checked() {
    for len in 0..8 {
        let stream = OleStream {
            stream: vec![4; len],
        };
        assert!(matches!(
            AgileEncryptionInfo::new(&stream),
            Err(DecryptError::InvalidStructure)
        ));
    }
    let mut stream = vec![4, 0, 4, 0, 0x40, 0, 0, 0];
    stream.extend_from_slice(&[0x3C, 0x61, 0xFF, 0x2F, 0x3E]);
    assert!(matches!(
        AgileEncryptionInfo::new(&OleStream { stream }),
        Err(DecryptError::InvalidStructure)
    ));
}

#[test]
fn agile_blank_descriptor() {
    let info = AgileEncryptionInfo::default();
    assert_eq!(info.key_data_salt, []);
    assert_eq!(info.key_data_hash_algorithm, "");
    assert_eq!(info.spin_count, 0);
    assert_eq!(
        info.password_hash("pw"),
        Err(DecryptError::Unimplemented(String::new()))
    );
    assert_eq!(
        info.verify_password(&[]),
        Err(DecryptError::Unimplemented(String::new()))
    );
    assert_eq!(
        info.secret_key(&[]),
        Err(DecryptError::Unimplemented(String::new()))
    );
    let stream = OleStream { stream: vec![0; 8] };
    assert_eq!(
        info.decrypt(&[0; 16], &stream),
        Err(DecryptError::Unimplemented(String::new()))
    );
}

#[test]
fn agile_short_verifier_is_invalid() {
    // One block decrypts, but it cannot hold a SHA-1 digest.
    let mut info = read(&document(&[KEY_DATA, DATA_INTEGRITY, ENCRYPTED_KEY])).unwrap();
    info.encrypted_verifier_hash_input = vec![0; 16];
    info.encrypted_verifier_hash_value = vec![0; 16];
    assert_eq!(
        info.verify_password(&[1, 2, 3]),
        Err(DecryptError::InvalidStructure)
    );
    info.encrypted_verifier_hash_value = vec![0; 32];
    assert_eq!(info.verify_password(&[1, 2, 3]), Ok(false));
    // A field that is not made of whole blocks cannot be decrypted.
    assert_eq!(
        info.secret_key(&[1, 2, 3]),
        Err(DecryptError::InvalidStructure)
    );
    info.encrypted_key_value = vec![0; 16];
    assert_eq!(info.secret_key(&[1, 2, 3]).unwrap().len(), 32);
    assert_eq!(info.secret_key(&[1, 2, 3]).unwrap()[16..], [0x36; 16]);
}

#[test]
fn agile_derived_keys_depend_on_the_block() {
    let mut info = AgileEncryptionInfo::default();
    info.password_hash_algorithm = String::from("SHA1");
    info.password_key_bits = 256;
    let key = info.derived_key(b"a", b"bc").unwrap();
    // SHA-1 of "abc", filled up with 0x36.
    assert_eq!(key[..4], [0xA9, 0x99, 0x3E, 0x36]);
    assert_eq!(key[16..20], [0x9C, 0xD0, 0xD8, 0x9D]);
    assert_eq!(key[20..], [0x36; 12]);
    assert_eq!(info.derived_key(b"ab", b"c"), Ok(key.clone()));
    assert!(info.derived_key(b"ab", b"d") != Ok(key));
}

fn standard_stream(header_size: u32, words: [u32; 8], name: &[u8], rest: &[u8]) -> OleStream {
    let mut stream = vec![3, 0, 2, 0, 0x24, 0, 0, 0];
    stream.extend_from_slice(&header_size.to_le_bytes());
    for word in words {
        stream.extend_from_slice(&word.to_le_bytes());
    }
    stream.extend_from_slice(name);
    stream.extend_from_slice(rest);
    OleStream { stream }
}

const WORDS: [u32; 8] = [0x24, 1, 0x660E, 0x8004, 128, 0x18, 2, 3];

fn verifier_bytes() -> Vec<u8> {
    let mut bytes = 16u32.to_le_bytes().to_vec();
    bytes.extend(100..116u8);
    bytes.extend(120..136u8);
    bytes.extend_from_slice(&20u32.to_le_bytes());
    bytes.extend(140..172u8);
    bytes
}

#[test]
fn standard_descriptor_is_read() {
    let mut rest = verifier_bytes();
    rest.extend_from_slice(&[1, 2, 3]);
    let info =
        StandardEncryptionInfo::new(&standard_stream(36, WORDS, b"A\0\xAC\x20", &rest)).unwrap();
    assert_eq!(info.flags, 0x24);
    assert_eq!(info.size_extra, 1);
    assert_eq!(info.alg_id, 0x660E);
    assert_eq!(info.alg_id_hash, 0x8004);
    assert_eq!(info.key_size, 128);
    assert_eq!(info.provider_type, 0x18);
    assert_eq!(info.reserved1, 2);
    assert_eq!(info.reserved2, 3);
    assert_eq!(info.csp_name, "A€");
    assert_eq!(info.salt_size, 16);
    assert_eq!(info.salt, (100..116u8).collect::<Vec<u8>>());
    assert_eq!(info.encrypted_verifier, (120..136u8).collect::<Vec<u8>>());
    assert_eq!(info.verifier_hash_size, 20);
    assert_eq!(
        info.encrypted_verifier_hash,
        (140..172u8).collect::<Vec<u8>>()
    );
}

#[test]
fn standard_provider_name_is_utf16() {
    // An odd byte is ignored; half a surrogate pair is not.
    let info =
        StandardEncryptionInfo::new(&standard_stream(35, WORDS, b"A\0\xAC", &verifier_bytes())).unwrap();
    assert_eq!(info.csp_name, "A");
    let info = StandardEncryptionInfo::new(&standard_stream(32, WORDS, b"", &verifier_bytes())).unwrap();
    assert_eq!(info.csp_name, "");
    assert!(matches!(
        StandardEncryptionInfo::new(&standard_stream(34, WORDS, b"\x3D\xD8", &verifier_bytes())),
        Err(DecryptError::InvalidStructure)
    ));
}

#[test]
fn standard_rc4_is_unimplemented() {
    for alg_id in [0x6801, 0, 0x6700, 0x166] {
        let mut words = WORDS;
        words[2] = alg_id;
        match StandardEncryptionInfo::new(&standard_stream(32, words, b"", &verifier_bytes())) {
            Err(error) => assert_eq!(error, DecryptError::Unimplemented(String::from("RC4"))),
            Ok(info) => panic!("{info:?}"),
        }
        // The algorithm is looked at before the verifier, and behind the provider's name.
        match StandardEncryptionInfo::new(&standard_stream(32, words, b"", b"")) {
            Err(error) => assert_eq!(error, DecryptError::Unimplemented(String::from("RC4"))),
            Ok(info) => panic!("{info:?}"),
        }
        match StandardEncryptionInfo::new(&standard_stream(34, words, b"\x12\xDD", b"")) {
            Err(error) => assert_eq!(error, DecryptError::InvalidStructure),
            Ok(info) => panic!("{info:?}"),
        }
    }
    // Only one byte of the number is looked at.
    let mut words = WORDS;
    words[2] = 0xABCD66EF;
    assert!(StandardEncryptionInfo::new(&standard_stream(32, words, b"", &verifier_bytes())).is_ok());
}

#[test]
fn standard_stream_is_checked() {
    let whole = standard_stream(36, WORDS, b"A\0B\0", &verifier_bytes());
    for len in 0..whole.stream.len() {
        let short = OleStream {
            stream: whole.stream[..len].to_vec(),
        };
        assert!(
            matches!(
                StandardEncryptionInfo::new(&short),
                Err(DecryptError::InvalidStructure)
            ),
            "{len}"
        );
    }
    assert!(StandardEncryptionInfo::new(&whole).is_ok());
    for header_size in [0, 31, 200, u32::MAX] {
        assert!(matches!(
            StandardEncryptionInfo::new(&standard_stream(header_size, WORDS, b"", &verifier_bytes())),
            Err(DecryptError::InvalidStructure)
        ));
    }
}

#[test]
fn standard_verifier_hash_size_is_checked() {
    let mut info =
        StandardEncryptionInfo::new(&standard_stream(32, WORDS, b"", &verifier_bytes())).unwrap();
    let key = info.key_from_password("pw").unwrap();
    assert_eq!(key.len(), 16);
    assert_eq!(info.verify_password(&key), Ok(false));
    info.verifier_hash_size = 0;
    assert_eq!(info.verify_password(&key), Ok(true));
    info.verifier_hash_size = 21;
    assert_eq!(
        info.verify_password(&key),
        Err(DecryptError::InvalidStructure)
    );
    assert_eq!(
        info.verify_password(&[0; 15]),
        Err(DecryptError::InvalidStructure)
    );
}

#[test]
fn standard_keys_have_the_stated_length() {
    let mut info =
        StandardEncryptionInfo::new(&standard_stream(32, WORDS, b"", &verifier_bytes())).unwrap();
    info.key_size = 320;
    let longest = info.key_from_password("pw").unwrap();
    assert_eq!(longest.len(), 40);
    for key_size in [0, 7, 8, 40, 128, 192, 256] {
        info.key_size = key_size;
        let key = info.key_from_password("pw").unwrap();
        assert_eq!(key[..], longest[..key_size as usize / 8]);
    }
}

#[test]
fn agile_verifier_compares_the_digest_only() {
    assert_eq!(compare_verifier(&[1, 2, 3], &[1, 2]), Ok(true));
    assert_eq!(compare_verifier(&[1, 2], &[1, 2]), Ok(true));
    assert_eq!(compare_verifier(&[1, 3, 3], &[1, 2]), Ok(false));
    assert_eq!(
        compare_verifier(&[1], &[1, 2]),
        Err(DecryptError::InvalidStructure)
    );
}

#[test]
fn standard_verifier_compares_the_stated_bytes() {
    assert_eq!(compare_verifier_hash(&[1, 2, 9], &[1, 2, 3], 2), Ok(true));
    assert_eq!(compare_verifier_hash(&[1, 2, 9], &[1, 2, 3], 3), Ok(false));
    assert_eq!(compare_verifier_hash(&[9], &[8], 0), Ok(true));
    assert_eq!(
        compare_verifier_hash(&[1, 2], &[1, 2, 3], 3),
        Err(DecryptError::InvalidStructure)
    );
    assert_eq!(
        compare_verifier_hash(&[1, 2, 3], &[1, 2], 3),
        Err(DecryptError::InvalidStructure)
    );
}

#[test]
fn standard_key_steps() {
    assert_eq!(key_from_digests(&[1, 2], &[3, 4], 3), [1, 2, 3]);
    assert_eq!(key_from_digests(&[1, 2], &[3, 4], 0), []);
    let buffer = fill_with(&[0x36, 0xFF], 0x36);
    assert_eq!(buffer.len(), 64);
    assert_eq!(buffer[..2], [0x00, 0xC9]);
    assert_eq!(buffer[2..], [0x36; 62]);
    assert_eq!(fill_with(&[0; 80], 0x5C), [0x5C; 64]);
}

#[test]
fn standard_blank_descriptor() {
    let info = StandardEncryptionInfo::default();
    assert_eq!(info.key_size, 0);
    assert_eq!(info.csp_name, "");
    assert_eq!(info.key_from_password("pw"), Ok(vec![]));
    assert_eq!(
        info.verify_password(&[]),
        Err(DecryptError::InvalidStructure)
    );
}
