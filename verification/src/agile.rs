//! Agile encryption.

use vstd::prelude::*;
use vstd::utf8::encode_utf8;

use crate::bytes::{
    bytes_equal, copied, cut, cut_to_size, join_bytes, le_u32_bytes, le_value, slice_copy,
    u32_le_bytes, u64_at,
};
use crate::cipher::{
    aes_cbc_decrypt, aes_key_len, cbc_decrypted, cbc_plaintext, normalize_key, normalized,
    AES_BLOCK_SIZE,
};
use crate::encoding::{
    b64_decode, base64_data, decimal_u32, parse_u32, utf8_decode, utf8_text,
};
use crate::error::{outcome, DecryptError, ErrorView};
use crate::hash::{algorithm_named, digest_len, digest_of, iterated_hash_of, HashAlgorithm};
use crate::ole::OleStream;
use crate::utf16::{utf16le, utf16le_bytes};
use crate::xml::{
    attribute_views, event_views, read_events, text_events, AttributeView, EventView,
    XmlAttribute, XmlEvent,
};

verus! {

/// The block key for the verifier's input.
pub const BLOCK_VERIFIER_HASH_INPUT: [u8; 8] = [0xFE, 0xA7, 0xD2, 0x76, 0x3B, 0x4B, 0x9E, 0x79];

/// The block key for the verifier's hash value.
pub const BLOCK_VERIFIER_HASH_VALUE: [u8; 8] = [0xD7, 0xAA, 0x0F, 0x6D, 0x30, 0x61, 0x34, 0x4E];

/// The block key for the package key.
pub const BLOCK_ENCRYPTED_KEY_VALUE: [u8; 8] = [0x14, 0x6E, 0x0B, 0xE7, 0xAB, 0xAC, 0xD0, 0xD6];

/// The length of the segments into which a package is cut.
pub const SEGMENT_LENGTH: usize = 4096;

/// The most rounds that a descriptor may ask for.
pub const MAX_SPIN_COUNT: u32 = 10_000_000;

/// What the descriptor of an agile-encrypted document says.
#[derive(Debug)]
pub struct AgileEncryptionInfo {
    pub key_data_salt: Vec<u8>,
    pub key_data_hash_algorithm: String,
    pub key_data_block_size: u32,
    pub key_data_key_bits: u32,
    pub encrypted_hmac_key: Vec<u8>,
    pub encrypted_hmac_value: Vec<u8>,
    pub encrypted_verifier_hash_input: Vec<u8>,
    pub encrypted_verifier_hash_value: Vec<u8>,
    pub encrypted_key_value: Vec<u8>,
    pub spin_count: u32,
    pub password_salt: Vec<u8>,
    pub password_hash_algorithm: String,
    pub password_key_bits: u32,
}

/// The contents of an [`AgileEncryptionInfo`], as a mathematical value.
#[verifier::ext_equal]
pub struct AgileView {
    pub key_data_salt: Seq<u8>,
    pub key_data_hash_algorithm: Seq<char>,
    pub key_data_block_size: u32,
    pub key_data_key_bits: u32,
    pub encrypted_hmac_key: Seq<u8>,
    pub encrypted_hmac_value: Seq<u8>,
    pub encrypted_verifier_hash_input: Seq<u8>,
    pub encrypted_verifier_hash_value: Seq<u8>,
    pub encrypted_key_value: Seq<u8>,
    pub spin_count: u32,
    pub password_salt: Seq<u8>,
    pub password_hash_algorithm: Seq<char>,
    pub password_key_bits: u32,
}

impl View for AgileEncryptionInfo {
    type V = AgileView;

    open spec fn view(&self) -> AgileView {
        AgileView {
            key_data_salt: self.key_data_salt@,
            key_data_hash_algorithm: self.key_data_hash_algorithm@,
            key_data_block_size: self.key_data_block_size,
            key_data_key_bits: self.key_data_key_bits,
            encrypted_hmac_key: self.encrypted_hmac_key@,
            encrypted_hmac_value: self.encrypted_hmac_value@,
            encrypted_verifier_hash_input: self.encrypted_verifier_hash_input@,
            encrypted_verifier_hash_value: self.encrypted_verifier_hash_value@,
            encrypted_key_value: self.encrypted_key_value@,
            spin_count: self.spin_count,
            password_salt: self.password_salt@,
            password_hash_algorithm: self.password_hash_algorithm@,
            password_key_bits: self.password_key_bits,
        }
    }
}

/// Whether a number of bits is the length of an AES key.
pub open spec fn aes_key_bits(bits: u32) -> bool {
    bits == 128 || bits == 192 || bits == 256
}

impl AgileView {
    /// The descriptor in which nothing has been set.
    pub open spec fn blank() -> AgileView {
        AgileView {
            key_data_salt: seq![],
            key_data_hash_algorithm: seq![],
            key_data_block_size: 0,
            key_data_key_bits: 0,
            encrypted_hmac_key: seq![],
            encrypted_hmac_value: seq![],
            encrypted_verifier_hash_input: seq![],
            encrypted_verifier_hash_value: seq![],
            encrypted_key_value: seq![],
            spin_count: 0,
            password_salt: seq![],
            password_hash_algorithm: seq![],
            password_key_bits: 0,
        }
    }

    /// What holds of every descriptor that was read from a document: the number of rounds is
    /// bounded, and the sizes of keys and blocks are those of AES.
    pub open spec fn well_formed(self) -> bool {
        &&& self.spin_count <= MAX_SPIN_COUNT
        &&& aes_key_bits(self.key_data_key_bits)
        &&& aes_key_bits(self.password_key_bits)
        &&& self.key_data_block_size == AES_BLOCK_SIZE
    }
}

/// The descriptor after the attribute `key="value"` of its `keyData` element.
pub open spec fn set_key_data(info: AgileView, key: Seq<u8>, value: Seq<u8>) -> Result<
    AgileView,
    ErrorView,
> {
    if key == encode_utf8("saltValue"@) {
        match base64_data(value) {
            Ok(salt) => Ok(AgileView { key_data_salt: salt, ..info }),
            Err(error) => Err(error),
        }
    } else if key == encode_utf8("hashAlgorithm"@) {
        match utf8_text(value) {
            Ok(name) => Ok(AgileView { key_data_hash_algorithm: name, ..info }),
            Err(error) => Err(error),
        }
    } else if key == encode_utf8("blockSize"@) {
        match decimal_u32(value) {
            Ok(size) => Ok(AgileView { key_data_block_size: size, ..info }),
            Err(error) => Err(error),
        }
    } else if key == encode_utf8("keyBits"@) {
        match decimal_u32(value) {
            Ok(bits) => Ok(AgileView { key_data_key_bits: bits, ..info }),
            Err(error) => Err(error),
        }
    } else {
        Ok(info)
    }
}

/// The descriptor after the attribute `key="value"` of its `dataIntegrity` element.
pub open spec fn set_data_integrity(info: AgileView, key: Seq<u8>, value: Seq<u8>) -> Result<
    AgileView,
    ErrorView,
> {
    if key == encode_utf8("encryptedHmacKey"@) {
        match base64_data(value) {
            Ok(data) => Ok(AgileView { encrypted_hmac_key: data, ..info }),
            Err(error) => Err(error),
        }
    } else if key == encode_utf8("encryptedHmacValue"@) {
        match base64_data(value) {
            Ok(data) => Ok(AgileView { encrypted_hmac_value: data, ..info }),
            Err(error) => Err(error),
        }
    } else {
        Ok(info)
    }
}

/// The descriptor after the attribute `key="value"` of its `p:encryptedKey` element.
pub open spec fn set_encrypted_key(info: AgileView, key: Seq<u8>, value: Seq<u8>) -> Result<
    AgileView,
    ErrorView,
> {
    if key == encode_utf8("encryptedVerifierHashInput"@) {
        match base64_data(value) {
            Ok(data) => Ok(AgileView { encrypted_verifier_hash_input: data, ..info }),
            Err(error) => Err(error),
        }
    } else if key == encode_utf8("encryptedVerifierHashValue"@) {
        match base64_data(value) {
            Ok(data) => Ok(AgileView { encrypted_verifier_hash_value: data, ..info }),
            Err(error) => Err(error),
        }
    } else if key == encode_utf8("encryptedKeyValue"@) {
        match base64_data(value) {
            Ok(data) => Ok(AgileView { encrypted_key_value: data, ..info }),
            Err(error) => Err(error),
        }
    } else if key == encode_utf8("spinCount"@) {
        match decimal_u32(value) {
            Ok(count) => Ok(AgileView { spin_count: count, ..info }),
            Err(error) => Err(error),
        }
    } else if key == encode_utf8("saltValue"@) {
        match base64_data(value) {
            Ok(salt) => Ok(AgileView { password_salt: salt, ..info }),
            Err(error) => Err(error),
        }
    } else if key == encode_utf8("hashAlgorithm"@) {
        match utf8_text(value) {
            Ok(name) => Ok(AgileView { password_hash_algorithm: name, ..info }),
            Err(error) => Err(error),
        }
    } else if key == encode_utf8("keyBits"@) {
        match decimal_u32(value) {
            Ok(bits) => Ok(AgileView { password_key_bits: bits, ..info }),
            Err(error) => Err(error),
        }
    } else {
        Ok(info)
    }
}

/// The elements of a descriptor that are read.
#[derive(Clone, Copy, Debug, PartialEq, Eq, Structural)]
pub enum Element {
    KeyData,
    DataIntegrity,
    EncryptedKey,
}

/// The element that `name` is the name of.
pub open spec fn element_named(name: Seq<u8>) -> Option<Element> {
    if name == encode_utf8("keyData"@) {
        Some(Element::KeyData)
    } else if name == encode_utf8("dataIntegrity"@) {
        Some(Element::DataIntegrity)
    } else if name == encode_utf8("p:encryptedKey"@) {
        Some(Element::EncryptedKey)
    } else {
        None
    }
}

/// The descriptor after one attribute of `element`.
pub open spec fn set_attribute(
    element: Element,
    info: AgileView,
    attribute: AttributeView,
) -> Result<AgileView, ErrorView> {
    match attribute {
        AttributeView::Malformed => Err(ErrorView::InvalidStructure),
        AttributeView::Pair { key, value } => match element {
            Element::KeyData => set_key_data(info, key, value),
            Element::DataIntegrity => set_data_integrity(info, key, value),
            Element::EncryptedKey => set_encrypted_key(info, key, value),
        },
    }
}

/// The descriptor after all attributes of `element`, in order, up to the first error.
pub open spec fn set_attributes(
    element: Element,
    info: AgileView,
    attributes: Seq<AttributeView>,
) -> Result<AgileView, ErrorView>
    decreases attributes.len(),
{
    if attributes.len() == 0 {
        Ok(info)
    } else {
        match set_attribute(element, info, attributes[0]) {
            Ok(next) => set_attributes(element, next, attributes.skip(1)),
            Err(error) => Err(error),
        }
    }
}

/// A descriptor while it is read, with the elements that were seen.
#[verifier::ext_equal]
pub struct ScanView {
    pub info: AgileView,
    pub key_data: bool,
    pub data_integrity: bool,
    pub encrypted_key: bool,
}

impl ScanView {
    /// Where reading starts.
    pub open spec fn start() -> ScanView {
        ScanView {
            info: AgileView::blank(),
            key_data: false,
            data_integrity: false,
            encrypted_key: false,
        }
    }

    /// Whether `element` was seen.
    pub open spec fn seen(self, element: Element) -> bool {
        match element {
            Element::KeyData => self.key_data,
            Element::DataIntegrity => self.data_integrity,
            Element::EncryptedKey => self.encrypted_key,
        }
    }

    /// The same, with `element` marked as seen and the descriptor replaced.
    pub open spec fn mark(self, element: Element, info: AgileView) -> ScanView {
        match element {
            Element::KeyData => ScanView { info, key_data: true, ..self },
            Element::DataIntegrity => ScanView { info, data_integrity: true, ..self },
            Element::EncryptedKey => ScanView { info, encrypted_key: true, ..self },
        }
    }
}

/// The state after a self-closing element. Only the first element of each name counts.
pub open spec fn scan_element(
    state: ScanView,
    name: Seq<u8>,
    attributes: Seq<AttributeView>,
) -> Result<ScanView, ErrorView> {
    match element_named(name) {
        Some(element) => if state.seen(element) {
            Ok(state)
        } else {
            match set_attributes(element, state.info, attributes) {
                Ok(info) => Ok(state.mark(element, info)),
                Err(error) => Err(error),
            }
        },
        None => Ok(state),
    }
}

/// The state after events, read in order up to the end of the text or the first error.
pub open spec fn scan(state: ScanView, events: Seq<EventView>) -> Result<ScanView, ErrorView>
    decreases events.len(),
{
    if events.len() == 0 {
        Ok(state)
    } else {
        match events[0] {
            EventView::Eof => Ok(state),
            EventView::Malformed => Err(ErrorView::InvalidStructure),
            EventView::Other => scan(state, events.skip(1)),
            EventView::Empty { name, attributes } => match scan_element(state, name, attributes) {
                Ok(next) => scan(next, events.skip(1)),
                Err(error) => Err(error),
            },
        }
    }
}

/// The descriptor that events describe: all three elements are there and the sizes are in order.
pub open spec fn descriptor_of(events: Seq<EventView>) -> Result<AgileView, ErrorView> {
    match scan(ScanView::start(), events) {
        Ok(state) => if state.key_data && state.data_integrity && state.encrypted_key
            && state.info.well_formed() {
            Ok(state.info)
        } else {
            Err(ErrorView::InvalidStructure)
        },
        Err(error) => Err(error),
    }
}

/// The descriptor that an `EncryptionInfo` stream holds: eight bytes of version and flags, then
/// the XML text.
pub open spec fn agile_info(stream: Seq<u8>) -> Result<AgileView, ErrorView> {
    if stream.len() < 8 {
        Err(ErrorView::InvalidStructure)
    } else {
        match utf8_text(stream.skip(8)) {
            Ok(text) => descriptor_of(text_events(text)),
            Err(error) => Err(error),
        }
    }
}

/// The iterated hash of a password under the descriptor's salt and round count.
pub open spec fn agile_password_hash(info: AgileView, password: Seq<char>) -> Result<
    Seq<u8>,
    ErrorView,
> {
    match algorithm_named(info.password_hash_algorithm) {
        Ok(algorithm) => Ok(
            iterated_hash_of(
                algorithm,
                info.password_salt,
                utf16le(password),
                info.spin_count as nat,
            ),
        ),
        Err(error) => Err(error),
    }
}

/// The key for one purpose: the digest of the password hash and the purpose's block key, brought
/// to the length of a password key.
pub open spec fn agile_derived_key(info: AgileView, password_hash: Seq<u8>, block: Seq<u8>) -> Result<
    Seq<u8>,
    ErrorView,
> {
    match algorithm_named(info.password_hash_algorithm) {
        Ok(algorithm) => Ok(
            normalized(
                digest_of(algorithm, password_hash + block),
                (info.password_key_bits / 8) as nat,
            ),
        ),
        Err(error) => Err(error),
    }
}

/// The initialisation vector for what is encrypted under the password.
pub open spec fn password_iv(info: AgileView) -> Seq<u8> {
    normalized(info.password_salt, 16)
}

/// A field of the descriptor, decrypted under the key that the password hash and a block key
/// give.
pub open spec fn agile_unwrapped(
    info: AgileView,
    password_hash: Seq<u8>,
    block: Seq<u8>,
    field: Seq<u8>,
) -> Result<Seq<u8>, ErrorView> {
    match agile_derived_key(info, password_hash, block) {
        Ok(key) => cbc_decrypted(key, password_iv(info), field),
        Err(error) => Err(error),
    }
}

/// Whether a password hash belongs to the document: the verifier's input, decrypted, has the
/// digest with which the verifier's hash value, decrypted, begins.
pub open spec fn agile_verified(info: AgileView, password_hash: Seq<u8>) -> Result<bool, ErrorView> {
    match algorithm_named(info.password_hash_algorithm) {
        Ok(algorithm) => match agile_unwrapped(
            info,
            password_hash,
            BLOCK_VERIFIER_HASH_INPUT@,
            info.encrypted_verifier_hash_input,
        ) {
            Ok(input) => match agile_unwrapped(
                info,
                password_hash,
                BLOCK_VERIFIER_HASH_VALUE@,
                info.encrypted_verifier_hash_value,
            ) {
                Ok(expected) => if expected.len() < digest_len(algorithm) {
                    Err(ErrorView::InvalidStructure)
                } else {
                    Ok(expected.take(digest_len(algorithm) as int) == digest_of(algorithm, input))
                },
                Err(error) => Err(error),
            },
            Err(error) => Err(error),
        },
        Err(error) => Err(error),
    }
}

/// The key of the package: the encrypted key value, decrypted and brought to the length of a
/// package key.
pub open spec fn agile_secret_key(info: AgileView, password_hash: Seq<u8>) -> Result<
    Seq<u8>,
    ErrorView,
> {
    match agile_unwrapped(
        info,
        password_hash,
        BLOCK_ENCRYPTED_KEY_VALUE@,
        info.encrypted_key_value,
    ) {
        Ok(key) => Ok(normalized(key, (info.key_data_key_bits / 8) as nat)),
        Err(error) => Err(error),
    }
}

/// The segment of a package's ciphertext with the given number. The last one may be shorter.
pub open spec fn segment(ciphertext: Seq<u8>, index: int) -> Seq<u8> {
    ciphertext.subrange(
        index * SEGMENT_LENGTH,
        if (index + 1) * SEGMENT_LENGTH <= ciphertext.len() {
            (index + 1) * SEGMENT_LENGTH
        } else {
            ciphertext.len() as int
        },
    )
}

/// The initialisation vector of a segment: the digest of the salt and the segment's number, of which
/// the lowest 32 bits are written, brought to the length of a block.
pub open spec fn segment_iv(info: AgileView, algorithm: HashAlgorithm, index: int) -> Seq<u8> {
    normalized(
        digest_of(
            algorithm,
            info.key_data_salt + le_u32_bytes((index % 0x1_0000_0000) as u32),
        ),
        info.key_data_block_size as nat,
    )
}

/// The plaintext of a package, segment by segment.
pub open spec fn agile_plaintext(
    info: AgileView,
    algorithm: HashAlgorithm,
    key: Seq<u8>,
    ciphertext: Seq<u8>,
) -> Seq<u8> {
    Seq::new(
        ciphertext.len(),
        |i: int|
            cbc_plaintext(
                key,
                segment_iv(info, algorithm, i / SEGMENT_LENGTH as int),
                segment(ciphertext, i / SEGMENT_LENGTH as int),
            )[i % SEGMENT_LENGTH as int],
    )
}

/// Whether every segment of a package's ciphertext can be decrypted: the key and the
/// initialisation vectors have the lengths of AES, and the ciphertext is made of whole blocks.
pub open spec fn segments_fit(info: AgileView, key: Seq<u8>, ciphertext: Seq<u8>) -> bool {
    ciphertext.len() > 0 ==> {
        &&& aes_key_len(key.len())
        &&& info.key_data_block_size == AES_BLOCK_SIZE
        &&& ciphertext.len() % 16 == 0
    }
}

/// The package that an `EncryptedPackage` stream holds: eight bytes with the package's size, then
/// its ciphertext, which can be longer than the package.
pub open spec fn agile_package(info: AgileView, key: Seq<u8>, stream: Seq<u8>) -> Result<
    Seq<u8>,
    ErrorView,
> {
    match algorithm_named(info.key_data_hash_algorithm) {
        Ok(algorithm) => {
            let size = le_value(stream.take(8));
            let ciphertext = stream.skip(8);
            if stream.len() >= 8 && segments_fit(info, key, ciphertext) {
                cut(agile_plaintext(info, algorithm, key, ciphertext), size)
            } else {
                Err(ErrorView::InvalidStructure)
            }
        },
        Err(error) => Err(error),
    }
}

proof fn lemma_segment(ciphertext: Seq<u8>, start: int, end: int, index: int)
    requires
        0 <= start < ciphertext.len(),
        start == index * 4096,
        end == if ciphertext.len() - start < 4096 {
            ciphertext.len() as int
        } else {
            start + 4096
        },
    ensures
        ciphertext.subrange(start, end) == segment(ciphertext, index),
        segment(ciphertext, index).len() == end - start,
        end < ciphertext.len() ==> (end - start) % 16 == 0,
        (end - start) % 16 != 0 ==> ciphertext.len() % 16 != 0,
        end == ciphertext.len() && (end - start) % 16 == 0 ==> ciphertext.len() % 16 == 0,
{
}

proof fn lemma_plaintext_grows(
    info: AgileView,
    algorithm: HashAlgorithm,
    key: Seq<u8>,
    ciphertext: Seq<u8>,
    index: int,
)
    requires
        0 <= index,
        index * 4096 < ciphertext.len(),
    ensures
        agile_plaintext(info, algorithm, key, ciphertext).take(
            index * 4096 + segment(ciphertext, index).len(),
        ) == agile_plaintext(info, algorithm, key, ciphertext).take(index * 4096) + cbc_plaintext(
            key,
            segment_iv(info, algorithm, index),
            segment(ciphertext, index),
        ),
{
    let start = index * 4096;
    let end = start + segment(ciphertext, index).len();
    let whole = agile_plaintext(info, algorithm, key, ciphertext);
    let piece = cbc_plaintext(
        key,
        segment_iv(info, algorithm, index),
        segment(ciphertext, index),
    );
    assert forall|i: int| start <= i < end implies whole[i] == piece[i - start] by {
        assert(i / 4096 == index);
        assert(i % 4096 == i - start);
    }
    assert(whole.take(end) =~= whole.take(start) + piece);
}

/// Whether `expected` begins with `actual`; it must be as long.
pub open spec fn compared(expected: Seq<u8>, actual: Seq<u8>) -> Result<bool, ErrorView> {
    if expected.len() < actual.len() {
        Err(ErrorView::InvalidStructure)
    } else {
        Ok(expected.take(actual.len() as int) == actual)
    }
}

/// Compares the digest of a verifier's input with the stored one. That one is padded up to whole
/// cipher blocks: only the digest is compared.
pub fn compare_verifier(expected: &[u8], actual: &[u8]) -> (result: Result<bool, DecryptError>)
    ensures
        outcome(result) == compared(expected@, actual@),
{
    if expected.len() < actual.len() {
        return Err(DecryptError::InvalidStructure);
    }
    assert(expected@.subrange(0, actual@.len() as int) =~= expected@.take(actual@.len() as int));
    Ok(bytes_equal(&expected[0..actual.len()], actual))
}

/// Whether `bytes` are the UTF-8 bytes of `text`.
fn is_text(bytes: &[u8], text: &str) -> (same: bool)
    ensures
        same == (bytes@ == encode_utf8(text@)),
{
    bytes_equal(bytes, text.as_bytes())
}

/// Whether a number of bits is the length of an AES key.
fn is_aes_key_bits(bits: u32) -> (valid: bool)
    ensures
        valid == aes_key_bits(bits),
{
    matches!(bits, 128 | 192 | 256)
}

/// The element that `name` is the name of.
fn find_element(name: &[u8]) -> (element: Option<Element>)
    ensures
        element == element_named(name@),
{
    if is_text(name, "keyData") {
        Some(Element::KeyData)
    } else if is_text(name, "dataIntegrity") {
        Some(Element::DataIntegrity)
    } else if is_text(name, "p:encryptedKey") {
        Some(Element::EncryptedKey)
    } else {
        None
    }
}

impl Default for AgileEncryptionInfo {
    fn default() -> (info: Self)
        ensures
            info@ == AgileView::blank(),
    {
        AgileEncryptionInfo {
            key_data_salt: Vec::new(),
            key_data_hash_algorithm: String::new(),
            key_data_block_size: 0,
            key_data_key_bits: 0,
            encrypted_hmac_key: Vec::new(),
            encrypted_hmac_value: Vec::new(),
            encrypted_verifier_hash_input: Vec::new(),
            encrypted_verifier_hash_value: Vec::new(),
            encrypted_key_value: Vec::new(),
            spin_count: 0,
            password_salt: Vec::new(),
            password_hash_algorithm: String::new(),
            password_key_bits: 0,
        }
    }
}

impl AgileEncryptionInfo {
    /// Takes over one attribute of the `keyData` element.
    fn apply_key_data(&mut self, key: &[u8], value: &[u8]) -> (result: Result<(), DecryptError>)
        ensures
            match result {
                Ok(()) => set_key_data(old(self)@, key@, value@) == Ok::<AgileView, ErrorView>(
                    final(self)@,
                ),
                Err(error) => set_key_data(old(self)@, key@, value@) == Err::<AgileView, ErrorView>(
                    error@,
                ),
            },
    {
        if is_text(key, "saltValue") {
            match b64_decode(value) {
                Ok(salt) => {
                    self.key_data_salt = salt;
                    Ok(())
                },
                Err(error) => Err(error),
            }
        } else if is_text(key, "hashAlgorithm") {
            match utf8_decode(copied(value)) {
                Ok(name) => {
                    self.key_data_hash_algorithm = name;
                    Ok(())
                },
                Err(error) => Err(error),
            }
        } else if is_text(key, "blockSize") {
            match parse_u32(value) {
                Ok(size) => {
                    self.key_data_block_size = size;
                    Ok(())
                },
                Err(error) => Err(error),
            }
        } else if is_text(key, "keyBits") {
            match parse_u32(value) {
                Ok(bits) => {
                    self.key_data_key_bits = bits;
                    Ok(())
                },
                Err(error) => Err(error),
            }
        } else {
            Ok(())
        }
    }

    /// Takes over one attribute of the `dataIntegrity` element.
    fn apply_data_integrity(&mut self, key: &[u8], value: &[u8]) -> (result: Result<(), DecryptError>)
        ensures
            match result {
                Ok(()) => set_data_integrity(old(self)@, key@, value@) == Ok::<AgileView, ErrorView>(
                    final(self)@,
                ),
                Err(error) => set_data_integrity(old(self)@, key@, value@) == Err::<AgileView, ErrorView>(
                    error@,
                ),
            },
    {
        if is_text(key, "encryptedHmacKey") {
            match b64_decode(value) {
                Ok(data) => {
                    self.encrypted_hmac_key = data;
                    Ok(())
                },
                Err(error) => Err(error),
            }
        } else if is_text(key, "encryptedHmacValue") {
            match b64_decode(value) {
                Ok(data) => {
                    self.encrypted_hmac_value = data;
                    Ok(())
                },
                Err(error) => Err(error),
            }
        } else {
            Ok(())
        }
    }

    /// Takes over one attribute of the `p:encryptedKey` element.
    fn apply_encrypted_key(&mut self, key: &[u8], value: &[u8]) -> (result: Result<(), DecryptError>)
        ensures
            match result {
                Ok(()) => set_encrypted_key(old(self)@, key@, value@) == Ok::<AgileView, ErrorView>(
                    final(self)@,
                ),
                Err(error) => set_encrypted_key(old(self)@, key@, value@) == Err::<AgileView, ErrorView>(
                    error@,
                ),
            },
    {
        if is_text(key, "encryptedVerifierHashInput") {
            match b64_decode(value) {
                Ok(data) => {
                    self.encrypted_verifier_hash_input = data;
                    Ok(())
                },
                Err(error) => Err(error),
            }
        } else if is_text(key, "encryptedVerifierHashValue") {
            match b64_decode(value) {
                Ok(data) => {
                    self.encrypted_verifier_hash_value = data;
                    Ok(())
                },
                Err(error) => Err(error),
            }
        } else if is_text(key, "encryptedKeyValue") {
            match b64_decode(value) {
                Ok(data) => {
                    self.encrypted_key_value = data;
                    Ok(())
                },
                Err(error) => Err(error),
            }
        } else if is_text(key, "spinCount") {
            match parse_u32(value) {
                Ok(count) => {
                    self.spin_count = count;
                    Ok(())
                },
                Err(error) => Err(error),
            }
        } else if is_text(key, "saltValue") {
            match b64_decode(value) {
                Ok(salt) => {
                    self.password_salt = salt;
                    Ok(())
                },
                Err(error) => Err(error),
            }
        } else if is_text(key, "hashAlgorithm") {
            match utf8_decode(copied(value)) {
                Ok(name) => {
                    self.password_hash_algorithm = name;
                    Ok(())
                },
                Err(error) => Err(error),
            }
        } else if is_text(key, "keyBits") {
            match parse_u32(value) {
                Ok(bits) => {
                    self.password_key_bits = bits;
                    Ok(())
                },
                Err(error) => Err(error),
            }
        } else {
            Ok(())
        }
    }

    /// Takes over the attributes of `element`, in order, up to the first error.
    fn apply_attributes(&mut self, element: Element, attributes: &[XmlAttribute]) -> (result: Result<
        (),
        DecryptError,
    >)
        ensures
            match result {
                Ok(()) => set_attributes(element, old(self)@, attribute_views(attributes@)) == Ok::<
                    AgileView,
                    ErrorView,
                >(final(self)@),
                Err(error) => set_attributes(element, old(self)@, attribute_views(attributes@))
                    == Err::<AgileView, ErrorView>(error@),
            },
    {
        let ghost views = attribute_views(attributes@);
        let ghost whole = set_attributes(element, self@, views);
        let mut i: usize = 0;
        assert(views.skip(0) =~= views);
        while i < attributes.len()
            invariant
                i <= attributes@.len(),
                views == attribute_views(attributes@),
                whole == set_attributes(element, old(self)@, views),
                set_attributes(element, self@, views.skip(i as int)) == whole,
            decreases attributes@.len() - i,
        {
            assert(views.skip(i as int)[0] == attributes@[i as int]@);
            assert(views.skip(i as int).skip(1) =~= views.skip(i + 1));
            let ghost before = self@;
            let ghost attribute = attributes@[i as int]@;
            let result = match &attributes[i] {
                XmlAttribute::Malformed => Err(DecryptError::InvalidStructure),
                XmlAttribute::Pair { key, value } => match element {
                    Element::KeyData => self.apply_key_data(key.as_slice(), value.as_slice()),
                    Element::DataIntegrity => self.apply_data_integrity(
                        key.as_slice(),
                        value.as_slice(),
                    ),
                    Element::EncryptedKey => self.apply_encrypted_key(
                        key.as_slice(),
                        value.as_slice(),
                    ),
                },
            };
            match result {
                Ok(()) => {
                    assert(set_attribute(element, before, attribute) == Ok::<AgileView, ErrorView>(
                        self@,
                    ));
                },
                Err(error) => {
                    assert(set_attribute(element, before, attribute) == Err::<AgileView, ErrorView>(
                        error@,
                    ));
                    return Err(error);
                },
            }
            i += 1;
        }
        Ok(())
    }

    /// Builds the descriptor from the events of reading its XML text. Events after the end of the
    /// text are ignored, and so are the second and later elements of each name.
    pub fn from_events(events: &[XmlEvent]) -> (result: Result<Self, DecryptError>)
        ensures
            outcome(result) == descriptor_of(event_views(events@)),
            result matches Ok(info) ==> info@.well_formed(),
    {
        let ghost views = event_views(events@);
        let ghost whole = scan(ScanView::start(), views);
        let mut info: AgileEncryptionInfo = AgileEncryptionInfo::default();
        let mut set_key_data: bool = false;
        let mut set_hmac_data: bool = false;
        let mut set_password_node: bool = false;
        let mut i: usize = 0;
        let mut ended: bool = false;
        assert(views.skip(0) =~= views);
        while i < events.len() && !ended
            invariant
                i <= events@.len(),
                views == event_views(events@),
                whole == scan(ScanView::start(), views),
                !ended ==> scan(
                    ScanView {
                        info: info@,
                        key_data: set_key_data,
                        data_integrity: set_hmac_data,
                        encrypted_key: set_password_node,
                    },
                    views.skip(i as int),
                ) == whole,
                ended ==> whole == Ok::<ScanView, ErrorView>(
                    ScanView {
                        info: info@,
                        key_data: set_key_data,
                        data_integrity: set_hmac_data,
                        encrypted_key: set_password_node,
                    },
                ),
            decreases events@.len() - i,
        {
            let ghost state = ScanView {
                info: info@,
                key_data: set_key_data,
                data_integrity: set_hmac_data,
                encrypted_key: set_password_node,
            };
            assert(views.skip(i as int)[0] == events@[i as int]@);
            assert(views.skip(i as int).skip(1) =~= views.skip(i + 1));
            match &events[i] {
                XmlEvent::Eof => {
                    ended = true;
                },
                XmlEvent::Malformed => {
                    return Err(DecryptError::InvalidStructure);
                },
                XmlEvent::Other => {},
                XmlEvent::Empty { name, attributes } => {
                    if let Some(element) = find_element(name.as_slice()) {
                        let seen: bool = match element {
                            Element::KeyData => set_key_data,
                            Element::DataIntegrity => set_hmac_data,
                            Element::EncryptedKey => set_password_node,
                        };
                        if !seen {
                            match info.apply_attributes(element, attributes.as_slice()) {
                                Ok(()) => {},
                                Err(error) => {
                                    return Err(error);
                                },
                            }
                            match element {
                                Element::KeyData => {
                                    set_key_data = true;
                                },
                                Element::DataIntegrity => {
                                    set_hmac_data = true;
                                },
                                Element::EncryptedKey => {
                                    set_password_node = true;
                                },
                            }
                            assert(scan_element(state, name@, attribute_views(attributes@))
                                == Ok::<ScanView, ErrorView>(state.mark(element, info@)));
                        }
                    }
                },
            }
            i += 1;
        }
        if set_key_data && set_hmac_data && set_password_node && info.spin_count <= MAX_SPIN_COUNT
            && is_aes_key_bits(info.key_data_key_bits) && is_aes_key_bits(info.password_key_bits)
            && info.key_data_block_size as usize == AES_BLOCK_SIZE {
            Ok(info)
        } else {
            Err(DecryptError::InvalidStructure)
        }
    }

    /// Reads the descriptor of an `EncryptionInfo` stream.
    pub fn new(encryption_info: &OleStream) -> (result: Result<Self, DecryptError>)
        ensures
            outcome(result) == agile_info(encryption_info@),
            result matches Ok(info) ==> info@.well_formed(),
    {
        if encryption_info.stream.len() < 8 {
            return Err(DecryptError::InvalidStructure);
        }
        let xml: Vec<u8> = slice_copy(
            encryption_info.stream.as_slice(),
            8,
            encryption_info.stream.len(),
        );
        assert(xml@ =~= encryption_info@.skip(8));
        match utf8_decode(xml) {
            Ok(text) => {
                let events: Vec<XmlEvent> = read_events(text.as_str());
                Self::from_events(events.as_slice())
            },
            Err(error) => Err(error),
        }
    }

    /// The iterated hash of `password`, which takes `spin_count` rounds. It serves both to verify
    /// the password and to derive keys.
    pub fn password_hash(&self, password: &str) -> (result: Result<Vec<u8>, DecryptError>)
        ensures
            outcome(result) == agile_password_hash(self@, password@),
    {
        match HashAlgorithm::parse(self.password_hash_algorithm.as_str()) {
            Ok(algorithm) => Ok(
                algorithm.iterated_hash(
                    self.password_salt.as_slice(),
                    utf16le_bytes(password).as_slice(),
                    self.spin_count,
                ),
            ),
            Err(error) => Err(error),
        }
    }

    /// Checks a password hash against the verifier.
    pub fn verify_password(&self, password_hash: &[u8]) -> (result: Result<bool, DecryptError>)
        ensures
            outcome(result) == agile_verified(self@, password_hash@),
    {
        let algorithm = match HashAlgorithm::parse(self.password_hash_algorithm.as_str()) {
            Ok(algorithm) => algorithm,
            Err(error) => {
                return Err(error);
            },
        };
        let input = match self.unwrap_field(
            password_hash,
            BLOCK_VERIFIER_HASH_INPUT.as_slice(),
            self.encrypted_verifier_hash_input.as_slice(),
        ) {
            Ok(input) => input,
            Err(error) => {
                return Err(error);
            },
        };
        let actual: Vec<u8> = algorithm.digest(input.as_slice());
        let expected = match self.unwrap_field(
            password_hash,
            BLOCK_VERIFIER_HASH_VALUE.as_slice(),
            self.encrypted_verifier_hash_value.as_slice(),
        ) {
            Ok(expected) => expected,
            Err(error) => {
                return Err(error);
            },
        };
        compare_verifier(expected.as_slice(), actual.as_slice())
    }

    /// Decrypts the key that encrypts the package.
    pub fn secret_key(&self, password_hash: &[u8]) -> (result: Result<Vec<u8>, DecryptError>)
        ensures
            outcome(result) == agile_secret_key(self@, password_hash@),
    {
        match self.unwrap_field(
            password_hash,
            BLOCK_ENCRYPTED_KEY_VALUE.as_slice(),
            self.encrypted_key_value.as_slice(),
        ) {
            Ok(key) => Ok(normalize_key(key, (self.key_data_key_bits / 8) as usize)),
            Err(error) => Err(error),
        }
    }

    /// Decrypts an `EncryptedPackage` stream.
    pub fn decrypt(&self, key: &[u8], encrypted_stream: &OleStream) -> (result: Result<
        Vec<u8>,
        DecryptError,
    >)
        ensures
            outcome(result) == agile_package(self@, key@, encrypted_stream@),
    {
        let algorithm = match HashAlgorithm::parse(self.key_data_hash_algorithm.as_str()) {
            Ok(algorithm) => algorithm,
            Err(error) => {
                return Err(error);
            },
        };
        let stream: &[u8] = encrypted_stream.stream.as_slice();
        if stream.len() < 8 {
            return Err(DecryptError::InvalidStructure);
        }
        let total_size: u64 = u64_at(stream, 0);
        let ciphertext: &[u8] = &stream[8..stream.len()];
        assert(stream@.subrange(0, 8) =~= stream@.take(8));
        assert(ciphertext@ =~= stream@.skip(8));
        match self.decrypt_segments(algorithm, key, ciphertext) {
            Ok(decrypted) => cut_to_size(decrypted, total_size),
            Err(error) => Err(error),
        }
    }

    /// Decrypts the ciphertext of a package, segment by segment.
    fn decrypt_segments(&self, algorithm: HashAlgorithm, key: &[u8], ciphertext: &[u8]) -> (result:
        Result<Vec<u8>, DecryptError>)
        ensures
            outcome(result) == (if segments_fit(self@, key@, ciphertext@) {
                Ok(agile_plaintext(self@, algorithm, key@, ciphertext@))
            } else {
                Err(ErrorView::InvalidStructure)
            }),
    {
        let mut decrypted: Vec<u8> = Vec::with_capacity(ciphertext.len());
        let mut block_index: usize = 0;
        let mut start: usize = 0;
        let ghost plaintext = agile_plaintext(self@, algorithm, key@, ciphertext@);
        assert(plaintext.take(0) =~= seq![]);
        while start < ciphertext.len()
            invariant
                start <= ciphertext@.len(),
                start < ciphertext@.len() ==> start == block_index * 4096,
                block_index <= start,
                plaintext == agile_plaintext(self@, algorithm, key@, ciphertext@),
                decrypted@ == plaintext.take(start as int),
                start > 0 ==> aes_key_len(key@.len()) && self.key_data_block_size == AES_BLOCK_SIZE,
                start > 0 && start == ciphertext@.len() ==> ciphertext@.len() % 16 == 0,
            decreases ciphertext@.len() - start,
        {
            let end: usize = if ciphertext.len() - start < SEGMENT_LENGTH {
                ciphertext.len()
            } else {
                start + SEGMENT_LENGTH
            };
            let piece: &[u8] = &ciphertext[start..end];
            proof {
                lemma_segment(ciphertext@, start as int, end as int, block_index as int);
                lemma_plaintext_grows(self@, algorithm, key@, ciphertext@, block_index as int);
            }
            match self.decrypt_segment(algorithm, key, block_index, piece) {
                Ok(block) => {
                    decrypted.extend_from_slice(block.as_slice());
                },
                Err(error) => {
                    return Err(error);
                },
            }
            block_index += 1;
            start = end;
        }
        assert(plaintext.take(ciphertext@.len() as int) =~= plaintext);
        Ok(decrypted)
    }

    /// Decrypts the segment with the number `index`.
    fn decrypt_segment(
        &self,
        algorithm: HashAlgorithm,
        key: &[u8],
        index: usize,
        piece: &[u8],
    ) -> (result: Result<Vec<u8>, DecryptError>)
        ensures
            outcome(result) == cbc_decrypted(
                key@,
                segment_iv(self@, algorithm, index as int),
                piece@,
            ),
    {
        let number: [u8; 4] = u32_le_bytes((index as u64 % 0x1_0000_0000) as u32);
        let iv: Vec<u8> = normalize_key(
            algorithm.digest(
                join_bytes(self.key_data_salt.as_slice(), number.as_slice()).as_slice(),
            ),
            self.key_data_block_size as usize,
        );
        aes_cbc_decrypt(key, iv.as_slice(), piece)
    }

    /// The key that `password_hash` gives for the purpose that `block` stands for.
    pub fn derived_key(&self, password_hash: &[u8], block: &[u8]) -> (result: Result<
        Vec<u8>,
        DecryptError,
    >)
        ensures
            outcome(result) == agile_derived_key(self@, password_hash@, block@),
    {
        match HashAlgorithm::parse(self.password_hash_algorithm.as_str()) {
            Ok(algorithm) => Ok(
                normalize_key(
                    algorithm.digest(join_bytes(password_hash, block).as_slice()),
                    (self.password_key_bits / 8) as usize,
                ),
            ),
            Err(error) => Err(error),
        }
    }

    /// Decrypts a field of the descriptor under the key for the purpose that `block` stands for.
    fn unwrap_field(&self, password_hash: &[u8], block: &[u8], field: &[u8]) -> (result: Result<
        Vec<u8>,
        DecryptError,
    >)
        ensures
            outcome(result) == agile_unwrapped(self@, password_hash@, block@, field@),
    {
        let iv: Vec<u8> = normalize_key(copied(self.password_salt.as_slice()), AES_BLOCK_SIZE);
        match self.derived_key(password_hash, block) {
            Ok(key) => aes_cbc_decrypt(key.as_slice(), iv.as_slice(), field),
            Err(error) => Err(error),
        }
    }
}

} // verus!
