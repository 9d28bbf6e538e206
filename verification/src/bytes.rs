//! Byte sequences: little-endian integers, comparison and concatenation.

use vstd::prelude::*;

use crate::error::{outcome, DecryptError, ErrorView};

verus! {

/// The two bytes of `x`, least significant first.
pub open spec fn le_u16_bytes(x: u16) -> Seq<u8> {
    seq![(x % 256) as u8, (x / 256) as u8]
}

/// The four bytes of `x`, least significant first.
pub open spec fn le_u32_bytes(x: u32) -> Seq<u8> {
    seq![
        (x % 256) as u8,
        (x / 256 % 256) as u8,
        (x / 65536 % 256) as u8,
        (x / 16777216) as u8,
    ]
}

/// The eight bytes of `x`, least significant first.
pub open spec fn le_u64_bytes(x: u64) -> Seq<u8> {
    le_u32_bytes((x % 0x1_0000_0000) as u32) + le_u32_bytes((x / 0x1_0000_0000) as u32)
}

/// The number whose bytes, least significant first, are `s`.
pub open spec fn le_value(s: Seq<u8>) -> nat
    decreases s.len(),
{
    if s.len() == 0 {
        0
    } else {
        s[0] as nat + 256 * le_value(s.drop_first())
    }
}

/// The four bytes of `x`, least significant first.
pub fn u32_le_bytes(x: u32) -> (bytes: [u8; 4])
    ensures
        bytes@ == le_u32_bytes(x),
{
    let bytes: [u8; 4] = [
        (x % 256) as u8,
        (x / 256 % 256) as u8,
        (x / 65536 % 256) as u8,
        (x / 16777216) as u8,
    ];
    assert(bytes@ =~= le_u32_bytes(x));
    bytes
}

/// The value of the four bytes at `at`.
pub open spec fn le_u32_at(s: Seq<u8>, at: int) -> u32 {
    le_value(s.subrange(at, at + 4)) as u32
}

proof fn lemma_le_value_4(s: Seq<u8>)
    requires
        s.len() == 4,
    ensures
        le_value(s) == s[0] + 256 * s[1] + 65536 * s[2] + 16777216 * s[3],
{
    reveal_with_fuel(le_value, 5);
    let t = s.drop_first();
    let u = t.drop_first();
    let v = u.drop_first();
    assert(v.drop_first().len() == 0);
    assert(t[0] == s[1] && u[0] == s[2] && v[0] == s[3]);
}

proof fn lemma_le_value_8(s: Seq<u8>)
    requires
        s.len() == 8,
    ensures
        le_value(s) == le_value(s.take(4)) + 0x1_0000_0000 * le_value(s.skip(4)),
{
    reveal_with_fuel(le_value, 9);
    lemma_le_value_4(s.take(4));
    lemma_le_value_4(s.skip(4));
    let t = s.drop_first().drop_first().drop_first().drop_first();
    assert(t =~= s.skip(4));
}

/// Writing a number in four bytes and reading them back gives the number.
pub proof fn law_u32_bytes_read_back(x: u32)
    ensures
        le_value(le_u32_bytes(x)) == x,
        le_u32_bytes(x).len() == 4,
{
    lemma_le_value_4(le_u32_bytes(x));
}

/// Writing a number in eight bytes and reading them back gives the number.
pub proof fn law_u64_bytes_read_back(x: u64)
    ensures
        le_value(le_u64_bytes(x)) == x,
        le_u64_bytes(x).len() == 8,
{
    let bytes = le_u64_bytes(x);
    lemma_le_value_8(bytes);
    assert(bytes.take(4) =~= le_u32_bytes((x % 0x1_0000_0000) as u32));
    assert(bytes.skip(4) =~= le_u32_bytes((x / 0x1_0000_0000) as u32));
    law_u32_bytes_read_back((x % 0x1_0000_0000) as u32);
    law_u32_bytes_read_back((x / 0x1_0000_0000) as u32);
}

/// Reads the four bytes at `at` as a little-endian number.
pub fn u32_at(bytes: &[u8], at: usize) -> (x: u32)
    requires
        at + 4 <= bytes@.len(),
    ensures
        x == le_value(bytes@.subrange(at as int, at + 4)),
        x == le_u32_at(bytes@, at as int),
{
    proof {
        lemma_le_value_4(bytes@.subrange(at as int, at + 4));
    }
    bytes[at] as u32 + 256 * (bytes[at + 1] as u32) + 65536 * (bytes[at + 2] as u32) + 16777216 * (
    bytes[at + 3] as u32)
}

/// Reads the eight bytes at `at` as a little-endian number.
pub fn u64_at(bytes: &[u8], at: usize) -> (x: u64)
    requires
        at + 8 <= bytes@.len(),
    ensures
        x == le_value(bytes@.subrange(at as int, at + 8)),
{
    assert(at + 8 <= bytes.len());
    let low: u32 = u32_at(bytes, at);
    let high: u32 = u32_at(bytes, at + 4);
    proof {
        let whole = bytes@.subrange(at as int, at + 8);
        lemma_le_value_8(whole);
        assert(whole.take(4) =~= bytes@.subrange(at as int, at + 4));
        assert(whole.skip(4) =~= bytes@.subrange(at + 4, at + 8));
    }
    low as u64 + 0x1_0000_0000 * (high as u64)
}

/// Whether two byte slices hold the same bytes.
pub fn bytes_equal(a: &[u8], b: &[u8]) -> (equal: bool)
    ensures
        equal == (a@ == b@),
{
    if a.len() != b.len() {
        return false;
    }
    let mut i: usize = 0;
    while i < a.len()
        invariant
            i <= a@.len(),
            a@.len() == b@.len(),
            forall|j: int| 0 <= j < i ==> a@[j] == b@[j],
        decreases a@.len() - i,
    {
        if a[i] != b[i] {
            return false;
        }
        i += 1;
    }
    assert(a@ =~= b@);
    true
}

/// Whether two strings hold the same characters.
pub fn text_equal(a: &str, b: &str) -> (equal: bool)
    ensures
        equal == (a@ == b@),
{
    proof {
        vstd::utf8::encode_utf8_decode_utf8(a@);
        vstd::utf8::encode_utf8_decode_utf8(b@);
    }
    bytes_equal(a.as_bytes(), b.as_bytes())
}

/// The bytes of `a` followed by those of `b`.
pub fn join_bytes(a: &[u8], b: &[u8]) -> (joined: Vec<u8>)
    ensures
        joined@ == a@ + b@,
{
    let mut joined: Vec<u8> = Vec::new();
    joined.extend_from_slice(a);
    joined.extend_from_slice(b);
    assert(joined@ =~= a@ + b@);
    joined
}

/// A copy of `bytes`.
pub fn copied(bytes: &[u8]) -> (copy: Vec<u8>)
    ensures
        copy@ == bytes@,
{
    let mut copy: Vec<u8> = Vec::new();
    copy.extend_from_slice(bytes);
    assert(copy@ =~= bytes@);
    copy
}

/// A copy of the bytes from `from` up to, not including, `to`.
pub fn slice_copy(bytes: &[u8], from: usize, to: usize) -> (copy: Vec<u8>)
    requires
        from <= to <= bytes@.len(),
    ensures
        copy@ == bytes@.subrange(from as int, to as int),
{
    let mut copy: Vec<u8> = Vec::new();
    copy.extend_from_slice(&bytes[from..to]);
    assert(copy@ =~= bytes@.subrange(from as int, to as int));
    copy
}

/// `bytes` cut off at `size`; there must be as many.
pub open spec fn cut(bytes: Seq<u8>, size: nat) -> Result<Seq<u8>, ErrorView> {
    if size <= bytes.len() {
        Ok(bytes.take(size as int))
    } else {
        Err(ErrorView::InvalidStructure)
    }
}

/// Cuts decrypted bytes off at the size that is stated for them.
pub fn cut_to_size(bytes: Vec<u8>, size: u64) -> (result: Result<Vec<u8>, DecryptError>)
    ensures
        outcome(result) == cut(bytes@, size as nat),
{
    if size > bytes.len() as u64 {
        return Err(DecryptError::InvalidStructure);
    }
    let mut bytes: Vec<u8> = bytes;
    let ghost whole = bytes@;
    bytes.truncate(size as usize);
    assert(bytes@ =~= whole.take(size as int));
    Ok(bytes)
}

/// Whether four bytes write down `n`, least significant first.
pub open spec fn is_le4(bytes: Seq<u8>, n: int) -> bool {
    &&& bytes.len() == 4
    &&& n == bytes[0] + 0x100 * bytes[1] + 0x1_0000 * bytes[2] + 0x100_0000 * bytes[3]
}

proof fn lemma_digits_base_256(x: int)
    requires
        0 <= x < 0x1_0000_0000,
    ensures
        x == x % 256 + 256 * (x / 256 % 256) + 65536 * (x / 65536 % 256) + 16777216 * (x
            / 16777216),
        x / 16777216 < 256,
{
    assert(x / 65536 == x / 256 / 256);
    assert(x / 16777216 == x / 65536 / 256);
}

proof fn lemma_base_256_unique(a: Seq<u8>, b: Seq<u8>)
    requires
        a.len() == 4,
        b.len() == 4,
        a[0] + 256 * a[1] + 65536 * a[2] + 16777216 * a[3] == b[0] + 256 * b[1] + 65536 * b[2]
            + 16777216 * b[3],
    ensures
        a[0] == b[0] && a[1] == b[1] && a[2] == b[2] && a[3] == b[3],
{
    assert(a[3] == b[3]);
    assert(a[2] == b[2]);
    assert(a[1] == b[1]);
}

/// Four bytes are written for a number exactly if their weighted sum is the number, so no two
/// numbers are written alike.
pub proof fn law_u32_bytes_weigh(x: u32, bytes: Seq<u8>)
    ensures
        bytes == le_u32_bytes(x) <==> is_le4(bytes, x as int),
{
    let written = le_u32_bytes(x);
    lemma_digits_base_256(x as int);
    if is_le4(bytes, x as int) {
        lemma_base_256_unique(bytes, written);
        assert(bytes =~= written);
    }
}

/// Two bytes are written for a number exactly if their weighted sum is the number.
pub proof fn law_u16_bytes_weigh(x: u16, bytes: Seq<u8>)
    ensures
        bytes == le_u16_bytes(x) <==> bytes.len() == 2 && x == bytes[0] + 0x100 * bytes[1],
{
    if bytes.len() == 2 && x == bytes[0] + 0x100 * bytes[1] {
        assert(bytes =~= le_u16_bytes(x));
    }
}

/// The value of four bytes is their weighted sum, wherever they stand.
pub proof fn law_le_u32_at_weighs(s: Seq<u8>, at: int)
    requires
        0 <= at,
        at + 4 <= s.len(),
    ensures
        le_u32_at(s, at) == s[at] + 0x100 * s[at + 1] + 0x1_0000 * s[at + 2] + 0x100_0000 * s[at
            + 3],
{
    lemma_le_value_4(s.subrange(at, at + 4));
}

/// The value of eight bytes is their weighted sum.
pub proof fn law_le_value_weighs(s: Seq<u8>)
    requires
        s.len() == 8,
    ensures
        le_value(s) == s[0] + 0x100 * s[1] + 0x1_0000 * s[2] + 0x100_0000 * s[3] + 0x1_0000_0000
            * s[4] + 0x100_0000_0000 * s[5] + 0x1_0000_0000_0000 * s[6] + 0x100_0000_0000_0000
            * s[7],
{
    lemma_le_value_8(s);
    lemma_le_value_4(s.take(4));
    lemma_le_value_4(s.skip(4));
}

/// What is cut off is a beginning of the bytes of exactly the size that was asked for; only a size
/// beyond the bytes is refused.
pub proof fn law_cut(bytes: Seq<u8>, size: nat)
    ensures
        cut(bytes, size) is Ok <==> size <= bytes.len(),
        cut(bytes, size) matches Ok(part) ==> part.len() == size && forall|i: int|
            0 <= i < size ==> #[trigger] part[i] == bytes[i],
        cut(bytes, size) matches Err(error) ==> error is InvalidStructure,
{
}

/// Whether eight bytes write down `n`, least significant first.
pub open spec fn is_le8(bytes: Seq<u8>, n: int) -> bool {
    &&& bytes.len() == 8
    &&& n == bytes[0] + 0x100 * bytes[1] + 0x1_0000 * bytes[2] + 0x100_0000 * bytes[3]
        + 0x1_0000_0000 * bytes[4] + 0x100_0000_0000 * bytes[5] + 0x1_0000_0000_0000 * bytes[6]
        + 0x100_0000_0000_0000 * bytes[7]
}

/// Eight bytes are read as the number that they write down.
pub proof fn law_le_value_reads(bytes: Seq<u8>)
    requires
        bytes.len() == 8,
    ensures
        is_le8(bytes, le_value(bytes) as int),
{
    law_le_value_weighs(bytes);
}

} // verus!
