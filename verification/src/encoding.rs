//! The encodings of attribute values: UTF-8, base64 and decimal numbers.

use std::io::Read;

use base64::engine::general_purpose;
use vstd::prelude::*;
use vstd::utf8::{decode_utf8, encode_utf8, valid_utf8};

use crate::error::{outcome, DecryptError, ErrorView};

verus! {

/// The text that `bytes` encode in UTF-8.
pub open spec fn utf8_text(bytes: Seq<u8>) -> Result<Seq<char>, ErrorView> {
    if valid_utf8(bytes) {
        Ok(decode_utf8(bytes))
    } else {
        Err(ErrorView::InvalidStructure)
    }
}

/// Calls `String::from_utf8`. Trusted: it accepts valid UTF-8 and nothing else, and returns the
/// text whose UTF-8 encoding is `bytes`.
#[verifier::external_body]
fn string_from_utf8(bytes: Vec<u8>) -> (result: Option<String>)
    ensures
        match result {
            Some(text) => valid_utf8(bytes@) && encode_utf8(text@) == bytes@,
            None => !valid_utf8(bytes@),
        },
{
    String::from_utf8(bytes).ok()
}

/// Decodes UTF-8.
pub fn utf8_decode(bytes: Vec<u8>) -> (result: Result<String, DecryptError>)
    ensures
        outcome(result) == utf8_text(bytes@),
{
    match string_from_utf8(bytes) {
        Some(text) => {
            proof {
                vstd::utf8::encode_utf8_decode_utf8(text@);
            }
            Ok(text)
        },
        None => Err(DecryptError::InvalidStructure),
    }
}

/// Decoding the UTF-8 bytes of a text gives the text back.
pub proof fn law_utf8_read_back(text: Seq<char>)
    ensures
        utf8_text(encode_utf8(text)) == Ok::<Seq<char>, ErrorView>(text),
{
    vstd::utf8::encode_utf8_valid_utf8(text);
    vstd::utf8::encode_utf8_decode_utf8(text);
}

/// The symbol of the standard base64 alphabet for a 6-bit value.
pub open spec fn base64_symbol(value: int) -> u8 {
    if value < 26 {
        (65 + value) as u8
    } else if value < 52 {
        (97 + value - 26) as u8
    } else if value < 62 {
        (48 + value - 52) as u8
    } else if value == 62 {
        43
    } else {
        47
    }
}

/// The base64 text of `data`: four symbols for every three bytes, the last group filled up with
/// `=`.
pub open spec fn base64_text(data: Seq<u8>) -> Seq<u8>
    decreases data.len(),
{
    if data.len() == 0 {
        seq![]
    } else if data.len() == 1 {
        seq![
            base64_symbol(data[0] as int / 4),
            base64_symbol(data[0] as int % 4 * 16),
            61,
            61,
        ]
    } else if data.len() == 2 {
        seq![
            base64_symbol(data[0] as int / 4),
            base64_symbol(data[0] as int % 4 * 16 + data[1] as int / 16),
            base64_symbol(data[1] as int % 16 * 4),
            61,
        ]
    } else {
        seq![
            base64_symbol(data[0] as int / 4),
            base64_symbol(data[0] as int % 4 * 16 + data[1] as int / 16),
            base64_symbol(data[1] as int % 16 * 4 + data[2] as int / 64),
            base64_symbol(data[2] as int % 64),
        ] + base64_text(data.skip(3))
    }
}

/// The data of which `text` is the base64 text. Other texts are not decoded: no other alphabet,
/// no white space, no missing `=`, no stray bits in the last symbol.
pub open spec fn base64_data(text: Seq<u8>) -> Result<Seq<u8>, ErrorView> {
    if exists|data: Seq<u8>| base64_text(data) == text {
        Ok(choose|data: Seq<u8>| base64_text(data) == text)
    } else {
        Err(ErrorView::Unknown)
    }
}

proof fn lemma_base64_symbol_injective(a: int, b: int)
    requires
        0 <= a < 64,
        0 <= b < 64,
        base64_symbol(a) == base64_symbol(b),
    ensures
        a == b,
        base64_symbol(a) != 61,
{
}

/// Two pieces of data with the same base64 text are the same.
pub proof fn law_base64_injective(a: Seq<u8>, b: Seq<u8>)
    requires
        base64_text(a) == base64_text(b),
    ensures
        a == b,
    decreases a.len(),
{
    let s = base64_text(a);
    let t = base64_text(b);
    if a.len() == 0 || b.len() == 0 {
        assert(s.len() == 0);
        assert(a =~= b);
    } else {
        assert(s[0] == t[0] && s[1] == t[1] && s[2] == t[2] && s[3] == t[3]);
        let a1 = if a.len() > 1 { a[1] as int } else { 0 };
        let b1 = if b.len() > 1 { b[1] as int } else { 0 };
        let a2 = if a.len() > 2 { a[2] as int } else { 0 };
        let b2 = if b.len() > 2 { b[2] as int } else { 0 };
        lemma_base64_symbol_injective(a[0] as int / 4, b[0] as int / 4);
        lemma_base64_symbol_injective(a[0] as int % 4 * 16 + a1 / 16, b[0] as int % 4 * 16 + b1 / 16);
        if a.len() > 1 {
            lemma_base64_symbol_injective(a1 % 16 * 4 + a2 / 64, a1 % 16 * 4 + a2 / 64);
        }
        if b.len() > 1 {
            lemma_base64_symbol_injective(b1 % 16 * 4 + b2 / 64, b1 % 16 * 4 + b2 / 64);
        }
        if a.len() > 2 {
            lemma_base64_symbol_injective(a2 % 64, a2 % 64);
        }
        if b.len() > 2 {
            lemma_base64_symbol_injective(b2 % 64, b2 % 64);
        }
        assert(a.len() == 1 <==> b.len() == 1);
        assert(a.len() == 2 <==> b.len() == 2);
        if a.len() > 1 {
            lemma_base64_symbol_injective(a1 % 16 * 4 + a2 / 64, b1 % 16 * 4 + b2 / 64);
        }
        if a.len() > 2 {
            lemma_base64_symbol_injective(a2 % 64, b2 % 64);
            assert(s.skip(4) =~= base64_text(a.skip(3)));
            assert(t.skip(4) =~= base64_text(b.skip(3)));
            law_base64_injective(a.skip(3), b.skip(3));
            assert(a =~= seq![a[0], a[1], a[2]] + a.skip(3));
            assert(b =~= seq![b[0], b[1], b[2]] + b.skip(3));
        } else {
            assert(a =~= b);
        }
    }
}

/// Decoding the base64 text of any data gives the data back.
pub proof fn law_base64_read_back(data: Seq<u8>)
    ensures
        base64_data(base64_text(data)) == Ok::<Seq<u8>, ErrorView>(data),
{
    let text = base64_text(data);
    let other = choose|other: Seq<u8>| base64_text(other) == text;
    law_base64_injective(data, other);
}

/// Calls `base64::read::DecoderReader` over the standard engine, and reads it to its end. Trusted:
/// it accepts the base64 texts of byte sequences and nothing else, and returns the sequence.
#[verifier::external_body]
fn base64_read(text: &[u8]) -> (result: Option<Vec<u8>>)
    ensures
        match result {
            Some(data) => base64_text(data@) == text@,
            None => forall|data: Seq<u8>| #[trigger] base64_text(data) != text@,
        },
{
    let mut wrapped_reader = std::io::Cursor::new(text);
    let mut decoder = base64::read::DecoderReader::new(
        &mut wrapped_reader,
        &general_purpose::STANDARD,
    );
    let mut data = Vec::new();
    decoder.read_to_end(&mut data).ok()?;
    Some(data)
}

/// Decodes base64 with the standard alphabet and canonical padding.
pub fn b64_decode(bytes: &[u8]) -> (result: Result<Vec<u8>, DecryptError>)
    ensures
        outcome(result) == base64_data(bytes@),
{
    match base64_read(bytes) {
        Some(data) => {
            proof {
                law_base64_read_back(data@);
            }
            Ok(data)
        },
        None => Err(DecryptError::Unknown),
    }
}

/// Whether every byte is an ASCII digit.
pub open spec fn all_digits(bytes: Seq<u8>) -> bool {
    forall|i: int| 0 <= i < bytes.len() ==> 48 <= #[trigger] bytes[i] <= 57
}

/// The number that ASCII digits write down, most significant first.
pub open spec fn digits_value(digits: Seq<u8>) -> nat
    decreases digits.len(),
{
    if digits.len() == 0 {
        0
    } else {
        10 * digits_value(digits.drop_last()) + (digits.last() - 48) as nat
    }
}

/// The number that `bytes` write down in decimal: an optional `+` and at least one digit, with a
/// value that fits 32 bits. Any other text is an error.
pub open spec fn decimal_u32(bytes: Seq<u8>) -> Result<u32, ErrorView> {
    let digits = if bytes.len() > 0 && bytes[0] == 43 {
        bytes.skip(1)
    } else {
        bytes
    };
    if digits.len() > 0 && all_digits(digits) && digits_value(digits) <= u32::MAX {
        Ok(digits_value(digits) as u32)
    } else {
        Err(ErrorView::InvalidStructure)
    }
}

proof fn lemma_digits_value_grows(digits: Seq<u8>, n: int)
    requires
        all_digits(digits),
        0 <= n <= digits.len(),
    ensures
        digits_value(digits.take(n)) <= digits_value(digits),
    decreases digits.len(),
{
    if n == digits.len() {
        assert(digits.take(n) =~= digits);
    } else {
        lemma_digits_value_grows(digits.drop_last(), n);
        assert(digits.drop_last().take(n) =~= digits.take(n));
    }
}

/// Reads a decimal number.
pub fn parse_u32(bytes: &[u8]) -> (result: Result<u32, DecryptError>)
    ensures
        outcome(result) == decimal_u32(bytes@),
{
    let start: usize = if bytes.len() > 0 && bytes[0] == 43 {
        1
    } else {
        0
    };
    let ghost digits = bytes@.skip(start as int);
    assert(start == 0 ==> digits =~= bytes@);
    if start == bytes.len() {
        return Err(DecryptError::InvalidStructure);
    }
    let mut value: u32 = 0;
    let mut i: usize = start;
    assert(digits.take(0) =~= seq![]);
    while i < bytes.len()
        invariant
            start <= i <= bytes@.len(),
            start <= 1,
            start == 1 <==> bytes@.len() > 0 && bytes@[0] == 43,
            digits == bytes@.skip(start as int),
            decimal_u32(bytes@) == (if digits.len() > 0 && all_digits(digits) && digits_value(
                digits,
            ) <= u32::MAX {
                Ok::<u32, ErrorView>(digits_value(digits) as u32)
            } else {
                Err(ErrorView::InvalidStructure)
            }),
            all_digits(digits.take(i - start)),
            value == digits_value(digits.take(i - start)),
        decreases bytes@.len() - i,
    {
        let digit: u8 = bytes[i];
        let ghost before = digits.take(i - start);
        let ghost after = digits.take(i - start + 1);
        assert(digits[i - start] == digit);
        assert(after.drop_last() =~= before);
        assert(after.last() == digit);
        if digit < 48 || digit > 57 {
            return Err(DecryptError::InvalidStructure);
        }
        assert(all_digits(after)) by {
            assert forall|j: int| 0 <= j < after.len() implies 48 <= #[trigger] after[j] <= 57 by {
                if j < before.len() {
                    assert(before[j] == after[j]);
                }
            }
        }
        let next: u64 = 10 * (value as u64) + (digit - 48) as u64;
        if next > u32::MAX as u64 {
            proof {
                if all_digits(digits) {
                    lemma_digits_value_grows(digits, i - start + 1);
                }
            }
            return Err(DecryptError::InvalidStructure);
        }
        value = next as u32;
        i += 1;
    }
    assert(digits.take(i - start) =~= digits);
    Ok(value)
}

/// The decimal digits of a number, most significant first.
pub open spec fn decimal_text(n: nat) -> Seq<u8>
    decreases n,
{
    if n < 10 {
        seq![(48 + n) as u8]
    } else {
        decimal_text(n / 10).push((48 + n % 10) as u8)
    }
}

proof fn lemma_decimal_text(n: nat)
    ensures
        decimal_text(n).len() > 0,
        all_digits(decimal_text(n)),
        digits_value(decimal_text(n)) == n,
    decreases n,
{
    let text = decimal_text(n);
    if n < 10 {
        assert(text.drop_last() =~= seq![]);
        assert(digits_value(text.drop_last()) == 0);
    } else {
        lemma_decimal_text(n / 10);
        assert(text.drop_last() =~= decimal_text(n / 10));
    }
}

/// Reading the decimal digits of a number gives the number back.
pub proof fn law_decimal_read_back(n: u32)
    ensures
        decimal_u32(decimal_text(n as nat)) == Ok::<u32, ErrorView>(n),
{
    lemma_decimal_text(n as nat);
    assert(decimal_text(n as nat)[0] != 43);
}

/// Bytes decode to a text exactly if they are its UTF-8 encoding; all others are refused.
pub proof fn law_utf8_exact(bytes: Seq<u8>, text: Seq<char>)
    ensures
        utf8_text(bytes) == Ok::<Seq<char>, ErrorView>(text) <==> encode_utf8(text) == bytes,
        utf8_text(bytes) matches Err(error) ==> error is InvalidStructure,
{
    if encode_utf8(text) =~= bytes {
        law_utf8_read_back(text);
    }
    if valid_utf8(bytes) {
        vstd::utf8::decode_utf8_encode_utf8(bytes);
    }
}

/// A text decodes to data exactly if it is the base64 text of the data; all others are refused.
pub proof fn law_base64_exact(text: Seq<u8>, data: Seq<u8>)
    ensures
        base64_data(text) == Ok::<Seq<u8>, ErrorView>(data) <==> base64_text(data) == text,
        base64_data(text) matches Err(error) ==> error is Unknown,
{
    if base64_text(data) =~= text {
        law_base64_read_back(data);
    }
}

/// The six bits that a symbol of the standard alphabet stands for: `A` to `Z`, `a` to `z`, `0` to
/// `9`, `+` and `/`.
pub open spec fn symbol_bits(symbol: u8) -> int {
    if 65 <= symbol <= 90 {
        symbol - 65
    } else if 97 <= symbol <= 122 {
        symbol - 97 + 26
    } else if 48 <= symbol <= 57 {
        symbol - 48 + 52
    } else if symbol == 43 {
        62
    } else if symbol == 47 {
        63
    } else {
        -1
    }
}

proof fn lemma_symbol_bits(value: int)
    requires
        0 <= value < 64,
    ensures
        symbol_bits(base64_symbol(value)) == value,
{
}

/// Four symbols carry the bits of three bytes, three symbols and `=` those of two bytes, and two
/// symbols and `==` those of one byte, the most significant first and followed by zeros.
#[verifier::rlimit(40)]
pub proof fn law_base64_group(data: Seq<u8>)
    requires
        1 <= data.len() <= 3,
    ensures
        base64_text(data).len() == 4,
        forall|i: int|
            0 <= i <= data.len() ==> 0 <= symbol_bits(#[trigger] base64_text(data)[i]) < 64,
        forall|i: int| data.len() < i < 4 ==> #[trigger] base64_text(data)[i] == 61,
        ({
            let a = symbol_bits(base64_text(data)[0]);
            let b = symbol_bits(base64_text(data)[1]);
            let c = symbol_bits(base64_text(data)[2]);
            let d = symbol_bits(base64_text(data)[3]);
            &&& data.len() == 1 ==> 0x40 * a + b == 0x10 * data[0]
            &&& data.len() == 2 ==> 0x1000 * a + 0x40 * b + c == 4 * (0x100 * data[0] + data[1])
            &&& data.len() == 3 ==> 0x4_0000 * a + 0x1000 * b + 0x40 * c + d == 0x1_0000 * data[0]
                + 0x100 * data[1] + data[2]
        }),
{
    let text = base64_text(data);
    let x = data[0] as int;
    lemma_symbol_bits(x / 4);
    if data.len() == 1 {
        lemma_symbol_bits(x % 4 * 16);
        assert(text[0] == base64_symbol(x / 4) && text[1] == base64_symbol(x % 4 * 16));
    } else if data.len() == 2 {
        let y = data[1] as int;
        lemma_symbol_bits(x % 4 * 16 + y / 16);
        lemma_symbol_bits(y % 16 * 4);
        assert(text[0] == base64_symbol(x / 4));
        assert(text[1] == base64_symbol(x % 4 * 16 + y / 16));
        assert(text[2] == base64_symbol(y % 16 * 4));
    } else {
        let y = data[1] as int;
        let z = data[2] as int;
        assert(base64_text(data.skip(3)) =~= seq![]);
        lemma_symbol_bits(x % 4 * 16 + y / 16);
        lemma_symbol_bits(y % 16 * 4 + z / 64);
        lemma_symbol_bits(z % 64);
        assert(text[0] == base64_symbol(x / 4));
        assert(text[1] == base64_symbol(x % 4 * 16 + y / 16));
        assert(text[2] == base64_symbol(y % 16 * 4 + z / 64));
        assert(text[3] == base64_symbol(z % 64));
    }
}

/// The base64 text of data that follows whole groups of three bytes follows the text of those.
pub proof fn law_base64_join(a: Seq<u8>, b: Seq<u8>)
    requires
        a.len() % 3 == 0,
    ensures
        base64_text(a + b) == base64_text(a) + base64_text(b),
    decreases a.len(),
{
    if a.len() == 0 {
        assert(a + b =~= b);
        assert(base64_text(a) + base64_text(b) =~= base64_text(b));
    } else {
        law_base64_join(a.skip(3), b);
        assert((a + b).skip(3) =~= a.skip(3) + b);
        if (a + b).len() == 3 {
            assert(a + b =~= a);
        }
        assert(base64_text(a + b) =~= base64_text(a) + base64_text(b));
    }
}

/// How one more byte changes a number: no sign and no digit alone is a number; behind nothing or a
/// `+`, a digit is one; behind a number, a digit multiplies it by ten and adds itself, as long as
/// 32 bits hold it; and what is no number, and is more than a sign, never becomes one.
pub proof fn law_decimal_digits(bytes: Seq<u8>, next: u8)
    ensures
        bytes.len() == 0 ==> decimal_u32(bytes) is Err,
        bytes == seq![43u8] ==> decimal_u32(bytes) is Err,
        bytes.len() == 0 || bytes == seq![43u8] ==> decimal_u32(bytes.push(next)) == (if 48 <= next
            <= 57 {
            Ok((next - 48) as u32)
        } else {
            Err(ErrorView::InvalidStructure)
        }),
        decimal_u32(bytes) matches Ok(n) ==> decimal_u32(bytes.push(next)) == (if 48 <= next <= 57
            && 10 * n + (next - 48) < 0x1_0000_0000 {
            Ok((10 * n + (next - 48)) as u32)
        } else {
            Err(ErrorView::InvalidStructure)
        }),
        decimal_u32(bytes) is Err && bytes.len() > 0 && bytes != seq![43u8] ==> decimal_u32(
            bytes.push(next),
        ) is Err,
        decimal_u32(bytes) matches Err(error) ==> error is InvalidStructure,
{
    let digits = if bytes.len() > 0 && bytes[0] == 43 {
        bytes.skip(1)
    } else {
        bytes
    };
    let more = digits.push(next);
    if bytes.len() > 0 {
        if bytes[0] == 43 {
            assert(bytes.push(next).skip(1) =~= more);
        }
        if digits.len() == 0 {
            assert(bytes =~= seq![43u8]);
        }
    } else if next == 43 {
        assert(bytes.push(next).skip(1).len() == 0);
    } else {
        assert(bytes.push(next) =~= more);
    }
    assert(more.drop_last() =~= digits);
    assert(more.last() == next);
    assert(digits_value(more) == 10 * digits_value(digits) + (more.last() - 48) as nat);
    if all_digits(digits) && 48 <= next <= 57 {
        assert forall|i: int| 0 <= i < more.len() implies 48 <= #[trigger] more[i] <= 57 by {
            if i < digits.len() {
                assert(more[i] == digits[i]);
            }
        }
    }
    if all_digits(more) {
        assert(more[digits.len() as int] == next);
        assert forall|i: int| 0 <= i < digits.len() implies 48 <= #[trigger] digits[i] <= 57 by {
            assert(more[i] == digits[i]);
        }
    }
}

} // verus!
