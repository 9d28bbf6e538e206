//! UTF-16: the encoding of passwords, and the decoding of provider names.

use vstd::prelude::*;

use crate::bytes::le_u16_bytes;

verus! {

/// The UTF-16 code units of one character: itself, or a surrogate pair.
pub open spec fn char_units(c: char) -> Seq<u16> {
    let scalar = c as int;
    if scalar < 0x10000 {
        seq![scalar as u16]
    } else {
        seq![
            (0xD800 + (scalar - 0x10000) / 0x400) as u16,
            (0xDC00 + (scalar - 0x10000) % 0x400) as u16,
        ]
    }
}

/// The UTF-16 code units of a text.
pub open spec fn utf16_units(text: Seq<char>) -> Seq<u16>
    decreases text.len(),
{
    if text.len() == 0 {
        seq![]
    } else {
        utf16_units(text.drop_last()) + char_units(text.last())
    }
}

/// The bytes of code units, two for each, least significant first.
pub open spec fn units_le(units: Seq<u16>) -> Seq<u8>
    decreases units.len(),
{
    if units.len() == 0 {
        seq![]
    } else {
        units_le(units.drop_last()) + le_u16_bytes(units.last())
    }
}

/// The bytes of a text in UTF-16, little-endian and without a byte order mark.
pub open spec fn utf16le(text: Seq<char>) -> Seq<u8> {
    units_le(utf16_units(text))
}

/// Whether a code unit is one half of a surrogate pair.
pub open spec fn is_surrogate(unit: u16) -> bool {
    0xD800 <= unit < 0xE000
}

/// Whether two code units are a surrogate pair, the leading half first.
pub open spec fn is_surrogate_pair(high: u16, low: u16) -> bool {
    0xD800 <= high < 0xDC00 && 0xDC00 <= low < 0xE000
}

/// The text that code units stand for, if every surrogate among them belongs to a pair.
pub open spec fn utf16_text(units: Seq<u16>) -> Option<Seq<char>>
    decreases units.len(),
{
    if units.len() == 0 {
        Some(seq![])
    } else if !is_surrogate(units[0]) {
        match utf16_text(units.skip(1)) {
            Some(rest) => Some(seq![units[0] as char] + rest),
            None => None,
        }
    } else if units.len() >= 2 && is_surrogate_pair(units[0], units[1]) {
        let scalar = 0x10000 + (units[0] - 0xD800) * 0x400 + (units[1] - 0xDC00);
        match utf16_text(units.skip(2)) {
            Some(rest) => Some(seq![scalar as char] + rest),
            None => None,
        }
    } else {
        None
    }
}

/// The code units of which `bytes` holds the bytes, least significant first. An odd byte at the
/// end belongs to none.
pub open spec fn le_units(bytes: Seq<u8>) -> Seq<u16> {
    Seq::new(bytes.len() / 2, |i: int| (bytes[2 * i] + 256 * bytes[2 * i + 1]) as u16)
}

/// Calls `String::from_utf16`. Trusted: it returns the text that the code units stand for, or an
/// error if they are not UTF-16.
#[verifier::external_body]
fn string_from_utf16(units: &[u16]) -> (result: Option<String>)
    ensures
        match result {
            Some(text) => utf16_text(units@) == Some(text@),
            None => utf16_text(units@) is None,
        },
{
    String::from_utf16(units).ok()
}

proof fn lemma_char_range(c: char)
    ensures
        c as u32 == c as int,
        0 <= (c as int) < 0xD800 || 0xE000 <= (c as int) < 0x110000,
{
}

fn push_unit(bytes: &mut Vec<u8>, unit: u16)
    ensures
        final(bytes)@ == old(bytes)@ + le_u16_bytes(unit),
{
    bytes.push((unit % 256) as u8);
    bytes.push((unit / 256) as u8);
    assert(bytes@ =~= old(bytes)@ + le_u16_bytes(unit));
}

proof fn lemma_units_le_push(units: Seq<u16>, unit: u16)
    ensures
        units_le(units.push(unit)) == units_le(units) + le_u16_bytes(unit),
{
    assert(units.push(unit).drop_last() =~= units);
}

/// The bytes of `password` in UTF-16, little-endian.
pub fn utf16le_bytes(password: &str) -> (bytes: Vec<u8>)
    ensures
        bytes@ == utf16le(password@),
{
    let mut bytes: Vec<u8> = Vec::new();
    for c in it: password.chars()
        invariant
            it.seq() == password@,
            bytes@ == utf16le(password@.take(it.index())),
    {
        let ghost before = password@.take(it.index());
        let ghost units = utf16_units(before);
        let scalar: u32 = c as u32;
        proof {
            lemma_char_range(c);
        }
        if scalar < 0x10000 {
            push_unit(&mut bytes, scalar as u16);
            proof {
                lemma_units_le_push(units, scalar as u16);
                assert(units.push(scalar as u16) =~= units + char_units(c));
            }
        } else {
            let high: u16 = (0xD800 + (scalar - 0x10000) / 0x400) as u16;
            let low: u16 = (0xDC00 + (scalar - 0x10000) % 0x400) as u16;
            push_unit(&mut bytes, high);
            push_unit(&mut bytes, low);
            proof {
                lemma_units_le_push(units, high);
                lemma_units_le_push(units.push(high), low);
                assert(units.push(high).push(low) =~= units + char_units(c));
            }
        }
        proof {
            let after = password@.take(it.index() + 1);
            assert(after.drop_last() =~= before);
            assert(after.last() == c);
        }
    }
    assert(password@.take(password@.len() as int) =~= password@);
    bytes
}

/// Decodes the UTF-16 text whose little-endian bytes are `bytes`. An odd byte at the end is
/// ignored.
pub fn text_from_utf16le(bytes: &[u8]) -> (result: Option<String>)
    ensures
        match result {
            Some(text) => utf16_text(le_units(bytes@)) == Some(text@),
            None => utf16_text(le_units(bytes@)) is None,
        },
{
    let mut units: Vec<u16> = Vec::new();
    let mut i: usize = 0;
    while i < bytes.len() / 2
        invariant
            i <= bytes@.len() / 2,
            units@ == le_units(bytes@).take(i as int),
        decreases bytes@.len() / 2 - i,
    {
        units.push(bytes[2 * i] as u16 + 256 * (bytes[2 * i + 1] as u16));
        i += 1;
        assert(units@ =~= le_units(bytes@).take(i as int));
    }
    assert(units@ =~= le_units(bytes@));
    string_from_utf16(units.as_slice())
}

proof fn lemma_units_first(text: Seq<char>)
    requires
        text.len() > 0,
    ensures
        utf16_units(text) == char_units(text[0]) + utf16_units(text.drop_first()),
    decreases text.len(),
{
    if text.len() == 1 {
        assert(text.drop_last() =~= seq![]);
        assert(text.drop_first() =~= seq![]);
        assert(utf16_units(text) =~= char_units(text[0]) + utf16_units(text.drop_first()));
    } else {
        lemma_units_first(text.drop_last());
        assert(text.drop_last().drop_first() =~= text.drop_first().drop_last());
        assert(utf16_units(text) =~= char_units(text[0]) + utf16_units(text.drop_first()));
    }
}

/// Reading the UTF-16 code units of a text gives the text back.
pub proof fn law_utf16_units_read_back(text: Seq<char>)
    ensures
        utf16_text(utf16_units(text)) == Some(text),
    decreases text.len(),
{
    let units = utf16_units(text);
    if text.len() > 0 {
        let first = text[0];
        let rest = text.drop_first();
        lemma_units_first(text);
        lemma_char_range(first);
        law_utf16_units_read_back(rest);
        let scalar = first as int;
        if scalar < 0x10000 {
            assert(units.skip(1) =~= utf16_units(rest));
            assert(units[0] as int == scalar);
            assert(units[0] as char == first);
        } else {
            assert(units.skip(2) =~= utf16_units(rest));
            let high = (scalar - 0x10000) / 0x400;
            let low = (scalar - 0x10000) % 0x400;
            assert(units[0] as int == 0xD800 + high);
            assert(units[1] as int == 0xDC00 + low);
            assert(0x10000 + (units[0] - 0xD800) * 0x400 + (units[1] - 0xDC00) == scalar);
            assert(scalar as char == first);
        }
        assert(seq![first] + rest =~= text);
    }
}

/// Splitting code units into bytes and joining the bytes again gives the code units back.
pub proof fn law_unit_bytes_read_back(units: Seq<u16>)
    ensures
        units_le(units).len() == 2 * units.len(),
        le_units(units_le(units)) == units,
    decreases units.len(),
{
    if units.len() > 0 {
        let before = units.drop_last();
        law_unit_bytes_read_back(before);
        let bytes = units_le(units);
        assert forall|i: int| 0 <= i < units.len() implies le_units(bytes)[i] == units[i] by {
            if i < before.len() {
                assert(le_units(units_le(before))[i] == before[i]);
            }
        }
    }
    assert(le_units(units_le(units)) =~= units);
}

/// A text written in little-endian UTF-16 reads back as the same text.
pub proof fn law_utf16le_read_back(text: Seq<char>)
    ensures
        utf16_text(le_units(utf16le(text))) == Some(text),
{
    law_unit_bytes_read_back(utf16_units(text));
    law_utf16_units_read_back(text);
}

/// Code units that stand for a text are the code units of that text: reading them loses none.
pub proof fn law_utf16_text_keeps_units(units: Seq<u16>)
    ensures
        utf16_text(units) matches Some(text) ==> utf16_units(text) == units,
    decreases units.len(),
{
    if let Some(text) = utf16_text(units) {
        if units.len() == 0 {
            assert(utf16_units(text) =~= units);
        } else {
            let used = if is_surrogate(units[0]) { 2int } else { 1int };
            let rest = utf16_text(units.skip(used))->0;
            law_utf16_text_keeps_units(units.skip(used));
            assert(text.drop_first() =~= rest);
            lemma_units_first(text);
            lemma_char_range(text[0]);
            if is_surrogate(units[0]) {
                let scalar = 0x10000 + (units[0] - 0xD800) * 0x400 + (units[1] - 0xDC00);
                assert(text[0] as int == scalar);
                assert((scalar - 0x10000) / 0x400 == units[0] - 0xD800);
                assert((scalar - 0x10000) % 0x400 == units[1] - 0xDC00);
                assert(char_units(text[0]) =~= seq![units[0], units[1]]);
                assert(units =~= seq![units[0], units[1]] + units.skip(2));
            } else {
                assert(text[0] as int == units[0] as int);
                assert(char_units(text[0]) =~= seq![units[0]]);
                assert(units =~= seq![units[0]] + units.skip(1));
            }
        }
    }
}

/// Joining the bytes of code units and splitting them again gives the bytes back, but for an odd
/// byte at the end.
pub proof fn law_unit_bytes_keep_bytes(bytes: Seq<u8>)
    ensures
        bytes.len() % 2 == 0 ==> units_le(le_units(bytes)) == bytes,
        bytes.len() % 2 == 1 ==> units_le(le_units(bytes)) == bytes.drop_last(),
    decreases bytes.len(),
{
    if bytes.len() % 2 == 1 {
        law_unit_bytes_keep_bytes(bytes.drop_last());
        assert(le_units(bytes) =~= le_units(bytes.drop_last()));
    } else if bytes.len() > 0 {
        let n = bytes.len() - 2;
        let before = bytes.take(n);
        law_unit_bytes_keep_bytes(before);
        assert(le_units(bytes).drop_last() =~= le_units(before));
        let last = le_units(bytes).last();
        assert(last as int == bytes[n] + 256 * bytes[n + 1]);
        assert(le_u16_bytes(last) =~= seq![bytes[n], bytes[n + 1]]);
        assert(bytes =~= before + seq![bytes[n], bytes[n + 1]]);
    } else {
        assert(units_le(le_units(bytes)) =~= bytes);
    }
}

/// A text that was read from little-endian UTF-16 is written with the same bytes, but for an odd
/// byte at the end: the text keeps every code unit.
pub proof fn law_utf16le_keeps_bytes(bytes: Seq<u8>)
    ensures
        utf16_text(le_units(bytes)) matches Some(text) ==> utf16le(text) == (if bytes.len() % 2
            == 0 {
            bytes
        } else {
            bytes.drop_last()
        }),
{
    law_utf16_text_keeps_units(le_units(bytes));
    law_unit_bytes_keep_bytes(bytes);
}

/// The code units of two texts in a row are those of the first and then those of the second.
pub proof fn law_utf16_units_join(a: Seq<char>, b: Seq<char>)
    ensures
        utf16_units(a + b) == utf16_units(a) + utf16_units(b),
    decreases b.len(),
{
    if b.len() == 0 {
        assert(a + b =~= a);
        assert(utf16_units(a) + utf16_units(b) =~= utf16_units(a));
    } else {
        law_utf16_units_join(a, b.drop_last());
        assert((a + b).drop_last() =~= a + b.drop_last());
        assert(utf16_units(a + b) =~= utf16_units(a) + utf16_units(b));
    }
}

proof fn lemma_units_le_join(a: Seq<u16>, b: Seq<u16>)
    ensures
        units_le(a + b) == units_le(a) + units_le(b),
    decreases b.len(),
{
    if b.len() == 0 {
        assert(a + b =~= a);
        assert(units_le(a) + units_le(b) =~= units_le(a));
    } else {
        lemma_units_le_join(a, b.drop_last());
        assert((a + b).drop_last() =~= a + b.drop_last());
        assert(units_le(a + b) =~= units_le(a) + units_le(b));
    }
}

/// The bytes of two texts in a row are those of the first and then those of the second: no
/// character of a text, however long it is, is lost or depends on its neighbours.
pub proof fn law_utf16le_join(a: Seq<char>, b: Seq<char>)
    ensures
        utf16le(a + b) == utf16le(a) + utf16le(b),
{
    law_utf16_units_join(a, b);
    lemma_units_le_join(utf16_units(a), utf16_units(b));
}

/// A character below 0x10000 is its own code unit. Any other is a leading and a trailing half, of
/// which each carries ten bits of what exceeds 0x10000.
pub proof fn law_utf16_char(c: char)
    ensures
        (c as int) < 0x10000 ==> {
            let units = utf16_units(seq![c]);
            units.len() == 1 && units[0] == c as int
        },
        (c as int) >= 0x10000 ==> {
            let units = utf16_units(seq![c]);
            &&& units.len() == 2
            &&& 0xD800 <= units[0] < 0xDC00
            &&& 0xDC00 <= units[1] < 0xE000
            &&& c as int == 0x10000 + 0x400 * (units[0] - 0xD800) + (units[1] - 0xDC00)
        },
{
    lemma_char_range(c);
    reveal_with_fuel(utf16_units, 2);
    assert(seq![c].drop_last() =~= seq![]);
    assert(utf16_units(seq![c]) =~= char_units(c));
}

/// A character below 0x10000 is written in two bytes with its value, any other in four: those of
/// its leading half, then those of its trailing half.
pub proof fn law_utf16le_char(c: char)
    ensures
        (c as int) < 0x10000 ==> {
            let bytes = utf16le(seq![c]);
            bytes.len() == 2 && bytes[0] + 0x100 * bytes[1] == c as int
        },
        (c as int) >= 0x10000 ==> {
            let bytes = utf16le(seq![c]);
            &&& bytes.len() == 4
            &&& 0xD8 <= bytes[1] < 0xDC
            &&& 0xDC <= bytes[3] < 0xE0
            &&& c as int == 0x10000 + 0x400 * (bytes[0] + 0x100 * (bytes[1] - 0xD8)) + (bytes[2]
                + 0x100 * (bytes[3] - 0xDC))
        },
{
    law_utf16_char(c);
    let units = utf16_units(seq![c]);
    reveal_with_fuel(units_le, 3);
    if (c as int) < 0x10000 {
        assert(units.drop_last() =~= seq![]);
        assert(utf16le(seq![c]) =~= le_u16_bytes(units[0]));
    } else {
        assert(units.drop_last().drop_last() =~= seq![]);
        assert(utf16le(seq![c]) =~= le_u16_bytes(units[0]) + le_u16_bytes(units[1]));
    }
}

/// Every two bytes are a code unit, the first with the weight one and the second with 0x100.
pub proof fn law_le_units(bytes: Seq<u8>, i: int)
    ensures
        le_units(bytes).len() == bytes.len() / 2,
        0 <= i < bytes.len() / 2 ==> le_units(bytes)[i] == bytes[2 * i] + 0x100 * bytes[2 * i + 1],
{
}

/// Code units stand for a text exactly if they are the code units of that text; they stand for
/// none exactly if there is no such text.
pub proof fn law_utf16_text_exact(units: Seq<u16>, text: Seq<char>)
    ensures
        utf16_text(units) == Some(text) <==> utf16_units(text) == units,
{
    law_utf16_text_keeps_units(units);
    if utf16_units(text) =~= units {
        law_utf16_units_read_back(text);
    }
}

/// Bytes of whole code units read as a text exactly if they are that text in UTF-16.
pub proof fn law_utf16le_exact(bytes: Seq<u8>, text: Seq<char>)
    requires
        bytes.len() % 2 == 0,
    ensures
        utf16_text(le_units(bytes)) == Some(text) <==> utf16le(text) == bytes,
{
    law_utf16le_keeps_bytes(bytes);
    law_utf16le_read_back(text);
}

} // verus!
