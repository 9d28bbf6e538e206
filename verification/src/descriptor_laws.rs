//! What holds of reading the descriptor of an agile-encrypted document.

use vstd::prelude::*;
use vstd::utf8::encode_utf8;

use crate::agile::{
    agile_info, descriptor_of, element_named, scan, scan_element, set_attribute, set_attributes,
    AgileView, Element, ScanView,
};
use crate::encoding::{
    base64_data, base64_text, decimal_text, decimal_u32, law_base64_exact, law_base64_read_back,
    law_decimal_digits, law_decimal_read_back, law_utf8_exact, law_utf8_read_back, utf8_text,
};
use crate::error::ErrorView;
use crate::xml::{text_events, AttributeView, EventView};

verus! {

/// Whether an event is one of a descriptor's three elements.
pub open spec fn is_element(event: EventView, element: Element) -> bool {
    event matches EventView::Empty { name, .. } && element_named(name) == Some(element)
}

/// Whether an event says nothing to a reader of descriptors: it is not a self-closing element, or
/// one with another name than the three that are read.
pub open spec fn says_nothing(event: EventView) -> bool {
    match event {
        EventView::Other => true,
        EventView::Empty { name, .. } => element_named(name) is None,
        _ => false,
    }
}

/// Whether an event changes nothing where `before` stands in front of it: it says nothing, or it
/// is an element of a name that stood there already.
pub open spec fn is_ignored(before: Seq<EventView>, event: EventView) -> bool {
    ||| says_nothing(event)
    ||| exists|element: Element, i: int|
        0 <= i < before.len() && is_element(event, element) && #[trigger] is_element(
            before[i],
            element,
        )
}

proof fn lemma_seen_stays(
    state: ScanView,
    name: Seq<u8>,
    attributes: Seq<AttributeView>,
    element: Element,
)
    ensures
        scan_element(state, name, attributes) matches Ok(next) ==> {
            &&& state.seen(element) ==> next.seen(element)
            &&& element_named(name) == Some(element) ==> next.seen(element)
        },
{
}

proof fn lemma_ignored(
    state: ScanView,
    before: Seq<EventView>,
    event: EventView,
    after: Seq<EventView>,
)
    requires
        is_ignored(before, event) || (exists|element: Element|
            is_element(event, element) && #[trigger] state.seen(element)),
    ensures
        scan(state, before + seq![event] + after) == scan(state, before + after),
    decreases before.len(),
{
    let with = before + seq![event] + after;
    let without = before + after;
    if before.len() == 0 {
        assert(with.skip(1) =~= after);
        assert(without =~= after);
    } else {
        let rest = before.skip(1);
        assert(with.skip(1) =~= rest + seq![event] + after);
        assert(without.skip(1) =~= rest + after);
        if let EventView::Empty { name, attributes } = before[0] {
            match scan_element(state, name, attributes) {
                Ok(next) => {
                    if !says_nothing(event) {
                        let element = element_named(event->name)->0;
                        lemma_seen_stays(state, name, attributes, element);
                        if !next.seen(element) {
                            let i = choose|i: int|
                                0 <= i < before.len() && #[trigger] is_element(before[i], element);
                            assert(is_element(rest[i - 1], element));
                        }
                    }
                    lemma_ignored(next, rest, event, after);
                },
                Err(_) => {},
            }
        } else if before[0] is Other {
            if !says_nothing(event) {
                let element = element_named(event->name)->0;
                if !state.seen(element) {
                    let i = choose|i: int|
                        0 <= i < before.len() && #[trigger] is_element(before[i], element);
                    assert(is_element(rest[i - 1], element));
                }
            }
            lemma_ignored(state, rest, event, after);
        }
    }
}

/// Of the elements with one name only the first counts; elements with other names than the three
/// that are read, and everything that is not a self-closing element, count for nothing. Leaving
/// such an event out does not change what is read.
pub proof fn law_ignored_events(before: Seq<EventView>, event: EventView, after: Seq<EventView>)
    requires
        is_ignored(before, event),
    ensures
        descriptor_of(before + seq![event] + after) == descriptor_of(before + after),
{
    lemma_ignored(ScanView::start(), before, event, after);
}

proof fn lemma_seen_comes_from_event(state: ScanView, events: Seq<EventView>, element: Element)
    requires
        scan(state, events) matches Ok(end) && end.seen(element),
        !state.seen(element),
    ensures
        exists|i: int| 0 <= i < events.len() && #[trigger] is_element(events[i], element),
    decreases events.len(),
{
    let rest = events.skip(1);
    if !is_element(events[0], element) {
        let next = match events[0] {
            EventView::Empty { name, attributes } => scan_element(state, name, attributes)->Ok_0,
            _ => state,
        };
        lemma_seen_comes_from_event(next, rest, element);
        let i = choose|i: int| 0 <= i < rest.len() && #[trigger] is_element(rest[i], element);
        assert(is_element(events[i + 1], element));
    }
}

/// A text is read as a descriptor only if all three elements stand in it.
pub proof fn law_descriptor_is_complete(events: Seq<EventView>, element: Element)
    requires
        descriptor_of(events) is Ok,
    ensures
        exists|i: int| 0 <= i < events.len() && #[trigger] is_element(events[i], element),
{
    lemma_seen_comes_from_event(ScanView::start(), events, element);
}

/// `base` with the fields of one element replaced by those of `from`.
pub open spec fn with_fields(element: Element, base: AgileView, from: AgileView) -> AgileView {
    match element {
        Element::KeyData => AgileView {
            key_data_salt: from.key_data_salt,
            key_data_hash_algorithm: from.key_data_hash_algorithm,
            key_data_block_size: from.key_data_block_size,
            key_data_key_bits: from.key_data_key_bits,
            ..base
        },
        Element::DataIntegrity => AgileView {
            encrypted_hmac_key: from.encrypted_hmac_key,
            encrypted_hmac_value: from.encrypted_hmac_value,
            ..base
        },
        Element::EncryptedKey => AgileView {
            encrypted_verifier_hash_input: from.encrypted_verifier_hash_input,
            encrypted_verifier_hash_value: from.encrypted_verifier_hash_value,
            encrypted_key_value: from.encrypted_key_value,
            spin_count: from.spin_count,
            password_salt: from.password_salt,
            password_hash_algorithm: from.password_hash_algorithm,
            password_key_bits: from.password_key_bits,
            ..base
        },
    }
}

/// An element sets its own fields only, and what it sets does not depend on the others: where the
/// other fields are different, they stay so, and the same fields are set to the same values.
pub proof fn law_elements_are_independent(
    element: Element,
    info: AgileView,
    other: AgileView,
    attributes: Seq<AttributeView>,
)
    ensures
        set_attributes(element, with_fields(element, other, info), attributes) == (
        match set_attributes(element, info, attributes) {
            Ok(next) => Ok(with_fields(element, other, next)),
            Err(error) => Err(error),
        }),
        set_attributes(element, info, attributes) matches Ok(next) ==> next == with_fields(
            element,
            info,
            next,
        ),
    decreases attributes.len(),
{
    if attributes.len() > 0 {
        if let Ok(next) = set_attribute(element, info, attributes[0]) {
            law_elements_are_independent(element, next, other, attributes.skip(1));
        }
    }
}

/// The error that an attribute of `element` gives, if any.
pub open spec fn attribute_error(element: Element, attribute: AttributeView) -> Option<ErrorView> {
    match set_attribute(element, AgileView::blank(), attribute) {
        Ok(_) => None,
        Err(error) => Some(error),
    }
}

/// The error that the attributes of an event give, if any. Of elements that are not read none is
/// looked at.
pub open spec fn event_error(event: EventView) -> Option<ErrorView> {
    match event {
        EventView::Empty { name, attributes } => match element_named(name) {
            Some(element) => match set_attributes(element, AgileView::blank(), attributes) {
                Ok(_) => None,
                Err(error) => Some(error),
            },
            None => None,
        },
        _ => None,
    }
}

/// Whether there are two errors and they differ, so that what is reported depends on which one is
/// met first.
pub open spec fn at_odds(a: Option<ErrorView>, b: Option<ErrorView>) -> bool {
    a is Some && b is Some && a != b
}

proof fn lemma_error_anywhere(
    element: Element,
    info: AgileView,
    other: AgileView,
    attributes: Seq<AttributeView>,
)
    ensures
        set_attributes(element, info, attributes) matches Err(error) ==> set_attributes(
            element,
            other,
            attributes,
        ) == Err::<AgileView, ErrorView>(error),
        set_attributes(element, info, attributes) is Ok ==> set_attributes(
            element,
            other,
            attributes,
        ) is Ok,
    decreases attributes.len(),
{
    if attributes.len() > 0 {
        let a = set_attribute(element, info, attributes[0]);
        let b = set_attribute(element, other, attributes[0]);
        if a is Ok && b is Ok {
            lemma_error_anywhere(element, a->Ok_0, b->Ok_0, attributes.skip(1));
        }
    }
}

proof fn lemma_elements_swap(
    state: ScanView,
    first: EventView,
    second: EventView,
    after: Seq<EventView>,
)
    requires
        first is Empty,
        second is Empty,
        element_named(first->name) != element_named(second->name),
        !at_odds(event_error(first), event_error(second)),
    ensures
        scan(state, seq![second, first] + after) == scan(state, seq![first, second] + after),
{
    let events = seq![first, second] + after;
    let turned = seq![second, first] + after;
    assert(events.skip(1) =~= seq![second] + after);
    assert(turned.skip(1) =~= seq![first] + after);
    assert((seq![second] + after).skip(1) =~= after);
    assert((seq![first] + after).skip(1) =~= after);
    reveal_with_fuel(scan, 3);
    if let (Some(a), Some(b)) = (element_named(first->name), element_named(second->name)) {
        let blank = AgileView::blank();
        let info = state.info;
        let only_first = set_attributes(a, info, first->attributes);
        let only_second = set_attributes(b, info, second->attributes);
        lemma_error_anywhere(a, blank, info, first->attributes);
        lemma_error_anywhere(b, blank, info, second->attributes);
        if only_first is Ok {
            lemma_error_anywhere(b, info, only_first->Ok_0, second->attributes);
        }
        if only_second is Ok {
            lemma_error_anywhere(a, info, only_second->Ok_0, first->attributes);
        }
        if !state.seen(a) && !state.seen(b) && only_first is Ok && only_second is Ok {
            let middle = only_first->Ok_0;
            let end = set_attributes(b, middle, second->attributes)->Ok_0;
            let other = with_fields(b, info, end);
            law_elements_are_independent(a, info, other, first->attributes);
            law_elements_are_independent(b, middle, info, second->attributes);
            assert(with_fields(b, info, middle) =~= info);
            assert(with_fields(a, other, info) =~= other);
            assert(with_fields(a, other, middle) =~= end);
        }
    }
}

/// The order in which the elements of a descriptor stand does not matter: two neighbours with
/// different names may change places, unless each gives an error of its own.
pub proof fn law_elements_in_any_order(
    before: Seq<EventView>,
    first: EventView,
    second: EventView,
    after: Seq<EventView>,
)
    requires
        first is Empty,
        second is Empty,
        element_named(first->name) != element_named(second->name),
        !at_odds(event_error(first), event_error(second)),
    ensures
        descriptor_of(before + (seq![second, first] + after)) == descriptor_of(
            before + (seq![first, second] + after),
        ),
{
    lemma_any_order(ScanView::start(), before, first, second, after);
}

proof fn lemma_any_order(
    state: ScanView,
    before: Seq<EventView>,
    first: EventView,
    second: EventView,
    after: Seq<EventView>,
)
    requires
        first is Empty,
        second is Empty,
        element_named(first->name) != element_named(second->name),
        !at_odds(event_error(first), event_error(second)),
    ensures
        scan(state, before + (seq![second, first] + after)) == scan(
            state,
            before + (seq![first, second] + after),
        ),
    decreases before.len(),
{
    let events = before + (seq![first, second] + after);
    let turned = before + (seq![second, first] + after);
    if before.len() == 0 {
        assert(events =~= seq![first, second] + after);
        assert(turned =~= seq![second, first] + after);
        lemma_elements_swap(state, first, second, after);
    } else {
        let rest = before.skip(1);
        assert(events.skip(1) =~= rest + (seq![first, second] + after));
        assert(turned.skip(1) =~= rest + (seq![second, first] + after));
        match before[0] {
            EventView::Empty { name, attributes } => {
                if let Ok(next) = scan_element(state, name, attributes) {
                    lemma_any_order(next, rest, first, second, after);
                }
            },
            EventView::Other => {
                lemma_any_order(state, rest, first, second, after);
            },
            _ => {},
        }
    }
}

proof fn lemma_attributes_swap(
    element: Element,
    info: AgileView,
    first: AttributeView,
    second: AttributeView,
)
    requires
        first is Pair && second is Pair ==> first->key != second->key,
    ensures
        attribute_error(element, first) is None && attribute_error(element, second) is None ==> {
            let a = set_attribute(element, info, first)->Ok_0;
            let b = set_attribute(element, info, second)->Ok_0;
            &&& set_attribute(element, a, second) is Ok
            &&& set_attribute(element, a, second) == set_attribute(element, b, first)
        },
{
}

/// The order in which the attributes of an element stand does not matter: two neighbours with
/// different names may change places, unless each gives an error of its own.
pub proof fn law_attributes_in_any_order(
    element: Element,
    info: AgileView,
    before: Seq<AttributeView>,
    first: AttributeView,
    second: AttributeView,
    after: Seq<AttributeView>,
)
    requires
        first is Pair && second is Pair ==> first->key != second->key,
        !at_odds(attribute_error(element, first), attribute_error(element, second)),
    ensures
        set_attributes(element, info, before + (seq![second, first] + after)) == set_attributes(
            element,
            info,
            before + (seq![first, second] + after),
        ),
    decreases before.len(),
{
    let attributes = before + (seq![first, second] + after);
    let turned = before + (seq![second, first] + after);
    if before.len() == 0 {
        assert(attributes.skip(1) =~= seq![second] + after);
        assert(turned.skip(1) =~= seq![first] + after);
        assert((seq![second] + after).skip(1) =~= after);
        assert((seq![first] + after).skip(1) =~= after);
        reveal_with_fuel(set_attributes, 3);
        lemma_attributes_swap(element, info, first, second);
    } else {
        let rest = before.skip(1);
        assert(attributes.skip(1) =~= rest + (seq![first, second] + after));
        assert(turned.skip(1) =~= rest + (seq![second, first] + after));
        if let Ok(next) = set_attribute(element, info, before[0]) {
            law_attributes_in_any_order(element, next, rest, first, second, after);
        }
    }
}

/// Whether `element` is read for the attribute with the name `key`.
pub open spec fn is_read(element: Element, key: Seq<u8>) -> bool {
    match element {
        Element::KeyData => {
            ||| key == encode_utf8("saltValue"@)
            ||| key == encode_utf8("hashAlgorithm"@)
            ||| key == encode_utf8("blockSize"@)
            ||| key == encode_utf8("keyBits"@)
        },
        Element::DataIntegrity => {
            ||| key == encode_utf8("encryptedHmacKey"@)
            ||| key == encode_utf8("encryptedHmacValue"@)
        },
        Element::EncryptedKey => {
            ||| key == encode_utf8("encryptedVerifierHashInput"@)
            ||| key == encode_utf8("encryptedVerifierHashValue"@)
            ||| key == encode_utf8("encryptedKeyValue"@)
            ||| key == encode_utf8("spinCount"@)
            ||| key == encode_utf8("saltValue"@)
            ||| key == encode_utf8("hashAlgorithm"@)
            ||| key == encode_utf8("keyBits"@)
        },
    }
}

/// An attribute is ignored if its name is none of those that its element is read for: whatever its
/// value is, leaving it out does not change what is read.
pub proof fn law_ignored_attributes(
    element: Element,
    info: AgileView,
    before: Seq<AttributeView>,
    key: Seq<u8>,
    value: Seq<u8>,
    after: Seq<AttributeView>,
)
    requires
        !is_read(element, key),
    ensures
        set_attributes(element, info, before + seq![AttributeView::Pair { key, value }] + after)
            == set_attributes(element, info, before + after),
    decreases before.len(),
{
    let attribute = AttributeView::Pair { key, value };
    let with = before + seq![attribute] + after;
    let without = before + after;
    if before.len() == 0 {
        assert(with.skip(1) =~= after);
        assert(without =~= after);
    } else {
        let rest = before.skip(1);
        assert(with.skip(1) =~= rest + seq![attribute] + after);
        assert(without.skip(1) =~= rest + after);
        if let Ok(next) = set_attribute(element, info, before[0]) {
            law_ignored_attributes(element, next, rest, key, value, after);
        }
    }
}

/// The attribute `name="value"`.
pub open spec fn pair(name: Seq<char>, value: Seq<u8>) -> AttributeView {
    AttributeView::Pair { key: encode_utf8(name), value }
}

/// The `keyData` element of a descriptor.
pub open spec fn key_data_event(info: AgileView) -> EventView {
    EventView::Empty {
        name: encode_utf8("keyData"@),
        attributes: seq![
            pair("saltValue"@, base64_text(info.key_data_salt)),
            pair("hashAlgorithm"@, encode_utf8(info.key_data_hash_algorithm)),
            pair("blockSize"@, decimal_text(info.key_data_block_size as nat)),
            pair("keyBits"@, decimal_text(info.key_data_key_bits as nat)),
        ],
    }
}

/// The `dataIntegrity` element of a descriptor.
pub open spec fn data_integrity_event(info: AgileView) -> EventView {
    EventView::Empty {
        name: encode_utf8("dataIntegrity"@),
        attributes: seq![
            pair("encryptedHmacKey"@, base64_text(info.encrypted_hmac_key)),
            pair("encryptedHmacValue"@, base64_text(info.encrypted_hmac_value)),
        ],
    }
}

/// The `p:encryptedKey` element of a descriptor.
pub open spec fn encrypted_key_event(info: AgileView) -> EventView {
    EventView::Empty {
        name: encode_utf8("p:encryptedKey"@),
        attributes: seq![
            pair("spinCount"@, decimal_text(info.spin_count as nat)),
            pair("saltValue"@, base64_text(info.password_salt)),
            pair("hashAlgorithm"@, encode_utf8(info.password_hash_algorithm)),
            pair("keyBits"@, decimal_text(info.password_key_bits as nat)),
            pair("encryptedVerifierHashInput"@, base64_text(info.encrypted_verifier_hash_input)),
            pair("encryptedVerifierHashValue"@, base64_text(info.encrypted_verifier_hash_value)),
            pair("encryptedKeyValue"@, base64_text(info.encrypted_key_value)),
        ],
    }
}

proof fn lemma_encoded_differ(a: Seq<char>, b: Seq<char>)
    requires
        a != b,
    ensures
        encode_utf8(a) != encode_utf8(b),
{
    vstd::utf8::encode_utf8_decode_utf8(a);
    vstd::utf8::encode_utf8_decode_utf8(b);
}

proof fn lemma_element_names()
    ensures
        element_named(encode_utf8("keyData"@)) == Some(Element::KeyData),
        element_named(encode_utf8("dataIntegrity"@)) == Some(Element::DataIntegrity),
        element_named(encode_utf8("p:encryptedKey"@)) == Some(Element::EncryptedKey),
{
    reveal_strlit("keyData");
    reveal_strlit("dataIntegrity");
    reveal_strlit("p:encryptedKey");
    lemma_encoded_differ("dataIntegrity"@, "keyData"@);
    lemma_encoded_differ("p:encryptedKey"@, "keyData"@);
    lemma_encoded_differ("p:encryptedKey"@, "dataIntegrity"@);
}

proof fn lemma_key_data_names()
    ensures
        encode_utf8("hashAlgorithm"@) != encode_utf8("saltValue"@),
        encode_utf8("blockSize"@) != encode_utf8("saltValue"@),
        encode_utf8("blockSize"@) != encode_utf8("hashAlgorithm"@),
        encode_utf8("keyBits"@) != encode_utf8("saltValue"@),
        encode_utf8("keyBits"@) != encode_utf8("hashAlgorithm"@),
        encode_utf8("keyBits"@) != encode_utf8("blockSize"@),
{
    reveal_strlit("saltValue");
    reveal_strlit("hashAlgorithm");
    reveal_strlit("blockSize");
    reveal_strlit("keyBits");
    assert("blockSize"@[0] != "saltValue"@[0]);
    lemma_encoded_differ("hashAlgorithm"@, "saltValue"@);
    lemma_encoded_differ("blockSize"@, "saltValue"@);
    lemma_encoded_differ("blockSize"@, "hashAlgorithm"@);
    lemma_encoded_differ("keyBits"@, "saltValue"@);
    lemma_encoded_differ("keyBits"@, "hashAlgorithm"@);
    lemma_encoded_differ("keyBits"@, "blockSize"@);
}

proof fn lemma_data_integrity_names()
    ensures
        encode_utf8("encryptedHmacValue"@) != encode_utf8("encryptedHmacKey"@),
{
    reveal_strlit("encryptedHmacKey");
    reveal_strlit("encryptedHmacValue");
    lemma_encoded_differ("encryptedHmacValue"@, "encryptedHmacKey"@);
}

proof fn lemma_encrypted_key_names()
    ensures
        encode_utf8("encryptedVerifierHashValue"@) != encode_utf8("encryptedVerifierHashInput"@),
        encode_utf8("encryptedKeyValue"@) != encode_utf8("encryptedVerifierHashInput"@),
        encode_utf8("encryptedKeyValue"@) != encode_utf8("encryptedVerifierHashValue"@),
        encode_utf8("spinCount"@) != encode_utf8("encryptedVerifierHashInput"@),
        encode_utf8("spinCount"@) != encode_utf8("encryptedVerifierHashValue"@),
        encode_utf8("spinCount"@) != encode_utf8("encryptedKeyValue"@),
        encode_utf8("saltValue"@) != encode_utf8("encryptedVerifierHashInput"@),
        encode_utf8("saltValue"@) != encode_utf8("encryptedVerifierHashValue"@),
        encode_utf8("saltValue"@) != encode_utf8("encryptedKeyValue"@),
        encode_utf8("saltValue"@) != encode_utf8("spinCount"@),
        encode_utf8("hashAlgorithm"@) != encode_utf8("encryptedVerifierHashInput"@),
        encode_utf8("hashAlgorithm"@) != encode_utf8("encryptedVerifierHashValue"@),
        encode_utf8("hashAlgorithm"@) != encode_utf8("encryptedKeyValue"@),
        encode_utf8("hashAlgorithm"@) != encode_utf8("spinCount"@),
        encode_utf8("hashAlgorithm"@) != encode_utf8("saltValue"@),
        encode_utf8("keyBits"@) != encode_utf8("encryptedVerifierHashInput"@),
        encode_utf8("keyBits"@) != encode_utf8("encryptedVerifierHashValue"@),
        encode_utf8("keyBits"@) != encode_utf8("encryptedKeyValue"@),
        encode_utf8("keyBits"@) != encode_utf8("spinCount"@),
        encode_utf8("keyBits"@) != encode_utf8("saltValue"@),
        encode_utf8("keyBits"@) != encode_utf8("hashAlgorithm"@),
{
    reveal_strlit("encryptedVerifierHashInput");
    reveal_strlit("encryptedVerifierHashValue");
    reveal_strlit("encryptedKeyValue");
    reveal_strlit("spinCount");
    reveal_strlit("saltValue");
    reveal_strlit("hashAlgorithm");
    reveal_strlit("keyBits");
    assert("encryptedVerifierHashValue"@[21] != "encryptedVerifierHashInput"@[21]);
    assert("saltValue"@[1] != "spinCount"@[1]);
    lemma_encoded_differ("encryptedVerifierHashValue"@, "encryptedVerifierHashInput"@);
    lemma_encoded_differ("encryptedKeyValue"@, "encryptedVerifierHashInput"@);
    lemma_encoded_differ("encryptedKeyValue"@, "encryptedVerifierHashValue"@);
    lemma_encoded_differ("spinCount"@, "encryptedVerifierHashInput"@);
    lemma_encoded_differ("spinCount"@, "encryptedVerifierHashValue"@);
    lemma_encoded_differ("spinCount"@, "encryptedKeyValue"@);
    lemma_encoded_differ("saltValue"@, "encryptedVerifierHashInput"@);
    lemma_encoded_differ("saltValue"@, "encryptedVerifierHashValue"@);
    lemma_encoded_differ("saltValue"@, "encryptedKeyValue"@);
    lemma_encoded_differ("saltValue"@, "spinCount"@);
    lemma_encoded_differ("hashAlgorithm"@, "encryptedVerifierHashInput"@);
    lemma_encoded_differ("hashAlgorithm"@, "encryptedVerifierHashValue"@);
    lemma_encoded_differ("hashAlgorithm"@, "encryptedKeyValue"@);
    lemma_encoded_differ("hashAlgorithm"@, "spinCount"@);
    lemma_encoded_differ("hashAlgorithm"@, "saltValue"@);
    lemma_encoded_differ("keyBits"@, "encryptedVerifierHashInput"@);
    lemma_encoded_differ("keyBits"@, "encryptedVerifierHashValue"@);
    lemma_encoded_differ("keyBits"@, "encryptedKeyValue"@);
    lemma_encoded_differ("keyBits"@, "spinCount"@);
    lemma_encoded_differ("keyBits"@, "saltValue"@);
    lemma_encoded_differ("keyBits"@, "hashAlgorithm"@);
}

proof fn lemma_next_attribute(
    element: Element,
    info: AgileView,
    attributes: Seq<AttributeView>,
    at: int,
    next: AgileView,
)
    requires
        0 <= at < attributes.len(),
        set_attribute(element, info, attributes[at]) == Ok::<AgileView, ErrorView>(next),
    ensures
        set_attributes(element, info, attributes.skip(at)) == set_attributes(
            element,
            next,
            attributes.skip(at + 1),
        ),
{
    assert(attributes.skip(at).skip(1) =~= attributes.skip(at + 1));
}

proof fn lemma_key_data_reads_back(start: AgileView, info: AgileView)
    ensures
        set_attributes(Element::KeyData, start, key_data_event(info)->attributes) == Ok::<
            AgileView,
            ErrorView,
        >(
            AgileView {
                key_data_salt: info.key_data_salt,
                key_data_hash_algorithm: info.key_data_hash_algorithm,
                key_data_block_size: info.key_data_block_size,
                key_data_key_bits: info.key_data_key_bits,
                ..start
            },
        ),
{
    let attributes = key_data_event(info)->attributes;
    lemma_key_data_names();
    law_base64_read_back(info.key_data_salt);
    law_utf8_read_back(info.key_data_hash_algorithm);
    law_decimal_read_back(info.key_data_block_size);
    law_decimal_read_back(info.key_data_key_bits);
    let first = AgileView { key_data_salt: info.key_data_salt, ..start };
    let second = AgileView { key_data_hash_algorithm: info.key_data_hash_algorithm, ..first };
    let third = AgileView { key_data_block_size: info.key_data_block_size, ..second };
    let fourth = AgileView { key_data_key_bits: info.key_data_key_bits, ..third };
    assert(attributes.skip(0) =~= attributes);
    lemma_next_attribute(Element::KeyData, start, attributes, 0, first);
    lemma_next_attribute(Element::KeyData, first, attributes, 1, second);
    lemma_next_attribute(Element::KeyData, second, attributes, 2, third);
    lemma_next_attribute(Element::KeyData, third, attributes, 3, fourth);
}

proof fn lemma_data_integrity_reads_back(start: AgileView, info: AgileView)
    ensures
        set_attributes(Element::DataIntegrity, start, data_integrity_event(info)->attributes)
            == Ok::<AgileView, ErrorView>(
            AgileView {
                encrypted_hmac_key: info.encrypted_hmac_key,
                encrypted_hmac_value: info.encrypted_hmac_value,
                ..start
            },
        ),
{
    let attributes = data_integrity_event(info)->attributes;
    lemma_data_integrity_names();
    law_base64_read_back(info.encrypted_hmac_key);
    law_base64_read_back(info.encrypted_hmac_value);
    let first = AgileView { encrypted_hmac_key: info.encrypted_hmac_key, ..start };
    let second = AgileView { encrypted_hmac_value: info.encrypted_hmac_value, ..first };
    assert(attributes.skip(0) =~= attributes);
    lemma_next_attribute(Element::DataIntegrity, start, attributes, 0, first);
    lemma_next_attribute(Element::DataIntegrity, first, attributes, 1, second);
}

proof fn lemma_skip_nothing(state: ScanView, before: Seq<EventView>, after: Seq<EventView>)
    requires
        forall|i: int| 0 <= i < before.len() ==> says_nothing(#[trigger] before[i]),
    ensures
        scan(state, before + after) == scan(state, after),
    decreases before.len(),
{
    if before.len() == 0 {
        assert(before + after =~= after);
    } else {
        let rest = before.skip(1);
        assert(says_nothing(before[0]));
        assert((before + after).skip(1) =~= rest + after);
        lemma_skip_nothing(state, rest, after);
    }
}

proof fn lemma_encrypted_key_reads_back(start: AgileView, info: AgileView)
    ensures
        set_attributes(Element::EncryptedKey, start, encrypted_key_event(info)->attributes)
            == Ok::<AgileView, ErrorView>(
            AgileView {
                spin_count: info.spin_count,
                password_salt: info.password_salt,
                password_hash_algorithm: info.password_hash_algorithm,
                password_key_bits: info.password_key_bits,
                encrypted_verifier_hash_input: info.encrypted_verifier_hash_input,
                encrypted_verifier_hash_value: info.encrypted_verifier_hash_value,
                encrypted_key_value: info.encrypted_key_value,
                ..start
            },
        ),
{
    let attributes = encrypted_key_event(info)->attributes;
    lemma_encrypted_key_names();
    law_decimal_read_back(info.spin_count);
    law_base64_read_back(info.password_salt);
    law_utf8_read_back(info.password_hash_algorithm);
    law_decimal_read_back(info.password_key_bits);
    law_base64_read_back(info.encrypted_verifier_hash_input);
    law_base64_read_back(info.encrypted_verifier_hash_value);
    law_base64_read_back(info.encrypted_key_value);
    let s1 = AgileView { spin_count: info.spin_count, ..start };
    let s2 = AgileView { password_salt: info.password_salt, ..s1 };
    let s3 = AgileView { password_hash_algorithm: info.password_hash_algorithm, ..s2 };
    let s4 = AgileView { password_key_bits: info.password_key_bits, ..s3 };
    let s5 = AgileView { encrypted_verifier_hash_input: info.encrypted_verifier_hash_input, ..s4 };
    let s6 = AgileView { encrypted_verifier_hash_value: info.encrypted_verifier_hash_value, ..s5 };
    let s7 = AgileView { encrypted_key_value: info.encrypted_key_value, ..s6 };
    assert(attributes.skip(0) =~= attributes);
    lemma_next_attribute(Element::EncryptedKey, start, attributes, 0, s1);
    lemma_next_attribute(Element::EncryptedKey, s1, attributes, 1, s2);
    lemma_next_attribute(Element::EncryptedKey, s2, attributes, 2, s3);
    lemma_next_attribute(Element::EncryptedKey, s3, attributes, 3, s4);
    lemma_next_attribute(Element::EncryptedKey, s4, attributes, 4, s5);
    lemma_next_attribute(Element::EncryptedKey, s5, attributes, 5, s6);
    lemma_next_attribute(Element::EncryptedKey, s6, attributes, 6, s7);
}

proof fn lemma_next_element(
    state: ScanView,
    before: Seq<EventView>,
    event: EventView,
    after: Seq<EventView>,
    element: Element,
    info: AgileView,
)
    requires
        forall|i: int| 0 <= i < before.len() ==> says_nothing(#[trigger] before[i]),
        is_element(event, element),
        !state.seen(element),
        set_attributes(element, state.info, event->attributes) == Ok::<AgileView, ErrorView>(info),
    ensures
        scan(state, before + (seq![event] + after)) == scan(state.mark(element, info), after),
{
    lemma_skip_nothing(state, before, seq![event] + after);
    assert((seq![event] + after).skip(1) =~= after);
}

/// A descriptor that was written out, element by element, reads back as the same descriptor,
/// whatever stands around the three elements and says nothing to a reader.
pub proof fn law_descriptor_reads_back(
    info: AgileView,
    a: Seq<EventView>,
    b: Seq<EventView>,
    c: Seq<EventView>,
    d: Seq<EventView>,
)
    requires
        sizes_in_order(info),
        forall|i: int| 0 <= i < a.len() ==> says_nothing(#[trigger] a[i]),
        forall|i: int| 0 <= i < b.len() ==> says_nothing(#[trigger] b[i]),
        forall|i: int| 0 <= i < c.len() ==> says_nothing(#[trigger] c[i]),
        forall|i: int| 0 <= i < d.len() ==> says_nothing(#[trigger] d[i]),
    ensures
        descriptor_of(
            a + (seq![key_data_event(info)] + (b + (seq![data_integrity_event(info)] + (c + (
            seq![encrypted_key_event(info)] + (d + seq![EventView::Eof])))))),
        ) == Ok::<AgileView, ErrorView>(info),
{
    let end = d + seq![EventView::Eof];
    let third = c + (seq![encrypted_key_event(info)] + end);
    let second = b + (seq![data_integrity_event(info)] + third);
    let start = ScanView::start();
    lemma_element_names();
    lemma_key_data_reads_back(start.info, info);
    let info1 = AgileView {
        key_data_salt: info.key_data_salt,
        key_data_hash_algorithm: info.key_data_hash_algorithm,
        key_data_block_size: info.key_data_block_size,
        key_data_key_bits: info.key_data_key_bits,
        ..start.info
    };
    lemma_next_element(start, a, key_data_event(info), second, Element::KeyData, info1);
    let state1 = start.mark(Element::KeyData, info1);
    lemma_data_integrity_reads_back(info1, info);
    let info2 = AgileView {
        encrypted_hmac_key: info.encrypted_hmac_key,
        encrypted_hmac_value: info.encrypted_hmac_value,
        ..info1
    };
    lemma_next_element(
        state1,
        b,
        data_integrity_event(info),
        third,
        Element::DataIntegrity,
        info2,
    );
    let state2 = state1.mark(Element::DataIntegrity, info2);
    lemma_encrypted_key_reads_back(info2, info);
    lemma_next_element(state2, c, encrypted_key_event(info), end, Element::EncryptedKey, info);
    lemma_skip_nothing(
        state2.mark(Element::EncryptedKey, info),
        d,
        seq![EventView::Eof],
    );
}

/// Whether an attribute was read as base64: the descriptor has one field replaced by data of which
/// the value is the base64 text, or there are none such and it is an error.
pub open spec fn reads_base64(
    result: Result<AgileView, ErrorView>,
    value: Seq<u8>,
    with_field: spec_fn(Seq<u8>) -> AgileView,
) -> bool {
    match result {
        Ok(next) => exists|data: Seq<u8>| #[trigger]
            base64_text(data) == value && next == with_field(data),
        Err(error) => error is Unknown && forall|data: Seq<u8>| #[trigger]
            base64_text(data) != value,
    }
}

/// Whether an attribute was read as a name: the descriptor has one field replaced by a text of
/// which the value is the UTF-8 encoding, or there is none such and it is an error.
pub open spec fn reads_text(
    result: Result<AgileView, ErrorView>,
    value: Seq<u8>,
    with_field: spec_fn(Seq<char>) -> AgileView,
) -> bool {
    match result {
        Ok(next) => exists|text: Seq<char>| #[trigger]
            encode_utf8(text) == value && next == with_field(text),
        Err(error) => error is InvalidStructure && forall|text: Seq<char>| #[trigger]
            encode_utf8(text) != value,
    }
}

/// Whether an attribute was read as a number: the descriptor has one field replaced by the number
/// that the value writes down in decimal, or it writes down none and it is an error.
pub open spec fn reads_number(
    result: Result<AgileView, ErrorView>,
    value: Seq<u8>,
    with_field: spec_fn(u32) -> AgileView,
) -> bool {
    match decimal_u32(value) {
        Ok(n) => result == Ok::<AgileView, ErrorView>(with_field(n)),
        Err(_) => result == Err::<AgileView, ErrorView>(ErrorView::InvalidStructure),
    }
}

proof fn lemma_reads_base64(value: Seq<u8>)
    ensures
        base64_data(value) matches Ok(data) ==> base64_text(data) == value,
        base64_data(value) matches Err(error) ==> error is Unknown && forall|data: Seq<u8>|
            #[trigger] base64_text(data) != value,
{
    if let Ok(data) = base64_data(value) {
        law_base64_exact(value, data);
    } else {
        assert forall|data: Seq<u8>| #[trigger] base64_text(data) != value by {
            law_base64_exact(value, data);
        }
    }
}

proof fn lemma_reads_text(value: Seq<u8>)
    ensures
        utf8_text(value) matches Ok(text) ==> encode_utf8(text) == value,
        utf8_text(value) matches Err(error) ==> error is InvalidStructure && forall|
            text: Seq<char>,
        |
            #[trigger] encode_utf8(text) != value,
{
    if let Ok(text) = utf8_text(value) {
        law_utf8_exact(value, text);
    } else {
        assert forall|text: Seq<char>| #[trigger] encode_utf8(text) != value by {
            law_utf8_exact(value, text);
        }
    }
}

/// Which field each base64 attribute sets: its data are those of which the value is the text, and
/// no other field changes.
pub proof fn law_base64_attributes(info: AgileView, value: Seq<u8>)
    ensures
        reads_base64(
            set_attribute(Element::KeyData, info, pair("saltValue"@, value)),
            value,
            |field: Seq<u8>| AgileView { key_data_salt: field, ..info },
        ),
        reads_base64(
            set_attribute(Element::DataIntegrity, info, pair("encryptedHmacKey"@, value)),
            value,
            |field: Seq<u8>| AgileView { encrypted_hmac_key: field, ..info },
        ),
        reads_base64(
            set_attribute(Element::DataIntegrity, info, pair("encryptedHmacValue"@, value)),
            value,
            |field: Seq<u8>| AgileView { encrypted_hmac_value: field, ..info },
        ),
        reads_base64(
            set_attribute(Element::EncryptedKey, info, pair("encryptedVerifierHashInput"@, value)),
            value,
            |field: Seq<u8>| AgileView { encrypted_verifier_hash_input: field, ..info },
        ),
        reads_base64(
            set_attribute(Element::EncryptedKey, info, pair("encryptedVerifierHashValue"@, value)),
            value,
            |field: Seq<u8>| AgileView { encrypted_verifier_hash_value: field, ..info },
        ),
        reads_base64(
            set_attribute(Element::EncryptedKey, info, pair("encryptedKeyValue"@, value)),
            value,
            |field: Seq<u8>| AgileView { encrypted_key_value: field, ..info },
        ),
        reads_base64(
            set_attribute(Element::EncryptedKey, info, pair("saltValue"@, value)),
            value,
            |field: Seq<u8>| AgileView { password_salt: field, ..info },
        ),
{
    lemma_reads_base64(value);
    lemma_key_data_names();
    lemma_data_integrity_names();
    lemma_encrypted_key_names();
}

/// Which field each numeric attribute sets, and that no other field changes.
pub proof fn law_number_attributes(info: AgileView, value: Seq<u8>)
    ensures
        reads_number(
            set_attribute(Element::KeyData, info, pair("blockSize"@, value)),
            value,
            |field: u32| AgileView { key_data_block_size: field, ..info },
        ),
        reads_number(
            set_attribute(Element::KeyData, info, pair("keyBits"@, value)),
            value,
            |field: u32| AgileView { key_data_key_bits: field, ..info },
        ),
        reads_number(
            set_attribute(Element::EncryptedKey, info, pair("spinCount"@, value)),
            value,
            |field: u32| AgileView { spin_count: field, ..info },
        ),
        reads_number(
            set_attribute(Element::EncryptedKey, info, pair("keyBits"@, value)),
            value,
            |field: u32| AgileView { password_key_bits: field, ..info },
        ),
{
    lemma_key_data_names();
    lemma_encrypted_key_names();
    if decimal_u32(value) is Err {
        law_decimal_digits(value, 0);
    }
}

/// Which field each attribute with the name of an algorithm sets, and that no other field changes.
pub proof fn law_name_attributes(info: AgileView, value: Seq<u8>)
    ensures
        reads_text(
            set_attribute(Element::KeyData, info, pair("hashAlgorithm"@, value)),
            value,
            |field: Seq<char>| AgileView { key_data_hash_algorithm: field, ..info },
        ),
        reads_text(
            set_attribute(Element::EncryptedKey, info, pair("hashAlgorithm"@, value)),
            value,
            |field: Seq<char>| AgileView { password_hash_algorithm: field, ..info },
        ),
{
    lemma_reads_text(value);
    lemma_key_data_names();
    lemma_encrypted_key_names();
}

/// Which attributes are read at all, and that a place at which they cannot be read is an error.
pub proof fn law_unread_attributes(element: Element, info: AgileView, key: Seq<u8>, value: Seq<u8>)
    ensures
        !is_read(element, key) ==> set_attribute(element, info, AttributeView::Pair { key, value })
            == Ok::<AgileView, ErrorView>(info),
        set_attribute(element, info, AttributeView::Malformed) == Err::<AgileView, ErrorView>(
            ErrorView::InvalidStructure,
        ),
{
}

/// Attributes are taken over one after the other: none changes nothing, one is taken over as it
/// is, and of two lists in a row the second goes on from what the first has set.
pub proof fn law_attributes_in_turn(
    element: Element,
    info: AgileView,
    a: Seq<AttributeView>,
    b: Seq<AttributeView>,
    one: AttributeView,
)
    ensures
        set_attributes(element, info, seq![]) == Ok::<AgileView, ErrorView>(info),
        set_attributes(element, info, seq![one]) == set_attribute(element, info, one),
        set_attributes(element, info, a + b) == (match set_attributes(element, info, a) {
            Ok(next) => set_attributes(element, next, b),
            Err(error) => Err(error),
        }),
    decreases a.len(),
{
    reveal_with_fuel(set_attributes, 2);
    assert(seq![one].skip(1) =~= seq![]);
    if a.len() == 0 {
        assert(a + b =~= b);
    } else {
        assert((a + b).skip(1) =~= a.skip(1) + b);
        if let Ok(next) = set_attribute(element, info, a[0]) {
            law_attributes_in_turn(element, next, a.skip(1), b, one);
        }
    }
}

/// The names of the three elements, under which they are read and no others.
pub proof fn law_element_names(name: Seq<u8>)
    ensures
        element_named(name) == Some(Element::KeyData) <==> name == encode_utf8("keyData"@),
        element_named(name) == Some(Element::DataIntegrity) <==> name == encode_utf8(
            "dataIntegrity"@,
        ),
        element_named(name) == Some(Element::EncryptedKey) <==> name == encode_utf8(
            "p:encryptedKey"@,
        ),
{
    lemma_element_names();
    assert(name =~= encode_utf8("dataIntegrity"@) ==> name == encode_utf8("dataIntegrity"@));
    assert(name =~= encode_utf8("p:encryptedKey"@) ==> name == encode_utf8("p:encryptedKey"@));
}

/// Whether nothing but its descriptor and one mark tells `next` from `state`: `element` is marked
/// as seen.
pub open spec fn marks(state: ScanView, next: ScanView, element: Element) -> bool {
    &&& next.key_data == (state.key_data || element == Element::KeyData)
    &&& next.data_integrity == (state.data_integrity || element == Element::DataIntegrity)
    &&& next.encrypted_key == (state.encrypted_key || element == Element::EncryptedKey)
}

/// What one event does: the end of the text and everything that says nothing leave the state as it
/// is, a place that is not XML is an error, and an element takes over its attributes if it is the
/// first of its name, and is marked.
pub proof fn law_one_event(state: ScanView, event: EventView)
    ensures
        event is Eof || says_nothing(event) ==> scan(state, seq![event]) == Ok::<
            ScanView,
            ErrorView,
        >(state),
        event is Malformed ==> scan(state, seq![event]) == Err::<ScanView, ErrorView>(
            ErrorView::InvalidStructure,
        ),
        is_element(event, Element::KeyData) && state.key_data || is_element(
            event,
            Element::DataIntegrity,
        ) && state.data_integrity || is_element(event, Element::EncryptedKey)
            && state.encrypted_key ==> scan(state, seq![event]) == Ok::<ScanView, ErrorView>(state),
        is_element(event, Element::KeyData) && !state.key_data ==> takes_over(
            state,
            event,
            Element::KeyData,
        ),
        is_element(event, Element::DataIntegrity) && !state.data_integrity ==> takes_over(
            state,
            event,
            Element::DataIntegrity,
        ),
        is_element(event, Element::EncryptedKey) && !state.encrypted_key ==> takes_over(
            state,
            event,
            Element::EncryptedKey,
        ),
{
    reveal_with_fuel(scan, 2);
    assert(seq![event].skip(1) =~= seq![]);
}

/// Whether reading an element takes over its attributes and marks it, or reports their error.
pub open spec fn takes_over(state: ScanView, event: EventView, element: Element) -> bool {
    match set_attributes(element, state.info, event->attributes) {
        Ok(info) => scan(state, seq![event]) matches Ok(next) && next.info == info && marks(
            state,
            next,
            element,
        ),
        Err(error) => scan(state, seq![event]) == Err::<ScanView, ErrorView>(error),
    }
}

/// Whether an event ends the reading.
pub open spec fn ends_reading(event: EventView) -> bool {
    event is Eof || event is Malformed
}

/// Events are read one after the other, up to the end of the text: of two lists in a row the second
/// goes on where the first has come to, and what stands behind the end is not read.
pub proof fn law_events_in_turn(state: ScanView, a: Seq<EventView>, b: Seq<EventView>)
    requires
        forall|i: int| 0 <= i < a.len() ==> !ends_reading(#[trigger] a[i]),
    ensures
        scan(state, seq![]) == Ok::<ScanView, ErrorView>(state),
        scan(state, a + b) == (match scan(state, a) {
            Ok(next) => scan(next, b),
            Err(error) => Err(error),
        }),
        scan(state, a + (seq![EventView::Eof] + b)) == scan(state, a),
    decreases a.len(),
{
    if a.len() == 0 {
        assert(a + b =~= b);
        assert(a + (seq![EventView::Eof] + b) =~= seq![EventView::Eof] + b);
    } else {
        let rest = a.skip(1);
        assert(!ends_reading(a[0]));
        assert((a + b).skip(1) =~= rest + b);
        assert((a + (seq![EventView::Eof] + b)).skip(1) =~= rest + (seq![EventView::Eof] + b));
        match a[0] {
            EventView::Empty { name, attributes } => {
                if let Ok(next) = scan_element(state, name, attributes) {
                    law_events_in_turn(next, rest, b);
                }
            },
            _ => {
                law_events_in_turn(state, rest, b);
            },
        }
    }
}

/// Whether nothing is set in a descriptor.
pub open spec fn is_blank(info: AgileView) -> bool {
    &&& info.key_data_salt.len() == 0
    &&& info.key_data_hash_algorithm.len() == 0
    &&& info.key_data_block_size == 0
    &&& info.key_data_key_bits == 0
    &&& info.encrypted_hmac_key.len() == 0
    &&& info.encrypted_hmac_value.len() == 0
    &&& info.encrypted_verifier_hash_input.len() == 0
    &&& info.encrypted_verifier_hash_value.len() == 0
    &&& info.encrypted_key_value.len() == 0
    &&& info.spin_count == 0
    &&& info.password_salt.len() == 0
    &&& info.password_hash_algorithm.len() == 0
    &&& info.password_key_bits == 0
}

/// Whether the sizes in a descriptor are in order: at most ten million rounds, keys of 128, 192 or
/// 256 bits, and blocks of 16 bytes.
pub open spec fn sizes_in_order(info: AgileView) -> bool {
    &&& info.spin_count <= 10_000_000
    &&& info.key_data_key_bits == 128 || info.key_data_key_bits == 192 || info.key_data_key_bits
        == 256
    &&& info.password_key_bits == 128 || info.password_key_bits == 192 || info.password_key_bits
        == 256
    &&& info.key_data_block_size == 16
}

/// A text is read as a descriptor exactly if reading, which starts from a blank descriptor without
/// any mark, comes through, marks all three elements and finds the sizes in order. An error of
/// reading is reported, and anything else is an invalid structure.
pub proof fn law_descriptor_exact(events: Seq<EventView>, info: AgileView)
    ensures
        is_blank(ScanView::start().info),
        !ScanView::start().key_data && !ScanView::start().data_integrity
            && !ScanView::start().encrypted_key,
        info.well_formed() <==> sizes_in_order(info),
        scan(ScanView::start(), events) matches Err(error) ==> descriptor_of(events) == Err::<
            AgileView,
            ErrorView,
        >(error),
        scan(ScanView::start(), events) matches Ok(end) ==> (if end.key_data && end.data_integrity
            && end.encrypted_key && sizes_in_order(end.info) {
            descriptor_of(events) == Ok::<AgileView, ErrorView>(end.info)
        } else {
            descriptor_of(events) == Err::<AgileView, ErrorView>(ErrorView::InvalidStructure)
        }),
{
}

/// The descriptor stands in a stream behind eight bytes that are not read, as a text in UTF-8; a
/// shorter stream and one that is not UTF-8 are invalid.
pub proof fn law_agile_info(prefix: Seq<u8>, stream: Seq<u8>, text: Seq<char>)
    requires
        prefix.len() == 8,
    ensures
        agile_info(prefix + encode_utf8(text)) == descriptor_of(text_events(text)),
        stream.len() < 8 ==> agile_info(stream) == Err::<AgileView, ErrorView>(
            ErrorView::InvalidStructure,
        ),
        (forall|t: Seq<char>| #[trigger] encode_utf8(t) != stream) ==> agile_info(prefix + stream)
            == Err::<AgileView, ErrorView>(ErrorView::InvalidStructure),
{
    assert((prefix + encode_utf8(text)).skip(8) =~= encode_utf8(text));
    law_utf8_exact(encode_utf8(text), text);
    assert((prefix + stream).skip(8) =~= stream);
    if let Ok(t) = utf8_text(stream) {
        law_utf8_exact(stream, t);
    } else {
        law_utf8_exact(stream, text);
    }
}

} // verus!
