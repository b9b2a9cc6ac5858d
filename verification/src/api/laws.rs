//! What holds of the binary form of nested data: decoding undoes encoding,
//! decoded data is well formed, and lookups find what was stored.

use vstd::prelude::*;
use crate::api::codec::{
    decode_element, decode_entries, decode_items, decode_optional_value, distinct_keys,
    encode_element, encode_entries, encode_items, encode_optional_value, field, has_key,
    insert_field, is_key_index, key_index, typed_field, Entries,
};
use crate::api::element::DataElementView;
use crate::api::value::{
    decode_value, encode_value, lemma_decode_value_consumes, lemma_value_round_trip, DataType,
    DataValueView,
};
use crate::serializer::format::{
    decode_bool, decode_u8, lemma_primitive_decoders_consume, lemma_suffix_transitive,
};
use crate::serializer::reader::ReaderError;

verus! {

/// If some entry has the key, there is a first such entry.
proof fn lemma_first_key_from(entries: Entries, key: DataValueView, from: int)
    requires
        0 <= from <= entries.len(),
        forall|j: int| 0 <= j < from ==> (#[trigger] entries[j]).0 != key,
        has_key(entries, key),
    ensures
        is_key_index(entries, key, key_index(entries, key)),
    decreases entries.len() - from,
{
    if from < entries.len() && entries[from].0 == key {
        assert(is_key_index(entries, key, from));
    } else {
        lemma_first_key_from(entries, key, from + 1);
    }
}

/// `key_index` names the first entry with the key whenever one exists.
pub proof fn lemma_key_index(entries: Entries, key: DataValueView)
    requires
        has_key(entries, key),
    ensures
        is_key_index(entries, key, key_index(entries, key)),
{
    lemma_first_key_from(entries, key, 0);
}

/// Storing a child under a key keeps the keys distinct, adds at most one
/// entry, and changes no entry but the one stored.
pub proof fn lemma_insert_field(entries: Entries, key: DataValueView, value: DataElementView)
    requires
        distinct_keys(entries),
    ensures
        distinct_keys(insert_field(entries, key, value)),
        entries.len() <= insert_field(entries, key, value).len() <= entries.len() + 1,
        field(insert_field(entries, key, value), key) == Some(value),
        forall|i: int|
            0 <= i < insert_field(entries, key, value).len() ==> (#[trigger] insert_field(
                entries,
                key,
                value,
            )[i]) == (key, value) || (i < entries.len() && insert_field(entries, key, value)[i]
                == entries[i]),
{
    let after = insert_field(entries, key, value);
    if has_key(entries, key) {
        lemma_key_index(entries, key);
        let at = key_index(entries, key);
        assert(after[at].0 == key);
        assert(has_key(after, key));
        lemma_key_index(after, key);
        let found = key_index(after, key);
        if found < at {
            assert(entries[found].0 == key);
        }
        if at < found {
            assert(after[at].0 == key);
        }
    } else {
        let at = entries.len() as int;
        assert(after[at].0 == key);
        assert(has_key(after, key));
        lemma_key_index(after, key);
        let found = key_index(after, key);
        if found < at {
            assert(entries[found].0 == key);
        }
    }
}

/// A value that decodes leaves a strictly shorter suffix of the input and,
/// if present, is encodable.
pub proof fn lemma_decode_optional_value_consumes(input: Seq<u8>)
    ensures
        decode_optional_value(input) matches Ok((value, rest)) ==> {
            &&& rest.is_suffix_of(input)
            &&& rest.len() < input.len()
            &&& value matches Some(value) ==> value.encodable()
        },
{
    lemma_primitive_decoders_consume(input);
    if let Ok((present, rest)) = decode_bool(input) {
        if present {
            lemma_decode_value_consumes(rest);
            if let Ok((_, last)) = decode_value(rest) {
                lemma_suffix_transitive(last, rest, input);
            }
        }
    }
}

/// An element that decodes is well formed, and what is left of the input
/// is a strictly shorter suffix of it.
pub proof fn lemma_decode_element_consumes(input: Seq<u8>)
    ensures
        decode_element(input) matches Ok((element, rest)) ==> {
            &&& rest.is_suffix_of(input)
            &&& rest.len() < input.len()
            &&& element.well_formed()
        },
    decreases input.len(), 0nat,
{
    lemma_primitive_decoders_consume(input);
    if let Ok((tag, rest)) = decode_u8(input) {
        lemma_primitive_decoders_consume(rest);
        if tag == 0 {
            lemma_decode_optional_value_consumes(rest);
            if let Ok((_, last)) = decode_optional_value(rest) {
                lemma_suffix_transitive(last, rest, input);
            }
        } else if tag == 1 {
            if let Ok((count, body)) = decode_u8(rest) {
                lemma_suffix_transitive(body, rest, input);
                lemma_decode_items_consumes(body, count as nat, Seq::empty());
                if let Ok((_, last)) = decode_items(body, count as nat, Seq::empty()) {
                    lemma_suffix_transitive(last, body, input);
                }
            }
        } else if tag == 2 {
            if let Ok((count, body)) = decode_u8(rest) {
                lemma_suffix_transitive(body, rest, input);
                lemma_decode_entries_consumes(body, count as nat, Seq::empty());
                if let Ok((_, last)) = decode_entries(body, count as nat, Seq::empty()) {
                    lemma_suffix_transitive(last, body, input);
                }
            }
        }
    }
}

/// Items that decode are well formed and come after those already done.
pub proof fn lemma_decode_items_consumes(input: Seq<u8>, count: nat, done: Seq<DataElementView>)
    requires
        forall|i: int| 0 <= i < done.len() ==> (#[trigger] done[i]).well_formed(),
    ensures
        decode_items(input, count, done) matches Ok((items, rest)) ==> {
            &&& rest.is_suffix_of(input)
            &&& items.len() == done.len() + count
            &&& forall|i: int| 0 <= i < items.len() ==> (#[trigger] items[i]).well_formed()
        },
    decreases input.len(), 1nat,
{
    if count > 0 {
        lemma_decode_element_consumes(input);
        if let Ok((item, rest)) = decode_element(input) {
            lemma_decode_items_consumes(rest, (count - 1) as nat, done.push(item));
            if let Ok((_, last)) = decode_items(rest, (count - 1) as nat, done.push(item)) {
                lemma_suffix_transitive(last, rest, input);
            }
        }
    }
}

/// Whether every key is encodable and every child well formed.
pub open spec fn entries_well_formed(entries: Entries) -> bool {
    forall|i: int|
        0 <= i < entries.len() ==> (#[trigger] entries[i]).0.encodable()
            && entries[i].1.well_formed()
}

/// Entries that decode have distinct keys and are well formed.
pub proof fn lemma_decode_entries_consumes(input: Seq<u8>, count: nat, done: Entries)
    requires
        distinct_keys(done),
        entries_well_formed(done),
    ensures
        decode_entries(input, count, done) matches Ok((entries, rest)) ==> {
            &&& rest.is_suffix_of(input)
            &&& entries.len() <= done.len() + count
            &&& distinct_keys(entries)
            &&& entries_well_formed(entries)
        },
    decreases input.len(), 1nat,
{
    if count > 0 {
        lemma_decode_value_consumes(input);
        if let Ok((key, rest)) = decode_value(input) {
            lemma_decode_element_consumes(rest);
            if let Ok((value, after)) = decode_element(rest) {
                lemma_suffix_transitive(after, rest, input);
                lemma_insert_field(done, key, value);
                let next = insert_field(done, key, value);
                assert(entries_well_formed(next));
                lemma_decode_entries_consumes(after, (count - 1) as nat, next);
                if let Ok((_, last)) = decode_entries(after, (count - 1) as nat, next) {
                    lemma_suffix_transitive(last, after, input);
                }
            }
        }
    }
}

/// Decoding the binary form of an optional value, whatever follows it,
/// yields the value and leaves what follows.
pub proof fn lemma_optional_value_round_trip(value: Option<DataValueView>, tail: Seq<u8>)
    requires
        value matches Some(value) ==> value.encodable(),
    ensures
        decode_optional_value(encode_optional_value(value) + tail) == Ok::<_, ReaderError>(
            (value, tail),
        ),
{
    let input = encode_optional_value(value) + tail;
    match value {
        Some(inner) => {
            assert(input.skip(1) =~= encode_value(inner) + tail);
            lemma_value_round_trip(inner, tail);
        },
        None => {
            assert(input.skip(1) =~= tail);
        },
    }
}

/// Decoding the binary form of a well-formed element, whatever follows it,
/// yields the element and leaves what follows.
pub proof fn lemma_element_round_trip(element: DataElementView, tail: Seq<u8>)
    requires
        element.well_formed(),
    ensures
        decode_element(encode_element(element) + tail) == Ok::<_, ReaderError>((element, tail)),
    decreases element, 0nat,
{
    let input = encode_element(element) + tail;
    match element {
        DataElementView::Value(value) => {
            assert(input.skip(1) =~= encode_optional_value(value) + tail);
            lemma_optional_value_round_trip(value, tail);
        },
        DataElementView::Array(items) => {
            assert(input.skip(1).skip(1) =~= encode_items(items, 0) + tail);
            assert(input.skip(1)[0] == items.len());
            assert(items.take(0) =~= Seq::empty());
            lemma_items_round_trip(items, 0, tail);
        },
        DataElementView::Fields(entries) => {
            assert(input.skip(1).skip(1) =~= encode_entries(entries, 0) + tail);
            assert(input.skip(1)[0] == entries.len());
            assert(entries.take(0) =~= Seq::empty());
            lemma_entries_round_trip(entries, 0, tail);
        },
    }
}

/// Round trip: decoding the binary form of a well-formed element gives the
/// element back and uses up every byte.
pub proof fn lemma_element_decodes_to_itself(element: DataElementView)
    requires
        element.well_formed(),
    ensures
        decode_element(encode_element(element)) == Ok::<_, ReaderError>(
            (element, Seq::<u8>::empty()),
        ),
{
    lemma_element_round_trip(element, Seq::empty());
    assert(encode_element(element) + Seq::<u8>::empty() =~= encode_element(element));
}

/// Decoding the binary forms of the items from `from` on, after the items
/// before `from`, yields all the items.
pub proof fn lemma_items_round_trip(items: Seq<DataElementView>, from: nat, tail: Seq<u8>)
    requires
        from <= items.len(),
        forall|i: int| 0 <= i < items.len() ==> (#[trigger] items[i]).well_formed(),
    ensures
        decode_items(
            encode_items(items, from) + tail,
            (items.len() - from) as nat,
            items.take(from as int),
        ) == Ok::<_, ReaderError>((items, tail)),
    decreases items, items.len() - from,
{
    let input = encode_items(items, from) + tail;
    if from == items.len() {
        assert(items.take(from as int) =~= items);
        assert(input =~= tail);
    } else {
        let item = items[from as int];
        let rest = encode_items(items, from + 1) + tail;
        assert(input =~= encode_element(item) + rest);
        lemma_element_round_trip(item, rest);
        lemma_decode_element_consumes(input);
        lemma_items_round_trip(items, from + 1, tail);
        assert(items.take(from as int).push(item) =~= items.take(from + 1 as int));
    }
}

/// One step of [`decode_entries`]: a key and a child decode, and the rest
/// goes on with the child stored under the key.
proof fn lemma_decode_entries_step(input: Seq<u8>, count: nat, done: Entries)
    requires
        count > 0,
        decode_value(input) is Ok,
        decode_element(decode_value(input)->Ok_0.1) is Ok,
    ensures
        decode_entries(input, count, done) == decode_entries(
            decode_element(decode_value(input)->Ok_0.1)->Ok_0.1,
            (count - 1) as nat,
            insert_field(
                done,
                decode_value(input)->Ok_0.0,
                decode_element(decode_value(input)->Ok_0.1)->Ok_0.0,
            ),
        ),
{
    lemma_decode_value_consumes(input);
    lemma_decode_element_consumes(decode_value(input)->Ok_0.1);
}

/// The binary form of the entries from `from` on starts with the key and
/// the child of the entry at `from`.
proof fn lemma_encode_entries_unfold(entries: Entries, from: nat, tail: Seq<u8>)
    requires
        from < entries.len(),
    ensures
        encode_entries(entries, from) + tail == encode_value(entries[from as int].0) + (
        encode_element(entries[from as int].1) + (encode_entries(entries, from + 1) + tail)),
{
    let key = encode_value(entries[from as int].0);
    let child = encode_element(entries[from as int].1);
    let rest = encode_entries(entries, from + 1);
    assert(encode_entries(entries, from) == key + child + rest);
    assert((key + child + rest) + tail =~= key + (child + (rest + tail)));
}

/// Decoding the entry at `from`, when its key is not among the earlier
/// entries, appends it to them.
proof fn lemma_entries_round_trip_step(entries: Entries, from: nat, tail: Seq<u8>)
    requires
        from < entries.len(),
        entries[from as int].0.encodable(),
        entries[from as int].1.well_formed(),
        !has_key(entries.take(from as int), entries[from as int].0),
    ensures
        decode_entries(
            encode_entries(entries, from) + tail,
            (entries.len() - from) as nat,
            entries.take(from as int),
        ) == decode_entries(
            encode_entries(entries, from + 1) + tail,
            (entries.len() - from - 1) as nat,
            entries.take(from + 1 as int),
        ),
    decreases entries, entries.len() - from, 0nat,
{
    let input = encode_entries(entries, from) + tail;
    let done = entries.take(from as int);
    let key = entries[from as int].0;
    let value = entries[from as int].1;
    let rest = encode_entries(entries, from + 1) + tail;
    let after_key = encode_element(value) + rest;
    lemma_encode_entries_unfold(entries, from, tail);
    let key_read = decode_value(input);
    assert(key_read == Ok::<_, ReaderError>((key, after_key))) by {
        lemma_value_round_trip(key, after_key);
    }
    let value_read = decode_element(after_key);
    assert(value_read == Ok::<_, ReaderError>((value, rest))) by {
        lemma_element_round_trip(value, rest);
    }
    let next = insert_field(done, key, value);
    assert(next == entries.take(from + 1 as int)) by {
        assert(done.push((key, value)) =~= entries.take(from + 1 as int));
    }
    assert(decode_entries(input, (entries.len() - from) as nat, done) == decode_entries(
        rest,
        (entries.len() - from - 1) as nat,
        next,
    )) by {
        lemma_decode_entries_step(input, (entries.len() - from) as nat, done);
    }
}

/// Decoding the binary forms of the entries from `from` on, after the
/// entries before `from`, yields all the entries.
pub proof fn lemma_entries_round_trip(entries: Entries, from: nat, tail: Seq<u8>)
    requires
        from <= entries.len(),
        distinct_keys(entries),
        entries_well_formed(entries),
    ensures
        decode_entries(
            encode_entries(entries, from) + tail,
            (entries.len() - from) as nat,
            entries.take(from as int),
        ) == Ok::<_, ReaderError>((entries, tail)),
    decreases entries, entries.len() - from, 1nat,
{
    let done = entries.take(from as int);
    if from == entries.len() {
        assert(done =~= entries);
        assert(encode_entries(entries, from) + tail =~= tail);
    } else {
        let key = entries[from as int].0;
        assert(!has_key(done, key)) by {
            if has_key(done, key) {
                let i = choose|i: int| 0 <= i < done.len() && (#[trigger] done[i]).0 == key;
                assert(entries[i].0 == entries[from as int].0);
            }
        }
        lemma_entries_round_trip_step(entries, from, tail);
        lemma_entries_round_trip(entries, from + 1, tail);
    }
}

/// A typed lookup finds a value exactly when the node is a fields node
/// whose child under the text key is a leaf holding a value of the wanted
/// kind. It finds nothing on any other node, for a missing name, for a
/// leaf without a value, for an array or fields child, and for a value of
/// another kind.
pub proof fn lemma_typed_field(element: DataElementView, name: Seq<char>, kind: DataType)
    ensures
        !(element is Fields) ==> typed_field(element, name, kind) is None,
        element matches DataElementView::Fields(entries) ==> {
            let child = field(entries, DataValueView::String(name));
            &&& !has_key(entries, DataValueView::String(name)) ==> typed_field(element, name, kind)
                is None
            &&& child == Some(DataElementView::Value(None)) ==> typed_field(element, name, kind)
                is None
            &&& child matches Some(DataElementView::Array(_)) ==> typed_field(element, name, kind)
                is None
            &&& child matches Some(DataElementView::Fields(_)) ==> typed_field(element, name, kind)
                is None
            &&& child matches Some(DataElementView::Value(Some(value))) ==> typed_field(
                element,
                name,
                kind,
            ) == if value.kind() == kind {
                Some(value)
            } else {
                None
            }
        },
        typed_field(element, name, kind) matches Some(value) ==> value.kind() == kind,
{
}

/// Bytes that start with a tag other than 0, 1 and 2 decode to no element.
pub proof fn lemma_unknown_element_tag(input: Seq<u8>)
    requires
        input.len() > 0,
        input[0] > 2,
    ensures
        decode_element(input) == Err::<(DataElementView, Seq<u8>), _>(ReaderError::InvalidValue),
{
}

} // verus!
