//! The binary form of nested data, as functions on models and byte sequences.

use vstd::prelude::*;
use crate::api::element::{DataElementView, MAX_CHILDREN};
use crate::api::value::DataType;
use crate::api::value::{decode_value, encode_value, DataValueView};
use crate::serializer::format::{decode_bool, decode_u8, encode_bool};
use crate::serializer::reader::ReaderError;

verus! {

/// The entries of a fields node.
pub type Entries = Seq<(DataValueView, DataElementView)>;

/// Whether some entry has the given key.
pub open spec fn has_key(entries: Entries, key: DataValueView) -> bool {
    exists|i: int| 0 <= i < entries.len() && (#[trigger] entries[i]).0 == key
}

/// Whether `index` is the first entry with the given key.
pub open spec fn is_key_index(entries: Entries, key: DataValueView, index: int) -> bool {
    &&& 0 <= index < entries.len()
    &&& entries[index].0 == key
    &&& forall|j: int| 0 <= j < index ==> (#[trigger] entries[j]).0 != key
}

/// The position of the first entry with the given key, if there is one.
pub open spec fn key_index(entries: Entries, key: DataValueView) -> int {
    choose|index: int| is_key_index(entries, key, index)
}

/// The child stored under `key`, if there is one.
pub open spec fn field(entries: Entries, key: DataValueView) -> Option<DataElementView> {
    if has_key(entries, key) {
        Some(entries[key_index(entries, key)].1)
    } else {
        None
    }
}

/// The entries after storing `value` under `key`: a new key goes to the end,
/// a known key keeps its place and gets the new value.
pub open spec fn insert_field(entries: Entries, key: DataValueView, value: DataElementView)
    -> Entries {
    if has_key(entries, key) {
        entries.update(key_index(entries, key), (key, value))
    } else {
        entries.push((key, value))
    }
}

/// The primitive stored under the text key `name`, if that child is a
/// leaf that holds a value of the given kind.
pub open spec fn typed_field(element: DataElementView, name: Seq<char>, kind: DataType) -> Option<
    DataValueView,
> {
    match element {
        DataElementView::Fields(entries) => match field(entries, DataValueView::String(name)) {
            Some(DataElementView::Value(Some(value))) => if value.kind() == kind {
                Some(value)
            } else {
                None
            },
            _ => None,
        },
        _ => None,
    }
}

/// Whether no key occurs twice among the entries.
pub open spec fn distinct_keys(entries: Entries) -> bool {
    forall|i: int, j: int|
        0 <= i < j < entries.len() ==> (#[trigger] entries[i]).0 != (#[trigger] entries[j]).0
}

impl DataElementView {
    /// Whether the element has a binary form: every node has at most 255
    /// children and every primitive in it is encodable.
    pub open spec fn encodable(self) -> bool
        decreases self,
    {
        match self {
            DataElementView::Value(value) => value matches Some(value) ==> value.encodable(),
            DataElementView::Array(items) => {
                &&& items.len() <= MAX_CHILDREN
                &&& forall|i: int| 0 <= i < items.len() ==> (#[trigger] items[i]).encodable()
            },
            DataElementView::Fields(entries) => {
                &&& entries.len() <= MAX_CHILDREN
                &&& forall|i: int|
                    0 <= i < entries.len() ==> (#[trigger] entries[i]).0.encodable()
                        && entries[i].1.encodable()
            },
        }
    }

    /// Whether every fields node, at any depth, has each of its keys once.
    pub open spec fn keys_unique(self) -> bool
        decreases self,
    {
        match self {
            DataElementView::Value(_) => true,
            DataElementView::Array(items) => forall|i: int|
                0 <= i < items.len() ==> (#[trigger] items[i]).keys_unique(),
            DataElementView::Fields(entries) => {
                &&& distinct_keys(entries)
                &&& forall|i: int|
                    0 <= i < entries.len() ==> (#[trigger] entries[i]).1.keys_unique()
            },
        }
    }

    /// Encodable, and a proper mapping at every fields node.
    pub open spec fn well_formed(self) -> bool {
        self.encodable() && self.keys_unique()
    }
}

/// A presence flag, then the value if there is one.
pub open spec fn encode_optional_value(value: Option<DataValueView>) -> Seq<u8> {
    match value {
        Some(value) => encode_bool(true) + encode_value(value),
        None => encode_bool(false),
    }
}

/// Decodes a presence flag and, if it is set, a value.
pub open spec fn decode_optional_value(input: Seq<u8>) -> Result<
    (Option<DataValueView>, Seq<u8>),
    ReaderError,
> {
    match decode_bool(input) {
        Ok((present, rest)) => if present {
            match decode_value(rest) {
                Ok((value, rest)) => Ok((Some(value), rest)),
                Err(e) => Err(e),
            }
        } else {
            Ok((None, rest))
        },
        Err(e) => Err(e),
    }
}

/// The binary form of an element: a tag byte (0 leaf, 1 array, 2 fields),
/// then the optional value of a leaf, or a count byte and the children.
pub open spec fn encode_element(element: DataElementView) -> Seq<u8>
    decreases element, 0nat,
{
    match element {
        DataElementView::Value(value) => seq![0u8] + encode_optional_value(value),
        DataElementView::Array(items) => seq![1u8, items.len() as u8] + encode_items(items, 0),
        DataElementView::Fields(entries) => seq![2u8, entries.len() as u8] + encode_entries(
            entries,
            0,
        ),
    }
}

/// The binary forms of the items from position `from` on, one after the other.
pub open spec fn encode_items(items: Seq<DataElementView>, from: nat) -> Seq<u8>
    decreases items, items.len() - from,
{
    if from >= items.len() {
        Seq::empty()
    } else {
        encode_element(items[from as int]) + encode_items(items, from + 1)
    }
}

/// The binary forms of the entries from position `from` on: each key, then
/// its child.
pub open spec fn encode_entries(entries: Entries, from: nat) -> Seq<u8>
    decreases entries, entries.len() - from,
{
    if from >= entries.len() {
        Seq::empty()
    } else {
        encode_value(entries[from as int].0) + encode_element(entries[from as int].1)
            + encode_entries(entries, from + 1)
    }
}

/// Decodes one element from the front of `input`. A tag other than 0, 1
/// and 2 is an invalid value.
pub open spec fn decode_element(input: Seq<u8>) -> Result<(DataElementView, Seq<u8>), ReaderError>
    decreases input.len(), 0nat,
{
    match decode_u8(input) {
        Err(e) => Err(e),
        Ok((tag, rest)) => if tag == 0 {
            match decode_optional_value(rest) {
                Ok((value, rest)) => Ok((DataElementView::Value(value), rest)),
                Err(e) => Err(e),
            }
        } else if tag == 1 {
            match decode_u8(rest) {
                Err(e) => Err(e),
                Ok((count, rest)) => match decode_items(rest, count as nat, Seq::empty()) {
                    Ok((items, rest)) => Ok((DataElementView::Array(items), rest)),
                    Err(e) => Err(e),
                },
            }
        } else if tag == 2 {
            match decode_u8(rest) {
                Err(e) => Err(e),
                Ok((count, rest)) => match decode_entries(rest, count as nat, Seq::empty()) {
                    Ok((entries, rest)) => Ok((DataElementView::Fields(entries), rest)),
                    Err(e) => Err(e),
                },
            }
        } else {
            Err(ReaderError::InvalidValue)
        },
    }
}

/// Decodes `count` more items after those in `done`.
///
/// An element never decodes from nothing (see [`lemma_decode_element_consumes`](crate::api::laws::lemma_decode_element_consumes)),
/// so the comparison of lengths below always holds; it stands here to make
/// the recursion evidently terminate.
pub open spec fn decode_items(input: Seq<u8>, count: nat, done: Seq<DataElementView>) -> Result<
    (Seq<DataElementView>, Seq<u8>),
    ReaderError,
>
    decreases input.len(), 1nat,
{
    if count == 0 {
        Ok((done, input))
    } else {
        match decode_element(input) {
            Err(e) => Err(e),
            Ok((item, rest)) => if rest.len() < input.len() {
                decode_items(rest, (count - 1) as nat, done.push(item))
            } else {
                Err(ReaderError::InvalidSize)
            },
        }
    }
}

/// Decodes `count` more entries after those in `done`. An entry whose key
/// is already present replaces the child stored under that key.
///
/// As in [`decode_items`], the comparisons of lengths always hold.
pub open spec fn decode_entries(input: Seq<u8>, count: nat, done: Entries) -> Result<
    (Entries, Seq<u8>),
    ReaderError,
>
    decreases input.len(), 1nat,
{
    if count == 0 {
        Ok((done, input))
    } else {
        match decode_value(input) {
            Err(e) => Err(e),
            Ok((key, rest)) => if rest.len() <= input.len() {
                match decode_element(rest) {
                    Err(e) => Err(e),
                    Ok((value, rest)) => if rest.len() < input.len() {
                        decode_entries(rest, (count - 1) as nat, insert_field(done, key, value))
                    } else {
                        Err(ReaderError::InvalidSize)
                    },
                }
            } else {
                Err(ReaderError::InvalidSize)
            },
        }
    }
}

} // verus!
