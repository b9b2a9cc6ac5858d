//! Nested structured data: leaves, ordered arrays and keyed fields.
//!
//! A `Fields` node keeps its entries in the order in which their keys were
//! first inserted, and no key occurs twice in a well-formed node.

use vstd::prelude::*;
use crate::api::codec;
use crate::api::codec::{
    decode_element, decode_entries, decode_items, distinct_keys, encode_element, encode_entries,
    encode_items, has_key, is_key_index, typed_field,
};
use crate::api::laws::{lemma_decode_element_consumes, lemma_key_index};
use crate::api::value::{lemma_decode_value_consumes, DataType, DataValue, DataValueView};
use crate::serializer::format::{lemma_primitive_decoders_consume, lemma_suffix_transitive};
use crate::serializer::reader::{decoded_as, viewed, Reader, ReaderError};
use crate::serializer::writer::Writer;

verus! {

/// Largest number of children that the one-byte count of an array or a
/// fields node can announce.
pub const MAX_CHILDREN: usize = 255;

/// A value of arbitrary depth.
#[derive(Debug, PartialEq, Eq)]
pub enum DataElement {
    /// A leaf, which may hold no value at all.
    Value(Option<DataValue>),
    /// An ordered list of up to 255 children.
    Array(Vec<DataElement>),
    /// Up to 255 keyed children, no key twice.
    Fields(Vec<(DataValue, DataElement)>),
}

/// The mathematical content of a [`DataElement`].
pub enum DataElementView {
    Value(Option<DataValueView>),
    Array(Seq<DataElementView>),
    Fields(Seq<(DataValueView, DataElementView)>),
}

/// The models of the children of an array, in order.
pub open spec fn items_view(items: Seq<DataElement>) -> Seq<DataElementView>
    decreases items,
{
    Seq::new(
        items.len(),
        |i: int|
            if 0 <= i < items.len() {
                items[i]@
            } else {
                DataElementView::Value(None)
            },
    )
}

/// The models of the entries of a fields node, in order.
pub open spec fn entries_view(entries: Seq<(DataValue, DataElement)>) -> Seq<
    (DataValueView, DataElementView),
>
    decreases entries,
{
    Seq::new(
        entries.len(),
        |i: int|
            if 0 <= i < entries.len() {
                (entries[i].0@, entries[i].1@)
            } else {
                (DataValueView::Bool(false), DataElementView::Value(None))
            },
    )
}

impl View for DataElement {
    type V = DataElementView;

    open spec fn view(&self) -> DataElementView
        decreases self,
    {
        match self {
            DataElement::Value(value) => DataElementView::Value(
                match value {
                    Some(value) => Some(value@),
                    None => None,
                },
            ),
            DataElement::Array(items) => DataElementView::Array(items_view(items@)),
            DataElement::Fields(entries) => DataElementView::Fields(entries_view(entries@)),
        }
    }
}

impl DataElement {
    /// The position of the first entry stored under `key`, if there is one.
    pub fn find_field(entries: &Vec<(DataValue, DataElement)>, key: &DataValue) -> (found: Option<
        usize,
    >)
        ensures
            match found {
                Some(index) => is_key_index(entries_view(entries@), key@, index as int),
                None => !has_key(entries_view(entries@), key@),
            },
    {
        let mut i: usize = 0;
        while i < entries.len()
            invariant
                i <= entries.len(),
                forall|j: int| 0 <= j < i ==> (#[trigger] entries_view(entries@)[j]).0 != key@,
            decreases entries.len() - i,
        {
            if entries[i].0 == *key {
                return Some(i);
            }
            i += 1;
        }
        None
    }

    /// Stores `value` under `key`: a new key goes to the end, a known key
    /// keeps its place and gets the new value.
    pub fn insert_field(
        entries: &mut Vec<(DataValue, DataElement)>,
        key: DataValue,
        value: DataElement,
    )
        ensures
            entries_view(final(entries)@) == codec::insert_field(
                entries_view(old(entries)@),
                key@,
                value@,
            ),
    {
        let ghost before = entries_view(entries@);
        match DataElement::find_field(entries, &key) {
            Some(index) => {
                proof {
                    lemma_key_index(before, key@);
                }
                entries[index] = (key, value);
            },
            None => {
                entries.push((key, value));
            },
        }
        assert(entries_view(entries@) =~= codec::insert_field(before, key@, value@));
    }

    /// The primitive stored under the text key `name`, provided that this
    /// is a fields node, that the child under `name` is a leaf, that the
    /// leaf holds a value, and that the value is of kind `data_type`.
    pub fn get_value(&self, name: String, data_type: DataType) -> (found: Option<&DataValue>)
        ensures
            match found {
                Some(value) => typed_field(self@, name@, data_type) == Some(value@),
                None => typed_field(self@, name@, data_type) is None,
            },
    {
        let data = match self {
            DataElement::Fields(data) => data,
            _ => {
                return None;
            },
        };
        let key = DataValue::String(name);
        let index = match DataElement::find_field(data, &key) {
            Some(index) => index,
            None => {
                return None;
            },
        };
        proof {
            lemma_key_index(entries_view(data@), key@);
        }
        match &data[index].1 {
            DataElement::Value(Some(unwrapped)) => {
                if unwrapped.kind() != data_type {
                    return None;
                }
                Some(unwrapped)
            },
            _ => None,
        }
    }

    /// Whether [`DataElement::write`] accepts this element.
    pub fn is_encodable(&self) -> (encodable: bool)
        ensures
            encodable == self@.encodable(),
        decreases self,
    {
        match self {
            DataElement::Value(value) => match value {
                Some(value) => value.is_encodable(),
                None => true,
            },
            DataElement::Array(items) => {
                if items.len() > MAX_CHILDREN {
                    assert(items_view(items@).len() > MAX_CHILDREN);
                    return false;
                }
                let mut i: usize = 0;
                while i < items.len()
                    invariant
                        i <= items.len(),
                        *self == DataElement::Array(*items),
                        forall|j: int| 0 <= j < i ==> (#[trigger] items_view(items@)[j]).encodable(),
                    decreases items.len() - i,
                {
                    assert(self->Array_0 == *items && decreases_to!(*items => items[i as int]));
                    let item_fits = items[i].is_encodable();
                    if !item_fits {
                        assert(!items_view(items@)[i as int].encodable());
                        return false;
                    }
                    i += 1;
                }
                assert(self@ == DataElementView::Array(items_view(items@)));
                assert(self@.encodable());
                true
            },
            DataElement::Fields(entries) => {
                if entries.len() > MAX_CHILDREN {
                    assert(entries_view(entries@).len() > MAX_CHILDREN);
                    return false;
                }
                let mut i: usize = 0;
                while i < entries.len()
                    invariant
                        i <= entries.len(),
                        *self == DataElement::Fields(*entries),
                        forall|j: int|
                            0 <= j < i ==> (#[trigger] entries_view(entries@)[j]).0.encodable()
                                && entries_view(entries@)[j].1.encodable(),
                    decreases entries.len() - i,
                {
                    assert(self->Fields_0 == *entries && decreases_to!(*entries => entries[i as int]));
                    let key_fits = entries[i].0.is_encodable();
                    let child_fits = entries[i].1.is_encodable();
                    if !key_fits || !child_fits {
                        assert(!(entries_view(entries@)[i as int].0.encodable() && entries_view(
                            entries@,
                        )[i as int].1.encodable()));
                        return false;
                    }
                    i += 1;
                }
                assert(self@ == DataElementView::Fields(entries_view(entries@)));
                assert(self@.encodable());
                true
            },
        }
    }

    /// Whether every fields node, at any depth, has each of its keys once.
    /// An element read by [`DataElement::read`] always has.
    pub fn has_unique_keys(&self) -> (unique: bool)
        ensures
            unique == self@.keys_unique(),
        decreases self,
    {
        match self {
            DataElement::Value(_) => true,
            DataElement::Array(items) => {
                let mut i: usize = 0;
                while i < items.len()
                    invariant
                        i <= items.len(),
                        *self == DataElement::Array(*items),
                        forall|j: int|
                            0 <= j < i ==> (#[trigger] items_view(items@)[j]).keys_unique(),
                    decreases items.len() - i,
                {
                    assert(self->Array_0 == *items && decreases_to!(*items => items[i as int]));
                    let child_unique = items[i].has_unique_keys();
                    if !child_unique {
                        assert(!self@.keys_unique()) by {
                            assert(self@->Array_0 == items_view(items@));
                            assert(!self@->Array_0[i as int].keys_unique());
                        }
                        return false;
                    }
                    i += 1;
                }
                assert(self@ == DataElementView::Array(items_view(items@)));
                assert(self@.keys_unique());
                true
            },
            DataElement::Fields(entries) => {
                let ghost view = entries_view(entries@);
                let mut i: usize = 0;
                while i < entries.len()
                    invariant
                        i <= entries.len(),
                        *self == DataElement::Fields(*entries),
                        view == entries_view(entries@),
                        forall|j: int| 0 <= j < i ==> is_key_index(view, (#[trigger] view[j]).0, j),
                        forall|j: int| 0 <= j < i ==> (#[trigger] view[j]).1.keys_unique(),
                    decreases entries.len() - i,
                {
                    assert(self->Fields_0 == *entries && decreases_to!(*entries => entries[i as int]));
                    let first = DataElement::find_field(entries, &entries[i].0);
                    let child_unique = entries[i].1.has_unique_keys();
                    if first != Some(i) || !child_unique {
                        assert(!self@.keys_unique()) by {
                            assert(self@ == DataElementView::Fields(view));
                            if child_unique {
                                assert(view[i as int].0 == entries[i as int].0@);
                                assert(has_key(view, view[i as int].0));
                                let earlier = first->0 as int;
                                assert(earlier < i);
                                assert(view[earlier].0 == view[i as int].0);
                            } else {
                                assert(!view[i as int].1.keys_unique());
                            }
                        }
                        return false;
                    }
                    i += 1;
                }
                assert(self@ == DataElementView::Fields(view));
                assert(distinct_keys(view)) by {
                    assert forall|a: int, b: int| 0 <= a < b < view.len() implies (
                    #[trigger] view[a]).0 != (#[trigger] view[b]).0 by {
                        assert(is_key_index(view, view[b].0, b));
                    }
                }
                assert(self@.keys_unique());
                true
            },
        }
    }

    /// Appends the binary form of this element.
    pub fn write(&self, writer: &mut Writer)
        requires
            self@.encodable(),
        ensures
            final(writer)@ == old(writer)@ + encode_element(self@),
        decreases self,
    {
        match self {
            DataElement::Value(value) => {
                writer.write_u8(0);
                match value {
                    Some(value) => {
                        writer.write_bool(true);
                        value.write(writer);
                    },
                    None => {
                        writer.write_bool(false);
                    },
                }
                assert(writer@ =~= old(writer)@ + encode_element(self@));
            },
            DataElement::Array(values) => {
                writer.write_u8(1);
                writer.write_u8(values.len() as u8);
                let ghost items = items_view(values@);
                let ghost whole = old(writer)@ + encode_element(self@);
                assert(writer@ + encode_items(items, 0) =~= whole);
                let mut i: usize = 0;
                while i < values.len()
                    invariant
                        i <= values.len(),
                        *self == DataElement::Array(*values),
                        items == items_view(values@),
                        self@.encodable(),
                        writer@ + encode_items(items, i as nat) == whole,
                    decreases values.len() - i,
                {
                    let ghost so_far = writer@;
                    assert(self->Array_0 == *values && decreases_to!(*values => values[i as int]));
                    assert(items[i as int].encodable());
                    values[i].write(writer);
                    assert(writer@ + encode_items(items, (i + 1) as nat) =~= so_far
                        + encode_items(items, i as nat));
                    i += 1;
                }
                assert(writer@ + encode_items(items, i as nat) =~= writer@);
            },
            DataElement::Fields(fields) => {
                writer.write_u8(2);
                writer.write_u8(fields.len() as u8);
                let ghost entries = entries_view(fields@);
                let ghost whole = old(writer)@ + encode_element(self@);
                assert(writer@ + encode_entries(entries, 0) =~= whole);
                let mut i: usize = 0;
                while i < fields.len()
                    invariant
                        i <= fields.len(),
                        *self == DataElement::Fields(*fields),
                        entries == entries_view(fields@),
                        self@.encodable(),
                        writer@ + encode_entries(entries, i as nat) == whole,
                    decreases fields.len() - i,
                {
                    let ghost so_far = writer@;
                    assert(self->Fields_0 == *fields && decreases_to!(*fields => fields[i as int]));
                    assert(entries[i as int].0.encodable() && entries[i as int].1.encodable());
                    fields[i].0.write(writer);
                    fields[i].1.write(writer);
                    assert(writer@ + encode_entries(entries, (i + 1) as nat) =~= so_far
                        + encode_entries(entries, i as nat));
                    i += 1;
                }
                assert(writer@ + encode_entries(entries, i as nat) =~= writer@);
            },
        }
    }

    /// Reads one element. Children are decoded one at a time as their bytes
    /// are consumed; nothing is reserved from a count byte.
    pub fn read(reader: &mut Reader) -> (element: Result<DataElement, ReaderError>)
        ensures
            decoded_as(
                old(reader)@,
                final(reader)@,
                decode_element(old(reader)@),
                viewed(element),
            ),
        decreases old(reader)@.len(),
    {
        let ghost input = reader@;
        let tag = match reader.read_u8() {
            Ok(tag) => tag,
            Err(e) => {
                return Err(e);
            },
        };
        let ghost after_tag = reader@;
        proof {
            lemma_primitive_decoders_consume(input);
            lemma_primitive_decoders_consume(after_tag);
        }
        match tag {
            0 => {
                let present = match reader.read_bool() {
                    Ok(present) => present,
                    Err(e) => {
                        proof {
                            lemma_suffix_transitive(reader@, after_tag, input);
                        }
                        return Err(e);
                    },
                };
                let ghost after_flag = reader@;
                proof {
                    lemma_suffix_transitive(after_flag, after_tag, input);
                }
                if present {
                    match DataValue::read(reader) {
                        Ok(value) => Ok(DataElement::Value(Some(value))),
                        Err(e) => {
                            proof {
                                lemma_suffix_transitive(reader@, after_flag, input);
                            }
                            Err(e)
                        },
                    }
                } else {
                    Ok(DataElement::Value(None))
                }
            },
            1 => {
                let size = match reader.read_u8() {
                    Ok(size) => size,
                    Err(e) => {
                        proof {
                            lemma_suffix_transitive(reader@, after_tag, input);
                        }
                        return Err(e);
                    },
                };
                let ghost body = reader@;
                proof {
                    lemma_suffix_transitive(body, after_tag, input);
                }
                let mut values: Vec<DataElement> = Vec::new();
                let mut i: u8 = 0;
                assert(items_view(values@) =~= Seq::empty());
                while i < size
                    invariant
                        i <= size,
                        input == old(reader)@,
                        body.is_suffix_of(input),
                        body.len() < input.len(),
                        reader@.is_suffix_of(body),
                        decode_element(input) == match decode_items(
                            body,
                            size as nat,
                            Seq::empty(),
                        ) {
                            Ok((items, rest)) => Ok((DataElementView::Array(items), rest)),
                            Err(e) => Err(e),
                        },
                        decode_items(body, size as nat, Seq::empty()) == decode_items(
                            reader@,
                            (size - i) as nat,
                            items_view(values@),
                        ),
                    decreases size - i,
                {
                    let ghost before = reader@;
                    let ghost done = items_view(values@);
                    proof {
                        lemma_decode_element_consumes(before);
                    }
                    match DataElement::read(reader) {
                        Ok(value) => {
                            values.push(value);
                            proof {
                                assert(items_view(values@) =~= done.push(value@));
                                lemma_suffix_transitive(reader@, before, body);
                            }
                        },
                        Err(e) => {
                            proof {
                                lemma_suffix_transitive(reader@, before, body);
                                lemma_suffix_transitive(reader@, body, input);
                            }
                            return Err(e);
                        },
                    }
                    i += 1;
                }
                proof {
                    lemma_suffix_transitive(reader@, body, input);
                }
                Ok(DataElement::Array(values))
            },
            2 => {
                let size = match reader.read_u8() {
                    Ok(size) => size,
                    Err(e) => {
                        proof {
                            lemma_suffix_transitive(reader@, after_tag, input);
                        }
                        return Err(e);
                    },
                };
                let ghost body = reader@;
                proof {
                    lemma_suffix_transitive(body, after_tag, input);
                }
                let mut fields: Vec<(DataValue, DataElement)> = Vec::new();
                let mut i: u8 = 0;
                assert(entries_view(fields@) =~= Seq::empty());
                while i < size
                    invariant
                        i <= size,
                        input == old(reader)@,
                        body.is_suffix_of(input),
                        body.len() < input.len(),
                        reader@.is_suffix_of(body),
                        decode_element(input) == match decode_entries(
                            body,
                            size as nat,
                            Seq::empty(),
                        ) {
                            Ok((entries, rest)) => Ok((DataElementView::Fields(entries), rest)),
                            Err(e) => Err(e),
                        },
                        decode_entries(body, size as nat, Seq::empty()) == decode_entries(
                            reader@,
                            (size - i) as nat,
                            entries_view(fields@),
                        ),
                    decreases size - i,
                {
                    let ghost before = reader@;
                    proof {
                        lemma_decode_value_consumes(before);
                    }
                    let key = match DataValue::read(reader) {
                        Ok(key) => key,
                        Err(e) => {
                            proof {
                                lemma_suffix_transitive(reader@, before, body);
                                lemma_suffix_transitive(reader@, body, input);
                            }
                            return Err(e);
                        },
                    };
                    let ghost after_key = reader@;
                    proof {
                        lemma_decode_element_consumes(after_key);
                        lemma_suffix_transitive(after_key, before, body);
                    }
                    let value = match DataElement::read(reader) {
                        Ok(value) => value,
                        Err(e) => {
                            proof {
                                lemma_suffix_transitive(reader@, after_key, body);
                                lemma_suffix_transitive(reader@, body, input);
                            }
                            return Err(e);
                        },
                    };
                    proof {
                        lemma_suffix_transitive(reader@, after_key, body);
                    }
                    DataElement::insert_field(&mut fields, key, value);
                    i += 1;
                }
                proof {
                    lemma_suffix_transitive(reader@, body, input);
                }
                Ok(DataElement::Fields(fields))
            },
            _ => Err(ReaderError::InvalidValue),
        }
    }
}

impl Clone for DataElement {
    fn clone(&self) -> (copy: DataElement)
        ensures
            copy@ == self@,
        decreases self,
    {
        match self {
            DataElement::Value(value) => DataElement::Value(
                match value {
                    Some(value) => Some(value.clone()),
                    None => None,
                },
            ),
            DataElement::Array(items) => {
                let mut copies: Vec<DataElement> = Vec::new();
                let mut i: usize = 0;
                while i < items.len()
                    invariant
                        i <= items.len(),
                        *self == DataElement::Array(*items),
                        items_view(copies@) == items_view(items@).take(i as int),
                    decreases items.len() - i,
                {
                    assert(self->Array_0 == *items && decreases_to!(*items => items[i as int]));
                    let ghost before = items_view(copies@);
                    let copy = items[i].clone();
                    copies.push(copy);
                    assert(items_view(copies@) =~= before.push(copy@));
                    i += 1;
                    assert(items_view(copies@) =~= items_view(items@).take(i as int));
                }
                assert(items_view(copies@) =~= items_view(items@));
                DataElement::Array(copies)
            },
            DataElement::Fields(entries) => {
                let mut copies: Vec<(DataValue, DataElement)> = Vec::new();
                let mut i: usize = 0;
                while i < entries.len()
                    invariant
                        i <= entries.len(),
                        *self == DataElement::Fields(*entries),
                        entries_view(copies@) == entries_view(entries@).take(i as int),
                    decreases entries.len() - i,
                {
                    assert(self->Fields_0 == *entries && decreases_to!(*entries => entries[i as int]));
                    let ghost before = entries_view(copies@);
                    let key = entries[i].0.clone();
                    let child = entries[i].1.clone();
                    copies.push((key, child));
                    assert(entries_view(copies@) =~= before.push((key@, child@)));
                    i += 1;
                    assert(entries_view(copies@) =~= entries_view(entries@).take(i as int));
                }
                assert(entries_view(copies@) =~= entries_view(entries@));
                DataElement::Fields(copies)
            },
        }
    }
}

} // verus!
