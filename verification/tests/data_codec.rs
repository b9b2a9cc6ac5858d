use xelis::api::{DataElement, DataType, DataValue};
use xelis::crypto::hash;
use xelis::serializer::{Reader, ReaderError, Writer};

fn encode_value(value: &DataValue) -> Vec<u8> {
    assert!(value.is_encodable());
    let mut writer = Writer::new();
    value.write(&mut writer);
    writer.bytes()
}

fn encode_element(element: &DataElement) -> Vec<u8> {
    assert!(element.is_encodable());
    let mut writer = Writer::new();
    element.write(&mut writer);
    writer.bytes()
}

fn decode_value(bytes: &[u8]) -> Result<DataValue, ReaderError> {
    let mut reader = Reader::new(bytes);
    DataValue::read(&mut reader)
}

fn decode_element(bytes: &[u8]) -> Result<DataElement, ReaderError> {
    let mut reader = Reader::new(bytes);
    DataElement::read(&mut reader)
}

fn text(value: &str) -> DataValue {
    DataValue::String(String::from(value))
}

fn leaf(value: DataValue) -> DataElement {
    DataElement::Value(Some(value))
}

fn sample_hash(seed: u8) -> hash::Hash {
    let mut bytes = [seed; 32];
    bytes[0] = 0xee;
    hash::Hash::new(bytes)
}

fn sample_tree() -> DataElement {
    let mut inner: Vec<(DataValue, DataElement)> = Vec::new();
    DataElement::insert_field(&mut inner, DataValue::U8(1), leaf(DataValue::Bool(true)));
    DataElement::insert_field(&mut inner, text("list"), DataElement::Array(vec![
        leaf(DataValue::U64(u64::MAX)),
        DataElement::Value(None),
        DataElement::Array(Vec::new()),
    ]));
    let mut outer: Vec<(DataValue, DataElement)> = Vec::new();
    DataElement::insert_field(&mut outer, text("name"), leaf(text("xelis")));
    DataElement::insert_field(&mut outer, text("inner"), DataElement::Fields(inner));
    DataElement::insert_field(&mut outer, DataValue::Hash(sample_hash(3)), leaf(DataValue::U128(u128::MAX)));
    DataElement::insert_field(&mut outer, DataValue::Bool(false), DataElement::Fields(Vec::new()));
    DataElement::Array(vec![DataElement::Fields(outer), leaf(DataValue::U16(513)), leaf(DataValue::U32(7))])
}

#[test]
fn kind_matches_the_variant() {
    assert_eq!(DataValue::Bool(true).kind(), DataType::Bool);
    assert_eq!(text("a").kind(), DataType::String);
    assert_eq!(DataValue::U8(1).kind(), DataType::U8);
    assert_eq!(DataValue::U16(1).kind(), DataType::U16);
    assert_eq!(DataValue::U32(1).kind(), DataType::U32);
    assert_eq!(DataValue::U64(1).kind(), DataType::U64);
    assert_eq!(DataValue::U128(1).kind(), DataType::U128);
    assert_eq!(DataValue::Hash(hash::Hash::zero()).kind(), DataType::Hash);
}

#[test]
fn values_are_a_tag_and_a_payload() {
    assert_eq!(encode_value(&DataValue::Bool(true)), vec![0, 1]);
    assert_eq!(encode_value(&DataValue::Bool(false)), vec![0, 0]);
    assert_eq!(encode_value(&text("ab")), vec![1, 2, b'a', b'b']);
    assert_eq!(encode_value(&DataValue::U8(7)), vec![2, 7]);
    assert_eq!(encode_value(&DataValue::U16(0x0102)), vec![3, 1, 2]);
    assert_eq!(encode_value(&DataValue::U32(0x0102_0304)), vec![4, 1, 2, 3, 4]);
    assert_eq!(encode_value(&DataValue::U64(258)), vec![5, 0, 0, 0, 0, 0, 0, 1, 2]);
    assert_eq!(
        encode_value(&DataValue::U128(1)),
        vec![6, 0, 0, 0, 0, 0, 0, 0, 0, 0, 0, 0, 0, 0, 0, 0, 1]
    );
    let mut expected: Vec<u8> = vec![7];
    expected.extend_from_slice(sample_hash(5).as_bytes());
    assert_eq!(encode_value(&DataValue::Hash(sample_hash(5))), expected);
}

#[test]
fn every_kind_of_value_round_trips() {
    let values = vec![
        DataValue::Bool(true),
        DataValue::Bool(false),
        text(""),
        text("12345"),
        text("true"),
        text("ünïcödé ✓"),
        DataValue::U8(0),
        DataValue::U8(255),
        DataValue::U16(0),
        DataValue::U16(65535),
        DataValue::U32(5),
        DataValue::U32(u32::MAX),
        DataValue::U64(5),
        DataValue::U64(u64::MAX),
        DataValue::U128(5),
        DataValue::U128(u128::MAX),
        DataValue::Hash(hash::Hash::zero()),
        DataValue::Hash(sample_hash(9)),
    ];
    for value in values {
        let bytes = encode_value(&value);
        assert_eq!(decode_value(&bytes), Ok(value));
    }
}

#[test]
fn value_round_trip_keeps_the_width_of_an_integer() {
    let bytes = encode_value(&DataValue::U64(5));
    assert_eq!(decode_value(&bytes), Ok(DataValue::U64(5)));
    assert_ne!(decode_value(&bytes), Ok(DataValue::U8(5)));
}

#[test]
fn value_tag_of_eight_or_above_is_rejected() {
    assert_eq!(decode_value(&[8, 0]), Err(ReaderError::InvalidValue));
    assert_eq!(decode_value(&[9, 1, 2, 3]), Err(ReaderError::InvalidValue));
    assert_eq!(decode_value(&[255]), Err(ReaderError::InvalidValue));
}

#[test]
fn truncated_value_is_rejected() {
    assert_eq!(decode_value(&[]), Err(ReaderError::InvalidSize));
    assert_eq!(decode_value(&[0]), Err(ReaderError::InvalidSize));
    assert_eq!(decode_value(&[3, 1]), Err(ReaderError::InvalidSize));
    assert_eq!(decode_value(&[1, 3, b'a']), Err(ReaderError::InvalidSize));
    assert_eq!(decode_value(&[7, 1, 2, 3]), Err(ReaderError::InvalidSize));
}

#[test]
fn malformed_value_payload_is_rejected() {
    assert_eq!(decode_value(&[0, 2]), Err(ReaderError::InvalidValue));
    assert_eq!(decode_value(&[1, 1, 0xff]), Err(ReaderError::InvalidValue));
}

#[test]
fn text_longer_than_its_prefix_allows_is_not_encodable() {
    assert!(text(&"a".repeat(255)).is_encodable());
    assert!(!text(&"a".repeat(256)).is_encodable());
    assert!(!text(&"é".repeat(128)).is_encodable());
    assert!(text(&"é".repeat(127)).is_encodable());
}

#[test]
fn elements_are_a_tag_and_a_body() {
    assert_eq!(encode_element(&DataElement::Value(None)), vec![0, 0]);
    assert_eq!(encode_element(&leaf(DataValue::U8(7))), vec![0, 1, 2, 7]);
    assert_eq!(encode_element(&DataElement::Array(Vec::new())), vec![1, 0]);
    assert_eq!(
        encode_element(&DataElement::Array(vec![DataElement::Value(None), leaf(DataValue::Bool(true))])),
        vec![1, 2, 0, 0, 0, 1, 0, 1]
    );
    assert_eq!(encode_element(&DataElement::Fields(Vec::new())), vec![2, 0]);
    assert_eq!(
        encode_element(&DataElement::Fields(vec![(text("k"), leaf(DataValue::U8(1)))])),
        vec![2, 1, 1, 1, b'k', 0, 1, 2, 1]
    );
}

#[test]
fn leaves_round_trip() {
    let null = DataElement::Value(None);
    assert_eq!(decode_element(&encode_element(&null)), Ok(null));
    let value = leaf(text("numeric? 42"));
    assert_eq!(decode_element(&encode_element(&value)), Ok(value));
}

#[test]
fn nested_tree_round_trips() {
    let tree = sample_tree();
    let bytes = encode_element(&tree);
    assert_eq!(decode_element(&bytes), Ok(sample_tree()));
    assert_eq!(decode_element(&bytes), Ok(tree));
}

#[test]
fn array_of_255_children_round_trips() {
    let mut children: Vec<DataElement> = Vec::new();
    for i in 0..255u16 {
        children.push(DataElement::Array(vec![leaf(DataValue::U16(i))]));
    }
    let array = DataElement::Array(children);
    let bytes = encode_element(&array);
    assert_eq!(bytes[0], 1);
    assert_eq!(bytes[1], 255);
    assert_eq!(decode_element(&bytes), Ok(array));
}

#[test]
fn fields_of_255_entries_round_trip() {
    let mut entries: Vec<(DataValue, DataElement)> = Vec::new();
    for i in 0..255u32 {
        DataElement::insert_field(&mut entries, DataValue::U32(i), leaf(text(&format!("v{}", i))));
    }
    assert_eq!(entries.len(), 255);
    let fields = DataElement::Fields(entries);
    let bytes = encode_element(&fields);
    assert_eq!(bytes[0], 2);
    assert_eq!(bytes[1], 255);
    assert_eq!(decode_element(&bytes), Ok(fields));
}

#[test]
fn node_with_256_children_is_not_encodable() {
    let mut children: Vec<DataElement> = Vec::new();
    for _ in 0..256u16 {
        children.push(DataElement::Value(None));
    }
    assert!(!DataElement::Array(children).is_encodable());
    let mut entries: Vec<(DataValue, DataElement)> = Vec::new();
    for i in 0..256u16 {
        entries.push((DataValue::U16(i), DataElement::Value(None)));
    }
    assert!(!DataElement::Fields(entries).is_encodable());
}

#[test]
fn unencodable_descendant_makes_the_tree_unencodable() {
    let long = leaf(text(&"z".repeat(300)));
    assert!(!long.is_encodable());
    assert!(!DataElement::Array(vec![DataElement::Array(vec![long.clone()])]).is_encodable());
    assert!(!DataElement::Fields(vec![(DataValue::U8(1), long)]).is_encodable());
    assert!(!DataElement::Fields(vec![(text(&"k".repeat(256)), DataElement::Value(None))]).is_encodable());
    assert!(sample_tree().is_encodable());
}

#[test]
fn element_tag_outside_zero_to_two_is_rejected() {
    assert_eq!(decode_element(&[3]), Err(ReaderError::InvalidValue));
    assert_eq!(decode_element(&[3, 0, 0]), Err(ReaderError::InvalidValue));
    assert_eq!(decode_element(&[200, 1]), Err(ReaderError::InvalidValue));
    assert_eq!(decode_element(&[1, 1, 3]), Err(ReaderError::InvalidValue));
    assert_eq!(decode_element(&[2, 1, 2, 0, 9]), Err(ReaderError::InvalidValue));
}

#[test]
fn element_with_bad_value_tag_is_rejected() {
    assert_eq!(decode_element(&[0, 1, 8]), Err(ReaderError::InvalidValue));
    assert_eq!(decode_element(&[0, 2]), Err(ReaderError::InvalidValue));
    assert_eq!(decode_element(&[2, 1, 8, 0]), Err(ReaderError::InvalidValue));
}

#[test]
fn truncated_element_is_rejected() {
    assert_eq!(decode_element(&[]), Err(ReaderError::InvalidSize));
    assert_eq!(decode_element(&[0]), Err(ReaderError::InvalidSize));
    assert_eq!(decode_element(&[1]), Err(ReaderError::InvalidSize));
    assert_eq!(decode_element(&[2]), Err(ReaderError::InvalidSize));
    assert_eq!(decode_element(&[1, 2, 0, 0]), Err(ReaderError::InvalidSize));
    assert_eq!(decode_element(&[1, 255]), Err(ReaderError::InvalidSize));
    assert_eq!(decode_element(&[2, 1, 2, 1]), Err(ReaderError::InvalidSize));
    let mut bytes = encode_element(&sample_tree());
    bytes.pop();
    assert_eq!(decode_element(&bytes), Err(ReaderError::InvalidSize));
}

#[test]
fn decoding_leaves_what_follows_the_element() {
    let mut bytes = encode_element(&sample_tree());
    bytes.extend_from_slice(&[9, 8, 7]);
    let mut reader = Reader::new(&bytes);
    assert_eq!(DataElement::read(&mut reader), Ok(sample_tree()));
    assert_eq!(reader.size(), 3);
    assert_eq!(reader.read_u8(), Ok(9));
}

#[test]
fn repeated_key_in_the_input_keeps_the_last_child() {
    let bytes: Vec<u8> = vec![2, 3, 2, 1, 0, 1, 2, 5, 2, 2, 0, 0, 2, 1, 0, 1, 2, 9];
    assert_eq!(
        decode_element(&bytes),
        Ok(DataElement::Fields(vec![
            (DataValue::U8(1), leaf(DataValue::U8(9))),
            (DataValue::U8(2), DataElement::Value(None)),
        ]))
    );
}

#[test]
fn insert_field_replaces_the_child_of_a_known_key() {
    let mut entries: Vec<(DataValue, DataElement)> = Vec::new();
    DataElement::insert_field(&mut entries, text("a"), leaf(DataValue::U8(1)));
    DataElement::insert_field(&mut entries, text("b"), leaf(DataValue::U8(2)));
    DataElement::insert_field(&mut entries, text("a"), leaf(DataValue::U8(3)));
    assert_eq!(entries, vec![(text("a"), leaf(DataValue::U8(3))), (text("b"), leaf(DataValue::U8(2)))]);
    assert_eq!(DataElement::find_field(&entries, &text("b")), Some(1));
    assert_eq!(DataElement::find_field(&entries, &text("c")), None);
    assert_eq!(DataElement::find_field(&entries, &DataValue::U8(1)), None);
}

#[test]
fn get_value_finds_a_typed_leaf() {
    let fields = DataElement::Fields(vec![
        (text("amount"), leaf(DataValue::U64(5))),
        (text("memo"), leaf(text("hello"))),
    ]);
    assert_eq!(fields.get_value(String::from("amount"), DataType::U64), Some(&DataValue::U64(5)));
    assert_eq!(fields.get_value(String::from("memo"), DataType::String), Some(&text("hello")));
}

#[test]
fn get_value_is_absent_on_a_node_that_is_not_fields() {
    assert_eq!(leaf(DataValue::U64(5)).get_value(String::from("amount"), DataType::U64), None);
    assert_eq!(DataElement::Value(None).get_value(String::from("amount"), DataType::U64), None);
    let array = DataElement::Array(vec![DataElement::Fields(vec![(text("amount"), leaf(DataValue::U64(5)))])]);
    assert_eq!(array.get_value(String::from("amount"), DataType::U64), None);
}

#[test]
fn get_value_is_absent_for_a_missing_name() {
    let fields = DataElement::Fields(vec![(text("amount"), leaf(DataValue::U64(5)))]);
    assert_eq!(fields.get_value(String::from("Amount"), DataType::U64), None);
    assert_eq!(fields.get_value(String::new(), DataType::U64), None);
    assert_eq!(DataElement::Fields(Vec::new()).get_value(String::from("amount"), DataType::U64), None);
}

#[test]
fn get_value_is_absent_for_a_null_leaf() {
    let fields = DataElement::Fields(vec![(text("amount"), DataElement::Value(None))]);
    assert_eq!(fields.get_value(String::from("amount"), DataType::U64), None);
}

#[test]
fn get_value_is_absent_for_a_composite_child() {
    let fields = DataElement::Fields(vec![
        (text("list"), DataElement::Array(vec![leaf(DataValue::U64(5))])),
        (text("map"), DataElement::Fields(vec![(text("amount"), leaf(DataValue::U64(5)))])),
    ]);
    assert_eq!(fields.get_value(String::from("list"), DataType::U64), None);
    assert_eq!(fields.get_value(String::from("map"), DataType::U64), None);
    assert_eq!(fields.get_value(String::from("amount"), DataType::U64), None);
}

#[test]
fn get_value_is_absent_for_another_kind() {
    let fields = DataElement::Fields(vec![(text("amount"), leaf(DataValue::U64(5)))]);
    assert_eq!(fields.get_value(String::from("amount"), DataType::U32), None);
    assert_eq!(fields.get_value(String::from("amount"), DataType::U128), None);
    assert_eq!(fields.get_value(String::from("amount"), DataType::String), None);
}

#[test]
fn get_value_looks_only_under_text_keys() {
    let fields = DataElement::Fields(vec![
        (DataValue::U8(1), leaf(DataValue::U64(5))),
        (DataValue::Bool(true), leaf(DataValue::U64(6))),
    ]);
    assert_eq!(fields.get_value(String::from("1"), DataType::U64), None);
    assert_eq!(fields.get_value(String::from("true"), DataType::U64), None);
}

#[test]
fn clones_are_equal_to_their_source() {
    let tree = sample_tree();
    assert_eq!(tree.clone(), tree);
    let value = text("copy");
    assert_eq!(value.clone(), value);
}

#[test]
fn values_compare_by_kind_and_content() {
    assert_eq!(DataValue::U8(5), DataValue::U8(5));
    assert_ne!(DataValue::U8(5), DataValue::U16(5));
    assert_ne!(DataValue::U8(5), DataValue::U8(6));
    assert_ne!(text("5"), DataValue::U8(5));
    assert_eq!(text("a"), text("a"));
    assert_ne!(text("a"), text("b"));
    assert_eq!(DataValue::Hash(sample_hash(1)), DataValue::Hash(sample_hash(1)));
    assert_ne!(DataValue::Hash(sample_hash(1)), DataValue::Hash(sample_hash(2)));
}

#[test]
fn repeated_key_at_any_depth_is_found() {
    assert!(sample_tree().has_unique_keys());
    assert!(DataElement::Value(None).has_unique_keys());
    assert!(DataElement::Fields(Vec::new()).has_unique_keys());
    let twice = DataElement::Fields(vec![
        (text("a"), DataElement::Value(None)),
        (DataValue::U8(1), DataElement::Value(None)),
        (text("a"), leaf(DataValue::U8(1))),
    ]);
    assert!(!twice.has_unique_keys());
    assert!(!DataElement::Array(vec![DataElement::Value(None), twice.clone()]).has_unique_keys());
    assert!(!DataElement::Fields(vec![(text("outer"), twice)]).has_unique_keys());
    let same_text_other_kind = DataElement::Fields(vec![
        (text("1"), DataElement::Value(None)),
        (DataValue::U8(1), DataElement::Value(None)),
        (DataValue::U16(1), DataElement::Value(None)),
    ]);
    assert!(same_text_other_kind.has_unique_keys());
}

#[test]
fn decoded_fields_have_unique_keys() {
    let bytes: Vec<u8> = vec![2, 2, 2, 1, 0, 0, 2, 1, 0, 0];
    let decoded = decode_element(&bytes).unwrap();
    assert!(decoded.has_unique_keys());
    assert_eq!(decoded, DataElement::Fields(vec![(DataValue::U8(1), DataElement::Value(None))]));
}

#[test]
fn element_with_a_repeated_key_does_not_round_trip() {
    let twice = DataElement::Fields(vec![
        (text("a"), leaf(DataValue::U8(1))),
        (text("a"), leaf(DataValue::U8(2))),
    ]);
    assert!(twice.is_encodable());
    let bytes = encode_element(&twice);
    assert_eq!(decode_element(&bytes), Ok(DataElement::Fields(vec![(text("a"), leaf(DataValue::U8(2)))])));
}
