use std::borrow::Cow;

use xelis::api::{DataHash, DataType, EventResult, SubscribeParams};
use xelis::crypto::hash;

#[test]
fn subscribe_params_hold_the_event_kind() {
    let params = SubscribeParams { notify: DataType::U64 };
    assert_eq!(params.notify, DataType::U64);
}

#[test]
fn data_hash_borrows_or_owns_its_parts() {
    let digest = hash::Hash::new([4u8; 32]);
    let data: u32 = 17;
    let borrowed = DataHash { hash: Cow::Borrowed(&digest), data: Cow::Borrowed(&data) };
    assert_eq!(borrowed.hash.as_ref(), &digest);
    assert_eq!(*borrowed.data, 17);
    let owned: DataHash<u32> = DataHash { hash: Cow::Owned(digest), data: Cow::Owned(18) };
    assert_eq!(owned.hash.into_owned(), hash::Hash::new([4u8; 32]));
    assert_eq!(owned.data.into_owned(), 18);
}

#[test]
fn event_result_carries_a_document() {
    let event = DataType::Bool;
    let result = EventResult { event: Cow::Borrowed(&event), value: serde_json::Value::Bool(true) };
    assert_eq!(*result.event, DataType::Bool);
    assert_eq!(result.value, serde_json::Value::Bool(true));
}
