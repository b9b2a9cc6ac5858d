//! Self-describing structured values and their compact binary form.

pub mod codec;
pub mod element;
pub mod laws;
pub mod value;

pub use element::DataElement;
pub use value::DataType;
pub use value::DataValue;

use std::borrow::Cow;
use vstd::prelude::*;
use crate::crypto::hash;

verus! {

/// A request to be told about events of kind `notify`.
pub struct SubscribeParams<E> {
    pub notify: E,
}

/// `serde_json::Value`, any JSON document. It is carried as it is: nothing
/// in this crate looks inside one.
#[verifier::external_type_specification]
#[verifier::external_body]
pub struct ExJsonValue(serde_json::Value);

/// An event together with whatever it reports.
#[verifier::reject_recursive_types(E)]
pub struct EventResult<'a, E: Clone> {
    pub event: Cow<'a, E>,
    pub value: serde_json::Value,
}

/// Some data together with the digest that identifies it.
#[verifier::reject_recursive_types(T)]
pub struct DataHash<'a, T: Clone> {
    pub hash: Cow<'a, hash::Hash>,
    pub data: Cow<'a, T>,
}

} // verus!
