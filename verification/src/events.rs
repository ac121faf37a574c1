use vstd::prelude::*;
use crate::value::{ValModel, Value};

verus! {

/// The notification delivered to every listener when one key changes:
/// the key, its new value (`Null` after a removal), and the mutation's
/// timestamp in host milliseconds.
#[derive(Debug)]
pub struct ChangeEvent {
    pub key: String,
    pub value: Value,
    pub timestamp: u64,
}

/// The mathematical record of one emitted `ChangeEvent`.
#[verifier::ext_equal]
pub ghost struct ChangeRec {
    pub key: Seq<char>,
    pub value: ValModel,
    pub timestamp: u64,
}

impl ChangeEvent {
    pub open spec fn model(self) -> ChangeRec {
        ChangeRec { key: self.key@, value: self.value.model(), timestamp: self.timestamp }
    }
}

/// An action travelling through the dispatch pipeline: a named request to
/// mutate state, with its payload and the dispatch timestamp.
#[derive(Debug)]
pub struct StorageEvent {
    pub action_type: String,
    pub payload: Value,
    pub timestamp: u64,
}

/// The mathematical record of one action.
#[verifier::ext_equal]
pub ghost struct ActionRec {
    pub kind: Seq<char>,
    pub payload: ValModel,
    pub timestamp: u64,
}

impl StorageEvent {
    pub open spec fn model(self) -> ActionRec {
        ActionRec {
            kind: self.action_type@,
            payload: self.payload.model(),
            timestamp: self.timestamp,
        }
    }
}

} // verus!
