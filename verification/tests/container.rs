use std::cell::RefCell;
use std::rc::Rc;

use wasm_storage::errors::StorageError;
use wasm_storage::events::{ChangeEvent, StorageEvent};
use wasm_storage::listener::Listener;
use wasm_storage::middleware::Middleware;
use wasm_storage::store::WasmStorage;
use wasm_storage::value::Value;

type EventLog = Rc<RefCell<Vec<(i64, String, Value, u64)>>>;

enum TestListener {
    Record { tag: i64, log: EventLog },
    Fail,
}

impl Listener for TestListener {
    fn on_change(&self, event: &ChangeEvent) -> Result<(), Value> {
        match self {
            TestListener::Record { tag, log } => {
                log.borrow_mut().push((
                    *tag,
                    event.key.clone(),
                    event.value.duplicate(),
                    event.timestamp,
                ));
                Ok(())
            }
            TestListener::Fail => Err(Value::Str("listener raised".to_string())),
        }
    }
}

enum TestMiddleware {
    AddOne,
    Double,
    Nothing,
    Fail(i64),
}

fn map_numbers(v: &Value, mul: i64, add: i64) -> Value {
    match v {
        Value::Int(n) => Value::Int(n * mul + add),
        Value::Obj(pairs) => Value::Obj(
            pairs
                .iter()
                .map(|(k, inner)| (k.clone(), map_numbers(inner, mul, add)))
                .collect(),
        ),
        other => other.duplicate(),
    }
}

impl Middleware for TestMiddleware {
    fn transform(&self, action: &StorageEvent) -> Result<Option<StorageEvent>, Value> {
        match self {
            TestMiddleware::Nothing => Ok(None),
            TestMiddleware::Fail(code) => Err(Value::Int(*code)),
            TestMiddleware::AddOne => Ok(Some(StorageEvent {
                action_type: action.action_type.clone(),
                payload: map_numbers(&action.payload, 1, 1),
                timestamp: action.timestamp,
            })),
            TestMiddleware::Double => Ok(Some(StorageEvent {
                action_type: action.action_type.clone(),
                payload: map_numbers(&action.payload, 2, 0),
                timestamp: action.timestamp,
            })),
        }
    }
}

type Store = WasmStorage<TestListener, TestMiddleware>;

fn new_log() -> EventLog {
    Rc::new(RefCell::new(Vec::new()))
}

fn lookup(all: &[(String, Value)], key: &str) -> Option<Value> {
    all.iter()
        .find(|(k, _)| k == key)
        .map(|(_, v)| v.duplicate())
}

#[test]
fn set_then_get_returns_value() {
    let mut store = Store::new();
    store.set_state("answer", Value::Int(41), 7).unwrap();
    store.set_state("answer", Value::Int(42), 8).unwrap();
    assert_eq!(store.get_state("answer"), Value::Int(42));
}

#[test]
fn set_then_get_nested_object() {
    let mut store = Store::new();
    let nested = Value::Obj(vec![
        ("inner".to_string(), Value::Str("deep".to_string())),
        ("flag".to_string(), Value::Bool(true)),
    ]);
    store.set_state("cfg", nested.duplicate(), 1).unwrap();
    assert_eq!(store.get_state("cfg"), nested);
}

#[test]
fn get_absent_returns_null() {
    let store = Store::new();
    assert_eq!(store.get_state("missing"), Value::Null);
}

#[test]
fn remove_absent_is_noop_but_notifies_once() {
    let log = new_log();
    let mut store = Store::new();
    store.set_state("kept", Value::Int(1), 1).unwrap();
    store.subscribe(TestListener::Record { tag: 0, log: log.clone() });
    store.remove_state("ghost", 9).unwrap();
    let all = store.get_all_state();
    assert_eq!(all.len(), 1);
    assert_eq!(lookup(&all, "kept"), Some(Value::Int(1)));
    let seen = log.borrow();
    assert_eq!(seen.len(), 1);
    assert_eq!(seen[0], (0, "ghost".to_string(), Value::Null, 9));
}

#[test]
fn remove_present_key_and_notify_null() {
    let log = new_log();
    let mut store = Store::new();
    store.set_state("gone", Value::Int(5), 1).unwrap();
    store.subscribe(TestListener::Record { tag: 0, log: log.clone() });
    store.remove_state("gone", 2).unwrap();
    assert_eq!(store.get_state("gone"), Value::Null);
    assert_eq!(store.get_all_state().len(), 0);
    assert_eq!(log.borrow()[0].2, Value::Null);
}

#[test]
fn clear_empties_state_and_emits_nothing() {
    let log = new_log();
    let mut store = Store::new();
    store.set_state("a", Value::Int(1), 1).unwrap();
    store.set_state("b", Value::Int(2), 2).unwrap();
    store.subscribe(TestListener::Record { tag: 0, log: log.clone() });
    store.clear_state().unwrap();
    assert_eq!(store.get_all_state().len(), 0);
    assert_eq!(store.get_state("a"), Value::Null);
    assert_eq!(store.get_state("b"), Value::Null);
    assert_eq!(log.borrow().len(), 0);
}

#[test]
fn dispatch_set_state_sets_pairs_and_notifies_in_order() {
    let log = new_log();
    let mut store = Store::new();
    store.subscribe(TestListener::Record { tag: 0, log: log.clone() });
    let payload = Value::Obj(vec![
        ("a".to_string(), Value::Int(1)),
        ("b".to_string(), Value::Int(2)),
    ]);
    store.dispatch("SET_STATE", payload, 50).unwrap();
    assert_eq!(store.get_state("a"), Value::Int(1));
    assert_eq!(store.get_state("b"), Value::Int(2));
    let seen = log.borrow();
    assert_eq!(seen.len(), 2);
    assert_eq!(seen[0], (0, "a".to_string(), Value::Int(1), 50));
    assert_eq!(seen[1], (0, "b".to_string(), Value::Int(2), 50));
}

#[test]
fn dispatch_set_state_later_pair_wins() {
    let mut store = Store::new();
    let payload = Value::Obj(vec![
        ("k".to_string(), Value::Int(1)),
        ("k".to_string(), Value::Int(2)),
    ]);
    store.dispatch("SET_STATE", payload, 1).unwrap();
    assert_eq!(store.get_state("k"), Value::Int(2));
    assert_eq!(store.get_all_state().len(), 1);
}

#[test]
fn dispatch_set_state_non_object_is_noop() {
    let log = new_log();
    let mut store = Store::new();
    store.subscribe(TestListener::Record { tag: 0, log: log.clone() });
    store.dispatch("SET_STATE", Value::Int(3), 1).unwrap();
    assert_eq!(store.get_all_state().len(), 0);
    assert_eq!(log.borrow().len(), 0);
}

#[test]
fn dispatch_remove_state_removes_only_that_key() {
    let mut store = Store::new();
    store.set_state("a", Value::Int(1), 1).unwrap();
    store.set_state("b", Value::Int(2), 2).unwrap();
    store
        .dispatch("REMOVE_STATE", Value::Str("a".to_string()), 3)
        .unwrap();
    assert_eq!(store.get_state("a"), Value::Null);
    assert_eq!(store.get_state("b"), Value::Int(2));
    assert_eq!(store.get_all_state().len(), 1);
}

#[test]
fn dispatch_remove_state_non_string_is_noop() {
    let log = new_log();
    let mut store = Store::new();
    store.set_state("a", Value::Int(1), 1).unwrap();
    store.subscribe(TestListener::Record { tag: 0, log: log.clone() });
    store.dispatch("REMOVE_STATE", Value::Int(0), 2).unwrap();
    assert_eq!(store.get_state("a"), Value::Int(1));
    assert_eq!(log.borrow().len(), 0);
}

#[test]
fn dispatch_clear_state_empties_regardless_of_payload() {
    let mut store = Store::new();
    store.set_state("a", Value::Int(1), 1).unwrap();
    store.set_state("b", Value::Int(2), 2).unwrap();
    store
        .dispatch("CLEAR_STATE", Value::Str("ignored".to_string()), 3)
        .unwrap();
    assert_eq!(store.get_all_state().len(), 0);
}

#[test]
fn dispatch_custom_kind_stores_under_synthesized_key() {
    let log = new_log();
    let mut store = Store::new();
    store.subscribe(TestListener::Record { tag: 0, log: log.clone() });
    store.dispatch("FOO", Value::Int(42), 4).unwrap();
    assert_eq!(store.get_state("__actions_FOO"), Value::Int(42));
    let seen = log.borrow();
    assert_eq!(seen.len(), 1);
    assert_eq!(seen[0], (0, "__actions_FOO".to_string(), Value::Int(42), 4));
}

#[test]
fn middleware_runs_in_registration_order() {
    let mut store = Store::new();
    store.add_middleware(TestMiddleware::AddOne).unwrap();
    store.add_middleware(TestMiddleware::Double).unwrap();
    let payload = Value::Obj(vec![("x".to_string(), Value::Int(5))]);
    store.dispatch("SET_STATE", payload, 1).unwrap();
    assert_eq!(store.get_state("x"), Value::Int(12));
}

#[test]
fn middleware_returning_nothing_leaves_payload_unchanged() {
    let mut store = Store::new();
    store.add_middleware(TestMiddleware::Nothing).unwrap();
    store.add_middleware(TestMiddleware::AddOne).unwrap();
    store.dispatch("FOO", Value::Int(10), 1).unwrap();
    assert_eq!(store.get_state("__actions_FOO"), Value::Int(11));
}

#[test]
fn middleware_error_aborts_dispatch_and_preserves_state() {
    let log = new_log();
    let mut store = Store::new();
    store.set_state("before", Value::Int(1), 1).unwrap();
    store.subscribe(TestListener::Record { tag: 0, log: log.clone() });
    store.add_middleware(TestMiddleware::AddOne).unwrap();
    store.add_middleware(TestMiddleware::Fail(7)).unwrap();
    let r = store.dispatch(
        "SET_STATE",
        Value::Obj(vec![("x".to_string(), Value::Int(5))]),
        2,
    );
    match r {
        Err(StorageError::Middleware(v)) => assert_eq!(v, Value::Int(7)),
        other => panic!("expected a middleware error, got {:?}", other),
    }
    assert_eq!(store.get_state("x"), Value::Null);
    assert_eq!(store.get_state("before"), Value::Int(1));
    assert_eq!(log.borrow().len(), 0);
}

#[test]
fn listener_error_is_swallowed_and_delivery_continues() {
    let log = new_log();
    let mut store = Store::new();
    store.subscribe(TestListener::Fail);
    store.subscribe(TestListener::Record { tag: 1, log: log.clone() });
    store.set_state("k", Value::Int(9), 3).unwrap();
    assert_eq!(store.get_state("k"), Value::Int(9));
    let seen = log.borrow();
    assert_eq!(seen.len(), 1);
    assert_eq!(seen[0], (1, "k".to_string(), Value::Int(9), 3));
}

#[test]
fn listeners_notified_in_registration_order() {
    let log = new_log();
    let mut store = Store::new();
    store.subscribe(TestListener::Record { tag: 1, log: log.clone() });
    store.subscribe(TestListener::Record { tag: 2, log: log.clone() });
    store.set_state("k", Value::Int(1), 1).unwrap();
    let seen = log.borrow();
    assert_eq!(seen.len(), 2);
    assert_eq!(seen[0].0, 1);
    assert_eq!(seen[1].0, 2);
}

#[test]
fn subscribe_handles_count_up_from_zero() {
    let log = new_log();
    let mut store = Store::new();
    let h0 = store.subscribe(TestListener::Record { tag: 0, log: log.clone() });
    let h1 = store.subscribe(TestListener::Record { tag: 1, log: log.clone() });
    let h2 = store.subscribe(TestListener::Record { tag: 2, log: log.clone() });
    assert_eq!(h0, 0);
    assert_eq!(h1, 1);
    assert_eq!(h2, 2);
}

#[test]
fn unsubscribe_reuses_position_for_next_handle() {
    let log = new_log();
    let mut store = Store::new();
    let h0 = store.subscribe(TestListener::Record { tag: 0, log: log.clone() });
    assert_eq!(h0, 0);
    store.unsubscribe(h0).unwrap();
    let again = store.subscribe(TestListener::Record { tag: 1, log: log.clone() });
    assert_eq!(again, 0);
}

#[test]
fn unsubscribe_shifts_later_listeners_down() {
    let log = new_log();
    let mut store = Store::new();
    store.subscribe(TestListener::Record { tag: 1, log: log.clone() });
    store.subscribe(TestListener::Record { tag: 2, log: log.clone() });
    store.unsubscribe(0).unwrap();
    store.set_state("k", Value::Int(1), 1).unwrap();
    let seen = log.borrow();
    assert_eq!(seen.len(), 1);
    assert_eq!(seen[0].0, 2);
}

#[test]
fn unsubscribe_invalid_handle_is_ignored() {
    let log = new_log();
    let mut store = Store::new();
    store.subscribe(TestListener::Record { tag: 0, log: log.clone() });
    store.unsubscribe(17).unwrap();
    store.set_state("k", Value::Int(1), 1).unwrap();
    assert_eq!(log.borrow().len(), 1);
}

#[test]
fn disjoint_sets_are_all_visible() {
    let mut store = Store::new();
    store.set_state("left", Value::Int(1), 1).unwrap();
    store.set_state("right", Value::Int(2), 2).unwrap();
    let all = store.get_all_state();
    assert_eq!(all.len(), 2);
    assert_eq!(lookup(&all, "left"), Some(Value::Int(1)));
    assert_eq!(lookup(&all, "right"), Some(Value::Int(2)));
}

#[test]
fn snapshot_is_a_copy_not_a_view() {
    let mut store = Store::new();
    store.set_state("a", Value::Int(1), 1).unwrap();
    let before = store.get_all_state();
    store.set_state("b", Value::Int(2), 2).unwrap();
    assert_eq!(before.len(), 1);
    assert_eq!(store.get_all_state().len(), 2);
}

#[test]
fn duplicate_copies_nested_values() {
    let original = Value::Obj(vec![
        ("s".to_string(), Value::Str("text".to_string())),
        (
            "o".to_string(),
            Value::Obj(vec![("n".to_string(), Value::Int(-3))]),
        ),
        ("u".to_string(), Value::Undefined),
    ]);
    assert_eq!(original.duplicate(), original);
}

#[test]
fn change_event_carries_given_timestamp() {
    let log = new_log();
    let mut store = Store::new();
    store.subscribe(TestListener::Record { tag: 0, log: log.clone() });
    store.set_state("k", Value::Bool(false), 123456).unwrap();
    assert_eq!(log.borrow()[0].3, 123456);
}

#[test]
fn dispatch_set_state_empty_object_emits_nothing() {
    let log = new_log();
    let mut store = Store::new();
    store.subscribe(TestListener::Record { tag: 0, log: log.clone() });
    store.dispatch("SET_STATE", Value::Obj(vec![]), 1).unwrap();
    assert_eq!(store.get_all_state().len(), 0);
    assert_eq!(log.borrow().len(), 0);
}

#[test]
fn empty_string_is_a_valid_key() {
    let mut store = Store::new();
    store.set_state("", Value::Int(7), 1).unwrap();
    assert_eq!(store.get_state(""), Value::Int(7));
    store.remove_state("", 2).unwrap();
    assert_eq!(store.get_state(""), Value::Null);
}

#[test]
fn overwrite_notifies_each_time() {
    let log = new_log();
    let mut store = Store::new();
    store.subscribe(TestListener::Record { tag: 0, log: log.clone() });
    store.set_state("k", Value::Int(1), 1).unwrap();
    store.set_state("k", Value::Int(2), 2).unwrap();
    let seen = log.borrow();
    assert_eq!(seen.len(), 2);
    assert_eq!(seen[0].2, Value::Int(1));
    assert_eq!(seen[1].2, Value::Int(2));
    assert_eq!(store.get_all_state().len(), 1);
}

#[test]
fn custom_action_passes_through_middleware() {
    let mut store = Store::new();
    store.add_middleware(TestMiddleware::Double).unwrap();
    store.dispatch("AUDIT", Value::Int(21), 1).unwrap();
    assert_eq!(store.get_state("__actions_AUDIT"), Value::Int(42));
}

#[test]
fn raw_number_bits_round_trip() {
    let mut store = Store::new();
    let bits = (1.5f64).to_bits();
    store.set_state("ratio", Value::Num(bits), 1).unwrap();
    assert_eq!(store.get_state("ratio"), Value::Num(bits));
    assert_eq!(f64::from_bits(bits), 1.5);
}

#[test]
fn subscriber_count_tracks_registry() {
    let log = new_log();
    let mut store = Store::new();
    assert_eq!(store.subscriber_count(), 0);
    store.subscribe(TestListener::Record { tag: 0, log: log.clone() });
    store.subscribe(TestListener::Record { tag: 1, log: log.clone() });
    assert_eq!(store.subscriber_count(), 2);
    store.unsubscribe(0).unwrap();
    assert_eq!(store.subscriber_count(), 1);
    store.unsubscribe(17).unwrap();
    assert_eq!(store.subscriber_count(), 1);
}
