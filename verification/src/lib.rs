//! An in-memory, observable key-value state container with a dispatch
//! pipeline: callers mutate state directly or by dispatching named actions,
//! registered middleware may transform an action before it is applied, and
//! registered listeners are notified on every key mutation.

pub mod errors;
pub mod laws;
pub mod events;
pub mod listener;
pub mod middleware;
pub mod state_map;
pub mod store;
pub mod value;
