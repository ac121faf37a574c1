use vstd::prelude::*;
use crate::value::Value;

verus! {

/// Why a container operation failed.
///
/// Only `Middleware` arises inside the library: a middleware callback
/// raised during `dispatch`, and the raised value is preserved. `Lock`
/// and `Conversion` belong to the host boundary — a poisoned lock around
/// a shared container, or a host value that could not be translated —
/// and are constructed there.
#[derive(Debug)]
pub enum StorageError {
    Lock,
    Middleware(Value),
    Conversion,
}

} // verus!
