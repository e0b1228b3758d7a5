//! A call-by-need evaluation engine: a store of memoising thunks with cycle
//! detection, and a store of scoped variables whose keys are computed lazily.

pub mod error;
pub mod laws;
pub mod semantics;
pub mod store;
pub mod values;
