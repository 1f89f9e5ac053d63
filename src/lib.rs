//! Core of a current-transformer energy meter: the fixed-width record codec,
//! the sharded reading store, the auxiliary time and token records, and the
//! integer decisions of the zero-cross-bounded sampling loop.
pub mod codec;
pub mod page;
pub mod reading;
pub mod sampling;
pub mod storage;
pub mod time_store;
