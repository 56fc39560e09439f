//! Per-contract persistent page storage for a WASM smart-contract runtime.
//!
//! Each contract owns fixed-size pages. A `PagesStorage` keeps them in a
//! content-addressed key-value store; a `PageCache` caches whole pages above
//! it; a `PageSliceCache` reads and writes byte ranges above that. Committing
//! folds the contract's pages into one 32-byte `State`.
//!
//! Beside the storage stand the buffers that contract code fills through
//! host calls, the byte encoding of WASM values passed across the host
//! boundary, and the app and receipt records.

pub mod bytes;
pub mod error;
pub mod state;
pub mod hashing;
pub mod kv;
pub mod pages_storage;
pub mod page_cache;
pub mod page_slice_cache;
pub mod buffers;
pub mod values;
pub mod app_types;
pub mod receipt;
