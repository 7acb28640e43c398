//! A string interner with a bucket-based storage backend.
//!
//! Strings are copied into append-only buckets of bytes and named by small
//! copyable symbols; every interned string stays where it was written for as
//! long as the backend lives.
pub mod backend;
pub mod bucket;
pub mod interned_str;
pub mod storage;
pub mod symbol;

pub use backend::{BucketBackend, Iter};
pub use bucket::{ClosedBucket, ExceedsCapacityError, OpenBucket};
pub use interned_str::InternedStr;
pub use symbol::{DefaultSymbol, OutOfBoundsError, Symbol, SymbolU16, SymbolU32, SymbolUsize};
