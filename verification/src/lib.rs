//! Verified readers for three Chromium storage back ends: Simple Cache entry
//! files, IndexedDB-over-LevelDB records and Local Storage records, together
//! with the analyzers that grade what the readers surface.

pub mod bytes;
pub mod varint;
pub mod text;
pub mod report;
pub mod record;

pub mod cache_error;
pub mod cache_entry;
pub mod cache_analysis;

pub mod idb_prefix;
pub mod idb_key;
pub mod indexeddb;
pub mod idb_analysis;

pub mod ls_value;
pub mod localstorage;
pub mod ls_analysis;

pub use cache_entry::{parse_entry, CacheEntry};
pub use cache_error::CacheError;
pub use idb_key::IdbKey;
pub use indexeddb::{IndexedDbRecord, RecordValue};
pub use localstorage::LocalStorageRecord;
pub use ls_value::{Encoding, StorageValue};
pub use record::Record;
pub use report::{Category, Severity};
