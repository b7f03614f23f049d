pub mod data_entry;
pub mod error;
pub mod key;
pub mod value;
pub mod storage_structure;
pub mod replacement_policy;
pub mod cache;
