//! Plain records a collection reports: change events, statistics and
//! fulltext index definitions.
use vstd::prelude::*;
use crate::json::JsonValue;

verus! {

/// Type of change event.
#[derive(Debug, Clone, Copy, PartialEq, Eq)]
pub enum ChangeType {
    Insert,
    Update,
    Delete,
}

impl ChangeType {
    /// The lower-case name used on the wire.
    pub fn as_str(&self) -> (r: &'static str)
        ensures
            r@ == match self {
                ChangeType::Insert => "insert"@,
                ChangeType::Update => "update"@,
                ChangeType::Delete => "delete"@,
            },
    {
        match self {
            ChangeType::Insert => "insert",
            ChangeType::Update => "update",
            ChangeType::Delete => "delete",
        }
    }
}

/// A change to one document, as reported to subscribers: the new data for
/// an insert or update, the old data where it was read.
pub struct ChangeEvent {
    pub type_: ChangeType,
    pub key: String,
    pub data: Option<JsonValue>,
    pub old_data: Option<JsonValue>,
}

/// Collection statistics including disk usage.
pub struct CollectionStats {
    pub name: String,
    pub document_count: usize,
    pub chunk_count: usize,
    pub disk_usage: DiskUsage,
}

/// Disk usage statistics for a collection.
#[derive(Debug, Clone, Copy)]
pub struct DiskUsage {
    /// Total size of SST files in bytes.
    pub sst_files_size: u64,
    /// Estimated live data size in bytes.
    pub live_data_size: u64,
    /// Number of SST files.
    pub num_sst_files: u64,
    /// Size of memtables in bytes.
    pub memtable_size: u64,
}

/// Fulltext index metadata.
pub struct FulltextIndex {
    pub name: String,
    pub fields: Vec<String>,
    pub min_length: usize,
}

/// The n-gram minimum length of a fulltext index that does not set one.
pub fn default_min_length() -> (r: usize)
    ensures
        r == 3,
{
    3
}

} // verus!
