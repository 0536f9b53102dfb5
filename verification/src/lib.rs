//! Verified core of a document store's storage layer: binary-comparable key
//! encoding, the key layouts of a collection, documents and their JSON
//! values, index entries and lookups, fulltext, TTL and versioning decisions,
//! transaction checks, columnar row selection and grouping, the catalog of
//! databases and collections, and the small process-wide counters and caches.
//!
//! Every module that states what several of its functions promise together
//! has a `_laws` companion holding those laws as proof functions.

pub mod bytes;
pub mod digits;
pub mod json;
pub mod json_equality;
pub mod timestamps;

pub mod codec;
pub mod codec_laws;
pub mod keys;
pub mod keys_laws;
pub mod scans;
pub mod truncate;
pub mod truncate_laws;

pub mod document;
pub mod document_laws;
pub mod crud;
pub mod content_merge;
pub mod batch_update;
pub mod document_cache;
pub mod document_cache_laws;
pub mod collection_types;
pub mod locks;
pub mod txn;
pub mod txn_laws;
pub mod versioning;

pub mod index_entries;
pub mod index_entries_laws;
pub mod index_lookup;
pub mod index_lookup_laws;
pub mod fulltext;
pub mod fulltext_laws;
pub mod ttl;
pub mod ttl_laws;
pub mod geo;
pub mod hybrid;

pub mod columnar;
pub mod column_keys;
pub mod column_keys_laws;
pub mod columnar_rows;
pub mod columnar_layout;
pub mod column_groups;
pub mod column_groups_laws;

pub mod registry;
pub mod registry_laws;
pub mod catalog;
pub mod catalog_laws;
pub mod cf_ops;
pub mod engine;
pub mod auto_index;
pub mod persistence;
