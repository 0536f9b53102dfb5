//! Geo index metadata.
use vstd::prelude::*;

verus! {

/// Geo index metadata stored with a collection.
pub struct GeoIndex {
    /// Index name.
    pub name: String,
    /// Field path containing the geo coordinates.
    pub field: String,
    /// Geohash precision.
    pub precision: usize,
}

/// Geo index statistics.
pub struct GeoIndexStats {
    pub name: String,
    pub field: String,
    pub precision: usize,
    pub indexed_documents: usize,
    pub geohash_buckets: usize,
}

/// Default geohash precision (about 1.2 km).
pub const DEFAULT_GEOHASH_PRECISION: usize = 6;

impl GeoIndex {
    /// A geo index on `field`, at the default precision.
    pub fn new(name: String, field: String) -> (r: Self)
        ensures
            r.name@ == name@,
            r.field@ == field@,
            r.precision == DEFAULT_GEOHASH_PRECISION,
    {
        GeoIndex { name, field, precision: DEFAULT_GEOHASH_PRECISION }
    }

    /// The index's statistics; the document and bucket counts are computed
    /// at query time and reported as zero here.
    pub fn stats(&self) -> (r: GeoIndexStats)
        ensures
            r.name@ == self.name@,
            r.field@ == self.field@,
            r.precision == self.precision,
            r.indexed_documents == 0,
            r.geohash_buckets == 0,
    {
        GeoIndexStats {
            name: self.name.clone(),
            field: self.field.clone(),
            precision: self.precision,
            indexed_documents: 0,
            geohash_buckets: 0,
        }
    }
}

} // verus!
