//! Indexing a local music collection: walking a tree of audio files, reading
//! their tags, skipping files already stored, grouping the records into
//! store transactions, and deriving the sorted album facets used to browse
//! the collection.

pub mod chunked;
pub mod facet;
pub mod order;
pub mod scan;
pub mod track;
