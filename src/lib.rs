//! Deduplication and clustering core of a news digest: content-addressed
//! storage of feed texts, the decisions of the clustering threshold search,
//! and the assembly of a report from the clusters it found.

pub mod id;
pub mod md5_hash;
pub mod text;
pub mod url;
pub mod feeds;
pub mod clustering;
pub mod report;
pub mod persisted;
pub mod db;
pub mod ingest;
pub mod translate;
pub mod scrape;
pub mod openai;
