//! A verified record-lifecycle engine for an OAI-PMH harvester and indexer.
//!
//! The library models the durable record store as a sorted table of rows,
//! states every state transition as a precondition-guarded update, and
//! drives the batched, keyset-paginated phase sweeps (import, download,
//! metadata, index, purge) over that table. All decision logic is verified;
//! the network, disk, database and subprocess edges live outside the
//! library and hand it plain values.

pub mod arclight;
pub mod db;
pub mod harvester;
pub mod import;
pub mod indexer;
pub mod oai;
pub mod query;
pub mod record;
pub mod rules;
pub mod store;
pub mod summarizer;
pub mod text;
pub mod worker;

pub use arclight::ArcLightArgs;
pub use arclight::ArcLightIndexerConfig;
pub use arclight::ArcLightIndexerConfigInput;
pub use arclight::ArcLightRetryArgs;
pub use arclight::ARCLIGHT_METADATA_PREFIX;
pub use harvester::HarvesterArgs;
pub use indexer::IndexerContext;
pub use indexer::IndexRunOptions;
pub use oai::OaiConfig;
pub use oai::OaiRecordId;
