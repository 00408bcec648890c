//! Verified core of the continuity-memory evaluation harness.
pub mod text;
pub mod naming;
pub mod render;
pub mod selection;
pub mod embedding;
pub mod order;
pub mod textmap;
pub mod driver;
pub mod descriptions;
pub mod timestamp;
pub mod conversion;
pub mod assemble;
pub mod convert;
pub mod locomo;
pub mod batch;
pub mod messages;
pub mod embedding_manifest;
pub mod ledger;
pub mod probe;
pub mod resolve;
pub mod registry;
pub mod telemetry;
pub mod persist;
