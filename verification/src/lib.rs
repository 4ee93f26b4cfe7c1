//! An intelligence-gathering core: per-source collectors shape upstream
//! records into raw documents, a model-backed extractor turns documents
//! into entities and relationships, a graph store merges them across
//! sources, and a reasoning engine answers questions over the graph.
//!
//! Everything the system decides on its own — parsing, shaping, merging,
//! bookkeeping — lives here and is verified; the network calls around it
//! stay outside.

pub mod agents;
pub mod extraction;
pub mod gdelt;
mod jsonval;
mod mint;
pub mod model;
pub mod numtext;
pub mod reasoning;
pub mod runs;
pub mod service;
pub mod store;
pub mod text;
pub mod zip;

pub use model::clamp_confidence;
pub use model::default_confidence;
pub use model::default_limit;
pub use model::AgentRunState;
pub use model::AgentRunStatus;
pub use model::AgentStatus;
pub use model::ArgusError;
pub use model::Entity;
pub use model::EntityType;
pub use model::ExtractionResult;
pub use model::RawDocument;
pub use model::RelationType;
pub use model::Relationship;
