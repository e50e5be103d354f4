//! A parallel archive-extraction engine, verified with Verus.
//!
//! The core divides an archive's entry-index space across independent
//! workers, validates every stored entry name against directory-traversal
//! attacks, and aggregates per-worker failures into a single report.
//! Alongside the engine live a few small verified companions: a
//! lexicographic path sorter used to compare extraction results, template
//! description records, and the error and metadata types of a cloud-drive
//! client whose transport lives outside the verified library.

pub mod archive;
pub mod drive;
pub mod engine;
pub mod fs_model;
pub mod listing;
pub mod myerror;
pub mod partition;
pub mod path_safety;
pub mod templates;
pub mod terminal;
