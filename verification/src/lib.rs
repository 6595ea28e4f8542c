//! A verified tabular reconciliation engine for bills of materials (BOMs).
//!
//! The library normalizes free-text identifiers, infers which raw column
//! carries which semantic role, builds canonical records from raw grids,
//! applies configurable preprocessing rules (including numeric range
//! expansion), and reconciles two datasets keyed by part number into
//! comparison partitions and a full-outer-join synthesis view.

pub mod text;
pub mod normalize;
pub mod types;
pub mod builder;
pub mod preprocess;
pub mod compare;
pub mod synthesis;
pub mod dictionary;
pub mod inference;
pub mod overlay;
pub mod validate;
pub mod settings;
pub mod export;
pub mod preview;
pub mod dict_norm;
pub mod optimize;
