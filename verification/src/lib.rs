//! Source-code statistics: line classification, per-language summaries,
//! number formatting and the decisions behind the project tree view.

pub mod text;
pub mod paths;
pub mod analysis;
pub mod language;
pub mod numbers;
pub mod report;
pub mod scan;
pub mod tree;
