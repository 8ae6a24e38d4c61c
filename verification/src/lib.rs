/// The closed difficulty enumeration and its label parsing.
pub mod difficulty;
/// The trusted XML parsing boundary and the top-level report builder.
pub mod document;
/// Proved laws of the extraction pipeline.
pub mod laws;
/// The player directory and identifier resolution.
pub mod players;
/// Charts, songs, fatal conditions, and the verified extraction.
pub mod report;
/// Score entries and the per-player maximum reduction.
pub mod scores;
/// Verified string comparison and decimal parsing helpers.
pub mod text;
/// A plain-value model of XML element trees, with verified searches.
pub mod xml;
