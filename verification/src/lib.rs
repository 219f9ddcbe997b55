//! Annotation of genomic intervals with nearby genes, and merging of the
//! annotated table with an external statistics table.
//!
//! The crate models delimited text tables, BED interval records, the
//! transparent gzip stream codec, the gene-distance annotator and the
//! left-join engine, each with a contract over its mathematical view.
pub mod annotate;
pub mod bed;
pub mod stream;
pub mod table;
pub mod text;

pub use bed::BedEntry;
pub use bed::BedFile;
pub use table::parse_delimited_file;
pub use table::parse_value;
