//! Extraction of university admission results from the files that
//! universities publish: file-name metadata, table rows, sanity checks and
//! the summary of a scan.
pub mod model;
pub mod normalize;
pub mod pdf;
pub mod scan;
pub mod source_meta;
pub mod summary;
pub mod text;
pub mod validate;
pub mod xlsx;
