//! Integrity checking of containerised processes against the executables
//! that their images shipped with.
//!
//! The library holds the decisions of the monitor: how a control-group file
//! names a container, which files count as native executables, how a file's
//! content hash is written, which layers an exported image lists, which
//! fingerprint-store writes an ingestion issues and in what order, and how a
//! live process is judged against the stored fingerprint.
pub mod text;
pub mod process;
pub mod binary;
pub mod ingest;
pub mod manifest;
