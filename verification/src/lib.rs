//! Remove workbook- and worksheet-level protection from spreadsheet
//! archives, and unhide hidden sheets.
//!
//! A run over one archive is a pipeline: read the container's entries,
//! extract them into a working tree under a directory-traversal guard, patch
//! the workbook descriptor and every worksheet document by text-level
//! pattern removal, and rebuild the container from the tree's file entries.
//! The patch passes, the guard, and the tree bookkeeping are verified; the
//! container codec is the zip crate behind trusted wrappers in `zipio`.
//!
//! - `patch`: marker and literal removal on document bytes, with its laws.
//! - `names`: entry-path classification and the traversal guard's predicate.
//! - `archive`: the working tree, the unlock passes, the file filter.
//! - `zipio`: the container boundary and the whole-run entry point.
//! - `batch`: eligible-file selection, confirmation, output naming.

pub mod patch;
pub mod names;
pub mod archive;
pub mod zipio;
pub mod batch;
