//! The core of a directory lister: what is read in a directory becomes
//! entry records, which are filtered, sorted and written as a table, as one
//! name per line, or as JSON.
//!
//! The library reads no directory itself. Its caller reads and hands over
//! plain values: the bytes of each name and the metadata of each entry. In
//! tree mode the [`walk`] names the next directory to read.
//!
//! - [`fsops`]: entry records and how they are built from metadata.
//! - [`size`]: sizes as text, read and shown in units of 1024.
//! - [`glob`]: glob patterns over bare file names.
//! - [`filter`]: the filter chain of a request.
//! - [`sort`]: the stable sort of the records.
//! - [`render`]: the four ways of writing a listing.
//! - [`color`]: the palette and the theme.
//! - [`walk`]: which directories are read, down to which depth.
//! - [`pipeline`]: a request from its check to its output.
//! - [`text`]: helpers for texts.

pub mod color;
pub mod filter;
pub mod fsops;
pub mod glob;
pub mod pipeline;
pub mod render;
pub mod size;
pub mod sort;
pub mod text;
pub mod walk;
