//! Counts the characters and the whitespace characters of text files, and
//! gathers the counts of the files of a directory tree by file name.
//!
//! - [`whitespace`] says which characters are whitespace.
//! - [`count`] counts the whitespace characters of a text.
//! - [`content`] holds the statistics of one file and computes them from the
//!   file's bytes.
//! - [`scan`] keeps the statistics of many files, one entry for each name.
//! - [`tree`] walks a directory tree as it was found on disk and gathers the
//!   statistics of the files in it.
//! - [`visits`] relates the walk to the order in which it comes by the
//!   files.
//! - [`report`] writes the line that reports one file.
//!
//! Nothing here touches the file system: a caller reads the directories and
//! the files and hands over what it found.

pub mod content;
pub mod count;
pub mod report;
pub mod scan;
pub mod tree;
pub mod visits;
pub mod whitespace;
