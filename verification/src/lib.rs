//! A minimal single-file, page-oriented row store.
//!
//! A table of fixed-width rows is kept in a file of fixed-size pages. The
//! `codec` turns a row into its bytes and back. The `table::pager` caches
//! pages over the bytes of the file, and the `table` addresses rows by their
//! position and appends new ones. `parsing` prepares the statements of the
//! command line and `executor` carries them out. `vm` and `db` hold the
//! draft of a query language over several tables.
//!
//! The library does no input or output: it is handed the bytes of the file
//! when a table is opened and hands them back when the table is closed.

pub mod codec;
pub mod consts;
pub mod db;
pub mod executor;
pub mod parsing;
pub mod table;
pub mod vm;
pub mod words;
