//! Decoders for two on-disk structures of a Mercurial repository: the
//! revision index ("revlog") and the working-copy table ("dirstate").
//!
//! Both decoders read from a [`reader::ByteReader`] and return plain records.
//! Every contract is stated over the byte sequence that the reader holds, so
//! that what a decoder returns is a function of the bytes alone.
//!
//! - [`revlog_format`] and [`dirstate_format`] state the two wire formats;
//! - [`revlog`] and [`dirstate`] hold the records and the decoders;
//! - [`revlog_proofs`] and [`dirstate_proofs`] prove what holds of every
//!   stream;
//! - [`endian`], [`hex`], [`names`] and [`sorting`] hold what the decoders and
//!   the records are built from.

pub mod dirstate;
pub mod dirstate_format;
pub mod dirstate_proofs;
pub mod endian;
pub mod error;
pub mod hex;
pub mod names;
pub mod reader;
pub mod revlog;
pub mod revlog_format;
pub mod revlog_proofs;
pub mod sorting;
