//! Reader, writer and splitter for Advanced Duplicator save files.
//!
//! A file is a four byte signature, a version byte, a textual information
//! block and an LZMA-compressed tree of Lua values. This crate parses such a
//! file into memory, writes it back, and cuts the entity table of a decoded
//! file into several smaller files that each remain valid on their own.
//!
//! Every function is verified against a mathematical description of what
//! it computes:
//!
//! - [`value`] holds the value tree and its model, [`table`] the tables of
//!   the tree as insertion-ordered entry lists.
//! - [`grammar`] describes the binary grammar of the tree, [`info`] the
//!   information block and [`layout`] the file around the two.
//! - [`codec`] and [`advanced_dupe`] read and write against these
//!   descriptions; [`round_trip`] proves that what was written is read
//!   back unchanged.
//! - [`split`] cuts a decoded file into several; [`split_laws`] proves that
//!   nothing is lost on the way.
//! - [`lzma`] and [`text`] hold the calls into code that is not verified:
//!   the LZMA coder and the lossy UTF-8 decoder of the standard library.
//!
//! Numbers are kept as the bit patterns of their doubles throughout, so that
//! a file is read and written bit for bit.

pub mod advanced_dupe;
pub mod buffer;
pub mod codec;
pub mod error;
pub mod grammar;
pub mod info;
pub mod layout;
pub mod lzma;
pub mod number;
pub mod round_trip;
pub mod split;
pub mod split_laws;
pub mod table;
pub mod text;
pub mod value;
