//! Reporting layer for SystemVerilog syntax trees.
//!
//! The library turns an already parsed source file, given as the stream of
//! node events of its syntax tree, into the text of a structured report:
//! the modules that the file declares with their ports and instantiations,
//! or a dump of the whole tree. It also renders the macro table, locates a
//! parse failure in its source, and quotes arbitrary bytes as report scalars.
//!
//! All text is handled as bytes. Every function is verified against the
//! specification functions that stand beside it.
//!
//! - [`escape`]: quoting of bytes as report scalars
//! - [`locate`]: line and column of a byte offset, and the diagnostic for it
//! - [`tree`]: the syntax tree as a stream of events, and searching in it
//! - [`defs`]: the report of modules, ports and instantiations
//! - [`outline`], [`keys`], [`ports`]: what holds of every such report
//! - [`dump`]: the dump of a whole syntax tree
//! - [`macros`]: the macro table and its snapshot
//! - [`run`]: the run over a list of files
//! - [`text`]: building blocks for report text

pub mod defs;
pub mod dump;
pub mod escape;
pub mod keys;
pub mod locate;
pub mod macros;
pub mod outline;
pub mod ports;
pub mod run;
pub mod text;
pub mod tree;
