//! Decoding of DWARF call frame information: the entries of an `.eh_frame`
//! or `.debug_frame` section, and the unwind tables that their call-frame
//! instructions describe.
//!
//! `reader` holds the bounded byte cursor and `leb128` the meaning of the
//! variable-length numbers it reads. `parser` decodes the entries that
//! `cfi` declares. `instruction` decodes call-frame instructions, `unwind`
//! executes them into the rows of a table and looks addresses up in it;
//! `rules` holds the register rules that the rows are made of.

pub mod cfi;
pub mod error;
pub mod instruction;
pub mod leb128;
pub mod parser;
pub mod reader;
pub mod rules;
pub mod unwind;
