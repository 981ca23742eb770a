//! The binary format, from the bytes up: the cursor and its reads, the
//! types and instructions, the sections, and the module.

pub mod error;
pub mod leb128;
pub mod parsers;
pub mod cursor;
pub mod decode;
pub mod types;
pub mod instr;
pub mod segments;
pub mod section;
pub mod module;
pub mod laws;
