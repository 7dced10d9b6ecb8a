//! An instruction-level simulator for a 32-bit MIPS-I integer subset.
//!
//! - [`word`]: arithmetic on 32-bit words;
//! - [`instr`]: instruction words and their decoder;
//! - [`memory`]: the five regions of memory;
//! - [`isa`]: what every instruction means, on mathematical states;
//! - [`loader`]: how program images come to lie in memory;
//! - [`sim`]: the machine that fetches, decodes, executes and commits;
//! - [`shell`]: the command language of the prompt;
//! - [`dump`]: the text of the dumps.
//!
//! The library reads no file and writes to no terminal: images come in as
//! bytes, command lines come in as bytes, and text goes out as bytes.

pub mod dump;
pub mod instr;
pub mod isa;
pub mod loader;
pub mod memory;
pub mod shell;
pub mod sim;
pub mod word;
