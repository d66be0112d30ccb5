//! Loader for precompiled function dumps.
//!
//! A dump is the binary form of a tree of function prototypes: a header,
//! one byte that the loader passes over, and the root function with the
//! functions nested in it. [`undump::LoadState::from_u8`] rebuilds the tree
//! or says why the bytes are no dump.
//!
//! Layout. Every integer of a dump is little-endian. Counts, lines and
//! instruction indices take four bytes, instruction words four, integer
//! and float constants eight, the size of a long string eight. The header
//! states these widths and carries an integer and a float of known value;
//! a dump written with other widths or another byte order fails one of
//! those checks and nothing more of it is read.
//!
//! Choices that the format leaves open:
//! - a count below zero stands for no items;
//! - a float constant is held as the bits of its double, and the float of
//!   the header is held against a bit pattern;
//! - a short read is `TruncatedInput` wherever it happens, the header
//!   included;
//! - the number of line numbers is not held against the number of
//!   instructions;
//! - functions may nest as deep as the input is long: no limit is set, and
//!   a caller that loads dumps it does not trust should bound their size.
//!
//! Reading moves forward only. A read takes all its bytes or none, so a
//! reader that fails leaves the cursor behind the reads that went well
//! before the one that did not; every contract says where that is. What a
//! failed reader had built is dropped: a prototype handed to it is as it
//! was, but for the names of upvalues that a debug block had read.
//!
//! Modules: `grammar` defines what bytes decode to; `undump` is the loader,
//! proved to compute exactly that; `encoding` says what a compatible
//! encoder writes; `laws` and `encoding` hold what is proved of the format
//! itself.

pub mod conf;
pub mod encoding;
pub mod errors;
pub mod grammar;
pub mod laws;
pub mod object;
pub mod opcodes;
pub mod primitives;
pub mod undump;
