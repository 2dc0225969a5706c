//! A bytecode compiler and stack machine for a small dynamically typed
//! expression language.
//!
//! Source text is scanned into tokens ([`scanner`]), compiled in a single
//! pass into a chunk of bytecode ([`compiler`], [`chunk`]) and executed on a
//! stack of values ([`vm`], [`value`]). A listing of a chunk can be had for
//! diagnostics ([`dissasembler`]).
//!
//! Numbers are IEEE-754 binary64 values, held as bit patterns ([`number`]).
//! The library compares and negates them, and leaves to its host what
//! rounds: the host gives the values of the number literals to the
//! compiler, and answers the machine where it is suspended at an
//! arithmetic instruction.
//!
//! What a text means, and that compiler and machine agree with it, is
//! stated in [`expression`].
pub mod chunk;
pub mod compiler;
pub mod dissasembler;
pub mod expression;
pub mod number;
pub mod opcode;
pub mod scanner;
pub mod text;
pub mod value;
pub mod vm;
