//! A tiny stack language and its just-in-time compiler: a parser, a reference
//! interpreter, and an AArch64 code generator whose output is pinned word for
//! word by its contracts. Loading the generated words into executable memory
//! and calling them is left to an unverified front end; everything that
//! decides which words are emitted, and what they mean, lives here.

pub mod arm64;
pub mod ast;
pub mod interp;
pub mod laws;
pub mod machine;
pub mod oracle;
pub mod parser;
