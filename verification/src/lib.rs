//! A minimal, verified byte-by-byte reader for hand-written parsers.
//!
//! The central type is [`reader::Reader`]: a backtrackable cursor over an
//! immutable byte buffer that tracks the 1-based line and column of the
//! parsing point and offers composable primitives (peek, consume, skip-while,
//! read-while, token matching, literal decoding) on top of which a
//! grammar-specific parser can be built.

pub mod bytes;
pub mod laws;
pub mod location;
pub mod reader;
pub mod scan;
pub mod text;
pub mod traits;
