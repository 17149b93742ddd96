//! A compiler for Type Language schemas, and the wire format of their types.
//!
//! A schema is a flat list of constructors. [`ast`] groups them by namespace
//! and type, with the help of [`names`] for identifiers and [`types`] for the
//! descriptors of field types. [`emit`] writes the Rust source of one sum
//! type per schema type, and [`value`] encodes and decodes values of those
//! types directly from the grouped schema. [`wire`] holds the codecs that
//! both rest on: little-endian integers, length-prefixed bytes and text, and
//! the tagged sequence.

pub mod ast;
pub mod emit;
pub mod error;
pub mod keyed;
pub mod le;
pub mod names;
pub mod order;
pub mod reader;
pub mod schema;
pub mod text;
pub mod types;
pub mod value;
pub mod wire;
pub mod writer;

pub use ast::{Ast, BuildError};
pub use error::Error;
pub use reader::Reader;
pub use schema::Schema;
pub use types::{Primitive, ResolvedType};
pub use value::Value;
pub use wire::{Double, TLType};
pub use writer::Writer;
