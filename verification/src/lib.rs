//! A compiler for XML protocol definitions: it tokenizes the XML, builds a
//! protocol tree, resolves types and their memory layout, and emits Rust
//! bindings for the resolved protocol.
pub mod constraints;
pub mod error;
pub mod size;
pub mod meta;
pub mod pool;
pub mod bounded;
pub mod symbols;
pub mod layout;
pub mod text;
pub mod version;
pub mod definition;
pub mod token;
pub mod nodes;
pub mod tree;
pub mod shape;
pub mod xml;
pub mod tokenizer;
pub mod table;
pub mod compiler;
pub mod codegen;
pub mod generator;
pub mod message;
pub mod codec;

pub use compiler::ProtocolCompiler;
pub use definition::{Access, ProtocolDefinition};
pub use pool::{StringPool, StringPoolIntern, StringPoolResolver};
pub use table::FinishedTypeTable;
pub use version::Version;
