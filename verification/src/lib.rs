//! Front end for a small block-structured IR text format: source
//! registration, a tokenizer with byte-accurate spans, a recursive-descent
//! parser, and structured diagnostics.

pub mod parse;
pub mod reports;
pub mod source;
pub mod span;
pub mod tokenize;

pub use source::SourceFile;
pub use source::SourceId;
pub use source::SourceTree;
pub use source::UnregisteredSourceFile;
pub use span::Span;
