//! Reconstructs obfuscated string literals hidden in a stack-machine bytecode
//! program and uses them to reassemble a set of embedded binary resources in
//! their original order.
//!
//! The container decoding itself (instruction lists, method table, constant
//! pool, tagged resources, symbol names) is the job of an outside
//! collaborator; this crate holds the pattern matcher and the
//! deobfuscation/order-resolution engine that run over the decoded data.

pub mod error;
pub mod ins;
pub mod movie_reader;
pub mod order;
pub mod store;
pub mod string_finder;
pub mod table;
pub mod unpacker;

pub use ins::Cursor;
pub use ins::Ins;
pub use movie_reader::MovieFromUrl;
pub use movie_reader::MovieReader;
pub use string_finder::StringFinder;
pub use unpacker::Unpacker;
