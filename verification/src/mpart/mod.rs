//! A streaming encoder for `multipart/form-data`: fields are gathered in a
//! form, made ready under a boundary token, and served as one stream of
//! bytes, without holding the content of a file or a stream in memory.

pub mod boundary;
pub mod error;
pub mod fields;
pub mod laws;
mod lemmas;
pub mod model;
pub mod parse;
pub mod path;
pub mod prepared;
pub mod source;
pub mod wire;

pub use error::LazyError;
pub use fields::{IntoCowPath, Mpart};
pub use prepared::{PreparedField, PreparedFields};
pub use source::{ByteSource, Cursor, Reader};
