//! DAG-CBOR serialization with verified byte-level contracts: a serializer with
//! one method per event of the serde data model, the canonical order of map
//! entries, a streaming writer for formatted text, and a spec reader for the items
//! written, with the laws that they read back.
pub mod cbor;
pub mod decode;
pub mod entries;
pub mod fmt_writer;
pub mod ser;
pub mod write;

pub use entries::{lex_le_bytes, sort_entries};
pub use fmt_writer::{FmtWriter, State, BUFFER_SIZE};
pub use ser::{char_utf8, BoundedCollect, Collect, Serializer};
pub use write::{BufWriter, EncodeError, Write};
