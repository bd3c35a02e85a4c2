//! A schema description language ("Spec") for data shapes, together with a
//! compact, self-describing binary encoding of the schema itself.
//!
//! The centre of the crate is the recursive [`Spec`](schema::Spec) tree and
//! its two codecs: the compact encoder, which substitutes single reserved
//! alias bytes for the most common nodes, and the canonical long-form
//! encoder, which always emits the general tag-plus-payload form so that two
//! schemas are structurally equal exactly when their long-form encodings are
//! byte-identical.  One decoder reads both forms back.
//!
//! Every encoder and decoder carries a contract that ties it to a
//! mathematical description of the wire format, and the round-trip,
//! canonicity and truncation laws of the format are proved in `props`.

pub mod decode;
pub mod descriptor;
pub mod encode;
pub mod error;
pub mod props;
pub mod schema;
pub mod varint;

pub use descriptor::InterchangeBinaryFloatingPointFormat;
pub use descriptor::InterchangeDecimalFloatingPointFormat;
pub use descriptor::Size;
pub use descriptor::StringEncodingFmt;
pub use error::SpecParsingError;
pub use schema::Spec;
