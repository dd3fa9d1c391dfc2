//! Column decoding for a stripe-oriented columnar file format: presence
//! masks, run-length integer and boolean streams, variable-length byte
//! values, and the typed nullable iterators built from them.

pub mod binary;
pub mod boolean;
pub mod boolean_rle;
pub mod column;
pub mod date;
pub mod error;
pub mod rle;
pub mod source;
pub mod variable_length;

pub use binary::{new_binary_iterator, DirectBinaryIterator};
pub use boolean::new_boolean_iter;
pub use boolean_rle::{BooleanDecoder, ByteRleDecoder};
pub use column::{new_present_iter, Column, NullableIterator, Stream, StreamKind, StreamMap, Stripe};
pub use date::{convert_date, new_date_iter, Date, DateIterator};
pub use error::Error;
pub use rle::RunLengthDecoder;
pub use source::ByteSource;
pub use variable_length::Values;
