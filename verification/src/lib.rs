//! A columnar array engine: logical types over interchangeable physical
//! encodings, and the framing of a stream of array headers.

pub mod aligned;
pub mod array;
pub mod dtype;
pub mod error;
pub mod ipc;
pub mod scalar;
pub mod validity;

pub use crate::aligned::AlignedIterator;
pub use crate::array::frame_of_reference::{FoRArray, FoRMetadata};
pub use crate::array::primitive::PrimitiveArray;
pub use crate::array::roaring::RoaringIntArray;
pub use crate::array::struct_::StructArray;
pub use crate::array::utf8::Utf8Array;
pub use crate::array::{Array, Canonical};
pub use crate::dtype::{DType, PType};
pub use crate::error::EncError;
pub use crate::ipc::message_reader::MonoIoMessageReader;
pub use crate::scalar::Scalar;
pub use crate::validity::LogicalValidity;
