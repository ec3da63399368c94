//! Conversion of Arrow batches into Lance datasets.

pub mod error;
pub mod error_laws;
pub mod error_struct;
pub mod ffi;
pub mod ffi_laws;
pub mod gzip;
pub mod json;
pub mod order;
pub mod schema;
pub mod schema_laws;
pub mod sink;
pub mod source;
pub mod storage;
pub mod storage_laws;
pub mod text;
pub mod text_laws;
pub mod writer;

pub use error::{Error, Result};
pub use error_struct::{ErrorStatus, ErrorStruct, Place};
