//! Reader and in-memory builder for the "datafile" binary container format:
//! a validated header, typed item tables, and a pool of optionally
//! zlib-compressed data blobs, parsed from an untrusted byte source.

mod buffer;
mod error;
mod format;
mod header;
mod reader;
mod source;

pub use buffer::{BufItemModel, DatafileBuffer, DfBufItem, DfBufItemType};
pub use error::{CallbackError, CallbackReadError, DatafileError, Error};
pub use format::{DatafileHeaderRest, DatafileHeaderVersion, DatafileItemType, DATAFILE_ITEMTYPE_ID_RANGE};
pub use header::DatafileHeader;
pub use reader::{decompress_expected, ItemView, Reader};
pub use source::Callback;
