//! Reader for the GGPK archive container format: a single binary blob holding
//! a directory tree of embedded files, addressed by absolute byte offsets.
//!
//! The archive is walked from a root record at offset 0; directory records
//! link to children by offset, file records carry a name and a raw content
//! byte range. Lookup and listing re-walk the tree on every call.

pub mod file;
pub mod ggpk;
pub mod laws;
pub mod record;
pub mod source;
pub mod strings;
pub mod version;

pub use crate::file::FileRecord;
pub use crate::file::GGPKError;
pub use crate::ggpk::GGPK;
pub use crate::file::GGPKFile;
