//! Helpers shared by the tool handlers: shell quoting, path handling, the
//! ignore-file matcher used by directory walks, and checksums.
pub mod checksum;
pub mod gitignore;
pub mod path;
