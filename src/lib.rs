//! Version identities of Unity editor releases, the catalog of downloadable
//! releases built from them, and the decisions of the pipeline that extracts
//! the `libil2cpp` sources and derives single-header views of them.

pub mod args;
pub mod text;
pub mod unity_version;
pub mod version_parser;
pub mod writer;
pub mod diff;
pub mod downloader;
pub mod table;
