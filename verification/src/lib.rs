//! Decides how a file is downloaded over HTTP in byte ranges: how it is cut
//! into chunks, which request starts when, where each answer is written,
//! and when the download has failed or is complete. Sending requests and
//! writing files is left to the caller.

pub mod assembly;
pub mod downloader;
pub mod error;
pub mod event;
pub mod file;
pub mod header;

pub use crate::error::DownloadError;
pub use crate::file::FileRequest;
