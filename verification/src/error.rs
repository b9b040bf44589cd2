//! The ways in which a download fails.

use vstd::prelude::*;

verus! {

/// Why a download, or the preparation of one, failed.
#[derive(Clone, Copy, Debug, PartialEq, Eq, Structural)]
pub enum DownloadError {
    /// A configuration value is unusable, such as a chunk size of zero.
    InvalidConfiguration,
    /// No size was declared and the remote side did not report one.
    SizeUnknown,
    /// A request was answered with a status outside the success class.
    RemoteChunkError { status: u16 },
    /// The transport failed before a complete response arrived.
    TransportError,
    /// Creating, positioning or writing the output file failed.
    IoError,
}

} // verus!
