//! What the reply to one ranged request amounts to.

use crate::error::DownloadError;
use crate::file::ByteRange;
use vstd::prelude::*;

verus! {

/// What the transport reported for one request.
pub enum Reply {
    /// A response arrived, with this status code and this body.
    Response { status: u16, body: Vec<u8> },
    /// The transport failed before a complete response arrived.
    Lost,
}

/// Bytes to write at an absolute offset of the output file.
pub struct Segment {
    pub offset: u64,
    pub bytes: Vec<u8>,
}

/// The status codes of the success class.
pub open spec fn is_success(status: u16) -> bool {
    200 <= status < 300
}

/// Whether `status` is of the success class.
pub fn status_is_success(status: u16) -> (r: bool)
    ensures
        r == is_success(status),
{
    200 <= status && status < 300
}

/// What the reply to the request for `range` amounts to: with a status of
/// success, the body, to be written where the range starts; with any other
/// status, a remote error that carries the status; without a response, a
/// transport error.
pub open spec fn segment_of(range: ByteRange, reply: Reply) -> Result<Segment, DownloadError> {
    match reply {
        Reply::Response { status, body } => if is_success(status) {
            Ok(Segment { offset: range.start, bytes: body })
        } else {
            Err(DownloadError::RemoteChunkError { status })
        },
        Reply::Lost => Err(DownloadError::TransportError),
    }
}

/// Turns the reply to the request for `range` into a segment or an error.
pub fn classify(range: ByteRange, reply: Reply) -> (r: Result<Segment, DownloadError>)
    ensures
        r == segment_of(range, reply),
{
    match reply {
        Reply::Response { status, body } => {
            if status_is_success(status) {
                Ok(Segment { offset: range.start, bytes: body })
            } else {
                Err(DownloadError::RemoteChunkError { status })
            }
        },
        Reply::Lost => Err(DownloadError::TransportError),
    }
}

} // verus!
