//! The segmented download: its settings, and the transfer that hands out
//! ranges and takes replies.

use crate::downloader::state::{lemma_action_keeps_wf, lemma_initial_wf, lemma_reply_keeps_wf};
use crate::error::DownloadError;
use crate::event::{EventHandler, HandlerExt, Handlers};
use crate::file::{chunk_plan, ByteRange, ChunkRange, FileRequest};
use vstd::prelude::*;

pub mod blocking;
pub mod fetch;
pub mod manager;
pub mod state;

pub use crate::downloader::fetch::{
    classify, is_success, segment_of, status_is_success, Reply, Segment,
};
pub use crate::downloader::state::{Step, TransferView};

verus! {

/// The settings of a segmented downloader.
#[derive(Clone, Copy, Debug, PartialEq, Eq, Structural)]
pub struct Settings {
    /// Size of a chunk, in bytes.
    pub chunk_size: u32,
    /// Bound on the number of requests in flight.
    pub buffer_size: usize,
    /// Whether connections are kept alive between requests.
    pub keep_alive: bool,
}

/// Collects the settings and the handlers of a segmented downloader.
#[verifier::reject_recursive_types(F)]
pub struct DownloaderBuilder<F> {
    settings: Settings,
    handlers: Handlers<F>,
}

impl<F> View for DownloaderBuilder<F> {
    type V = Settings;

    closed spec fn view(&self) -> Settings {
        self.settings
    }
}

impl<F> DownloaderBuilder<F> {
    /// The handlers that the downloader will notify, first registered
    /// first.
    pub closed spec fn registered(&self) -> Seq<Box<dyn EventHandler<F>>> {
        self.handlers@
    }

    /// A builder with chunks of 512000 bytes, at most 150 requests in
    /// flight, no keep-alive and no handlers.
    pub fn new() -> (r: Self)
        ensures
            r@ == (Settings { chunk_size: 512000, buffer_size: 150, keep_alive: false }),
            r.registered().len() == 0,
    {
        DownloaderBuilder {
            settings: Settings { chunk_size: 512000, buffer_size: 150, keep_alive: false },
            handlers: Vec::new(),
        }
    }

    pub fn chunk_size(self, size: u32) -> (r: DownloaderBuilder<F>)
        ensures
            r@ == (Settings { chunk_size: size, ..self@ }),
            r.registered() == self.registered(),
    {
        DownloaderBuilder {
            settings: Settings { chunk_size: size, ..self.settings },
            handlers: self.handlers,
        }
    }

    pub fn buffer_size(self, size: usize) -> (r: DownloaderBuilder<F>)
        ensures
            r@ == (Settings { buffer_size: size, ..self@ }),
            r.registered() == self.registered(),
    {
        DownloaderBuilder {
            settings: Settings { buffer_size: size, ..self.settings },
            handlers: self.handlers,
        }
    }

    pub fn keep_alive(self, enable: bool) -> (r: DownloaderBuilder<F>)
        ensures
            r@ == (Settings { keep_alive: enable, ..self@ }),
            r.registered() == self.registered(),
    {
        DownloaderBuilder {
            settings: Settings { keep_alive: enable, ..self.settings },
            handlers: self.handlers,
        }
    }

    pub fn handlers(self, handlers: Handlers<F>) -> (r: DownloaderBuilder<F>)
        ensures
            r@ == self@,
            r.registered() == handlers@,
    {
        DownloaderBuilder { settings: self.settings, handlers }
    }

    /// The downloader with the settings and handlers collected so far.
    pub fn build(self) -> (r: Downloader<F>)
        ensures
            r@ == self@,
            r.registered() == self.registered(),
    {
        Downloader { settings: self.settings, handlers: self.handlers }
    }
}

/// The size to plan a download with: the size that the request declares, if
/// it declares one; else the size that the remote side reported; and an
/// error if neither is known.
pub open spec fn resolved_size(declared: Option<u64>, remote: Option<u64>) -> Result<
    u64,
    DownloadError,
> {
    match declared {
        Some(size) => Ok(size),
        None => match remote {
            Some(size) => Ok(size),
            None => Err(DownloadError::SizeUnknown),
        },
    }
}

/// Decides what a segmented download does next; the caller sends the
/// requests and writes the file.
#[verifier::reject_recursive_types(F)]
pub struct Downloader<F> {
    settings: Settings,
    handlers: Handlers<F>,
}

impl<F> View for Downloader<F> {
    type V = Settings;

    closed spec fn view(&self) -> Settings {
        self.settings
    }
}

impl<F> Downloader<F> {
    /// The handlers that the downloader notifies, first registered first.
    pub closed spec fn registered(&self) -> Seq<Box<dyn EventHandler<F>>> {
        self.handlers@
    }

    /// A downloader with the settings of a new builder.
    pub fn new() -> (r: Downloader<F>)
        ensures
            r@ == (Settings { chunk_size: 512000, buffer_size: 150, keep_alive: false }),
            r.registered().len() == 0,
    {
        DownloaderBuilder::new().build()
    }

    pub fn builder() -> (r: DownloaderBuilder<F>)
        ensures
            r@ == (Settings { chunk_size: 512000, buffer_size: 150, keep_alive: false }),
            r.registered().len() == 0,
    {
        DownloaderBuilder::new()
    }

    pub fn settings(&self) -> (r: Settings)
        ensures
            r == self@,
    {
        self.settings
    }

    /// Whether the size of the resource has to be asked of the remote side
    /// before the download can be planned.
    pub fn needs_remote_size(&self, request: &FileRequest) -> (r: bool)
        ensures
            r == (request.size is None),
    {
        request.size.is_none()
    }

    /// Settles the size of the resource: `remote` is what the remote side
    /// reported, if it was asked and did report. The handlers learn a size
    /// that was settled.
    pub fn resolve_size(&self, request: &FileRequest, remote: Option<u64>) -> (r: Result<
        u64,
        DownloadError,
    >)
        ensures
            r == resolved_size(request.size, remote),
    {
        let size: u64 = match request.size {
            Some(size) => size,
            None => match remote {
                Some(size) => size,
                None => {
                    return Err(DownloadError::SizeUnknown);
                },
            },
        };
        self.handlers.on_content_length(&size);
        Ok(size)
    }

    /// Begins the transfer of a resource of `file_size` bytes. A chunk size
    /// of zero is refused.
    pub fn start(&self, file_size: u64) -> (r: Result<Transfer<'_, F>, DownloadError>)
        ensures
            r is Err <==> self@.chunk_size == 0,
            r matches Err(error) ==> error == DownloadError::InvalidConfiguration,
            r matches Ok(transfer) ==> {
                &&& transfer.wf()
                &&& transfer.registered() == self.registered()
                &&& transfer@ == TransferView::initial(
                    chunk_plan(file_size, self@.chunk_size),
                    self@.buffer_size as nat,
                )
            },
    {
        let rest = match ChunkRange::new(file_size, self.settings.chunk_size) {
            Ok(rest) => rest,
            Err(error) => {
                return Err(error);
            },
        };
        proof {
            lemma_initial_wf(file_size, self.settings.chunk_size, self.settings.buffer_size as nat);
            assert(rest@.skip(0) =~= rest@);
        }
        let transfer = Transfer {
            handlers: &self.handlers,
            rest,
            in_flight: Vec::new(),
            limit: self.settings.buffer_size,
            failure: None,
            plan: Ghost(chunk_plan(file_size, self.settings.chunk_size)),
            issued: Ghost(0),
            written: Ghost(Seq::empty()),
            bodies: Ghost(Seq::empty()),
        };
        assert(transfer@ == TransferView::initial(
            chunk_plan(file_size, self@.chunk_size),
            self@.buffer_size as nat,
        ));
        Ok(transfer)
    }
}

/// One segmented transfer in progress: which ranges are still to be asked
/// for, which requests are in flight, and whether the transfer was aborted.
///
/// The caller asks `next_step` what to do. It starts a request for each
/// range that it is handed; when told to wait, it waits for any one of its
/// requests to be answered and hands the reply to `complete`, which gives
/// it the segment to write. It goes on until it is told that the transfer
/// is finished or has failed.
#[verifier::reject_recursive_types(F)]
pub struct Transfer<'a, F> {
    handlers: &'a Handlers<F>,
    rest: ChunkRange,
    in_flight: Vec<ByteRange>,
    limit: usize,
    failure: Option<DownloadError>,
    plan: Ghost<Seq<ByteRange>>,
    issued: Ghost<nat>,
    written: Ghost<Seq<ByteRange>>,
    bodies: Ghost<Seq<Seq<u8>>>,
}

impl<'a, F> View for Transfer<'a, F> {
    type V = TransferView;

    closed spec fn view(&self) -> TransferView {
        TransferView {
            plan: self.plan@,
            issued: self.issued@,
            in_flight: self.in_flight@,
            written: self.written@,
            bodies: self.bodies@,
            limit: self.limit as nat,
            failure: self.failure,
        }
    }
}

impl<'a, F> Transfer<'a, F> {
    /// The handlers that the transfer notifies, first registered first:
    /// those of the downloader that began it.
    pub closed spec fn registered(&self) -> Seq<Box<dyn EventHandler<F>>> {
        self.handlers@
    }

    /// Whether the ranges that are still to be asked for are those that the
    /// state calls not handed out.
    pub closed spec fn tracks_plan(&self) -> bool {
        &&& self.issued@ <= self.plan@.len()
        &&& self.rest@ == self.plan@.skip(self.issued@ as int)
    }

    /// The invariant of a transfer.
    pub open spec fn wf(&self) -> bool {
        self@.wf() && self.tracks_plan()
    }

    /// Says what to do next. A range that is returned counts as in flight
    /// from now on.
    pub fn next_step(&mut self) -> (r: Step)
        requires
            old(self).wf(),
        ensures
            final(self).wf(),
            final(self).registered() == old(self).registered(),
            r == old(self)@.action(),
            final(self)@ == old(self)@.after_action(),
    {
        proof {
            lemma_action_keeps_wf(self@);
        }
        if let Some(error) = self.failure {
            return Step::Failed(error);
        }
        if self.in_flight.len() < self.limit {
            match self.rest.next() {
                Some(range) => {
                    self.in_flight.push(range);
                    proof {
                        self.issued@ = self.issued@ + 1;
                        assert(self.rest@ =~= self.plan@.skip(self.issued@ as int));
                    }
                    return Step::Fetch(range);
                },
                None => {},
            }
        }
        if self.in_flight.len() > 0 {
            Step::Wait
        } else if self.rest.is_empty() {
            Step::Finished
        } else {
            Step::Stalled
        }
    }

    /// Whether the request for `range` is in flight.
    pub fn is_in_flight(&self, range: &ByteRange) -> (r: bool)
        ensures
            r == self@.in_flight.contains(*range),
    {
        let mut i: usize = 0;
        while i < self.in_flight.len()
            invariant
                i <= self.in_flight.len(),
                forall|j: int| 0 <= j < i ==> self.in_flight@[j] != *range,
            decreases self.in_flight.len() - i,
        {
            if self.in_flight[i] == *range {
                return true;
            }
            i += 1;
        }
        false
    }

    /// Takes a reply to the request for `range`. A segment that is returned
    /// is to be written; the handlers have been told of its bytes. After an
    /// error no further range is handed out, and replies that come in later
    /// are dropped. Nothing is returned, and nothing changes, if no request
    /// for `range` is in flight.
    pub fn complete(&mut self, range: ByteRange, reply: Reply) -> (r: Result<
        Option<Segment>,
        DownloadError,
    >)
        requires
            old(self).wf(),
        ensures
            final(self).wf(),
            final(self).registered() == old(self).registered(),
            r == old(self)@.answer(range, reply),
            final(self)@ == old(self)@.after_reply(range, reply),
    {
        proof {
            lemma_reply_keeps_wf(self@, range, reply);
            self@.in_flight.index_of_first_ensures(range);
        }
        let mut at: usize = 0;
        while at < self.in_flight.len() && !(self.in_flight[at] == range)
            invariant
                at <= self.in_flight.len(),
                forall|j: int| 0 <= j < at ==> self.in_flight@[j] != range,
            decreases self.in_flight.len() - at,
        {
            at += 1;
        }
        if at == self.in_flight.len() {
            return match self.failure {
                Some(error) => Err(error),
                None => Ok(None),
            };
        }
        assert(self.in_flight@.index_of_first(range) == Some(at as int));
        self.in_flight.remove(at);
        if let Some(error) = self.failure {
            return Err(error);
        }
        match classify(range, reply) {
            Ok(segment) => {
                self.handlers.on_write(segment.bytes.as_slice());
                proof {
                    self.written@ = self.written@.push(range);
                    self.bodies@ = self.bodies@.push(segment.bytes@);
                }
                Ok(Some(segment))
            },
            Err(error) => {
                self.failure = Some(error);
                Err(error)
            },
        }
    }

    /// Aborts the transfer with an error of the caller's, such as a write
    /// that failed. An earlier error stays.
    pub fn abort(&mut self, error: DownloadError)
        requires
            old(self).wf(),
        ensures
            final(self).wf(),
            final(self).registered() == old(self).registered(),
            final(self)@ == old(self)@.after_abort(error),
    {
        if self.failure.is_none() {
            self.failure = Some(error);
        }
    }

    /// Tells the handlers that the download is complete, with `file` as the
    /// output, if the transfer is finished. Returns whether it is.
    pub fn finish(&self, file: &F) -> (r: bool)
        requires
            self.wf(),
        ensures
            r == (self@.action() == Step::Finished),
    {
        if self.failure.is_none() && self.in_flight.len() == 0 && self.rest.is_empty() {
            self.handlers.on_finish(file);
            true
        } else {
            false
        }
    }
}

} // verus!
