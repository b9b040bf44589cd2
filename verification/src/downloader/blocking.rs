//! The download of a whole file with one request.

use crate::downloader::fetch::is_success;
use crate::error::DownloadError;
use crate::event::{EventHandler, HandlerExt, Handlers};
use vstd::prelude::*;

verus! {

/// The settings of a whole-file downloader.
#[derive(Clone, Copy, Debug, PartialEq, Eq, Structural)]
pub struct Settings {
    /// Seconds after which a request is given up.
    pub duration: u64,
    /// Whether connections are kept alive between requests.
    pub keep_alive: bool,
    /// Size of the buffer that the body is read into, in bytes.
    pub chunk_size: usize,
}

/// Collects the settings and the handlers of a whole-file downloader.
#[verifier::reject_recursive_types(F)]
pub struct DownloaderBuilder<F> {
    settings: Settings,
    handlers: Handlers<F>,
}

impl<F> View for DownloaderBuilder<F> {
    type V = Settings;

    closed spec fn view(&self) -> Settings {
        self.settings
    }
}

impl<F> Default for DownloaderBuilder<F> {
    /// A builder with a timeout of 100 seconds, no keep-alive, a read buffer
    /// of 32768 bytes and no handlers.
    fn default() -> (r: Self)
        ensures
            r@ == (Settings { duration: 100, keep_alive: false, chunk_size: 32768 }),
            r.registered().len() == 0,
    {
        DownloaderBuilder {
            settings: Settings { duration: 100, keep_alive: false, chunk_size: 32768 },
            handlers: Vec::new(),
        }
    }
}

impl<F> DownloaderBuilder<F> {
    /// The handlers that the downloader will notify, first registered
    /// first.
    pub closed spec fn registered(&self) -> Seq<Box<dyn EventHandler<F>>> {
        self.handlers@
    }

    pub fn time_out(self, duration: u64) -> (r: DownloaderBuilder<F>)
        ensures
            r@ == (Settings { duration, ..self@ }),
            r.registered() == self.registered(),
    {
        DownloaderBuilder {
            settings: Settings { duration, ..self.settings },
            handlers: self.handlers,
        }
    }

    pub fn keep_alive(self, enable: bool) -> (r: DownloaderBuilder<F>)
        ensures
            r@ == (Settings { keep_alive: enable, ..self@ }),
            r.registered() == self.registered(),
    {
        DownloaderBuilder {
            settings: Settings { keep_alive: enable, ..self.settings },
            handlers: self.handlers,
        }
    }

    pub fn chunk_size(self, size: usize) -> (r: DownloaderBuilder<F>)
        ensures
            r@ == (Settings { chunk_size: size, ..self@ }),
            r.registered() == self.registered(),
    {
        DownloaderBuilder {
            settings: Settings { chunk_size: size, ..self.settings },
            handlers: self.handlers,
        }
    }

    pub fn handlers(self, handlers: Handlers<F>) -> (r: DownloaderBuilder<F>)
        ensures
            r@ == self@,
            r.registered() == handlers@,
    {
        DownloaderBuilder { settings: self.settings, handlers }
    }

    /// The downloader with the settings and handlers collected so far.
    pub fn build(self) -> (r: Downloader<F>)
        ensures
            r@ == self@,
            r.registered() == self.registered(),
    {
        Downloader { settings: self.settings, handlers: self.handlers }
    }
}

/// Decides what the download of a whole file does next; the caller sends
/// the request, reads the body and writes the file.
#[verifier::reject_recursive_types(F)]
pub struct Downloader<F> {
    settings: Settings,
    handlers: Handlers<F>,
}

impl<F> View for Downloader<F> {
    type V = Settings;

    closed spec fn view(&self) -> Settings {
        self.settings
    }
}

impl<F> Default for Downloader<F> {
    /// The downloader that a builder gives when nothing was set.
    fn default() -> (r: Self)
        ensures
            r@ == (Settings { duration: 100, keep_alive: false, chunk_size: 32768 }),
            r.registered().len() == 0,
    {
        Downloader {
            settings: Settings { duration: 100, keep_alive: false, chunk_size: 32768 },
            handlers: Vec::new(),
        }
    }
}

/// What the status of the response means for the download: it goes on after
/// a status of success, and fails with the status after any other.
pub open spec fn accepted(status: u16) -> Result<(), DownloadError> {
    if is_success(status) {
        Ok(())
    } else {
        Err(DownloadError::RemoteChunkError { status })
    }
}

impl<F> Downloader<F> {
    /// The handlers that the downloader notifies, first registered first.
    pub closed spec fn registered(&self) -> Seq<Box<dyn EventHandler<F>>> {
        self.handlers@
    }

    pub fn builder() -> (r: DownloaderBuilder<F>)
        ensures
            r@ == (Settings { duration: 100, keep_alive: false, chunk_size: 32768 }),
            r.registered().len() == 0,
    {
        DownloaderBuilder {
            settings: Settings { duration: 100, keep_alive: false, chunk_size: 32768 },
            handlers: Vec::new(),
        }
    }

    pub fn settings(&self) -> (r: Settings)
        ensures
            r == self@,
    {
        self.settings
    }

    /// Takes the head of the response: its status, and the length of the
    /// body if the response declares one. The handlers learn a length that
    /// is declared, if the status is one of success.
    pub fn accept(&self, status: u16, content_length: Option<u64>) -> (r: Result<
        (),
        DownloadError,
    >)
        ensures
            r == accepted(status),
    {
        if !(200 <= status && status < 300) {
            return Err(DownloadError::RemoteChunkError { status });
        }
        if let Some(length) = content_length {
            self.handlers.on_content_length(&length);
        }
        Ok(())
    }

    /// A buffer to read the body into: as many bytes as the settings say,
    /// all of them zero.
    pub fn read_buffer(&self) -> (r: Vec<u8>)
        ensures
            r@ == Seq::new(self@.chunk_size as nat, |i: int| 0u8),
    {
        let buffer: Vec<u8> = vec![0u8; self.settings.chunk_size];
        assert(buffer@ =~= Seq::new(self@.chunk_size as nat, |i: int| 0u8));
        buffer
    }

    /// Takes the result of one read, which put `len` bytes at the start of
    /// `buffer`. Nothing read means that the body has ended, and nothing is
    /// returned; else the bytes read are returned to be written at the end
    /// of the file, and the handlers have been told of them.
    pub fn on_read<'b>(&self, buffer: &'b [u8], len: usize) -> (r: Option<&'b [u8]>)
        requires
            len <= buffer@.len(),
        ensures
            len == 0 <==> r is None,
            r matches Some(bytes) ==> bytes@ == buffer@.take(len as int),
    {
        if len == 0 {
            None
        } else {
            let bytes: &'b [u8] = &buffer[0..len];
            assert(bytes@ =~= buffer@.take(len as int));
            self.handlers.on_write(bytes);
            Some(bytes)
        }
    }

    /// Tells the handlers that the download is complete, with `file` as the
    /// output.
    pub fn finish(&self, file: &F) {
        self.handlers.on_finish(file);
    }
}

} // verus!
