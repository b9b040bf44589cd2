//! Which files are fetched whole and which in segments.

use crate::file::FileRequest;
use vstd::prelude::*;

verus! {

/// The path that a download takes.
#[derive(Clone, Copy, Debug, PartialEq, Eq, Structural)]
pub enum Route {
    /// One request for the whole file.
    WholeFile,
    /// One request per chunk.
    Segmented,
}

/// A file is small if its size was declared and is no larger than the
/// threshold.
pub open spec fn is_small(size: Option<u64>, threshold: u64) -> bool {
    match size {
        Some(size) => size <= threshold,
        None => false,
    }
}

/// Small files are fetched whole, all others in segments.
pub open spec fn route_of(size: Option<u64>, threshold: u64) -> Route {
    if is_small(size, threshold) {
        Route::WholeFile
    } else {
        Route::Segmented
    }
}

/// The requests of `files` that are small, in the order of `files`.
pub open spec fn small_files(files: Seq<FileRequest>, threshold: u64) -> Seq<FileRequest> {
    files.filter(|file: FileRequest| is_small(file.size, threshold))
}

/// The requests of `files` that are not small, in the order of `files`.
pub open spec fn large_files(files: Seq<FileRequest>, threshold: u64) -> Seq<FileRequest> {
    files.filter(|file: FileRequest| !is_small(file.size, threshold))
}

/// Sorts requests into those fetched whole and those fetched in segments.
pub struct Manager {
    small_size: u64,
    blocking_buffer_size: usize,
}

impl Manager {
    /// The largest size that still counts as small.
    pub closed spec fn threshold(&self) -> u64 {
        self.small_size
    }

    /// The bound on the number of small files that are fetched at the same
    /// time.
    pub closed spec fn concurrency(&self) -> usize {
        self.blocking_buffer_size
    }

    pub fn new(small_size: u64, blocking_buffer_size: usize) -> (r: Self)
        ensures
            r.threshold() == small_size,
            r.concurrency() == blocking_buffer_size,
    {
        Manager { small_size, blocking_buffer_size }
    }

    pub fn small_size(&self) -> (r: u64)
        ensures
            r == self.threshold(),
    {
        self.small_size
    }

    pub fn blocking_buffer_size(&self) -> (r: usize)
        ensures
            r == self.concurrency(),
    {
        self.blocking_buffer_size
    }

    /// The path that the download of `request` takes.
    pub fn route(&self, request: &FileRequest) -> (r: Route)
        ensures
            r == route_of(request.size, self.threshold()),
    {
        match request.size {
            Some(size) => if size <= self.small_size {
                Route::WholeFile
            } else {
                Route::Segmented
            },
            None => Route::Segmented,
        }
    }

    /// Splits `files` into the small ones and the others; each group keeps
    /// the order of `files`.
    pub fn partition(&self, files: Vec<FileRequest>) -> (r: (Vec<FileRequest>, Vec<FileRequest>))
        ensures
            r.0@ == small_files(files@, self.threshold()),
            r.1@ == large_files(files@, self.threshold()),
    {
        let mut small: Vec<FileRequest> = Vec::new();
        let mut large: Vec<FileRequest> = Vec::new();
        let ghost all = files@;
        let ghost threshold = self.small_size;
        proof {
            reveal(Seq::filter);
            assert(all.take(0).len() == 0);
        }
        for file in it: files
            invariant
                it.seq() == all,
                threshold == self.small_size,
                small@ == small_files(all.take(it.index() as int), threshold),
                large@ == large_files(all.take(it.index() as int), threshold),
        {
            proof {
                reveal(Seq::filter);
                let next: int = it.index() + 1;
                assert(all.take(next).drop_last() =~= all.take(it.index() as int));
                assert(all.take(next).last() == file);
            }
            match self.route(&file) {
                Route::WholeFile => small.push(file),
                Route::Segmented => large.push(file),
            }
        }
        proof {
            assert(all.take(all.len() as int) =~= all);
        }
        (small, large)
    }
}

/// Every request goes one way: the two groups together hold as many
/// requests as there were, every request of the first group is small and no
/// request of the second is.
pub proof fn lemma_partition_complete(files: Seq<FileRequest>, threshold: u64)
    ensures
        small_files(files, threshold).len() + large_files(files, threshold).len() == files.len(),
        forall|i: int|
            0 <= i < small_files(files, threshold).len() ==> is_small(
                (#[trigger] small_files(files, threshold)[i]).size,
                threshold,
            ),
        forall|i: int|
            0 <= i < large_files(files, threshold).len() ==> !is_small(
                (#[trigger] large_files(files, threshold)[i]).size,
                threshold,
            ),
    decreases files.len(),
{
    reveal(Seq::filter);
    if files.len() > 0 {
        lemma_partition_complete(files.drop_last(), threshold);
    }
}

/// Where the line between small and large runs: a file of exactly the
/// threshold is small, a file one byte larger is not, and a file of unknown
/// size never is.
pub proof fn lemma_route_boundary(threshold: u64)
    ensures
        route_of(Some(threshold), threshold) == Route::WholeFile,
        threshold < u64::MAX ==> route_of(Some((threshold + 1) as u64), threshold)
            == Route::Segmented,
        route_of(None, threshold) == Route::Segmented,
{
}

/// The route depends on the declared size and the threshold alone, and
/// changes at most once as the size grows: whatever is no larger than a
/// small file is small.
pub proof fn lemma_route_monotone(smaller: u64, larger: u64, threshold: u64)
    requires
        smaller <= larger,
        route_of(Some(larger), threshold) == Route::WholeFile,
    ensures
        route_of(Some(smaller), threshold) == Route::WholeFile,
{
}

} // verus!
