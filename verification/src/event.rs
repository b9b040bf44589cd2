//! Handlers that are told of the progress of a download.

use vstd::prelude::*;

verus! {

/// Receives the notifications of a download. Each method does nothing
/// unless the implementor says otherwise; a handler reports, it does not
/// steer.
pub trait EventHandler<F> {
    /// The download is complete; `file` is the output file.
    fn on_finish(&self, file: &F) {
    }

    /// `bytes` are about to be written to the output file.
    fn on_write(&self, bytes: &[u8]) {
    }

    /// The size of the resource is known to be `length` bytes.
    fn on_content_length(&self, length: &u64) {
    }
}

/// The handlers of one downloader, in the order in which they were
/// registered.
pub type Handlers<F> = Vec<Box<dyn EventHandler<F>>>;

/// The entry that stands for `handler` in a list of handlers.
pub open spec fn entry_of<F, H: EventHandler<F> + 'static>(handler: H) -> Box<
    dyn EventHandler<F>,
> {
    Box::new(handler)
}

/// Building a list of handlers, and notifying all of them.
pub trait HandlerExt<F>: Sized {
    /// The registered handlers, first registered first.
    spec fn registered(&self) -> Seq<Box<dyn EventHandler<F>>>;

    /// A list with `handler` as its only entry.
    fn new<H: EventHandler<F> + 'static>(handler: H) -> (r: Self)
        ensures
            r.registered().len() == 1,
            r.registered()[0] == entry_of::<F, H>(handler),
    ;

    /// The list with `handler` registered after all that it held.
    fn add_handler<H: EventHandler<F> + 'static>(self, handler: H) -> (r: Self)
        ensures
            r.registered().len() == self.registered().len() + 1,
            forall|i: int|
                0 <= i < self.registered().len() ==> r.registered()[i] == self.registered()[i],
            r.registered()[self.registered().len() as int] == entry_of::<F, H>(handler),
    ;

    /// Tells every handler, in registration order, that the download is
    /// complete.
    fn on_finish(&self, file: &F);

    /// Tells every handler, in registration order, that `bytes` are being
    /// written.
    fn on_write(&self, bytes: &[u8]);

    /// Tells every handler, in registration order, the size of the resource.
    fn on_content_length(&self, length: &u64);
}

impl<F> HandlerExt<F> for Handlers<F> {
    open spec fn registered(&self) -> Seq<Box<dyn EventHandler<F>>> {
        self@
    }

    fn new<H: EventHandler<F> + 'static>(handler: H) -> (r: Self) {
        let mut all: Handlers<F> = Vec::new();
        let entry: Box<dyn EventHandler<F>> = Box::new(handler);
        all.push(entry);
        proof {
            vstd::seq::axiom_seq_push_len(Seq::<Box<dyn EventHandler<F>>>::empty(), entry);
        }
        all
    }

    fn add_handler<H: EventHandler<F> + 'static>(self, handler: H) -> (r: Self) {
        let mut all = self;
        let entry: Box<dyn EventHandler<F>> = Box::new(handler);
        all.push(entry);
        proof {
            vstd::seq::axiom_seq_push_len(self@, entry);
            assert forall|i: int| 0 <= i < self@.len() implies all@[i] == self@[i] by {
                vstd::seq::axiom_seq_push_index_different(self@, entry, i);
            }
        }
        all
    }

    fn on_finish(&self, file: &F) {
        let mut i: usize = 0;
        while i < self.len()
            invariant
                i <= self.len(),
            decreases self.len() - i,
        {
            self[i].on_finish(file);
            i += 1;
        }
    }

    fn on_write(&self, bytes: &[u8]) {
        let mut i: usize = 0;
        while i < self.len()
            invariant
                i <= self.len(),
            decreases self.len() - i,
        {
            self[i].on_write(bytes);
            i += 1;
        }
    }

    fn on_content_length(&self, length: &u64) {
        let mut i: usize = 0;
        while i < self.len()
            invariant
                i <= self.len(),
            decreases self.len() - i,
        {
            self[i].on_content_length(length);
            i += 1;
        }
    }
}

} // verus!
