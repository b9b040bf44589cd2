//! The states of a segmented transfer, the steps between them, and what
//! holds of all of them.

use crate::assembly::{bodies_from, image_of, lemma_assembly_ignores_order};
use crate::downloader::fetch::{segment_of, Reply, Segment};
use crate::error::DownloadError;
use crate::file::{chunk_plan, lemma_chunk_plan_distinct, lemma_chunk_plan_empty, ByteRange};
use vstd::prelude::*;

verus! {

/// What the caller of a transfer is to do next.
#[derive(Clone, Copy, Debug, PartialEq, Eq, Structural)]
pub enum Step {
    /// Start the request for this range now.
    Fetch(ByteRange),
    /// Nothing can start: wait for a request in flight to be answered.
    Wait,
    /// Every range was fetched and handed to the writer.
    Finished,
    /// Ranges remain, none is in flight and none may start: the bound on
    /// concurrent requests is zero.
    Stalled,
    /// The transfer was aborted with this error.
    Failed(DownloadError),
}

/// The state of a segmented transfer.
pub struct TransferView {
    /// The chunk plan, first range first.
    pub plan: Seq<ByteRange>,
    /// How many ranges of the plan were handed out, from its start.
    pub issued: nat,
    /// The ranges that were handed out and not yet answered.
    pub in_flight: Seq<ByteRange>,
    /// The ranges whose bytes went to the writer, in the order of arrival.
    pub written: Seq<ByteRange>,
    /// The bytes that went to the writer: `bodies[i]` came for `written[i]`.
    pub bodies: Seq<Seq<u8>>,
    /// The bound on the number of requests in flight.
    pub limit: nat,
    /// The error that aborted the transfer, if one did.
    pub failure: Option<DownloadError>,
}

impl TransferView {
    /// The ranges that were handed out so far.
    pub open spec fn handed_out(self) -> Seq<ByteRange> {
        self.plan.take(self.issued as int)
    }

    /// What holds of every state of a transfer: ranges are handed out from
    /// the start of the plan; no more requests are in flight than the bound
    /// allows; only ranges that were handed out are in flight or written,
    /// none is both, and none is there twice; and unless the transfer was
    /// aborted, each range that was handed out is in flight or written.
    pub open spec fn wf(self) -> bool {
        &&& self.issued <= self.plan.len()
        &&& self.in_flight.len() <= self.limit
        &&& self.plan.no_duplicates()
        &&& self.in_flight.no_duplicates()
        &&& self.written.no_duplicates()
        &&& self.bodies.len() == self.written.len()
        &&& forall|i: int|
            0 <= i < self.in_flight.len() ==> self.handed_out().contains(
                #[trigger] self.in_flight[i],
            )
        &&& forall|i: int|
            0 <= i < self.written.len() ==> {
                &&& self.handed_out().contains(#[trigger] self.written[i])
                &&& !self.in_flight.contains(self.written[i])
            }
        &&& self.failure is None ==> forall|k: int|
            0 <= k < self.issued ==> {
                ||| self.in_flight.contains(#[trigger] self.plan[k])
                ||| self.written.contains(self.plan[k])
            }
    }

    /// The state in which a transfer over `plan` begins.
    pub open spec fn initial(plan: Seq<ByteRange>, limit: nat) -> TransferView {
        TransferView {
            plan,
            issued: 0,
            in_flight: Seq::empty(),
            written: Seq::empty(),
            bodies: Seq::empty(),
            limit,
            failure: None,
        }
    }

    /// Whether a new request may start: the transfer was not aborted, a slot
    /// is free and a range is left.
    pub open spec fn can_fetch(self) -> bool {
        &&& self.failure is None
        &&& self.in_flight.len() < self.limit
        &&& self.issued < self.plan.len()
    }

    /// What the caller is to do in this state.
    pub open spec fn action(self) -> Step {
        if let Some(error) = self.failure {
            Step::Failed(error)
        } else if self.can_fetch() {
            Step::Fetch(self.plan[self.issued as int])
        } else if self.in_flight.len() > 0 {
            Step::Wait
        } else if self.issued == self.plan.len() {
            Step::Finished
        } else {
            Step::Stalled
        }
    }

    /// The state after the caller was told what to do: a range that is
    /// handed out is in flight from then on; nothing else changes.
    pub open spec fn after_action(self) -> TransferView {
        if self.can_fetch() {
            TransferView {
                issued: self.issued + 1,
                in_flight: self.in_flight.push(self.plan[self.issued as int]),
                ..self
            }
        } else {
            self
        }
    }

    /// What the caller gets for a reply to the request for `range`: the
    /// error that aborted the transfer, if it was aborted before; nothing,
    /// if no request for `range` is in flight; else what the reply amounts
    /// to.
    pub open spec fn answer(self, range: ByteRange, reply: Reply) -> Result<
        Option<Segment>,
        DownloadError,
    > {
        match self.failure {
            Some(error) => Err(error),
            None => if self.in_flight.contains(range) {
                match segment_of(range, reply) {
                    Ok(segment) => Ok(Some(segment)),
                    Err(error) => Err(error),
                }
            } else {
                Ok(None)
            },
        }
    }

    /// The state after a reply to the request for `range`: the range is no
    /// longer in flight; if the transfer goes on, the range counts as
    /// written after a segment, and the transfer is aborted after an error.
    /// A reply to a request that is not in flight changes nothing.
    pub open spec fn after_reply(self, range: ByteRange, reply: Reply) -> TransferView {
        let in_flight = self.in_flight.remove_value(range);
        match self.answer(range, reply) {
            Ok(Some(segment)) => TransferView {
                in_flight,
                written: self.written.push(range),
                bodies: self.bodies.push(segment.bytes@),
                ..self
            },
            Ok(None) => self,
            Err(error) => TransferView { in_flight, failure: Some(error), ..self },
        }
    }

    /// What the output file holds if the caller wrote every segment that it
    /// got, in the order in which it got them, into a file that was empty.
    pub open spec fn image(self) -> Seq<u8> {
        image_of(self.written, self.bodies)
    }

    /// How far the transfer is from its end: two steps for each range that
    /// is still to be handed out, one for each request in flight.
    pub open spec fn work_left(self) -> nat {
        (2 * (self.plan.len() - self.issued) + self.in_flight.len()) as nat
    }

    /// The state after the caller reported a failure of its own, such as a
    /// write that failed: the first failure stays.
    pub open spec fn after_abort(self, error: DownloadError) -> TransferView {
        match self.failure {
            Some(_) => self,
            None => TransferView { failure: Some(error), ..self },
        }
    }
}

/// A transfer begins in a state of which the invariant holds.
pub proof fn lemma_initial_wf(total: u64, chunk: u32, limit: nat)
    ensures
        TransferView::initial(chunk_plan(total, chunk), limit).wf(),
{
    lemma_chunk_plan_distinct(total, chunk);
}

/// The transfer of an empty resource is finished as it begins: no range is
/// ever handed out.
pub proof fn lemma_empty_resource_is_finished(chunk: u32, limit: nat)
    ensures
        TransferView::initial(chunk_plan(0, chunk), limit).action() == Step::Finished,
{
    lemma_chunk_plan_empty(chunk);
}

/// Telling the caller what to do keeps the invariant.
pub proof fn lemma_action_keeps_wf(state: TransferView)
    requires
        state.wf(),
    ensures
        state.after_action().wf(),
{
    if state.can_fetch() {
        let next = state.plan[state.issued as int];
        let after = state.after_action();
        assert(after.handed_out() =~= state.handed_out().push(next));
        assert forall|r: ByteRange| state.handed_out().contains(r) implies r != next
            && after.handed_out().contains(r) by {
            let i: int = state.handed_out().index_of(r);
            assert(state.plan[i] == r);
            assert(after.handed_out()[i] == r);
        }
        assert(after.handed_out().contains(next)) by {
            assert(after.handed_out()[state.issued as int] == next);
        }
        assert(!state.in_flight.contains(next));
        assert(after.in_flight.no_duplicates());
        assert forall|i: int|
            0 <= i < after.in_flight.len() implies after.handed_out().contains(
            #[trigger] after.in_flight[i],
        ) by {
            if i < state.in_flight.len() {
                assert(after.in_flight[i] == state.in_flight[i]);
            }
        }
        assert forall|i: int| 0 <= i < after.written.len() implies {
            &&& after.handed_out().contains(#[trigger] after.written[i])
            &&& !after.in_flight.contains(after.written[i])
        } by {
            assert(state.handed_out().contains(state.written[i]));
            if after.in_flight.contains(after.written[i]) {
                let j: int = after.in_flight.index_of(after.written[i]);
                if j < state.in_flight.len() {
                    assert(state.in_flight[j] == state.written[i]);
                }
            }
        }
        assert forall|k: int| 0 <= k < after.issued implies {
            ||| after.in_flight.contains(#[trigger] after.plan[k])
            ||| after.written.contains(after.plan[k])
        } by {
            if k < state.issued {
                if state.in_flight.contains(state.plan[k]) {
                    let j: int = state.in_flight.index_of(state.plan[k]);
                    assert(after.in_flight[j] == state.plan[k]);
                }
            } else {
                assert(after.in_flight[state.in_flight.len() as int] == next);
            }
        }
    }
}

/// Taking a reply keeps the invariant, and the reply to a request that is
/// in flight frees the slot that the request held.
pub proof fn lemma_reply_keeps_wf(state: TransferView, range: ByteRange, reply: Reply)
    requires
        state.wf(),
    ensures
        state.after_reply(range, reply).wf(),
        state.in_flight.contains(range) ==> {
            &&& state.after_reply(range, reply).in_flight.len() == state.in_flight.len() - 1
            &&& !state.after_reply(range, reply).in_flight.contains(range)
        },
        !state.in_flight.contains(range) ==> state.after_reply(range, reply) == state,
{
    if state.in_flight.contains(range) {
        lemma_reply_in_flight_keeps_wf(state, range, reply);
    } else {
        state.in_flight.index_of_first_ensures(range);
        assert(state.in_flight.remove_value(range) == state.in_flight);
    }
}

/// The reply to a request that is in flight keeps the invariant.
proof fn lemma_reply_in_flight_keeps_wf(state: TransferView, range: ByteRange, reply: Reply)
    requires
        state.wf(),
        state.in_flight.contains(range),
    ensures
        state.after_reply(range, reply).wf(),
        state.after_reply(range, reply).in_flight.len() == state.in_flight.len() - 1,
        !state.after_reply(range, reply).in_flight.contains(range),
{
    let after = state.after_reply(range, reply);
    state.in_flight.index_of_first_ensures(range);
    let at: int = state.in_flight.index_of_first(range).unwrap();
    assert(after.in_flight == state.in_flight.remove(at));
    state.in_flight.remove_ensures(at);
    assert forall|i: int| 0 <= i < after.in_flight.len() implies {
        &&& #[trigger] after.in_flight[i] != range
        &&& state.in_flight.contains(after.in_flight[i])
    } by {
        if i < at {
            assert(after.in_flight[i] == state.in_flight[i]);
        } else {
            assert(after.in_flight[i] == state.in_flight[i + 1]);
        }
    }
    assert forall|r: ByteRange|
        state.in_flight.contains(r) && r != range implies after.in_flight.contains(r) by {
        let j: int = state.in_flight.index_of(r);
        if j < at {
            assert(after.in_flight[j] == r);
        } else {
            assert(after.in_flight[j - 1] == r);
        }
    }
    assert(after.in_flight.no_duplicates()) by {
        assert forall|i: int, j: int|
            0 <= i < after.in_flight.len() && 0 <= j < after.in_flight.len() && i
                != j implies after.in_flight[i] != after.in_flight[j] by {
            let si: int = if i < at { i } else { i + 1 };
            let sj: int = if j < at { j } else { j + 1 };
            assert(after.in_flight[i] == state.in_flight[si]);
            assert(after.in_flight[j] == state.in_flight[sj]);
        }
    }
    assert(state.handed_out().contains(range)) by {
        assert(state.in_flight[at] == range);
    }
    assert forall|i: int| 0 <= i < after.written.len() implies {
        &&& after.handed_out().contains(#[trigger] after.written[i])
        &&& !after.in_flight.contains(after.written[i])
    } by {
        if i < state.written.len() {
            assert(after.written[i] == state.written[i]);
        }
    }
    assert(after.written.no_duplicates()) by {
        if after.written.len() > state.written.len() {
            assert forall|i: int| 0 <= i < state.written.len() implies state.written[i]
                != range by {
                assert(!state.in_flight.contains(state.written[i]));
            }
        }
    }
    if after.failure is None {
        assert forall|k: int| 0 <= k < after.issued implies {
            ||| after.in_flight.contains(#[trigger] after.plan[k])
            ||| after.written.contains(after.plan[k])
        } by {
            if state.plan[k] == range {
                assert(after.written[state.written.len() as int] == range);
            } else if state.written.contains(state.plan[k]) {
                let j: int = state.written.index_of(state.plan[k]);
                assert(after.written[j] == state.plan[k]);
            }
        }
    }
}

/// Every step brings the end nearer: handing out a range takes one step
/// off the way, and so does every reply to a request in flight. A transfer
/// over a plan of `n` ranges so ends after at most `2 * n` steps.
pub proof fn lemma_steps_use_up_work(state: TransferView, range: ByteRange, reply: Reply)
    requires
        state.wf(),
    ensures
        state.action() is Fetch ==> state.after_action().work_left() == state.work_left() - 1,
        !(state.action() is Fetch) ==> state.after_action() == state,
        state.in_flight.contains(range) ==> state.after_reply(range, reply).work_left()
            == state.work_left() - 1,
{
    lemma_reply_keeps_wf(state, range, reply);
}

/// What the caller is told fits the state: a range is handed out only while
/// a slot is free and nothing has failed; waiting is asked for only while a
/// request is in flight; a transfer stalls only if the bound is zero; and it
/// is finished exactly if nothing has failed and no work is left.
pub proof fn lemma_action_fits_state(state: TransferView)
    requires
        state.wf(),
    ensures
        state.action() is Fetch ==> state.failure is None && state.in_flight.len() < state.limit,
        state.action() is Wait ==> state.in_flight.len() > 0,
        state.action() is Stalled ==> state.limit == 0,
        state.action() is Finished <==> state.failure is None && state.work_left() == 0,
        state.action() is Failed <==> state.failure is Some,
{
}

/// A slot that a segment frees is filled at once: while ranges remain, the
/// next thing that the caller is told after a segment is to fetch the next
/// range of the plan.
pub proof fn lemma_freed_slot_is_refilled(state: TransferView, range: ByteRange, reply: Reply)
    requires
        state.wf(),
        state.answer(range, reply) matches Ok(Some(_)),
        state.issued < state.plan.len(),
    ensures
        state.after_reply(range, reply).action() == Step::Fetch(state.plan[state.issued as int]),
{
    lemma_reply_keeps_wf(state, range, reply);
}

/// The first failure ends the transfer: from then on no range is handed
/// out, nothing more counts as written, and the failure stays what it was.
pub proof fn lemma_failure_is_final(state: TransferView, range: ByteRange, reply: Reply)
    requires
        state.failure is Some,
    ensures
        state.action() == Step::Failed(state.failure->0),
        state.after_action() == state,
        state.after_reply(range, reply).failure == state.failure,
        state.after_reply(range, reply).written == state.written,
        state.after_reply(range, reply).bodies == state.bodies,
        state.after_reply(range, reply).issued == state.issued,
        state.answer(range, reply) == Err::<Option<Segment>, DownloadError>(state.failure->0),
{
}

/// What a finished transfer wrote: every range of the plan, none of them
/// twice, and nothing else.
pub proof fn lemma_finished_wrote_plan(state: TransferView)
    requires
        state.wf(),
        state.action() == Step::Finished,
    ensures
        state.written.no_duplicates(),
        forall|k: int|
            0 <= k < state.plan.len() ==> state.written.contains(#[trigger] state.plan[k]),
        forall|i: int|
            0 <= i < state.written.len() ==> state.plan.contains(#[trigger] state.written[i]),
{
    assert(state.handed_out() =~= state.plan);
}

/// A finished transfer leaves the source in the output file: if each
/// segment carried the bytes of the source that its range selects, the
/// positioned writes give a file that equals the source, in whatever order
/// the segments arrived.
pub proof fn lemma_finished_file_is_source(state: TransferView, source: Seq<u8>, chunk: u32)
    requires
        state.wf(),
        state.action() == Step::Finished,
        chunk > 0,
        source.len() <= u64::MAX,
        state.plan == chunk_plan(source.len() as u64, chunk),
        bodies_from(source, state.written, state.bodies),
    ensures
        state.image() == source,
{
    lemma_finished_wrote_plan(state);
    lemma_assembly_ignores_order(source, chunk, state.written, state.bodies);
}

} // verus!
