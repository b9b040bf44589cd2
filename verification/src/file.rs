//! Requests, byte ranges, and the plan that cuts a resource into chunks.

use crate::error::DownloadError;
use crate::header::{
    header_value_bytes, header_value_from_str, lemma_range_header_bytes, push_decimal,
    range_header_text, text_bytes,
};
use reqwest::header::HeaderValue;
use std::path::PathBuf;
use vstd::prelude::*;
use vstd::string::*;

verus! {

/// `std::path::PathBuf`: a request carries the path of its output file, and
/// nothing here looks into it.
#[verifier::external_type_specification]
#[verifier::external_body]
pub struct ExPathBuf(PathBuf);

/// One file to download: where it goes, where it comes from, and how large
/// it is, if the caller knows.
pub struct FileRequest {
    pub path: PathBuf,
    pub url: String,
    pub size: Option<u64>,
}

/// An inclusive interval of byte offsets, `start ..= end`.
#[derive(Clone, Copy, Debug, PartialEq, Eq, Structural)]
pub struct ByteRange {
    pub start: u64,
    pub end: u64,
}

impl ByteRange {
    /// A range denotes at least one byte: its bounds are in order.
    pub open spec fn wf(&self) -> bool {
        self.start <= self.end
    }

    /// Number of bytes in the range.
    pub open spec fn len(&self) -> nat
        recommends
            self.wf(),
    {
        (self.end - self.start + 1) as nat
    }

    /// Whether the byte at `offset` lies in the range.
    pub open spec fn contains(&self, offset: int) -> bool {
        self.start <= offset <= self.end
    }

    pub fn new(start: u64, end: u64) -> (r: Self)
        requires
            start <= end,
        ensures
            r.start == start,
            r.end == end,
            r.wf(),
    {
        ByteRange { start, end }
    }

    /// The range as the text of a range header: `bytes=`, the first offset,
    /// `-`, the last offset.
    pub fn header_text(&self) -> (r: String)
        ensures
            r@ == range_header_text(self.start, self.end),
    {
        proof {
            reveal_strlit("bytes=");
            reveal_strlit("-");
        }
        let mut text = String::from_str("bytes=");
        push_decimal(&mut text, self.start);
        text.append("-");
        push_decimal(&mut text, self.end);
        assert(text@ =~= range_header_text(self.start, self.end));
        text
    }

    /// The range as the value of a range header.
    pub fn to_header(&self) -> (r: HeaderValue)
        ensures
            header_value_bytes(r) == text_bytes(range_header_text(self.start, self.end)),
    {
        let text = self.header_text();
        proof {
            lemma_range_header_bytes(self.start, self.end);
        }
        match header_value_from_str(text.as_str()) {
            Ok(value) => value,
            Err(_) => {
                proof {
                    assert(false);
                }
                vstd::pervasive::unreached()
            },
        }
    }
}

/// Number of chunks of at most `chunk` bytes needed for `total` bytes.
pub open spec fn chunk_count(total: nat, chunk: nat) -> nat {
    if chunk == 0 {
        0
    } else {
        ((total + chunk - 1) / chunk as int) as nat
    }
}

/// The `k`-th chunk of the bytes `from .. total`, cut every `chunk` bytes.
pub open spec fn chunk_at(from: nat, total: nat, chunk: nat, k: int) -> ByteRange {
    let start = from + k * chunk;
    let stop = if start + chunk <= total {
        start + chunk
    } else {
        total as int
    };
    ByteRange { start: start as u64, end: (stop - 1) as u64 }
}

/// The chunks that cover the bytes `from .. total`, in ascending order.
pub open spec fn chunks_from(from: nat, total: nat, chunk: nat) -> Seq<ByteRange> {
    Seq::new(
        chunk_count((total - from) as nat, chunk),
        |k: int| chunk_at(from, total, chunk, k),
    )
}

/// The chunk plan of a resource of `total` bytes: every chunk holds `chunk`
/// bytes, except that the last one holds what is left.
pub open spec fn chunk_plan(total: u64, chunk: u32) -> Seq<ByteRange> {
    chunks_from(0, total as nat, chunk as nat)
}

/// Walks the chunk plan of one resource, one range per call of `next`.
pub struct ChunkRange {
    cursor: u64,
    total: u64,
    chunk_size: u32,
}

impl View for ChunkRange {
    type V = Seq<ByteRange>;

    /// The ranges that are still to come, in the order in which they come.
    closed spec fn view(&self) -> Seq<ByteRange> {
        chunks_from(self.cursor as nat, self.total as nat, self.chunk_size as nat)
    }
}

impl ChunkRange {
    #[verifier::type_invariant]
    spec fn inv(self) -> bool {
        self.cursor <= self.total && self.chunk_size > 0
    }

    /// Plans a resource of `file_size` bytes in chunks of `chunk_size` bytes.
    /// A chunk size of zero is refused; a size of zero gives a plan without
    /// ranges.
    pub fn new(file_size: u64, chunk_size: u32) -> (r: Result<Self, DownloadError>)
        ensures
            chunk_size == 0 <==> r is Err,
            r matches Err(e) ==> e == DownloadError::InvalidConfiguration,
            r matches Ok(plan) ==> plan@ == chunk_plan(file_size, chunk_size),
    {
        if chunk_size == 0 {
            return Err(DownloadError::InvalidConfiguration);
        }
        Ok(ChunkRange { cursor: 0, total: file_size, chunk_size })
    }

    /// Whether every range of the plan has been handed out.
    pub fn is_empty(&self) -> (r: bool)
        ensures
            r == (self@.len() == 0),
    {
        proof {
            use_type_invariant(self);
            if self.cursor >= self.total {
                lemma_chunk_count_zero(self.chunk_size as nat);
            } else {
                lemma_chunks_from_step(
                    self.cursor as nat,
                    self.total as nat,
                    self.chunk_size as nat,
                );
            }
        }
        self.cursor >= self.total
    }

    /// Hands out the next range of the plan, if one is left.
    pub fn next(&mut self) -> (r: Option<ByteRange>)
        ensures
            old(self)@.len() == 0 ==> r is None && final(self)@ == old(self)@,
            old(self)@.len() > 0 ==> r == Some(old(self)@[0]) && final(self)@ == old(self)@.skip(1),
    {
        proof {
            use_type_invariant(&*self);
        }
        if self.cursor >= self.total {
            proof {
                lemma_chunk_count_zero(self.chunk_size as nat);
            }
            None
        } else {
            let first: u64 = self.cursor;
            let left: u64 = self.total - self.cursor;
            let step: u64 = if left < self.chunk_size as u64 {
                left
            } else {
                self.chunk_size as u64
            };
            proof {
                lemma_chunks_from_step(first as nat, self.total as nat, self.chunk_size as nat);
            }
            self.cursor = first + step;
            Some(ByteRange { start: first, end: first + step - 1 })
        }
    }
}

/// Nothing is left to cut once the bytes are used up.
proof fn lemma_chunk_count_zero(chunk: nat)
    requires
        chunk > 0,
    ensures
        chunk_count(0, chunk) == 0,
{
    vstd::arithmetic::div_mod::lemma_small_div_converse((chunk - 1) as int, chunk as int);
    vstd::arithmetic::div_mod::lemma_basic_div((chunk - 1) as int, chunk as int);
}

/// Cutting the first chunk off leaves the chunks of the rest.
proof fn lemma_chunks_from_step(from: nat, total: nat, chunk: nat)
    requires
        from < total <= u64::MAX,
        chunk > 0,
    ensures
        chunks_from(from, total, chunk).len() > 0,
        chunks_from(from, total, chunk)[0] == chunk_at(from, total, chunk, 0),
        chunk_at(from, total, chunk, 0).start == from,
        from + chunk <= total ==> chunks_from(from, total, chunk).skip(1) == chunks_from(
            from + chunk,
            total,
            chunk,
        ),
        from + chunk > total ==> chunks_from(from, total, chunk).skip(1) == chunks_from(
            total,
            total,
            chunk,
        ),
{
    let left: nat = (total - from) as nat;
    lemma_chunk_count_step(left, chunk);
    lemma_chunk_count_zero(chunk);
    if from + chunk <= total {
        let rest = chunks_from(from + chunk, total, chunk);
        let tail = chunks_from(from, total, chunk).skip(1);
        assert(rest.len() == tail.len());
        assert forall|k: int| 0 <= k < rest.len() implies rest[k] == tail[k] by {
            assert(from + chunk + k * chunk == from + (k + 1) * chunk) by (nonlinear_arith);
        }
        assert(rest =~= tail);
    } else {
        assert(chunks_from(from, total, chunk).skip(1) =~= chunks_from(total, total, chunk));
    }
}

/// One chunk fewer is needed once a chunk's worth of bytes is gone.
proof fn lemma_chunk_count_step(left: nat, chunk: nat)
    requires
        left > 0,
        chunk > 0,
    ensures
        left <= chunk ==> chunk_count(left, chunk) == 1,
        left > chunk ==> chunk_count(left, chunk) == chunk_count((left - chunk) as nat, chunk) + 1,
{
    let c: int = chunk as int;
    if left <= chunk {
        vstd::arithmetic::div_mod::lemma_fundamental_div_mod_converse(left + c - 1, c, 1, left - 1);
    } else {
        vstd::arithmetic::div_mod::lemma_div_plus_one(left - c + c - 1, c);
    }
}

/// An empty resource has no chunks.
pub proof fn lemma_chunk_plan_empty(chunk: u32)
    ensures
        chunk_plan(0, chunk).len() == 0,
{
    if chunk > 0 {
        lemma_chunk_count_zero(chunk as nat);
    }
}

/// Position in the chunk plan of the chunk that holds the byte at `offset`.
pub open spec fn chunk_index(offset: int, chunk: u32) -> int {
    offset / (chunk as int)
}

/// Sum of the lengths of the ranges in `ranges`.
pub open spec fn total_len(ranges: Seq<ByteRange>) -> nat
    decreases ranges.len(),
{
    if ranges.len() == 0 {
        0
    } else {
        total_len(ranges.drop_last()) + ranges.last().len()
    }
}

/// Where the `k`-th of the chunks of `total` bytes begins and ends.
proof fn lemma_chunk_bounds(total: nat, chunk: nat, k: int)
    requires
        chunk > 0,
        0 <= k < chunk_count(total, chunk),
    ensures
        k * chunk < total,
        k + 1 < chunk_count(total, chunk) ==> (k + 1) * chunk < total,
        k + 1 == chunk_count(total, chunk) ==> (k + 1) * chunk >= total,
        (k + 1) * chunk == k * chunk + chunk,
{
    let c: int = chunk as int;
    let n: int = chunk_count(total, chunk) as int;
    vstd::arithmetic::div_mod::lemma_fundamental_div_mod(total + c - 1, c);
    vstd::arithmetic::div_mod::lemma_mod_bound(total + c - 1, c);
    assert(n * c == c * n) by (nonlinear_arith);
    assert(k * c <= (n - 1) * c) by (nonlinear_arith)
        requires
            k <= n - 1,
            c > 0,
    ;
    assert((n - 1) * c == n * c - c) by (nonlinear_arith);
    assert((k + 1) * c == k * c + c) by (nonlinear_arith);
    if k + 1 < n {
        assert((k + 1) * c <= (n - 1) * c) by (nonlinear_arith)
            requires
                k + 1 <= n - 1,
                c > 0,
        ;
    }
}

/// The lengths of the first `j` chunks add up to the bytes they cover.
proof fn lemma_prefix_len(total: u64, chunk: u32, j: int)
    requires
        chunk > 0,
        0 <= j <= chunk_plan(total, chunk).len(),
    ensures
        j < chunk_plan(total, chunk).len() ==> total_len(chunk_plan(total, chunk).take(j)) == j
            * chunk,
        j == chunk_plan(total, chunk).len() ==> total_len(chunk_plan(total, chunk).take(j))
            == total,
    decreases j,
{
    let plan = chunk_plan(total, chunk);
    if j == 0 {
        assert(plan.take(0).len() == 0);
        if plan.len() == 0 {
            if total > 0 {
                lemma_chunk_count_step(total as nat, chunk as nat);
            }
        }
    } else {
        lemma_prefix_len(total, chunk, j - 1);
        lemma_chunk_bounds(total as nat, chunk as nat, j - 1);
        assert(plan.take(j).drop_last() =~= plan.take(j - 1));
        assert(plan.take(j).last() == plan[j - 1]);
        assert(plan[j - 1] == chunk_at(0, total as nat, chunk as nat, j - 1));
    }
}

/// The chunk plan of a resource that is not empty cuts it into pieces: the
/// ranges are in order, each holds at least one byte and none more than the
/// chunk size, the first begins at offset zero, each next one begins right
/// after the one before it, the last ends at the last byte, every byte of
/// the resource lies in the range that its offset selects and in no other,
/// and the lengths add up to the size of the resource.
pub proof fn lemma_chunk_plan_partitions(total: u64, chunk: u32)
    requires
        total > 0,
        chunk > 0,
    ensures
        chunk_plan(total, chunk).len() >= 1,
        chunk_plan(total, chunk).first().start == 0,
        chunk_plan(total, chunk).last().end == total - 1,
        forall|k: int|
            0 <= k < chunk_plan(total, chunk).len() ==> {
                &&& (#[trigger] chunk_plan(total, chunk)[k]).wf()
                &&& chunk_plan(total, chunk)[k].len() <= chunk
            },
        forall|k: int|
            0 <= k < chunk_plan(total, chunk).len() - 1 ==> {
                &&& (#[trigger] chunk_plan(total, chunk)[k]).len() == chunk
                &&& chunk_plan(total, chunk)[k + 1].start == chunk_plan(total, chunk)[k].end + 1
            },
        forall|j: int, k: int|
            0 <= j < k < chunk_plan(total, chunk).len() ==> (#[trigger] chunk_plan(
                total,
                chunk,
            )[j]).end < (#[trigger] chunk_plan(total, chunk)[k]).start,
        forall|offset: int|
            0 <= offset < total ==> {
                &&& 0 <= #[trigger] chunk_index(offset, chunk) < chunk_plan(total, chunk).len()
                &&& chunk_plan(total, chunk)[chunk_index(offset, chunk)].contains(offset)
            },
        forall|offset: int, k: int|
            0 <= k < chunk_plan(total, chunk).len() && (#[trigger] chunk_plan(
                total,
                chunk,
            )[k]).contains(offset) ==> 0 <= offset < total && k == #[trigger] chunk_index(
                offset,
                chunk,
            ),
        total_len(chunk_plan(total, chunk)) == total,
{
    let plan = chunk_plan(total, chunk);
    let c: int = chunk as int;
    let n: int = plan.len() as int;
    lemma_chunk_count_step(total as nat, chunk as nat);
    lemma_chunk_bounds(total as nat, chunk as nat, 0);
    lemma_chunk_bounds(total as nat, chunk as nat, n - 1);
    assert forall|k: int| 0 <= k < n implies {
        &&& (#[trigger] plan[k]).wf()
        &&& plan[k].len() <= chunk
        &&& plan[k].start == k * c
        &&& k + 1 < n ==> plan[k].end == (k + 1) * c - 1
    } by {
        lemma_chunk_bounds(total as nat, chunk as nat, k);
    }
    assert forall|k: int| 0 <= k < n - 1 implies {
        &&& (#[trigger] plan[k]).len() == chunk
        &&& plan[k + 1].start == plan[k].end + 1
    } by {
        lemma_chunk_bounds(total as nat, chunk as nat, k);
        lemma_chunk_bounds(total as nat, chunk as nat, k + 1);
    }
    assert forall|j: int, k: int| 0 <= j < k < n implies (#[trigger] plan[j]).end < (
    #[trigger] plan[k]).start by {
        lemma_chunk_bounds(total as nat, chunk as nat, j);
        lemma_chunk_bounds(total as nat, chunk as nat, k);
        assert((j + 1) * c <= k * c) by (nonlinear_arith)
            requires
                j + 1 <= k,
                c > 0,
        ;
    }
    assert forall|offset: int| 0 <= offset < total implies {
        &&& 0 <= #[trigger] chunk_index(offset, chunk) < n
        &&& plan[chunk_index(offset, chunk)].contains(offset)
    } by {
        lemma_offset_chunk(total as nat, chunk as nat, offset);
        lemma_chunk_bounds(total as nat, chunk as nat, offset / c);
    }
    assert forall|offset: int, k: int|
        0 <= k < n && (#[trigger] plan[k]).contains(offset) implies 0 <= offset < total && k
        == #[trigger] chunk_index(offset, chunk) by {
        if k < n - 1 {
            assert(plan[k].end < plan[n - 1].start);
        }
        let at: int = chunk_index(offset, chunk);
        assert(plan[at].contains(offset));
        if k < at {
            assert(plan[k].end < plan[at].start);
        } else if at < k {
            assert(plan[at].end < plan[k].start);
        }
    }
    lemma_prefix_len(total, chunk, n);
    assert(plan.take(n) =~= plan);
}

/// A chunk size that is no smaller than the resource gives one chunk, which
/// is the whole resource.
pub proof fn lemma_single_chunk(total: u64, chunk: u32)
    requires
        0 < total <= chunk,
    ensures
        chunk_plan(total, chunk) == seq![ByteRange { start: 0, end: (total - 1) as u64 }],
{
    lemma_chunk_plan_partitions(total, chunk);
    let plan = chunk_plan(total, chunk);
    assert(plan.len() == 1) by {
        if plan.len() > 1 {
            assert(plan[0].len() == chunk);
            assert(plan[0].end < plan[1].start);
            assert(plan[1].wf());
            assert(plan[1].end < plan[plan.len() - 1].start || plan.len() == 2);
        }
    }
    assert(plan =~= seq![ByteRange { start: 0, end: (total - 1) as u64 }]);
}

/// The byte at `offset` falls into the chunk numbered `offset / chunk`.
proof fn lemma_offset_chunk(total: nat, chunk: nat, offset: int)
    requires
        chunk > 0,
        0 <= offset < total,
    ensures
        0 <= offset / (chunk as int) < chunk_count(total, chunk),
        (offset / (chunk as int)) * chunk <= offset < (offset / (chunk as int)) * chunk + chunk,
{
    let c: int = chunk as int;
    let q: int = offset / c;
    vstd::arithmetic::div_mod::lemma_fundamental_div_mod(offset, c);
    vstd::arithmetic::div_mod::lemma_mod_bound(offset, c);
    vstd::arithmetic::div_mod::lemma_div_pos_is_pos(offset, c);
    assert(q * c == c * q) by (nonlinear_arith);
    vstd::arithmetic::div_mod::lemma_div_is_ordered(offset, total - 1, c);
    vstd::arithmetic::div_mod::lemma_div_plus_one(total - 1, c);
}

/// No range occurs twice in a chunk plan.
pub proof fn lemma_chunk_plan_distinct(total: u64, chunk: u32)
    ensures
        chunk_plan(total, chunk).no_duplicates(),
{
    let plan = chunk_plan(total, chunk);
    if chunk == 0 {
    } else if total == 0 {
        lemma_chunk_plan_empty(chunk);
    } else {
        lemma_chunk_plan_partitions(total, chunk);
        assert forall|i: int, j: int|
            0 <= i < plan.len() && 0 <= j < plan.len() && i != j implies plan[i] != plan[j] by {
            if i < j {
                assert(plan[i].end < plan[j].start);
                assert(plan[j].wf());
            } else {
                assert(plan[j].end < plan[i].start);
                assert(plan[i].wf());
            }
        }
    }
}

} // verus!
