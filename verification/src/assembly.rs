//! The output file as a sequence of bytes, and why positioned writes put
//! a resource together whatever the order in which its chunks arrive.

use crate::file::{
    chunk_index, chunk_plan, lemma_chunk_plan_empty, lemma_chunk_plan_partitions, ByteRange,
};
use vstd::prelude::*;

verus! {

/// What a file holds after `bytes` were written at the absolute position
/// `offset`: the bytes written replace what was there, the rest stays, and a
/// gap between the old end and `offset` reads as zeros. Writing nothing
/// changes nothing.
pub open spec fn write_at(image: Seq<u8>, offset: int, bytes: Seq<u8>) -> Seq<u8> {
    if bytes.len() == 0 {
        image
    } else {
        Seq::new(
            if image.len() >= offset + bytes.len() {
                image.len()
            } else {
                (offset + bytes.len()) as nat
            },
            |i: int|
                if offset <= i < offset + bytes.len() {
                    bytes[i - offset]
                } else if i < image.len() {
                    image[i]
                } else {
                    0u8
                },
        )
    }
}

/// The bytes of `source` that `range` selects.
pub open spec fn slice_of(source: Seq<u8>, range: ByteRange) -> Seq<u8> {
    source.subrange(range.start as int, range.end + 1)
}

/// What an empty file holds after, for each `i` in turn, `bodies[i]` was
/// written at the offset at which `ranges[i]` starts.
pub open spec fn image_of(ranges: Seq<ByteRange>, bodies: Seq<Seq<u8>>) -> Seq<u8>
    recommends
        ranges.len() == bodies.len(),
    decreases ranges.len(),
{
    if ranges.len() == 0 {
        Seq::empty()
    } else {
        write_at(
            image_of(ranges.drop_last(), bodies.drop_last()),
            ranges.last().start as int,
            bodies.last(),
        )
    }
}

/// Whether each body is what `source` holds in the range that it came for.
pub open spec fn bodies_from(
    source: Seq<u8>,
    ranges: Seq<ByteRange>,
    bodies: Seq<Seq<u8>>,
) -> bool {
    &&& bodies.len() == ranges.len()
    &&& forall|i: int|
        0 <= i < ranges.len() ==> #[trigger] bodies[i] == slice_of(source, ranges[i])
}

/// Whether the file `image` holds at `at` the byte that `source` has there.
spec fn agrees_at(image: Seq<u8>, source: Seq<u8>, at: int) -> bool {
    0 <= at < image.len() && at < source.len() && image[at] == source[at]
}

/// Writing a range's bytes of `source` at the range's start puts them where
/// `source` has them, and disturbs no byte that was already in place.
proof fn lemma_write_keeps(image: Seq<u8>, source: Seq<u8>, range: ByteRange)
    requires
        range.wf(),
        range.end < source.len(),
        image.len() <= source.len(),
    ensures
        write_at(image, range.start as int, slice_of(source, range)).len() <= source.len(),
        forall|at: int|
            range.contains(at) ==> #[trigger] agrees_at(
                write_at(image, range.start as int, slice_of(source, range)),
                source,
                at,
            ),
        forall|at: int|
            agrees_at(image, source, at) ==> #[trigger] agrees_at(
                write_at(image, range.start as int, slice_of(source, range)),
                source,
                at,
            ),
{
}

/// Every chunk that arrived so far is in the file, as `source` has it, and
/// the file is no longer than `source`.
proof fn lemma_image_holds_arrived(
    source: Seq<u8>,
    chunk: u32,
    ranges: Seq<ByteRange>,
    bodies: Seq<Seq<u8>>,
)
    requires
        chunk > 0,
        0 < source.len() <= u64::MAX,
        bodies_from(source, ranges, bodies),
        forall|i: int|
            0 <= i < ranges.len() ==> chunk_plan(source.len() as u64, chunk).contains(
                #[trigger] ranges[i],
            ),
    ensures
        image_of(ranges, bodies).len() <= source.len(),
        forall|i: int, at: int|
            0 <= i < ranges.len() && (#[trigger] ranges[i]).contains(at) ==> #[trigger] agrees_at(
                image_of(ranges, bodies),
                source,
                at,
            ),
    decreases ranges.len(),
{
    let total: u64 = source.len() as u64;
    let plan = chunk_plan(total, chunk);
    if ranges.len() > 0 {
        let earlier = ranges.drop_last();
        let range = ranges.last();
        let before = image_of(earlier, bodies.drop_last());
        let after = image_of(ranges, bodies);
        assert forall|i: int| 0 <= i < earlier.len() implies plan.contains(
            #[trigger] earlier[i],
        ) by {
            assert(earlier[i] == ranges[i]);
        }
        assert(bodies_from(source, earlier, bodies.drop_last())) by {
            assert forall|i: int| 0 <= i < earlier.len() implies #[trigger] bodies.drop_last()[i]
                == slice_of(source, earlier[i]) by {
                assert(bodies[i] == slice_of(source, ranges[i]));
            }
        }
        lemma_image_holds_arrived(source, chunk, earlier, bodies.drop_last());
        assert(plan.contains(ranges[ranges.len() - 1]));
        let k: int = plan.index_of(range);
        lemma_chunk_in_bounds(total, chunk, k);
        lemma_write_keeps(before, source, range);
        assert(bodies.last() == bodies[ranges.len() - 1]);
        assert(after == write_at(before, range.start as int, slice_of(source, range)));
        assert forall|i: int, at: int|
            0 <= i < ranges.len() && (#[trigger] ranges[i]).contains(at)
            implies #[trigger] agrees_at(after, source, at) by {
            if i < ranges.len() - 1 {
                assert(earlier[i] == ranges[i]);
                assert(earlier[i].contains(at));
                assert(agrees_at(before, source, at));
            }
        }
    }
}

/// Arrival order does not matter: once every chunk of the plan has arrived,
/// in whatever order and however often, each with the bytes that `source`
/// holds in its range, and nothing but chunks of the plan was written, the
/// file that the positioned writes leave is `source`, byte for byte.
pub proof fn lemma_assembly_ignores_order(
    source: Seq<u8>,
    chunk: u32,
    ranges: Seq<ByteRange>,
    bodies: Seq<Seq<u8>>,
)
    requires
        chunk > 0,
        source.len() <= u64::MAX,
        bodies_from(source, ranges, bodies),
        forall|i: int|
            0 <= i < ranges.len() ==> chunk_plan(source.len() as u64, chunk).contains(
                #[trigger] ranges[i],
            ),
        forall|k: int|
            0 <= k < chunk_plan(source.len() as u64, chunk).len() ==> ranges.contains(
                #[trigger] chunk_plan(source.len() as u64, chunk)[k],
            ),
    ensures
        image_of(ranges, bodies) == source,
{
    let total: u64 = source.len() as u64;
    let plan = chunk_plan(total, chunk);
    let image = image_of(ranges, bodies);
    if total == 0 {
        lemma_chunk_plan_empty(chunk);
        assert(ranges.len() == 0) by {
            if ranges.len() > 0 {
                assert(plan.contains(ranges[0]));
            }
        }
        assert(image =~= source);
    } else {
        lemma_image_holds_arrived(source, chunk, ranges, bodies);
        assert forall|at: int| 0 <= at < source.len() implies agrees_at(image, source, at) by {
            lemma_byte_covered(total, chunk, at);
            let k: int = chunk_index(at, chunk);
            assert(ranges.contains(plan[k]));
            let i: int = ranges.index_of(plan[k]);
            assert(ranges[i].contains(at));
        }
        assert(agrees_at(image, source, source.len() - 1));
        assert forall|at: int| 0 <= at < image.len() implies image[at] == source[at] by {
            assert(agrees_at(image, source, at));
        }
        assert(image =~= source);
    }
}

/// A chunk of the plan is a range in order, inside the resource.
proof fn lemma_chunk_in_bounds(total: u64, chunk: u32, k: int)
    requires
        chunk > 0,
        0 <= k < chunk_plan(total, chunk).len(),
    ensures
        chunk_plan(total, chunk)[k].wf(),
        chunk_plan(total, chunk)[k].end < total,
{
    if total == 0 {
        lemma_chunk_plan_empty(chunk);
    } else {
        lemma_chunk_plan_partitions(total, chunk);
        let plan = chunk_plan(total, chunk);
        assert(plan[k].wf());
        if k < plan.len() - 1 {
            assert(plan[k].end < plan[plan.len() - 1].start);
            assert(plan[plan.len() - 1].wf());
        }
    }
}

/// Each byte of the resource lies in one chunk of the plan.
proof fn lemma_byte_covered(total: u64, chunk: u32, at: int)
    requires
        chunk > 0,
        0 <= at < total,
    ensures
        0 <= chunk_index(at, chunk) < chunk_plan(total, chunk).len(),
        chunk_plan(total, chunk)[chunk_index(at, chunk)].contains(at),
{
    lemma_chunk_plan_partitions(total, chunk);
}

} // verus!
