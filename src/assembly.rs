//! How the sink's content follows from the writes made into it.
use crate::range::{
    chunk_len, lemma_partition_covers, nth_range, range_count, spec_partition, ByteRange,
};
use vstd::prelude::*;

verus! {

/// The content of a sink after `bytes` are written at `offset`: the bytes
/// replace what stood there or extend the content, and a gap between the
/// old end and `offset` reads as zeros.
pub open spec fn write_at(sink: Seq<u8>, offset: int, bytes: Seq<u8>) -> Seq<u8> {
    let len = vstd::math::max(sink.len() as int, offset + bytes.len());
    Seq::new(
        len as nat,
        |p: int|
            if offset <= p < offset + bytes.len() {
                bytes[p - offset]
            } else if p < sink.len() {
                sink[p]
            } else {
                0u8
            },
    )
}

/// The bytes of `body` that range `r` stands for.
pub open spec fn chunk_of(body: Seq<u8>, r: ByteRange) -> Seq<u8> {
    body.subrange(r.start as int, r.end + 1)
}

/// The sink after the chunks arrive in `order` (indices into `ranges`),
/// each written at the start of its range.
pub open spec fn write_in_order(
    sink: Seq<u8>,
    ranges: Seq<ByteRange>,
    body: Seq<u8>,
    order: Seq<int>,
) -> Seq<u8>
    decreases order.len(),
{
    if order.len() == 0 {
        sink
    } else {
        let r = ranges[order.last()];
        write_at(
            write_in_order(sink, ranges, body, order.drop_last()),
            r.start as int,
            chunk_of(body, r),
        )
    }
}

/// Range `i` is among the arrivals of `order`.
pub open spec fn arrives(order: Seq<int>, i: int) -> bool {
    exists|k: int| 0 <= k < order.len() && #[trigger] order[k] == i
}

proof fn lemma_writes_place_body(
    sink: Seq<u8>,
    ranges: Seq<ByteRange>,
    body: Seq<u8>,
    order: Seq<int>,
)
    requires
        sink.len() <= body.len(),
        forall|k: int| 0 <= k < order.len() ==> 0 <= #[trigger] order[k] < ranges.len(),
        forall|i: int|
            0 <= i < ranges.len() ==> #[trigger] ranges[i].start <= ranges[i].end < body.len(),
    ensures
        write_in_order(sink, ranges, body, order).len() <= body.len(),
        forall|k: int|
            0 <= k < order.len() ==> ranges[#[trigger] order[k]].end < write_in_order(
                sink,
                ranges,
                body,
                order,
            ).len(),
        forall|k: int, p: int|
            0 <= k < order.len() && ranges[#[trigger] order[k]].start <= p <= ranges[order[k]].end
                ==> #[trigger] write_in_order(sink, ranges, body, order)[p] == body[p],
    decreases order.len(),
{
    if order.len() > 0 {
        let prev = order.drop_last();
        lemma_writes_place_body(sink, ranges, body, prev);
        let before = write_in_order(sink, ranges, body, prev);
        let r = ranges[order.last()];
        let after = write_in_order(sink, ranges, body, order);
        assert(after == write_at(before, r.start as int, chunk_of(body, r)));
        assert forall|k: int, p: int|
            0 <= k < order.len() && ranges[#[trigger] order[k]].start <= p <= ranges[order[k]].end
                implies #[trigger] after[p] == body[p] by {
            if k < order.len() - 1 {
                assert(prev[k] == order[k]);
            }
        }
        assert forall|k: int| 0 <= k < order.len() implies ranges[#[trigger] order[k]].end
            < after.len() by {
            if k < order.len() - 1 {
                assert(prev[k] == order[k]);
            }
        }
    }
}

/// The range of a partition that holds byte `p` of the body.
proof fn lemma_range_holding(size: nat, chunk: nat, p: int) -> (i: int)
    requires
        size > 0,
        size <= u64::MAX,
        0 <= p < size,
    ensures
        0 <= i < range_count(size, chunk),
        nth_range(size, chunk, i).start <= p <= nth_range(size, chunk, i).end,
{
    let c = chunk_len(size, chunk) as int;
    let i = p / c;
    let n = range_count(size, chunk) as int;
    assert(i * c <= p < i * c + c && i >= 0) by (nonlinear_arith)
        requires
            c > 0,
            p >= 0,
            i == p / c,
    ;
    assert(i < n) by (nonlinear_arith)
        requires
            c > 0,
            i * c <= p,
            p < size,
            n == (size + c - 1) / c,
    ;
    i
}

/// Chunks may arrive in any order: when each range of a body's partition
/// is written at its start, in an order that names every range, into a
/// sink holding at most `size` bytes, the sink ends up holding exactly the
/// body.
pub proof fn lemma_out_of_order_assembly(
    size: nat,
    chunk: nat,
    body: Seq<u8>,
    sink: Seq<u8>,
    order: Seq<int>,
)
    requires
        size > 0,
        size <= u64::MAX,
        body.len() == size,
        sink.len() <= size,
        forall|k: int| 0 <= k < order.len() ==> 0 <= #[trigger] order[k] < spec_partition(size, chunk).len(),
        forall|i: int| 0 <= i < spec_partition(size, chunk).len() ==> #[trigger] arrives(order, i),
    ensures
        write_in_order(sink, spec_partition(size, chunk), body, order) == body,
{
    let ranges = spec_partition(size, chunk);
    lemma_partition_covers(size, chunk);
    lemma_writes_place_body(sink, ranges, body, order);
    let out = write_in_order(sink, ranges, body, order);
    let last = ranges.len() - 1;
    assert(arrives(order, last));
    let kl = choose|k: int| 0 <= k < order.len() && #[trigger] order[k] == last;
    assert(ranges[order[kl]].end < out.len());
    assert forall|p: int| 0 <= p < size implies #[trigger] out[p] == body[p] by {
        let i = lemma_range_holding(size, chunk, p);
        assert(arrives(order, i));
        let k = choose|k: int| 0 <= k < order.len() && #[trigger] order[k] == i;
        assert(ranges[order[k]].start <= p <= ranges[order[k]].end);
    }
    assert(out =~= body);
}

} // verus!
