//! Cutting a media body into inclusive byte ranges.
use crate::text::{decimal, push_decimal};
use vstd::prelude::*;
use vstd::string::StringExecFns;

verus! {

/// An inclusive byte range `[start, end]` of a media body.
#[derive(Debug, Clone, Copy, PartialEq, Eq, Structural)]
pub struct ByteRange {
    pub start: u64,
    pub end: u64,
}

impl ByteRange {
    /// Number of bytes the range covers.
    pub open spec fn len(self) -> int {
        self.end - self.start + 1
    }
}

/// The chunk length actually used: zero, or anything at least `size`,
/// means one range for the whole body.
pub open spec fn chunk_len(size: nat, chunk: nat) -> nat {
    if chunk == 0 || chunk >= size {
        size
    } else {
        chunk
    }
}

/// How many ranges a body of `size` bytes is cut into.
pub open spec fn range_count(size: nat, chunk: nat) -> nat {
    if size == 0 {
        0
    } else {
        let c = chunk_len(size, chunk);
        ((size + c - 1) / c as int) as nat
    }
}

/// The `i`-th range: it starts at `i * c` and ends one byte before the
/// next multiple of `c`, clamped to the last byte of the body.
pub open spec fn nth_range(size: nat, chunk: nat, i: int) -> ByteRange {
    let c = chunk_len(size, chunk);
    ByteRange { start: (i * c) as u64, end: (vstd::math::min(i * c + c, size as int) - 1) as u64 }
}

/// The ranges of a body of `size` bytes, in ascending order of start.
pub open spec fn spec_partition(size: nat, chunk: nat) -> Seq<ByteRange> {
    Seq::new(range_count(size, chunk), |i: int| nth_range(size, chunk, i))
}

proof fn lemma_count_exact(size: int, c: int, n: int)
    requires
        c > 0,
        n >= 1,
        (n - 1) * c < size <= n * c,
    ensures
        (size + c - 1) / c == n,
{
    let q = (size + c - 1) / c;
    let r = (size + c - 1) % c;
    assert(size + c - 1 == q * c + r && 0 <= r < c) by (nonlinear_arith)
        requires
            c > 0,
            q == (size + c - 1) / c,
            r == (size + c - 1) % c,
    ;
    assert(q == n) by (nonlinear_arith)
        requires
            c > 0,
            size + c - 1 == q * c + r,
            0 <= r < c,
            (n - 1) * c < size <= n * c,
    ;
}

/// Total number of bytes covered by a sequence of ranges.
pub open spec fn covered(rs: Seq<ByteRange>) -> int
    decreases rs.len(),
{
    if rs.len() == 0 {
        0
    } else {
        covered(rs.drop_last()) + rs.last().len()
    }
}

proof fn lemma_index_in_body(size: int, c: int, i: int)
    requires
        c > 0,
        size > 0,
        0 <= i < (size + c - 1) / c,
    ensures
        i * c < size,
        i * c + c <= size + c - 1,
{
    let q = (size + c - 1) / c;
    assert(q * c <= size + c - 1) by (nonlinear_arith)
        requires
            c > 0,
            q == (size + c - 1) / c,
    ;
    assert(i * c + c <= q * c) by (nonlinear_arith)
        requires
            c > 0,
            i + 1 <= q,
    ;
}

proof fn lemma_nth_shape(size: nat, chunk: nat, i: int)
    requires
        size > 0,
        size <= u64::MAX,
        0 <= i < range_count(size, chunk),
    ensures
        nth_range(size, chunk, i).start as int == i * chunk_len(size, chunk),
        nth_range(size, chunk, i).end as int == vstd::math::min(
            i * chunk_len(size, chunk) + chunk_len(size, chunk),
            size as int,
        ) - 1,
        nth_range(size, chunk, i).start <= nth_range(size, chunk, i).end,
{
    let c = chunk_len(size, chunk) as int;
    lemma_index_in_body(size as int, c, i);
    assert(0 <= i * c) by (nonlinear_arith)
        requires
            c > 0,
            i >= 0,
    ;
}

/// A body of `size > 0` bytes is covered exactly by its ranges: the first
/// starts at 0, each next one starts right after the previous one ends, the
/// last ends at `size - 1`, and together they hold `size` bytes. A chunk of
/// at least `size` bytes gives a single range.
pub proof fn lemma_partition_covers(size: nat, chunk: nat)
    requires
        size > 0,
        size <= u64::MAX,
    ensures
        spec_partition(size, chunk).len() >= 1,
        spec_partition(size, chunk)[0].start == 0,
        spec_partition(size, chunk).last().end == size - 1,
        forall|i: int|
            0 <= i < spec_partition(size, chunk).len() ==> #[trigger] spec_partition(
                size,
                chunk,
            )[i].start <= spec_partition(size, chunk)[i].end,
        forall|i: int|
            0 <= i < spec_partition(size, chunk).len() - 1 ==> #[trigger] spec_partition(
                size,
                chunk,
            )[i + 1].start == spec_partition(size, chunk)[i].end + 1,
        forall|i: int, j: int|
            0 <= i < j < spec_partition(size, chunk).len() ==> #[trigger] spec_partition(
                size,
                chunk,
            )[i].end < #[trigger] spec_partition(size, chunk)[j].start,
        covered(spec_partition(size, chunk)) == size,
        chunk >= size ==> spec_partition(size, chunk).len() == 1,
{
    let p = spec_partition(size, chunk);
    let c = chunk_len(size, chunk) as int;
    let n = p.len() as int;
    assert((size + c - 1) / c >= 1) by (nonlinear_arith)
        requires
            c > 0,
            size >= 1,
    ;
    assert forall|i: int| 0 <= i < n implies p[i].start <= p[i].end by {
        lemma_nth_shape(size, chunk, i);
    }
    assert forall|i: int| 0 <= i < n - 1 implies #[trigger] p[i + 1].start == p[i].end + 1 by {
        lemma_nth_shape(size, chunk, i);
        lemma_nth_shape(size, chunk, i + 1);
        assert((i + 1) * c == i * c + c) by (nonlinear_arith);
    }
    assert forall|i: int, j: int| 0 <= i < j < n implies #[trigger] p[i].end < #[trigger] p[j].start by {
        lemma_nth_shape(size, chunk, i);
        lemma_nth_shape(size, chunk, j);
        assert(i * c + c <= j * c) by (nonlinear_arith)
            requires
                c > 0,
                i < j,
        ;
    }
    lemma_nth_shape(size, chunk, 0);
    assert(0 * c == 0) by (nonlinear_arith);
    lemma_nth_shape(size, chunk, n - 1);
    assert(size <= (n - 1) * c + c) by (nonlinear_arith)
        requires
            c > 0,
            n == (size + c - 1) / c,
    ;
    lemma_covered_prefix(size, chunk, n);
    assert(p.take(n) == p);
    if chunk >= size {
        assert(c == size);
        assert((size + size - 1) / (size as int) == 1) by (nonlinear_arith)
            requires
                size >= 1,
        ;
    }
}

proof fn lemma_covered_prefix(size: nat, chunk: nat, k: int)
    requires
        size > 0,
        size <= u64::MAX,
        1 <= k <= range_count(size, chunk),
    ensures
        covered(spec_partition(size, chunk).take(k)) == spec_partition(size, chunk)[k - 1].end + 1,
    decreases k,
{
    let p = spec_partition(size, chunk);
    let c = chunk_len(size, chunk) as int;
    lemma_nth_shape(size, chunk, k - 1);
    assert(p.take(k).drop_last() == p.take(k - 1));
    assert(p.take(k).last() == p[k - 1]);
    assert(covered(p.take(k)) == covered(p.take(k - 1)) + p[k - 1].len());
    if k == 1 {
        assert(0 * c == 0) by (nonlinear_arith);
        assert(p.take(0) =~= Seq::<ByteRange>::empty());
    } else {
        lemma_covered_prefix(size, chunk, k - 1);
        lemma_nth_shape(size, chunk, k - 2);
        assert((k - 1) * c == (k - 2) * c + c) by (nonlinear_arith);
    }
}

/// The partition is a function of its inputs: two calls with the same
/// `size` and `chunk` give the same ranges.
pub proof fn lemma_partition_repeatable(size: nat, chunk: nat, first: Seq<ByteRange>, second: Seq<ByteRange>)
    requires
        first == spec_partition(size, chunk),
        second == spec_partition(size, chunk),
    ensures
        first == second,
{
}

/// Cuts `[0, size)` into consecutive inclusive ranges of `chunk_size` bytes,
/// the last one clamped to `size - 1`. A `chunk_size` of zero, or one of at
/// least `size`, gives the single range `[0, size - 1]`.
pub fn partition(size: u64, chunk_size: u64) -> (r: Vec<ByteRange>)
    ensures
        r@ == spec_partition(size as nat, chunk_size as nat),
{
    let chunk: u64 = if chunk_size == 0 || chunk_size >= size {
        size
    } else {
        chunk_size
    };
    let ghost c = chunk as int;
    let mut out: Vec<ByteRange> = Vec::new();
    let mut start: u64 = 0;
    assert(0 * c == 0) by (nonlinear_arith);
    while start < size
        invariant
            c == chunk as int,
            c == chunk_len(size as nat, chunk_size as nat),
            size > 0 ==> c > 0,
            start == vstd::math::min(out.len() * c, size as int),
            start <= size,
            out.len() > 0 ==> (out.len() - 1) * c < size,
            forall|k: int| 0 <= k < out.len() ==> out@[k] == nth_range(size as nat, chunk_size as nat, k),
        decreases size - start,
    {
        let ghost n = out.len() as int;
        let end: u64 = if size - start > chunk {
            start + chunk - 1
        } else {
            size - 1
        };
        proof {
            assert(n * c + c == (n + 1) * c) by (nonlinear_arith);
        }
        out.push(ByteRange { start, end });
        if size - start > chunk {
            start = start + chunk;
        } else {
            start = size;
            proof {
                assert(size <= (n + 1) * c);
            }
        }
    }
    proof {
        if size > 0 {
            let n = out.len() as int;
            assert(n >= 1);
            assert(size <= n * c);
            lemma_count_exact(size as int, c, n);
        }
        assert(out@ =~= spec_partition(size as nat, chunk_size as nat));
    }
    out
}

/// The value of the HTTP `Range` header that asks for `r`, both ends
/// inclusive: `bytes=<start>-<end>`.
pub open spec fn header_text(r: ByteRange) -> Seq<char> {
    "bytes="@ + decimal(r.start as nat) + "-"@ + decimal(r.end as nat)
}

/// The value of the HTTP `Range` header that asks for `r`.
pub fn range_header(r: &ByteRange) -> (h: String)
    ensures
        h@ == header_text(*r),
{
    let mut s = String::from_str("bytes=");
    push_decimal(&mut s, r.start);
    s.append("-");
    push_decimal(&mut s, r.end);
    s
}

} // verus!
