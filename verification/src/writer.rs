use vstd::prelude::*;
use vstd::slice::slice_subrange;
use crate::bulk::{copy_into, overwrite};

verus! {

// One operation produces a stream of bytes that lands across an ordered list
// of destination byte ranges: the stream fills each range in turn and rolls
// over to the next when one is full. `scatter` is that placement, stated
// mathematically; the writer below performs it.

/// A byte range of the output image: `len` bytes starting at `offset`.
#[derive(Clone, Copy, PartialEq, Eq, Structural, Debug)]
pub struct ByteRange {
    /// First byte of the range.
    pub offset: usize,
    /// Length of the range in bytes.
    pub len: usize,
}

/// The ranges as mathematical pairs of offset and length.
pub open spec fn rv(rs: Seq<ByteRange>) -> Seq<(int, int)> {
    rs.map_values(|r: ByteRange| (r.offset as int, r.len as int))
}

/// The smaller of two integers.
pub open spec fn imin(a: int, b: int) -> int {
    if a <= b {
        a
    } else {
        b
    }
}

/// Sum of the range lengths: the capacity the ranges offer.
pub open spec fn total_len(rs: Seq<(int, int)>) -> int
    decreases rs.len(),
{
    if rs.len() == 0 {
        0
    } else {
        rs[0].1 + total_len(rs.skip(1))
    }
}

pub proof fn lemma_total_len_snoc(rs: Seq<(int, int)>, x: (int, int))
    ensures
        total_len(rs.push(x)) == total_len(rs) + x.1,
    decreases rs.len(),
{
    if rs.len() == 0 {
        assert(rs.push(x).skip(1) =~= Seq::<(int, int)>::empty());
        assert(total_len(rs.push(x).skip(1)) == 0);
        assert(rs.push(x)[0] == x);
    } else {
        assert(rs.push(x).skip(1) =~= rs.skip(1).push(x));
        lemma_total_len_snoc(rs.skip(1), x);
        assert(rs.push(x)[0] == rs[0]);
    }
}

/// Every range lies within a sink of `n` bytes.
pub open spec fn ranges_in_bounds(rs: Seq<(int, int)>, n: int) -> bool {
    forall|k: int|
        0 <= k < rs.len() ==> (#[trigger] rs[k]).0 >= 0 && rs[k].1 >= 0 && rs[k].0 + rs[k].1 <= n
}

/// The sink after the stream `d` is spread across the ranges `rs` in order:
/// each range receives the next `len` bytes of the stream (or what is left
/// of it); bytes outside the ranges keep their value.
pub open spec fn scatter(s: Seq<u8>, rs: Seq<(int, int)>, d: Seq<u8>) -> Seq<u8>
    decreases rs.len(),
{
    if rs.len() == 0 {
        s
    } else {
        let take = imin(rs[0].1, d.len() as int);
        scatter(overwrite(s, rs[0].0, d.take(take)), rs.skip(1), d.skip(take))
    }
}

/// Scattering never changes the sink's length.
pub proof fn lemma_scatter_len(s: Seq<u8>, rs: Seq<(int, int)>, d: Seq<u8>)
    ensures
        scatter(s, rs, d).len() == s.len(),
    decreases rs.len(),
{
    if rs.len() > 0 {
        let take = imin(rs[0].1, d.len() as int);
        lemma_scatter_len(overwrite(s, rs[0].0, d.take(take)), rs.skip(1), d.skip(take));
    }
}

/// Writes `data` across `ranges` in order, filling each range before moving
/// to the next, and reports how many bytes were placed: all of `data` when
/// the ranges have room for it, otherwise the ranges' whole capacity.
pub fn write_extents(sink: &mut Vec<u8>, ranges: &Vec<ByteRange>, data: &[u8]) -> (written: usize)
    requires
        ranges_in_bounds(rv(ranges@), old(sink)@.len() as int),
    ensures
        final(sink)@ == scatter(old(sink)@, rv(ranges@), data@),
        final(sink)@.len() == old(sink)@.len(),
        written == imin(data@.len() as int, total_len(rv(ranges@))),
{
    let n = ranges.len();
    let dlen = data.len();
    let mut consumed: usize = 0;
    let mut i: usize = 0;
    proof {
        assert(rv(ranges@).skip(0) =~= rv(ranges@));
        assert(data@.skip(0) =~= data@);
        assert(rv(ranges@).take(0) =~= Seq::<(int, int)>::empty());
    }
    while i < n
        invariant
            i <= n == ranges@.len(),
            consumed <= dlen == data@.len(),
            ranges_in_bounds(rv(ranges@), sink@.len() as int),
            sink@.len() == old(sink)@.len(),
            scatter(old(sink)@, rv(ranges@), data@) == scatter(
                sink@,
                rv(ranges@).skip(i as int),
                data@.skip(consumed as int),
            ),
            consumed == imin(dlen as int, total_len(rv(ranges@).take(i as int))),
        decreases n - i,
    {
        let r = ranges[i];
        let avail = dlen - consumed;
        let take = if r.len <= avail {
            r.len
        } else {
            avail
        };
        let chunk = slice_subrange(data, consumed, consumed + take);
        let ghost pre = sink@;
        copy_into(sink, r.offset, chunk);
        proof {
            let rs = rv(ranges@);
            let d_rem = data@.skip(consumed as int);
            assert(rs[i as int] == (r.offset as int, r.len as int));
            assert(d_rem.take(imin(r.len as int, d_rem.len() as int)) =~= chunk@);
            assert(rs.skip(i as int).skip(1) =~= rs.skip(i as int + 1));
            assert(d_rem.skip(imin(r.len as int, d_rem.len() as int)) =~= data@.skip(
                consumed as int + take as int,
            ));
            assert(scatter(pre, rs.skip(i as int), d_rem) == scatter(
                sink@,
                rs.skip(i as int + 1),
                data@.skip(consumed as int + take as int),
            ));
            lemma_total_len_snoc(rs.take(i as int), rs[i as int]);
            assert(rs.take(i as int).push(rs[i as int]) =~= rs.take(i as int + 1));
        }
        consumed = consumed + take;
        i = i + 1;
    }
    proof {
        assert(rv(ranges@).skip(n as int) =~= Seq::<(int, int)>::empty());
        assert(rv(ranges@).take(n as int) =~= rv(ranges@));
        assert(data@.skip(consumed as int).len() == data@.len() - consumed);
    }
    consumed
}

/// A sequence of `n` zero bytes.
pub open spec fn zeros(n: int) -> Seq<u8> {
    Seq::new(n as nat, |i: int| 0u8)
}

/// Fills every range with zero bytes, as if a stream of zeros covering the
/// ranges' whole capacity had been written.
pub fn zero_extents(sink: &mut Vec<u8>, ranges: &Vec<ByteRange>)
    requires
        ranges_in_bounds(rv(ranges@), old(sink)@.len() as int),
    ensures
        final(sink)@ == scatter(old(sink)@, rv(ranges@), zeros(total_len(rv(ranges@)))),
        final(sink)@.len() == old(sink)@.len(),
{
    let n = ranges.len();
    let mut i: usize = 0;
    proof {
        assert(rv(ranges@).skip(0) =~= rv(ranges@));
    }
    while i < n
        invariant
            i <= n == ranges@.len(),
            ranges_in_bounds(rv(ranges@), sink@.len() as int),
            sink@.len() == old(sink)@.len(),
            scatter(old(sink)@, rv(ranges@), zeros(total_len(rv(ranges@)))) == scatter(
                sink@,
                rv(ranges@).skip(i as int),
                zeros(total_len(rv(ranges@).skip(i as int))),
            ),
        decreases n - i,
    {
        let r = ranges[i];
        let zbuf = make_zeros(r.len);
        let ghost pre = sink@;
        copy_into(sink, r.offset, zbuf.as_slice());
        proof {
            let rs = rv(ranges@);
            let rem = rs.skip(i as int);
            let cap = total_len(rem);
            assert(rem[0] == (r.offset as int, r.len as int));
            assert(cap == r.len + total_len(rem.skip(1)));
            lemma_total_len_nonneg(rem.skip(1));
            assert(imin(r.len as int, zeros(cap).len() as int) == r.len as int);
            assert(zeros(cap).take(r.len as int) =~= zbuf@);
            assert(zeros(cap).skip(r.len as int) =~= zeros(total_len(rem.skip(1))));
            assert(rem.skip(1) =~= rs.skip(i as int + 1));
            assert(scatter(pre, rem, zeros(cap)) == scatter(
                sink@,
                rs.skip(i as int + 1),
                zeros(total_len(rs.skip(i as int + 1))),
            ));
        }
        i = i + 1;
    }
    proof {
        assert(rv(ranges@).skip(n as int) =~= Seq::<(int, int)>::empty());
    }
}

/// Every capacity is non-negative.
pub proof fn lemma_total_len_nonneg(rs: Seq<(int, int)>)
    requires
        forall|k: int| 0 <= k < rs.len() ==> (#[trigger] rs[k]).1 >= 0,
    ensures
        total_len(rs) >= 0,
    decreases rs.len(),
{
    if rs.len() > 0 {
        lemma_total_len_nonneg(rs.skip(1));
    }
}

/// A vector of `n` zero bytes.
pub(crate) fn make_zeros(n: usize) -> (r: Vec<u8>)
    ensures
        r@ =~= zeros(n as int),
{
    let mut v: Vec<u8> = Vec::new();
    let mut i: usize = 0;
    while i < n
        invariant
            i <= n,
            v@ =~= zeros(i as int),
        decreases n - i,
    {
        v.push(0);
        proof {
            assert(v@ =~= zeros(i as int + 1));
        }
        i = i + 1;
    }
    v
}

/// Capacity splits across any cut of the range list.
pub proof fn lemma_total_len_split(rs: Seq<(int, int)>, i: int)
    requires
        0 <= i <= rs.len(),
    ensures
        total_len(rs) == total_len(rs.take(i)) + total_len(rs.skip(i)),
    decreases i,
{
    if i == 0 {
        assert(rs.take(0) =~= Seq::<(int, int)>::empty());
        assert(rs.skip(0) =~= rs);
    } else {
        lemma_total_len_split(rs, i - 1);
        lemma_total_len_snoc(rs.take(i - 1), rs[i - 1]);
        assert(rs.take(i - 1).push(rs[i - 1]) =~= rs.take(i));
        assert(rs.skip(i - 1)[0] == rs[i - 1]);
        assert(rs.skip(i - 1).skip(1) =~= rs.skip(i));
        assert(total_len(rs.skip(i - 1)) == rs[i - 1].1 + total_len(rs.skip(i)));
    }
}

} // verus!
